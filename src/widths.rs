use crate::record::{
    column_index, column_text, is_numeric, key_same, numeric_value, Column, Record,
    COLUMN_COUNT,
};
use vstd::prelude::*;

verus! {

/// `k` is the first position of a largest value of `w`.
pub open spec fn is_first_widest(w: Seq<i64>, k: int) -> bool {
    &&& 0 <= k < w.len()
    &&& forall|j: int| 0 <= j < w.len() ==> #[trigger] w[j] <= w[k]
    &&& forall|j: int| 0 <= j < k ==> #[trigger] w[j] < w[k]
}

/// `h` holds in column `c` the value of the record whose text in that column
/// measures widest, the first such record on a tie; with no records, zero or
/// the empty text.
pub open spec fn hint_field(records: Seq<Record>, w: Seq<i64>, h: Record, c: Column) -> bool {
    if records.len() == 0 {
        if is_numeric(c) {
            numeric_value(h, c) == 0
        } else {
            column_text(h, c).len() == 0
        }
    } else {
        exists|k: int| is_first_widest(w, k) && #[trigger] key_same(h, records[k], c)
    }
}

/// `h` is the width hint of `records`, given in `widths[i][k]` the measured
/// width of column `i` of record `k`.
pub open spec fn is_width_hint(records: Seq<Record>, widths: Seq<Vec<i64>>, h: Record) -> bool {
    forall|c: Column| #[trigger] hint_field(records, widths[column_index(c)]@, h, c)
}

/// The first position of a largest value of `w`, or `None` when `w` is empty.
pub fn widest_position(w: &Vec<i64>) -> (r: Option<usize>)
    ensures
        match r {
            Some(k) => is_first_widest(w@, k as int),
            None => w.len() == 0,
        },
{
    if w.len() == 0 {
        return None;
    }
    let mut best: usize = 0;
    let mut i: usize = 1;
    while i < w.len()
        invariant
            1 <= i <= w.len(),
            best < i,
            forall|j: int| 0 <= j < i ==> #[trigger] w[j] <= w[best as int],
            forall|j: int| 0 <= j < best ==> #[trigger] w[j] < w[best as int],
        decreases w.len() - i,
    {
        if w[i] > w[best] {
            best = i;
        }
        i = i + 1;
    }
    Some(best)
}

fn pick_int(records: &Vec<Record>, w: &Vec<i64>, c: Column) -> (v: i64)
    requires
        w.len() == records.len(),
        is_numeric(c),
    ensures
        records.len() == 0 ==> v == 0,
        records.len() > 0 ==> exists|k: int|
            is_first_widest(w@, k) && v == numeric_value(#[trigger] records[k], c),
{
    match widest_position(w) {
        None => 0,
        Some(k) => match c {
            Column::Id => records[k].id,
            Column::Price => records[k].price,
            _ => records[k].quantity,
        },
    }
}

fn pick_text(records: &Vec<Record>, w: &Vec<i64>, c: Column) -> (v: String)
    requires
        w.len() == records.len(),
        !is_numeric(c),
    ensures
        records.len() == 0 ==> v@.len() == 0,
        records.len() > 0 ==> exists|k: int|
            is_first_widest(w@, k) && v@ == column_text(#[trigger] records[k], c),
{
    match widest_position(w) {
        None => String::new(),
        Some(k) => match c {
            Column::Code => records[k].code.clone(),
            Column::Name => records[k].name.clone(),
            Column::Brand => records[k].brand.clone(),
            Column::CarType => records[k].car_type.clone(),
            Column::PriceCode => records[k].price_code.clone(),
            _ => records[k].date.clone(),
        },
    }
}

/// For each column, the value whose text measures widest, given in
/// `widths[i][k]` the measured width of column `i` of record `k`.
pub fn width_hints(records: &Vec<Record>, widths: &Vec<Vec<i64>>) -> (h: Record)
    requires
        widths.len() == COLUMN_COUNT,
        forall|i: int| 0 <= i < COLUMN_COUNT ==> #[trigger] widths[i].len() == records.len(),
    ensures
        is_width_hint(records@, widths@, h),
{
    let h = Record {
        id: pick_int(records, &widths[0], Column::Id),
        code: pick_text(records, &widths[1], Column::Code),
        name: pick_text(records, &widths[2], Column::Name),
        brand: pick_text(records, &widths[3], Column::Brand),
        car_type: pick_text(records, &widths[4], Column::CarType),
        price: pick_int(records, &widths[5], Column::Price),
        price_code: pick_text(records, &widths[6], Column::PriceCode),
        date: pick_text(records, &widths[7], Column::Date),
        quantity: pick_int(records, &widths[8], Column::Quantity),
    };
    proof {
        assert forall|c: Column| #[trigger] hint_field(records@, widths@[column_index(c)]@, h, c) by {
            if records.len() > 0 {
                let w = widths@[column_index(c)]@;
                let k = choose|k: int|
                    is_first_widest(w, k) && (if is_numeric(c) {
                        numeric_value(h, c) == numeric_value(records@[k], c)
                    } else {
                        column_text(h, c) == column_text(records@[k], c)
                    });
                assert(key_same(h, records@[k], c));
            }
        }
    }
    h
}

} // verus!
