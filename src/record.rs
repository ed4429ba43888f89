use crate::text::{chars_of, compare_chars, int_text, int_to_text, text_less, text_order};
use std::cmp::Ordering;
use vstd::prelude::*;

verus! {

/// One inventory row. `id` is a display ordinal: the position of the row in
/// the sequence it was last handed out in, not a key.
#[derive(Clone, Debug, PartialEq, Eq)]
pub struct Record {
    pub id: i64,
    pub code: String,
    pub name: String,
    pub brand: String,
    pub car_type: String,
    pub price: i64,
    pub price_code: String,
    pub date: String,
    pub quantity: i64,
}

/// The columns of a record, in display order.
#[derive(Clone, Copy, Debug, PartialEq, Eq, Structural)]
pub enum Column {
    Id,
    Code,
    Name,
    Brand,
    CarType,
    Price,
    PriceCode,
    Date,
    Quantity,
}

/// The number of columns of a record.
pub const COLUMN_COUNT: usize = 9;

/// The position of a column in display order.
pub open spec fn column_index(c: Column) -> int {
    match c {
        Column::Id => 0,
        Column::Code => 1,
        Column::Name => 2,
        Column::Brand => 3,
        Column::CarType => 4,
        Column::Price => 5,
        Column::PriceCode => 6,
        Column::Date => 7,
        Column::Quantity => 8,
    }
}

/// The column at a position in display order.
pub open spec fn column_at(i: int) -> Column {
    if i <= 0 {
        Column::Id
    } else if i == 1 {
        Column::Code
    } else if i == 2 {
        Column::Name
    } else if i == 3 {
        Column::Brand
    } else if i == 4 {
        Column::CarType
    } else if i == 5 {
        Column::Price
    } else if i == 6 {
        Column::PriceCode
    } else if i == 7 {
        Column::Date
    } else {
        Column::Quantity
    }
}

pub proof fn lemma_column_at_index(c: Column)
    ensures
        column_at(column_index(c)) == c,
        0 <= column_index(c) < COLUMN_COUNT,
{
}

/// Whether a column holds an integer.
pub open spec fn is_numeric(c: Column) -> bool {
    c == Column::Id || c == Column::Price || c == Column::Quantity
}

/// The value of an integer column.
pub open spec fn numeric_value(r: Record, c: Column) -> int {
    match c {
        Column::Id => r.id as int,
        Column::Price => r.price as int,
        _ => r.quantity as int,
    }
}

/// The text form of a field: text fields as they are, integers in decimal.
pub open spec fn column_text(r: Record, c: Column) -> Seq<char> {
    match c {
        Column::Code => r.code@,
        Column::Name => r.name@,
        Column::Brand => r.brand@,
        Column::CarType => r.car_type@,
        Column::PriceCode => r.price_code@,
        Column::Date => r.date@,
        _ => int_text(numeric_value(r, c)),
    }
}

/// The natural order of a column: numeric for integers, lexicographic for text.
pub open spec fn key_less(a: Record, b: Record, c: Column) -> bool {
    if is_numeric(c) {
        numeric_value(a, c) < numeric_value(b, c)
    } else {
        text_less(column_text(a, c), column_text(b, c))
    }
}

/// Two records hold the same value in a column.
pub open spec fn key_same(a: Record, b: Record, c: Column) -> bool {
    if is_numeric(c) {
        numeric_value(a, c) == numeric_value(b, c)
    } else {
        column_text(a, c) == column_text(b, c)
    }
}

/// The ordering of two records under a column's natural order.
pub open spec fn key_order(a: Record, b: Record, c: Column) -> Ordering {
    if key_less(a, b, c) {
        Ordering::Less
    } else if key_same(a, b, c) {
        Ordering::Equal
    } else {
        Ordering::Greater
    }
}

/// The same record with another display ordinal.
pub open spec fn with_id(r: Record, id: int) -> Record {
    Record {
        id: id as i64,
        code: r.code,
        name: r.name,
        brand: r.brand,
        car_type: r.car_type,
        price: r.price,
        price_code: r.price_code,
        date: r.date,
        quantity: r.quantity,
    }
}

impl Record {
    /// A copy of this record.
    pub fn duplicate(&self) -> (r: Record)
        ensures
            r == *self,
    {
        Record {
            id: self.id,
            code: self.code.clone(),
            name: self.name.clone(),
            brand: self.brand.clone(),
            car_type: self.car_type.clone(),
            price: self.price,
            price_code: self.price_code.clone(),
            date: self.date.clone(),
            quantity: self.quantity,
        }
    }

    /// A copy of this record that carries `id` as its display ordinal.
    pub fn renumbered(&self, id: i64) -> (r: Record)
        ensures
            r == with_id(*self, id as int),
    {
        Record {
            id,
            code: self.code.clone(),
            name: self.name.clone(),
            brand: self.brand.clone(),
            car_type: self.car_type.clone(),
            price: self.price,
            price_code: self.price_code.clone(),
            date: self.date.clone(),
            quantity: self.quantity,
        }
    }

    /// A record with every text empty and every integer zero.
    pub fn blank() -> (r: Record)
        ensures
            r.id == 0 && r.price == 0 && r.quantity == 0,
            r.code@.len() == 0 && r.name@.len() == 0 && r.brand@.len() == 0,
            r.car_type@.len() == 0 && r.price_code@.len() == 0 && r.date@.len() == 0,
    {
        Record {
            id: 0,
            code: String::new(),
            name: String::new(),
            brand: String::new(),
            car_type: String::new(),
            price: 0,
            price_code: String::new(),
            date: String::new(),
            quantity: 0,
        }
    }
}

/// The column at a position in display order; positions past the last give
/// the last column.
pub fn column_at_index(i: usize) -> (c: Column)
    ensures
        c == column_at(i as int),
{
    if i == 0 {
        Column::Id
    } else if i == 1 {
        Column::Code
    } else if i == 2 {
        Column::Name
    } else if i == 3 {
        Column::Brand
    } else if i == 4 {
        Column::CarType
    } else if i == 5 {
        Column::Price
    } else if i == 6 {
        Column::PriceCode
    } else if i == 7 {
        Column::Date
    } else {
        Column::Quantity
    }
}

/// The text form of a field of `r`.
pub fn field_text(r: &Record, c: Column) -> (t: String)
    ensures
        t@ == column_text(*r, c),
{
    match c {
        Column::Id => int_to_text(r.id),
        Column::Code => r.code.clone(),
        Column::Name => r.name.clone(),
        Column::Brand => r.brand.clone(),
        Column::CarType => r.car_type.clone(),
        Column::Price => int_to_text(r.price),
        Column::PriceCode => r.price_code.clone(),
        Column::Date => r.date.clone(),
        Column::Quantity => int_to_text(r.quantity),
    }
}

fn compare_ints(a: i64, b: i64) -> (r: Ordering)
    ensures
        r == (if a < b {
            Ordering::Less
        } else if a == b {
            Ordering::Equal
        } else {
            Ordering::Greater
        }),
{
    if a < b {
        Ordering::Less
    } else if a == b {
        Ordering::Equal
    } else {
        Ordering::Greater
    }
}

/// Compares two records under a column's natural order.
pub fn compare_by(a: &Record, b: &Record, c: Column) -> (r: Ordering)
    ensures
        r == key_order(*a, *b, c),
{
    match c {
        Column::Id => compare_ints(a.id, b.id),
        Column::Price => compare_ints(a.price, b.price),
        Column::Quantity => compare_ints(a.quantity, b.quantity),
        _ => {
            let ta = chars_of(field_text(a, c).as_str());
            let tb = chars_of(field_text(b, c).as_str());
            let r = compare_chars(&ta, &tb);
            proof {
                assert(text_order(ta@, tb@) == key_order(*a, *b, c));
            }
            r
        },
    }
}

} // verus!
