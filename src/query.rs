use crate::record::{
    column_at, column_at_index, column_index, compare_by, field_text, key_less,
    key_order, key_same, lemma_column_at_index, with_id, Column, Record, COLUMN_COUNT,
};
use crate::text::{chars_of, contains_chars, to_upper, upper_of};
use crate::view::{field_passes, filter_text, passes, Direction, Filter, ViewState};
use itertools::Itertools;
use std::cmp::Ordering;
use vstd::prelude::*;

verus! {

/// The records of `store` that meet the filter, in store order.
pub open spec fn filtered(store: Seq<Record>, f: Filter) -> Seq<Record> {
    store.filter(|x: Record| passes(x, f))
}

/// Position `a` of `s` comes before position `b` in a stable sort by `c`.
pub open spec fn precedes(s: Seq<Record>, c: Column, a: int, b: int) -> bool {
    key_less(s[a], s[b], c) || (key_same(s[a], s[b], c) && a < b)
}

/// `p` lists every position of `s` once, in the order of a stable sort by `c`.
pub open spec fn is_sort_order(s: Seq<Record>, c: Column, p: Seq<usize>) -> bool {
    &&& forall|k: int| 0 <= k < p.len() ==> #[trigger] p[k] < s.len()
    &&& forall|x: usize| x < s.len() ==> #[trigger] p.contains(x)
    &&& forall|i: int, j: int|
        0 <= i < j < p.len() ==> #[trigger] precedes(s, c, p[i] as int, p[j] as int)
}

/// The positions in the order they are shown: as sorted, or reversed.
pub open spec fn directed(p: Seq<usize>, d: Direction) -> Seq<usize> {
    if d == Direction::Ascending {
        p
    } else {
        p.reverse()
    }
}

/// The records of `s` at the positions `q`, each numbered by where it stands.
pub open spec fn arranged(s: Seq<Record>, q: Seq<usize>) -> Seq<Record> {
    Seq::new(q.len(), |k: int| with_id(s[q[k] as int], k))
}

/// `r` is what view `v` shows of `store`: the records that meet the filters,
/// stably sorted by the view's column, reversed unless ascending, and
/// numbered from zero.
pub open spec fn is_view_of(store: Seq<Record>, v: ViewState, r: Seq<Record>) -> bool {
    exists|p: Seq<usize>|
        #[trigger] is_sort_order(filtered(store, v.filters), v.sort, p) && r == arranged(
            filtered(store, v.filters),
            directed(p, v.direction),
        )
}

/// What `needle` holds for a column with filter text `t`: nothing when `t` is
/// empty, else the upper-case form of `t`.
spec fn needle_for(needle: Option<Vec<char>>, t: Seq<char>) -> bool {
    match needle {
        None => t.len() == 0,
        Some(n) => t.len() > 0 && n@ == upper_of(t),
    }
}

/// The filter text of a column.
fn filter_field(f: &Filter, c: Column) -> (t: String)
    ensures
        t@ == filter_text(*f, c),
{
    match c {
        Column::Id => String::new(),
        Column::Code => f.code.clone(),
        Column::Name => f.name.clone(),
        Column::Brand => f.brand.clone(),
        Column::CarType => f.car_type.clone(),
        Column::Price => f.price.clone(),
        Column::PriceCode => f.price_code.clone(),
        Column::Date => f.date.clone(),
        Column::Quantity => f.quantity.clone(),
    }
}

/// The upper-case filter text of each column, by display position.
fn needles_of(f: &Filter) -> (n: Vec<Option<Vec<char>>>)
    ensures
        n.len() == COLUMN_COUNT,
        forall|i: int| 0 <= i < COLUMN_COUNT ==> needle_for(#[trigger] n[i], filter_text(*f, column_at(i))),
{
    let mut n: Vec<Option<Vec<char>>> = Vec::new();
    for i in 0..COLUMN_COUNT
        invariant
            n.len() == i,
            forall|k: int| 0 <= k < i ==> needle_for(#[trigger] n[k], filter_text(*f, column_at(k))),
    {
        let t = filter_field(f, column_at_index(i));
        if t.as_str().is_empty() {
            n.push(None);
        } else {
            n.push(Some(chars_of(to_upper(t.as_str()).as_str())));
        }
    }
    n
}

/// Whether `r` meets every filter, given the filters' upper-case texts.
fn meets(r: &Record, needles: &Vec<Option<Vec<char>>>, Ghost(f): Ghost<Filter>) -> (b: bool)
    requires
        needles.len() == COLUMN_COUNT,
        forall|i: int| 0 <= i < COLUMN_COUNT ==> needle_for(#[trigger] needles[i], filter_text(f, column_at(i))),
    ensures
        b == passes(*r, f),
{
    for i in 0..COLUMN_COUNT
        invariant
            needles.len() == COLUMN_COUNT,
            forall|i: int| 0 <= i < COLUMN_COUNT ==> needle_for(#[trigger] needles[i], filter_text(f, column_at(i))),
            forall|k: int| 0 <= k < i ==> field_passes(*r, f, #[trigger] column_at(k)),
    {
        let c = column_at_index(i);
        match &needles[i] {
            None => {},
            Some(needle) => {
                let hay = chars_of(to_upper(field_text(r, c).as_str()).as_str());
                if !contains_chars(&hay, needle) {
                    proof {
                        assert(!field_passes(*r, f, c));
                    }
                    return false;
                }
            },
        }
        proof {
            assert(field_passes(*r, f, column_at(i as int)));
        }
    }
    proof {
        assert forall|c: Column| #[trigger] field_passes(*r, f, c) by {
            lemma_column_at_index(c);
            assert(field_passes(*r, f, column_at(column_index(c))));
        }
    }
    true
}

/// The records of `store` that meet every filter of `f`, in store order.
pub fn filter_records(store: &Vec<Record>, f: &Filter) -> (r: Vec<Record>)
    ensures
        r@ == filtered(store@, *f),
{
    let needles = needles_of(f);
    let mut r: Vec<Record> = Vec::new();
    let mut i: usize = 0;
    while i < store.len()
        invariant
            i <= store.len(),
            needles.len() == COLUMN_COUNT,
            forall|k: int| 0 <= k < COLUMN_COUNT ==> needle_for(#[trigger] needles[k], filter_text(*f, column_at(k))),
            r@ == filtered(store@.subrange(0, i as int), *f),
        decreases store.len() - i,
    {
        proof {
            let pre = store@.subrange(0, i as int);
            assert(store@.subrange(0, i + 1) =~= pre.push(store@[i as int]));
            assert(pre.push(store@[i as int]).drop_last() =~= pre);
            reveal(Seq::filter);
        }
        if meets(&store[i], &needles, Ghost(*f)) {
            r.push(store[i].duplicate());
        }
        i = i + 1;
    }
    proof {
        assert(store@.subrange(0, i as int) =~= store@);
    }
    r
}

/// Compares the records at two positions of `items` by column `c`.
pub(crate) fn compare_positions(items: &Vec<Record>, a: usize, b: usize, c: Column) -> (r: Ordering)
    ensures
        a < items.len() && b < items.len() ==> r == key_order(items[a as int], items[b as int], c),
{
    if a < items.len() && b < items.len() {
        compare_by(&items[a], &items[b], c)
    } else {
        Ordering::Equal
    }
}

/// Relies on itertools' `sorted_by`, a stable sort (`slice::sort_by`) under
/// the given comparison: equal items keep the order they came in.
#[verifier::external_body]
fn sort_positions(items: &Vec<Record>, positions: Vec<usize>, c: Column) -> (r: Vec<usize>)
    requires
        forall|k: int| 0 <= k < positions.len() ==> #[trigger] positions[k] < items.len(),
        forall|i: int, j: int| 0 <= i < j < positions.len() ==> positions[i] < positions[j],
    ensures
        r@.to_multiset() == positions@.to_multiset(),
        forall|i: int, j: int|
            0 <= i < j < r.len() ==> #[trigger] precedes(items@, c, r[i] as int, r[j] as int),
{
    positions.into_iter().sorted_by(|a, b| compare_positions(items, *a, *b, c)).collect()
}

/// The positions of `v` in reverse order.
fn reversed(v: &Vec<usize>) -> (r: Vec<usize>)
    ensures
        r@ == v@.reverse(),
{
    let mut r: Vec<usize> = Vec::new();
    let mut i: usize = v.len();
    while i > 0
        invariant
            i <= v.len(),
            r.len() == v.len() - i,
            forall|k: int| 0 <= k < r.len() ==> r[k] == v[v.len() - 1 - k],
        decreases i,
    {
        i = i - 1;
        r.push(v[i]);
    }
    proof {
        assert(r@ =~= v@.reverse());
    }
    r
}

/// What view `view` shows of `store`: the records that meet its filters,
/// stably sorted by its column, reversed unless the direction is ascending,
/// each carrying its position as `id`.
pub fn query(store: &Vec<Record>, view: &ViewState) -> (r: Vec<Record>)
    requires
        store.len() <= i64::MAX,
    ensures
        is_view_of(store@, *view, r@),
        forall|k: int| 0 <= k < r.len() ==> #[trigger] r[k].id == k,
{
    let items = filter_records(store, &view.filters);
    proof {
        store@.lemma_filter_len(|x: Record| passes(x, view.filters));
    }
    let mut positions: Vec<usize> = Vec::new();
    for i in 0..items.len()
        invariant
            positions.len() == i,
            forall|k: int| 0 <= k < i ==> #[trigger] positions[k] == k,
    {
        positions.push(i);
    }
    let ghost start = positions@;
    let sorted = sort_positions(&items, positions, view.sort);
    proof {
        broadcast use vstd::seq_lib::group_to_multiset_ensures;

        assert forall|k: int| 0 <= k < sorted.len() implies #[trigger] sorted[k] < items.len() by {
            assert(sorted@.contains(sorted[k]));
            assert(sorted@.to_multiset().count(sorted[k]) > 0);
            assert(start.contains(sorted[k]));
        }
        assert forall|x: usize| x < items.len() implies #[trigger] sorted@.contains(x) by {
            assert(start[x as int] == x);
            assert(start.contains(x));
            assert(start.to_multiset().count(x) > 0);
        }
        assert(is_sort_order(items@, view.sort, sorted@));
        assert(sorted@.to_multiset().len() == start.to_multiset().len());
    }
    let ghost sorted_seq = sorted@;
    let order = match view.direction {
        Direction::Ascending => sorted,
        Direction::Descending => reversed(&sorted),
    };
    assert(order@ == directed(sorted_seq, view.direction));
    let mut r: Vec<Record> = Vec::new();
    let mut k: usize = 0;
    while k < order.len()
        invariant
            k <= order.len(),
            order@ == directed(sorted_seq, view.direction),
            is_sort_order(items@, view.sort, sorted_seq),
            items.len() <= store.len() <= i64::MAX,
            order.len() == items.len(),
            forall|j: int| 0 <= j < order.len() ==> #[trigger] order[j] < items.len(),
            r@ == arranged(items@, order@).subrange(0, k as int),
        decreases order.len() - k,
    {
        let item = items[order[k]].renumbered(k as i64);
        r.push(item);
        proof {
            assert(r@ =~= arranged(items@, order@).subrange(0, k + 1));
        }
        k = k + 1;
    }
    proof {
        assert(r@ =~= arranged(items@, order@));
        assert(is_view_of(store@, *view, r@));
        assert forall|k: int| 0 <= k < r.len() implies #[trigger] r[k].id == k by {
            assert(r[k] == with_id(items@[order[k] as int], k));
        }
    }
    r
}

} // verus!
