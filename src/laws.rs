use crate::query::{arranged, directed, filtered, is_sort_order, is_view_of, precedes};
use crate::session::after_restore;
use crate::record::{column_text, is_numeric, key_less, key_same, with_id, Column, Record};
use crate::text::{lemma_text_less_asymmetric, lemma_text_less_irreflexive};
use crate::view::{field_passes, filter_text, passes, Direction, Filter, ViewState};
use vstd::prelude::*;

verus! {

proof fn lemma_key_less_strict(a: Record, b: Record, c: Column)
    ensures
        !key_less(a, a, c),
        !(key_less(a, b, c) && key_less(b, a, c)),
        key_same(a, b, c) ==> !key_less(a, b, c) && !key_less(b, a, c),
{
    if !is_numeric(c) {
        lemma_text_less_irreflexive(column_text(a, c));
        lemma_text_less_irreflexive(column_text(b, c));
        lemma_text_less_asymmetric(column_text(a, c), column_text(b, c));
    }
}

proof fn lemma_precedes_strict(s: Seq<Record>, c: Column, a: int, b: int)
    ensures
        !precedes(s, c, a, a),
        !(precedes(s, c, a, b) && precedes(s, c, b, a)),
{
    lemma_key_less_strict(s[a], s[b], c);
    lemma_key_less_strict(s[b], s[a], c);
}

/// Two lists of positions that hold the same positions, each strictly ordered
/// by `precedes`, are the same list.
proof fn lemma_ordered_positions_equal(s: Seq<Record>, c: Column, p1: Seq<usize>, p2: Seq<usize>)
    requires
        forall|x: usize| p1.contains(x) <==> p2.contains(x),
        forall|i: int, j: int|
            0 <= i < j < p1.len() ==> #[trigger] precedes(s, c, p1[i] as int, p1[j] as int),
        forall|i: int, j: int|
            0 <= i < j < p2.len() ==> #[trigger] precedes(s, c, p2[i] as int, p2[j] as int),
    ensures
        p1 == p2,
    decreases p1.len(),
{
    if p1.len() == 0 {
        if p2.len() > 0 {
            assert(p2.contains(p2[0]));
        }
        assert(p1 =~= p2);
    } else if p2.len() == 0 {
        assert(p1.contains(p1[0]));
    } else {
        let x = p1[0];
        let y = p2[0];
        assert(p1.contains(x));
        assert(p2.contains(y));
        let k = choose|k: int| 0 <= k < p2.len() && p2[k] == x;
        let m = choose|m: int| 0 <= m < p1.len() && p1[m] == y;
        lemma_precedes_strict(s, c, x as int, y as int);
        if k > 0 {
            assert(precedes(s, c, p2[0] as int, p2[k] as int));
            if m > 0 {
                assert(precedes(s, c, p1[0] as int, p1[m] as int));
            }
        }
        assert(x == y);
        let t1 = p1.drop_first();
        let t2 = p2.drop_first();
        assert forall|z: usize| t1.contains(z) <==> t2.contains(z) by {
            if t1.contains(z) {
                let i = choose|i: int| 0 <= i < t1.len() && t1[i] == z;
                assert(p1[i + 1] == z);
                assert(precedes(s, c, p1[0] as int, p1[i + 1] as int));
                assert(p1.contains(z));
                let j = choose|j: int| 0 <= j < p2.len() && p2[j] == z;
                assert(j != 0);
                assert(t2[j - 1] == z);
            }
            if t2.contains(z) {
                let i = choose|i: int| 0 <= i < t2.len() && t2[i] == z;
                assert(p2[i + 1] == z);
                assert(precedes(s, c, p2[0] as int, p2[i + 1] as int));
                assert(p2.contains(z));
                let j = choose|j: int| 0 <= j < p1.len() && p1[j] == z;
                assert(j != 0);
                assert(t1[j - 1] == z);
            }
        }
        assert forall|i: int, j: int| 0 <= i < j < t1.len() implies #[trigger] precedes(
            s,
            c,
            t1[i] as int,
            t1[j] as int,
        ) by {
            assert(precedes(s, c, p1[i + 1] as int, p1[j + 1] as int));
        }
        assert forall|i: int, j: int| 0 <= i < j < t2.len() implies #[trigger] precedes(
            s,
            c,
            t2[i] as int,
            t2[j] as int,
        ) by {
            assert(precedes(s, c, p2[i + 1] as int, p2[j + 1] as int));
        }
        lemma_ordered_positions_equal(s, c, t1, t2);
        assert(p1 =~= seq![x] + t1);
        assert(p2 =~= seq![y] + t2);
    }
}

/// A sequence has one stable sort order by a column.
pub proof fn lemma_sort_order_unique(s: Seq<Record>, c: Column, p1: Seq<usize>, p2: Seq<usize>)
    requires
        is_sort_order(s, c, p1),
        is_sort_order(s, c, p2),
    ensures
        p1 == p2,
{
    assert forall|x: usize| p1.contains(x) <==> p2.contains(x) by {
        if p1.contains(x) {
            let i = choose|i: int| 0 <= i < p1.len() && p1[i] == x;
            assert(p1[i] < s.len());
        }
        if p2.contains(x) {
            let i = choose|i: int| 0 <= i < p2.len() && p2[i] == x;
            assert(p2[i] < s.len());
        }
    }
    lemma_ordered_positions_equal(s, c, p1, p2);
}

/// A view is a function of the store and the view state: asking twice gives
/// the same records in the same order with the same ordinals.
pub proof fn lemma_view_deterministic(
    store: Seq<Record>,
    v: ViewState,
    r1: Seq<Record>,
    r2: Seq<Record>,
)
    requires
        is_view_of(store, v, r1),
        is_view_of(store, v, r2),
    ensures
        r1 == r2,
{
    let f = filtered(store, v.filters);
    let p1 = choose|p: Seq<usize>|
        #[trigger] is_sort_order(f, v.sort, p) && r1 == arranged(f, directed(p, v.direction));
    let p2 = choose|p: Seq<usize>|
        #[trigger] is_sort_order(f, v.sort, p) && r2 == arranged(f, directed(p, v.direction));
    lemma_sort_order_unique(f, v.sort, p1, p2);
}

/// Every position of a view carries that position as its ordinal.
pub proof fn lemma_view_numbered(store: Seq<Record>, v: ViewState, r: Seq<Record>)
    requires
        is_view_of(store, v, r),
        store.len() <= i64::MAX,
        store.len() <= usize::MAX,
    ensures
        forall|k: int| 0 <= k < r.len() ==> #[trigger] r[k].id == k,
{
    let f = filtered(store, v.filters);
    let p = choose|p: Seq<usize>|
        #[trigger] is_sort_order(f, v.sort, p) && r == arranged(f, directed(p, v.direction));
    store.lemma_filter_len(|x: Record| passes(x, v.filters));
    assert(p.len() == f.len()) by {
        lemma_positions_cover(f, v.sort, p);
    }
}

/// A sort order of `s` has one entry per position of `s`.
proof fn lemma_positions_cover(s: Seq<Record>, c: Column, p: Seq<usize>)
    requires
        is_sort_order(s, c, p),
        s.len() <= usize::MAX,
    ensures
        p.len() == s.len(),
{
    let id = Seq::new(s.len(), |k: int| k as usize);
    assert(p.to_set() =~= id.to_set()) by {
        assert forall|x: usize| p.to_set().contains(x) <==> id.to_set().contains(x) by {
            if p.contains(x) {
                let i = choose|i: int| 0 <= i < p.len() && p[i] == x;
                assert(id[x as int] == x);
            }
            if id.contains(x) {
                let i = choose|i: int| 0 <= i < id.len() && id[i] == x;
            }
        }
    }
    assert(p.no_duplicates()) by {
        assert forall|i: int, j: int| 0 <= i < p.len() && 0 <= j < p.len() && i != j implies p[i]
            != p[j] by {
            lemma_precedes_strict(s, c, p[i] as int, p[j] as int);
            if i < j {
                assert(precedes(s, c, p[i] as int, p[j] as int));
            } else {
                assert(precedes(s, c, p[j] as int, p[i] as int));
            }
        }
    }
    assert(id.no_duplicates()) by {
        assert forall|i: int, j: int| 0 <= i < id.len() && 0 <= j < id.len() && i != j implies id[i]
            != id[j] by {
            assert(id[i] == i as usize && id[j] == j as usize);
        }
    }
    p.unique_seq_to_set();
    id.unique_seq_to_set();
}

/// An ascending view never shows a greater value of its column before a
/// smaller one, and a descending view never a smaller before a greater.
pub proof fn lemma_view_sorted(store: Seq<Record>, v: ViewState, r: Seq<Record>)
    requires
        is_view_of(store, v, r),
        v.sort != Column::Id,
    ensures
        forall|i: int, j: int|
            0 <= i < j < r.len() ==> if v.direction == Direction::Ascending {
                !key_less(#[trigger] r[j], #[trigger] r[i], v.sort)
            } else {
                !key_less(r[i], r[j], v.sort)
            },
{
    let f = filtered(store, v.filters);
    let c = v.sort;
    let p = choose|p: Seq<usize>|
        #[trigger] is_sort_order(f, c, p) && r == arranged(f, directed(p, v.direction));
    let n = p.len();
    assert forall|i: int, j: int| 0 <= i < j < r.len() implies if v.direction
        == Direction::Ascending {
        !key_less(#[trigger] r[j], #[trigger] r[i], c)
    } else {
        !key_less(r[i], r[j], c)
    } by {
        if v.direction == Direction::Ascending {
            assert(precedes(f, c, p[i] as int, p[j] as int));
            lemma_key_less_strict(f[p[i] as int], f[p[j] as int], c);
        } else {
            assert(precedes(f, c, p[n - 1 - j] as int, p[n - 1 - i] as int));
            lemma_key_less_strict(f[p[n - 1 - j] as int], f[p[n - 1 - i] as int], c);
        }
    }
}

/// The descending view holds the records of the ascending one, for the same
/// column and filters, in exactly the reverse order.
pub proof fn lemma_direction_reverses(
    store: Seq<Record>,
    up: ViewState,
    down: ViewState,
    r_up: Seq<Record>,
    r_down: Seq<Record>,
)
    requires
        up.sort == down.sort,
        up.filters == down.filters,
        up.direction == Direction::Ascending,
        down.direction == Direction::Descending,
        is_view_of(store, up, r_up),
        is_view_of(store, down, r_down),
    ensures
        r_down.len() == r_up.len(),
        forall|k: int|
            0 <= k < r_down.len() ==> #[trigger] r_down[k] == with_id(
                r_up[r_up.len() - 1 - k],
                k,
            ),
{
    let f = filtered(store, up.filters);
    let c = up.sort;
    let p1 = choose|p: Seq<usize>|
        #[trigger] is_sort_order(f, c, p) && r_up == arranged(f, directed(p, up.direction));
    let p2 = choose|p: Seq<usize>|
        #[trigger] is_sort_order(f, c, p) && r_down == arranged(f, directed(p, down.direction));
    lemma_sort_order_unique(f, c, p1, p2);
}

proof fn lemma_filter_keeps_all(s: Seq<Record>, f: Filter)
    requires
        forall|i: int| 0 <= i < s.len() ==> passes(#[trigger] s[i], f),
    ensures
        filtered(s, f) == s,
    decreases s.len(),
{
    reveal(Seq::filter);
    if s.len() > 0 {
        lemma_filter_keeps_all(s.drop_last(), f);
        assert(passes(s[s.len() - 1], f));
        assert(s.drop_last().push(s.last()) =~= s);
    }
}

/// With no filter, sorted by the ordinal and ascending, a store whose
/// ordinals are its positions (as an import leaves it) is shown as it is.
pub proof fn lemma_default_view_keeps_order(store: Seq<Record>, v: ViewState, r: Seq<Record>)
    requires
        forall|k: int| 0 <= k < store.len() ==> #[trigger] store[k].id == k,
        forall|c: Column| #[trigger] filter_text(v.filters, c).len() == 0,
        v.sort == Column::Id,
        v.direction == Direction::Ascending,
        is_view_of(store, v, r),
        store.len() <= usize::MAX,
    ensures
        r == store,
{
    assert forall|i: int| 0 <= i < store.len() implies passes(#[trigger] store[i], v.filters) by {
        assert forall|c: Column| #[trigger] field_passes(store[i], v.filters, c) by {
            assert(filter_text(v.filters, c).len() == 0);
        }
    }
    lemma_filter_keeps_all(store, v.filters);
    let f = filtered(store, v.filters);
    let p = choose|p: Seq<usize>|
        #[trigger] is_sort_order(f, v.sort, p) && r == arranged(f, directed(p, v.direction));
    let id = Seq::new(store.len(), |k: int| k as usize);
    assert forall|x: usize| x < f.len() implies #[trigger] id.contains(x) by {
        assert(id[x as int] == x);
    }
    assert forall|i: int, j: int| 0 <= i < j < id.len() implies #[trigger] precedes(
        f,
        Column::Id,
        id[i] as int,
        id[j] as int,
    ) by {
        assert(store[i].id == i && store[j].id == j);
    }
    assert(is_sort_order(f, v.sort, id));
    lemma_sort_order_unique(f, v.sort, p, id);
    assert forall|k: int| 0 <= k < r.len() implies #[trigger] r[k] == store[k] by {
        assert(store[k].id == k);
    }
    assert(r =~= store);
}

/// Every record a view shows meets its filters, and every record of the
/// store that meets them is shown.
pub proof fn lemma_view_filters(store: Seq<Record>, v: ViewState, r: Seq<Record>)
    requires
        is_view_of(store, v, r),
        store.len() <= usize::MAX,
    ensures
        forall|k: int| 0 <= k < r.len() ==> passes(#[trigger] r[k], v.filters),
        forall|i: int|
            0 <= i < store.len() && passes(#[trigger] store[i], v.filters) ==> exists|k: int|
                0 <= k < r.len() && r[k] == with_id(store[i], k),
{
    let fl = v.filters;
    let f = filtered(store, fl);
    let p = choose|p: Seq<usize>|
        #[trigger] is_sort_order(f, v.sort, p) && r == arranged(f, directed(p, v.direction));
    let q = directed(p, v.direction);
    let n = p.len();
    store.lemma_filter_len(|x: Record| passes(x, fl));
    assert forall|k: int| 0 <= k < r.len() implies passes(#[trigger] r[k], fl) by {
        let x = f[q[k] as int];
        store.lemma_filter_pred(|x: Record| passes(x, fl), q[k] as int);
        assert(passes(x, fl));
        assert forall|c: Column| #[trigger] field_passes(r[k], fl, c) by {
            assert(field_passes(x, fl, c));
        }
    }
    assert forall|i: int|
        0 <= i < store.len() && passes(#[trigger] store[i], fl) implies exists|k: int|
        0 <= k < r.len() && r[k] == with_id(store[i], k) by {
        store.lemma_filter_contains(|x: Record| passes(x, fl), i);
        let m = choose|m: int| 0 <= m < f.len() && f[m] == store[i];
        assert(p.contains(m as usize));
        let t = choose|t: int| 0 <= t < p.len() && p[t] == m as usize;
        if v.direction == Direction::Ascending {
            assert(r[t] == with_id(store[i], t));
        } else {
            assert(q[n - 1 - t] == m as usize);
            assert(r[n - 1 - t] == with_id(store[i], n - 1 - t));
        }
    }
}

/// Restoring the records that were persisted from a non-empty store brings
/// back the same records, whatever the store held in between.
pub proof fn lemma_persist_restore_round_trip(saved: Seq<Record>, current: Seq<Record>)
    requires
        saved.len() > 0,
    ensures
        after_restore(current, saved).to_multiset() == saved.to_multiset(),
{
}

} // verus!
