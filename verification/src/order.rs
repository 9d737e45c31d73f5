//! The order in which the entries of a directory are shown: directories first, then by name.

use crate::text::chars_of;
use vstd::prelude::*;

verus! {

/// Holds if `a` comes before `b` in the order of their first different character, or if `a` is
/// the start of `b`. This is the order of `str`.
pub open spec fn text_before(a: Seq<char>, b: Seq<char>) -> bool
    decreases a.len(),
{
    if b.len() == 0 {
        false
    } else if a.len() == 0 {
        true
    } else if a[0] != b[0] {
        a[0] < b[0]
    } else {
        text_before(a.skip(1), b.skip(1))
    }
}

/// Whether `a` comes before `b`.
pub fn is_before(a: &str, b: &str) -> (r: bool)
    ensures
        r == text_before(a@, b@),
{
    let x = chars_of(a);
    let y = chars_of(b);
    let mut i: usize = 0;
    assert(x@.skip(0) =~= x@ && y@.skip(0) =~= y@);
    while i < x.len() && i < y.len()
        invariant
            i <= x@.len(),
            i <= y@.len(),
            x@ == a@,
            y@ == b@,
            text_before(x@.skip(i as int), y@.skip(i as int)) == text_before(a@, b@),
        decreases x@.len() - i,
    {
        if x[i] != y[i] {
            return x[i] < y[i];
        }
        assert(x@.skip(i as int).skip(1) =~= x@.skip(i + 1));
        assert(y@.skip(i as int).skip(1) =~= y@.skip(i + 1));
        i += 1;
    }
    i < y.len()
}

proof fn before_irreflexive(a: Seq<char>)
    ensures
        !text_before(a, a),
    decreases a.len(),
{
    if a.len() > 0 {
        before_irreflexive(a.skip(1));
    }
}

proof fn before_transitive(a: Seq<char>, b: Seq<char>, c: Seq<char>)
    requires
        text_before(a, b),
        text_before(b, c),
    ensures
        text_before(a, c),
    decreases a.len(),
{
    if a.len() > 0 && a[0] == b[0] && b[0] == c[0] {
        before_transitive(a.skip(1), b.skip(1), c.skip(1));
    }
}

proof fn before_total(a: Seq<char>, b: Seq<char>)
    ensures
        text_before(a, b) || text_before(b, a) || a == b,
    decreases a.len(),
{
    if a.len() > 0 && b.len() > 0 {
        if a[0] == b[0] {
            before_total(a.skip(1), b.skip(1));
            if a.skip(1) == b.skip(1) {
                assert(a =~= seq![a[0]] + a.skip(1));
                assert(b =~= seq![b[0]] + b.skip(1));
            }
        }
    } else if a.len() == 0 && b.len() == 0 {
        assert(a =~= b);
    }
}

/// What an entry is ordered by: whether it is a directory, and its name.
pub struct Key {
    pub is_dir: bool,
    pub name: String,
}

/// Holds if an entry comes before another: directories come first, then names count.
pub open spec fn key_before(a: Key, b: Key) -> bool {
    ||| a.is_dir && !b.is_dir
    ||| a.is_dir == b.is_dir && text_before(a.name@, b.name@)
}

/// Holds if the entry at `i` is shown before the one at `j`: its key comes before, or the keys are
/// the same and it was found first.
pub open spec fn shown_before(keys: Seq<Key>, i: int, j: int) -> bool {
    ||| key_before(keys[i], keys[j])
    ||| !key_before(keys[j], keys[i]) && i < j
}

/// Holds of the order in which entries are shown: every entry once, each before those behind it.
pub open spec fn is_order(keys: Seq<Key>, order: Seq<usize>) -> bool {
    &&& order.len() == keys.len()
    &&& forall|i: int| 0 <= i < order.len() ==> (#[trigger] order[i]) < keys.len()
    &&& forall|i: int, j: int|
        0 <= i < j < order.len() ==> shown_before(
            keys,
            (#[trigger] order[i]) as int,
            (#[trigger] order[j]) as int,
        )
}

/// Nothing comes before itself, and what comes before another that comes before a third comes
/// before that: the order never runs in a circle. Of two different entries, one comes first.
pub proof fn shown_before_is_order(keys: Seq<Key>, i: int, j: int, k: int)
    ensures
        !shown_before(keys, i, i),
        shown_before(keys, i, j) && shown_before(keys, j, k) ==> shown_before(keys, i, k),
        i != j ==> (shown_before(keys, i, j) <==> !shown_before(keys, j, i)),
{
    let a = keys[i];
    let b = keys[j];
    let c = keys[k];
    before_irreflexive(a.name@);
    before_irreflexive(b.name@);
    before_total(a.name@, b.name@);
    before_total(b.name@, c.name@);
    before_total(a.name@, c.name@);
    if text_before(a.name@, b.name@) && text_before(b.name@, a.name@) {
        before_transitive(a.name@, b.name@, a.name@);
    }
    if text_before(a.name@, b.name@) && text_before(b.name@, c.name@) {
        before_transitive(a.name@, b.name@, c.name@);
    }
    if text_before(c.name@, a.name@) && text_before(a.name@, b.name@) {
        before_transitive(c.name@, a.name@, b.name@);
    }
    if text_before(b.name@, c.name@) && text_before(c.name@, a.name@) {
        before_transitive(b.name@, c.name@, a.name@);
    }
}

fn comes_first(keys: &Vec<Key>, i: usize, j: usize) -> (r: bool)
    requires
        i < j < keys@.len(),
    ensures
        r == shown_before(keys@, i as int, j as int),
{
    let a = &keys[i];
    let b = &keys[j];
    if a.is_dir != b.is_dir {
        a.is_dir
    } else {
        !is_before(b.name.as_str(), a.name.as_str()) || is_before(
            a.name.as_str(),
            b.name.as_str(),
        )
    }
}

/// Holds of the entries from `lo` to `hi`, in the order in which they are shown.
spec fn ordered_range(keys: Seq<Key>, order: Seq<usize>, lo: int, hi: int) -> bool {
    &&& order.len() == hi - lo
    &&& forall|i: int| 0 <= i < order.len() ==> lo <= (#[trigger] order[i]) < hi
    &&& forall|i: int, j: int|
        0 <= i < j < order.len() ==> shown_before(
            keys,
            (#[trigger] order[i]) as int,
            (#[trigger] order[j]) as int,
        )
}

fn merge(
    keys: &Vec<Key>,
    a: &Vec<usize>,
    b: &Vec<usize>,
    lo: usize,
    mid: usize,
    hi: usize,
) -> (out: Vec<usize>)
    requires
        lo <= mid <= hi <= keys@.len(),
        ordered_range(keys@, a@, lo as int, mid as int),
        ordered_range(keys@, b@, mid as int, hi as int),
    ensures
        ordered_range(keys@, out@, lo as int, hi as int),
{
    let mut out: Vec<usize> = Vec::new();
    let mut i: usize = 0;
    let mut j: usize = 0;
    while i < a.len() || j < b.len()
        invariant
            lo <= mid <= hi <= keys@.len(),
            ordered_range(keys@, a@, lo as int, mid as int),
            ordered_range(keys@, b@, mid as int, hi as int),
            i <= a@.len(),
            j <= b@.len(),
            out@.len() == i + j,
            forall|k: int| 0 <= k < out@.len() ==> lo <= (#[trigger] out@[k]) < hi,
            forall|k: int, l: int|
                0 <= k < l < out@.len() ==> shown_before(
                    keys@,
                    (#[trigger] out@[k]) as int,
                    (#[trigger] out@[l]) as int,
                ),
            forall|k: int, l: int|
                0 <= k < out@.len() && i <= l < a@.len() ==> shown_before(
                    keys@,
                    (#[trigger] out@[k]) as int,
                    (#[trigger] a@[l]) as int,
                ),
            forall|k: int, l: int|
                0 <= k < out@.len() && j <= l < b@.len() ==> shown_before(
                    keys@,
                    (#[trigger] out@[k]) as int,
                    (#[trigger] b@[l]) as int,
                ),
        decreases a@.len() - i + b@.len() - j,
    {
        let from_a = if i >= a.len() {
            false
        } else if j >= b.len() {
            true
        } else {
            comes_first(keys, a[i], b[j])
        };
        let ghost before = out@;
        if from_a {
            let x: usize = a[i];
            out.push(x);
            proof {
                assert forall|l: int| j <= l < b@.len() implies shown_before(
                    keys@,
                    x as int,
                    (#[trigger] b@[l]) as int,
                ) by {
                    if l > j {
                        shown_before_is_order(keys@, x as int, b@[j as int] as int, b@[l] as int);
                    }
                }
            }
            i += 1;
        } else {
            let y: usize = b[j];
            out.push(y);
            proof {
                assert forall|l: int| i <= l < a@.len() implies shown_before(
                    keys@,
                    y as int,
                    (#[trigger] a@[l]) as int,
                ) by {
                    shown_before_is_order(keys@, y as int, a@[i as int] as int, a@[l] as int);
                }
            }
            j += 1;
        }
    }
    out
}

fn sort_range(keys: &Vec<Key>, lo: usize, hi: usize) -> (out: Vec<usize>)
    requires
        lo <= hi <= keys@.len(),
    ensures
        ordered_range(keys@, out@, lo as int, hi as int),
    decreases hi - lo,
{
    if hi - lo == 0 {
        return Vec::new();
    }
    if hi - lo == 1 {
        let mut out: Vec<usize> = Vec::new();
        out.push(lo);
        return out;
    }
    let mid: usize = lo + (hi - lo) / 2;
    let a = sort_range(keys, lo, mid);
    let b = sort_range(keys, mid, hi);
    merge(keys, &a, &b, lo, mid, hi)
}

/// The order in which entries are shown.
pub fn sort(keys: &Vec<Key>) -> (order: Vec<usize>)
    ensures
        is_order(keys@, order@),
{
    sort_range(keys, 0, keys.len())
}

/// There is only one such order.
pub proof fn order_is_unique(keys: Seq<Key>, a: Seq<usize>, b: Seq<usize>)
    requires
        keys.len() <= usize::MAX,
        is_order(keys, a),
        is_order(keys, b),
    ensures
        a == b,
{
    let n = keys.len() as int;
    onto(keys, a);
    onto(keys, b);
    if a != b {
        let d = first_difference(a, b, n);
        // What stands at `d` in one stands behind `d` in the other.
        let x = a[d] as int;
        let y = b[d] as int;
        let i = choose|i: int| 0 <= i < n && b[i] == x;
        let j = choose|j: int| 0 <= j < n && a[j] == y;
        assert(b.contains(a[d]));
        assert(a.contains(b[d]));
        if i < d {
            assert(a[i] == b[i]);
            shown_before_is_order(keys, x, x, x);
            assert(shown_before(keys, a[i] as int, a[d] as int));
        }
        if j < d {
            assert(a[j] == b[j]);
            shown_before_is_order(keys, y, y, y);
            assert(shown_before(keys, b[j] as int, b[d] as int));
        }
        assert(shown_before(keys, b[d] as int, b[i] as int));
        assert(shown_before(keys, a[d] as int, a[j] as int));
        shown_before_is_order(keys, x, y, x);
    }
}

proof fn first_difference(a: Seq<usize>, b: Seq<usize>, n: int) -> (d: int)
    requires
        a.len() == n,
        b.len() == n,
        a != b,
    ensures
        0 <= d < n,
        a[d] != b[d],
        forall|k: int| 0 <= k < d ==> a[k] == b[k],
    decreases n,
{
    if n == 0 {
        assert(a =~= b);
        0
    } else if a.drop_last() == b.drop_last() {
        assert(a =~= a.drop_last().push(a.last()));
        assert(b =~= b.drop_last().push(b.last()));
        assert forall|k: int| 0 <= k < n - 1 implies a[k] == b[k] by {
            assert(a.drop_last()[k] == b.drop_last()[k]);
        }
        n - 1
    } else {
        let d = first_difference(a.drop_last(), b.drop_last(), n - 1);
        assert forall|k: int| 0 <= k < d implies a[k] == b[k] by {
            assert(a.drop_last()[k] == b.drop_last()[k]);
        }
        d
    }
}

/// An order holds every entry.
pub proof fn onto(keys: Seq<Key>, a: Seq<usize>)
    requires
        keys.len() <= usize::MAX,
        is_order(keys, a),
    ensures
        forall|x: usize| x < keys.len() ==> #[trigger] a.contains(x),
{
    let n = keys.len();
    assert(a.no_duplicates()) by {
        assert forall|i: int, j: int| 0 <= i < a.len() && 0 <= j < a.len() && i != j implies a[i]
            != a[j] by {
            if i < j {
                shown_before_is_order(keys, a[i] as int, a[j] as int, a[j] as int);
            } else {
                shown_before_is_order(keys, a[j] as int, a[i] as int, a[i] as int);
            }
        }
    }
    let all = Set::new(|x: usize| x < n);
    a.unique_seq_to_set();
    below_is_finite(n);
    assert(a.to_set().subset_of(all));
    vstd::set_lib::lemma_subset_equality(a.to_set(), all);
    assert forall|x: usize| x < n implies #[trigger] a.contains(x) by {
        assert(all.contains(x));
        assert(a.to_set().contains(x));
    }
}

proof fn below_is_finite(n: nat)
    requires
        n <= usize::MAX,
    ensures
        Set::new(|x: usize| x < n).finite(),
        Set::new(|x: usize| x < n).len() == n,
    decreases n,
{
    let s = Set::new(|x: usize| x < n);
    if n == 0 {
        assert(s =~= Set::empty());
    } else {
        let m = (n - 1) as nat;
        below_is_finite(m);
        assert(s =~= Set::new(|x: usize| x < m).insert(m as usize));
    }
}

/// Texts are ordered by the first character in which they differ, wherever that is; and a text comes
/// before every longer one that starts with it.
pub proof fn first_difference_counts(common: Seq<char>, a: Seq<char>, b: Seq<char>)
    ensures
        a.len() > 0 && b.len() > 0 && a[0] != b[0] ==> (text_before(common + a, common + b) <==> a[0]
            < b[0]),
        b.len() > 0 ==> text_before(common, common + b),
        !text_before(common + a, common),
    decreases common.len(),
{
    let x = common + a;
    let y = common + b;
    if common.len() > 0 {
        let rest = common.skip(1);
        first_difference_counts(rest, a, b);
        assert(x.skip(1) =~= rest + a);
        assert(y.skip(1) =~= rest + b);
    } else {
        assert(x =~= a);
        assert(y =~= b);
    }
}

/// The order in which entries are shown has each of them once: directories before files, and among
/// directories and among files an earlier name before a later one.
pub proof fn order_is_shown(keys: Vec<Key>, order: Vec<usize>, i: int, j: int)
    requires
        call_ensures(sort, (&keys,), order),
        0 <= i < j < order@.len(),
    ensures
        order@.len() == keys@.len(),
        order@[i] < keys@.len(),
        order@[i] != order@[j],
        ({
            let a = keys@[order@[i] as int];
            let b = keys@[order@[j] as int];
            &&& b.is_dir ==> a.is_dir
            &&& a.is_dir == b.is_dir ==> !text_before(b.name@, a.name@)
        }),
{
    let x = order@[i] as int;
    let y = order@[j] as int;
    shown_before_is_order(keys@, x, y, y);
    assert(shown_before(keys@, x, y));
    before_total(keys@[x].name@, keys@[y].name@);
    before_irreflexive(keys@[x].name@);
    if text_before(keys@[x].name@, keys@[y].name@) && text_before(keys@[y].name@, keys@[x].name@) {
        before_transitive(keys@[x].name@, keys@[y].name@, keys@[x].name@);
    }
}

/// What is shown first is no file before a directory, and no later name before an earlier one.
pub proof fn names_are_ordered(keys: Seq<Key>, i: int, j: int)
    requires
        shown_before(keys, i, j),
    ensures
        keys[j].is_dir ==> keys[i].is_dir,
        keys[i].is_dir == keys[j].is_dir ==> !text_before(keys[j].name@, keys[i].name@),
{
    before_irreflexive(keys[i].name@);
    if text_before(keys[i].name@, keys[j].name@) && text_before(keys[j].name@, keys[i].name@) {
        before_transitive(keys[i].name@, keys[j].name@, keys[i].name@);
    }
}

}
