//! Which files of a directory are confs, and in which order they are read.

use crate::text;
use vstd::prelude::*;
use vstd::string::*;

verus! {

// ---------------------------------------------------------------------------
// The order of names

/// Does `a` not come after `b`, from the `i`-th character on, when texts are
/// ordered by their characters' codes?
pub open spec fn ordered_from(a: Seq<char>, b: Seq<char>, i: int) -> bool
    decreases a.len() - i,
{
    if i >= a.len() {
        true
    } else if i >= b.len() {
        false
    } else if a[i] != b[i] {
        a[i] < b[i]
    } else {
        ordered_from(a, b, i + 1)
    }
}

/// Does `a` not come after `b`?
pub open spec fn ordered(a: Seq<char>, b: Seq<char>) -> bool {
    ordered_from(a, b, 0)
}

/// Does `a` not come after `b`?
pub fn in_order(a: &str, b: &str) -> (r: bool)
    ensures
        r == ordered(a@, b@),
{
    let v = text::chars_of(a);
    let w = text::chars_of(b);
    let mut i: usize = 0;
    while i < v.len()
        invariant
            v@ == a@,
            w@ == b@,
            i <= v@.len(),
            ordered(a@, b@) == ordered_from(a@, b@, i as int),
        decreases v@.len() - i,
    {
        if i >= w.len() {
            return false;
        }
        if v[i] != w[i] {
            return v[i] < w[i];
        }
        i += 1;
    }
    true
}

proof fn lemma_total(a: Seq<char>, b: Seq<char>, i: int)
    ensures
        ordered_from(a, b, i) || ordered_from(b, a, i),
    decreases a.len() - i,
{
    if i < a.len() && i < b.len() && a[i] == b[i] {
        lemma_total(a, b, i + 1);
    }
}

proof fn lemma_transitive(a: Seq<char>, b: Seq<char>, c: Seq<char>, i: int)
    requires
        ordered_from(a, b, i),
        ordered_from(b, c, i),
    ensures
        ordered_from(a, c, i),
    decreases a.len() - i,
{
    if i < a.len() && i < b.len() && i < c.len() && a[i] == b[i] && b[i] == c[i] {
        lemma_transitive(a, b, c, i + 1);
    }
}

proof fn lemma_same_in_order(a: Seq<char>, i: int)
    ensures
        ordered_from(a, a, i),
    decreases a.len() - i,
{
    if i < a.len() {
        lemma_same_in_order(a, i + 1);
    }
}

// ---------------------------------------------------------------------------
// Confs

/// The agent that a file is the conf of: what stands before `.conf`, if anything
/// does.
pub open spec fn stem(name: Seq<char>) -> Option<Seq<char>> {
    if text::ends(name, ".conf"@) && name.len() > ".conf"@.len() {
        Some(name.take(name.len() - ".conf"@.len()))
    } else {
        None
    }
}

/// The agent that a file is the conf of.
pub fn conf_stem(name: &str) -> (r: Option<String>)
    ensures
        match r {
            Some(s) => stem(name@) == Some(s@),
            None => stem(name@) is None,
        },
{
    match text::strip_suffix(name, ".conf") {
        Some(s) => {
            if s.is_empty() {
                None
            } else {
                Some(text::owned(s))
            }
        },
        None => None,
    }
}

/// Is the `a`-th file read before the `b`-th: by name, and where the names are
/// the same by number?
pub open spec fn read_before(names: Seq<Seq<char>>, a: int, b: int) -> bool {
    ordered(names[a], names[b]) && (names[a] == names[b] ==> a < b)
}

/// Are these the numbers of the confs among the files, each once, in the order
/// of their names?
pub open spec fn is_reading_order(names: Seq<Seq<char>>, order: Seq<usize>) -> bool {
    &&& forall|k: int|
        0 <= k < order.len() ==> (#[trigger] order[k]) < names.len() && stem(
            names[order[k] as int],
        ) is Some
    &&& forall|i: int|
        0 <= i < names.len() && stem(#[trigger] names[i]) is Some ==> order.contains(i as usize)
    &&& forall|j: int, k: int|
        0 <= j < k < order.len() ==> read_before(
            names,
            (#[trigger] order[j]) as int,
            (#[trigger] order[k]) as int,
        )
}

/// The place for a file behind all those whose names do not come after its own.
fn place_for(names: &Vec<String>, order: &Vec<usize>, i: usize) -> (r: usize)
    requires
        i < names@.len(),
        forall|k: int| 0 <= k < order@.len() ==> (#[trigger] order@[k]) < i,
    ensures
        r <= order@.len(),
        r > 0 ==> ordered(
            text::views(names@)[order@[r - 1] as int],
            text::views(names@)[i as int],
        ),
        forall|k: int|
            r <= k < order@.len() ==> !ordered(
                text::views(names@)[(#[trigger] order@[k]) as int],
                text::views(names@)[i as int],
            ),
{
    let ghost all = text::views(names@);
    let mut p: usize = order.len();
    while p > 0
        invariant
            all == text::views(names@),
            i < names@.len(),
            forall|k: int| 0 <= k < order@.len() ==> (#[trigger] order@[k]) < i,
            p <= order@.len(),
            forall|k: int|
                p <= k < order@.len() ==> !ordered(
                    all[(#[trigger] order@[k]) as int],
                    all[i as int],
                ),
        decreases p,
    {
        let q: usize = order[p - 1];
        assert(all[q as int] == names@[q as int]@);
        assert(all[i as int] == names@[i as int]@);
        if in_order(names[q].as_str(), names[i].as_str()) {
            return p;
        }
        p -= 1;
    }
    p
}

proof fn lemma_inserted(names: Seq<Seq<char>>, order: Seq<usize>, i: usize, p: int)
    requires
        i < names.len(),
        stem(names[i as int]) is Some,
        is_reading_order(names.take(i as int), order),
        0 <= p <= order.len(),
        p > 0 ==> ordered(names[order[p - 1] as int], names[i as int]),
        forall|k: int|
            p <= k < order.len() ==> !ordered(
                names[(#[trigger] order[k]) as int],
                names[i as int],
            ),
    ensures
        is_reading_order(names.take(i + 1), order.insert(p, i)),
{
    let head = names.take(i as int);
    let more = names.take(i + 1);
    let now = order.insert(p, i);
    assert forall|k: int| 0 <= k < now.len() implies (#[trigger] now[k]) < more.len() && stem(
        more[now[k] as int],
    ) is Some by {
        if k < p {
            assert(now[k] == order[k]);
            assert(head[order[k] as int] == more[order[k] as int]);
        } else if k > p {
            assert(now[k] == order[k - 1]);
            assert(head[order[k - 1] as int] == more[order[k - 1] as int]);
        }
    }
    assert forall|n: int| 0 <= n < more.len() && stem(#[trigger] more[n]) is Some implies
        now.contains(n as usize) by {
        if n < i {
            assert(head[n] == more[n]);
            assert(order.contains(n as usize));
            let k = choose|k: int| 0 <= k < order.len() && order[k] == n as usize;
            assert(now[if k < p {
                k
            } else {
                k + 1
            }] == n as usize);
        } else {
            assert(now[p] == n as usize);
        }
    }
    assert forall|j: int, k: int| 0 <= j < k < now.len() implies read_before(
        more,
        (#[trigger] now[j]) as int,
        (#[trigger] now[k]) as int,
    ) by {
        let a = if j < p {
            j
        } else {
            j - 1
        };
        let b = if k < p {
            k
        } else {
            k - 1
        };
        if j != p && k != p {
            assert(now[j] == order[a] && now[k] == order[b]);
            assert(read_before(head, order[a] as int, order[b] as int));
        } else if k == p {
            // the new one stands behind what does not come after it
            assert(now[j] == order[j]);
            assert(order[j] < i);
            if j < p - 1 {
                assert(read_before(head, order[j] as int, order[p - 1] as int));
                assert(head[order[j] as int] == names[order[j] as int]);
                assert(order[p - 1] < i);
                lemma_transitive(
                    names[order[j] as int],
                    names[order[p - 1] as int],
                    names[i as int],
                    0,
                );
            }
        } else {
            // and before what does
            assert(now[k] == order[b]);
            assert(order[b] < i);
            assert(!ordered(names[order[b] as int], names[i as int]));
            lemma_total(names[order[b] as int], names[i as int], 0);
            lemma_same_in_order(names[i as int], 0);
        }
    }
}

/// The numbers of the confs among the files of a directory, in the order of
/// reading: by name.
pub fn reading_order(names: &Vec<String>) -> (r: Vec<usize>)
    ensures
        is_reading_order(text::views(names@), r@),
{
    let ghost all = text::views(names@);
    let mut order: Vec<usize> = Vec::new();
    let mut i: usize = 0;
    while i < names.len()
        invariant
            all == text::views(names@),
            i <= names@.len(),
            is_reading_order(all.take(i as int), order@),
        decreases names@.len() - i,
    {
        assert(all[i as int] == names@[i as int]@);
        let is_conf = conf_stem(names[i].as_str()).is_some();
        proof {
            assert forall|k: int| 0 <= k < order@.len() implies (#[trigger] order@[k]) < i by {}
        }
        if is_conf {
            let p: usize = place_for(names, &order, i);
            proof {
                lemma_inserted(all, order@, i, p as int);
            }
            order.insert(p, i);
        } else {
            proof {
                lemma_passed_over(all, order@, i as int);
            }
        }
        i += 1;
    }
    assert(all.take(i as int) =~= all);
    order
}

proof fn lemma_passed_over(names: Seq<Seq<char>>, order: Seq<usize>, i: int)
    requires
        0 <= i < names.len(),
        stem(names[i]) is None,
        is_reading_order(names.take(i), order),
    ensures
        is_reading_order(names.take(i + 1), order),
{
    let head = names.take(i);
    let more = names.take(i + 1);
    assert forall|k: int| 0 <= k < order.len() implies (#[trigger] order[k]) < more.len() && stem(
        more[order[k] as int],
    ) is Some by {
        assert(head[order[k] as int] == more[order[k] as int]);
    }
    assert forall|n: int| 0 <= n < more.len() && stem(#[trigger] more[n]) is Some implies
        order.contains(n as usize) by {
        assert(n < i);
        assert(head[n] == more[n]);
    }
    assert forall|j: int, k: int| 0 <= j < k < order.len() implies read_before(
        more,
        (#[trigger] order[j]) as int,
        (#[trigger] order[k]) as int,
    ) by {
        assert(read_before(head, order[j] as int, order[k] as int));
        assert(head[order[j] as int] == more[order[j] as int]);
        assert(head[order[k] as int] == more[order[k] as int]);
    }
}

/// There is one reading order: two of the same files are the same.
pub proof fn the_reading_order_is_one(names: Seq<Seq<char>>, a: Seq<usize>, b: Seq<usize>)
    requires
        is_reading_order(names, a),
        is_reading_order(names, b),
        names.len() <= usize::MAX,
    ensures
        a == b,
{
    lemma_prefix(names, a, b, a.len() as int);
    lemma_prefix(names, b, a, b.len() as int);
    assert(a =~= b);
}

proof fn lemma_prefix(names: Seq<Seq<char>>, a: Seq<usize>, b: Seq<usize>, n: int)
    requires
        is_reading_order(names, a),
        is_reading_order(names, b),
        names.len() <= usize::MAX,
        0 <= n <= a.len(),
    ensures
        n <= b.len(),
        forall|k: int| 0 <= k < n ==> a[k] == b[k],
    decreases n,
{
    if n > 0 {
        lemma_prefix(names, a, b, n - 1);
        let m = n - 1;
        let x = a[m];
        assert(stem(names[x as int]) is Some);
        assert(b.contains(x));
        let p = choose|p: int| 0 <= p < b.len() && b[p] == x;
        if p < m {
            assert(a[p] == b[p]);
            assert(read_before(names, a[p] as int, a[m] as int));
        } else if p > m {
            // then b[m] comes before x, and stands in a behind it
            let y = b[m];
            assert(stem(names[y as int]) is Some);
            assert(a.contains(y));
            let q = choose|q: int| 0 <= q < a.len() && a[q] == y;
            assert(read_before(names, b[m] as int, b[p] as int));
            if q < m {
                assert(a[q] == b[q]);
                assert(read_before(names, b[q] as int, b[m] as int));
            } else if q > m {
                assert(read_before(names, a[m] as int, a[q] as int));
                assert(names[x as int].take(0) =~= names[y as int].take(0));
                lemma_antisymmetric(names[x as int], names[y as int], 0);
            }
        }
    }
}

proof fn lemma_antisymmetric(a: Seq<char>, b: Seq<char>, i: int)
    requires
        0 <= i,
        i <= a.len(),
        i <= b.len(),
        ordered_from(a, b, i),
        ordered_from(b, a, i),
        a.take(i) == b.take(i),
    ensures
        a == b,
    decreases a.len() - i,
{
    if i < a.len() && i < b.len() {
        assert(a.take(i + 1) =~= a.take(i).push(a[i]));
        assert(b.take(i + 1) =~= b.take(i).push(b[i]));
        lemma_antisymmetric(a, b, i + 1);
    } else {
        assert(a =~= a.take(i));
        assert(b =~= b.take(i));
    }
}

} // verus!
