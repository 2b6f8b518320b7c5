//! Releases: which tags there are, which is newer, and which is picked.

use crate::text;
use vstd::prelude::*;
use vstd::string::*;

verus! {

/// May `c` stand in a tag behind its `v`?
pub open spec fn tag_char(c: char) -> bool {
    text::alphanumeric(c) || c == '.' || c == '-'
}

/// Is `t` a tag: a `v` and at least one letter, digit, dot or dash? It becomes
/// an argument of a script, so nothing else may stand in it.
pub open spec fn tag(t: Seq<char>) -> bool {
    &&& t.len() > 1
    &&& t[0] == 'v'
    &&& forall|i: int| 1 <= i < t.len() ==> tag_char(#[trigger] t[i])
}

/// Is `t` a tag?
pub fn is_tag(t: &str) -> (r: bool)
    ensures
        r == tag(t@),
{
    let v = text::chars_of(t);
    if v.len() <= 1 || v[0] != 'v' {
        return false;
    }
    let mut i: usize = 1;
    while i < v.len()
        invariant
            v@ == t@,
            1 <= i <= v@.len(),
            forall|k: int| 1 <= k < i ==> tag_char(#[trigger] t@[k]),
        decreases v@.len() - i,
    {
        if !(text::is_alphanumeric(v[i]) || v[i] == '.' || v[i] == '-') {
            return false;
        }
        i += 1;
    }
    true
}

/// The parts of a tag: what stands between dots and dashes behind its `v`.
pub open spec fn parts(t: Seq<char>) -> Seq<Seq<char>> {
    text::split(text::recolour(text::unled(t, 'v'), '-', '.'), '.')
}

/// The number of a part: one that is no number counts as zero.
pub open spec fn part_number(s: Seq<char>) -> nat {
    match text::number(s, u64::MAX as nat) {
        Some(n) => n,
        None => 0,
    }
}

/// The `i`-th number of a tag: past its end, zero.
pub open spec fn nth(t: Seq<char>, i: int) -> nat {
    if i < parts(t).len() {
        part_number(parts(t)[i])
    } else {
        0
    }
}

/// Is `a` a later release than `b`: is its number greater at the first place
/// where they differ?
pub open spec fn later(a: Seq<char>, b: Seq<char>) -> bool {
    exists|i: int|
        0 <= i && #[trigger] nth(a, i) > nth(b, i) && forall|j: int|
            0 <= j < i ==> #[trigger] nth(a, j) == nth(b, j)
}

fn numbers(t: &str) -> (r: Vec<u64>)
    ensures
        r@.len() == parts(t@).len(),
        forall|i: int| 0 <= i < r@.len() ==> #[trigger] r@[i] == nth(t@, i),
{
    let bare = text::without_lead(t, 'v');
    let dotted = text::swapped(bare.as_str(), '-', '.');
    let list = text::split_of(dotted.as_str(), '.');
    let ghost all = parts(t@);
    let mut out: Vec<u64> = Vec::new();
    let mut i: usize = 0;
    while i < list.len()
        invariant
            all == parts(t@),
            all == text::views(list@),
            i <= list@.len(),
            out@.len() == i,
            forall|k: int| 0 <= k < i ==> #[trigger] out@[k] == nth(t@, k),
        decreases list@.len() - i,
    {
        assert(all[i as int] == list@[i as int]@);
        let n: u64 = match text::parse_number(list[i].as_str(), u64::MAX) {
            Some(n) => n,
            None => 0,
        };
        out.push(n);
        i += 1;
    }
    out
}

fn number_at(v: &Vec<u64>, i: usize) -> (r: u64)
    ensures
        r == (if i < v@.len() {
            v@[i as int]
        } else {
            0
        }),
{
    if i < v.len() {
        v[i]
    } else {
        0
    }
}

/// Is `a` a later release than `b`? The tags are compared number by number: as
/// strings, `v0.1.10` would come before `v0.1.9`.
pub fn newer_than(a: &str, b: &str) -> (r: bool)
    ensures
        r == later(a@, b@),
{
    let x = numbers(a);
    let y = numbers(b);
    let n: usize = if x.len() > y.len() {
        x.len()
    } else {
        y.len()
    };
    let mut i: usize = 0;
    while i < n
        invariant
            x@.len() == parts(a@).len(),
            y@.len() == parts(b@).len(),
            forall|k: int| 0 <= k < x@.len() ==> #[trigger] x@[k] == nth(a@, k),
            forall|k: int| 0 <= k < y@.len() ==> #[trigger] y@[k] == nth(b@, k),
            n >= x@.len(),
            n >= y@.len(),
            i <= n,
            forall|k: int| 0 <= k < i ==> #[trigger] nth(a@, k) == nth(b@, k),
        decreases n - i,
    {
        let l: u64 = number_at(&x, i);
        let r: u64 = number_at(&y, i);
        assert(l == nth(a@, i as int) && r == nth(b@, i as int));
        if l != r {
            proof {
                if later(a@, b@) {
                    let k = choose|k: int|
                        0 <= k && #[trigger] nth(a@, k) > nth(b@, k) && forall|j: int|
                            0 <= j < k ==> #[trigger] nth(a@, j) == nth(b@, j);
                    if k < i {
                        assert(nth(a@, k) == nth(b@, k));
                    } else if k > i {
                        assert(nth(a@, i as int) == nth(b@, i as int));
                    }
                } else {
                    assert(!(nth(a@, i as int) > nth(b@, i as int)));
                }
            }
            return l > r;
        }
        i += 1;
    }
    proof {
        if later(a@, b@) {
            let k = choose|k: int|
                0 <= k && #[trigger] nth(a@, k) > nth(b@, k) && forall|j: int|
                    0 <= j < k ==> #[trigger] nth(a@, j) == nth(b@, j);
            if k < i {
                assert(nth(a@, k) == nth(b@, k));
            }
        }
    }
    false
}

/// No release is later than itself.
pub proof fn none_is_later_than_itself(a: Seq<char>)
    ensures
        !later(a, a),
{
}

/// Of two releases at most one is later than the other.
pub proof fn later_goes_one_way(a: Seq<char>, b: Seq<char>)
    requires
        later(a, b),
    ensures
        !later(b, a),
{
    let i = choose|i: int|
        0 <= i && #[trigger] nth(a, i) > nth(b, i) && forall|j: int|
            0 <= j < i ==> #[trigger] nth(a, j) == nth(b, j);
    if later(b, a) {
        let k = choose|k: int|
            0 <= k && #[trigger] nth(b, k) > nth(a, k) && forall|j: int|
                0 <= j < k ==> #[trigger] nth(b, j) == nth(a, j);
        if k < i {
            assert(nth(a, k) == nth(b, k));
        } else {
            assert(nth(b, i) == nth(a, i));
        }
    }
}

/// A release later than a later one is later.
pub proof fn later_than_later_is_later(a: Seq<char>, b: Seq<char>, c: Seq<char>)
    requires
        later(a, b),
        later(b, c),
    ensures
        later(a, c),
{
    let i = choose|i: int|
        0 <= i && #[trigger] nth(a, i) > nth(b, i) && forall|j: int|
            0 <= j < i ==> #[trigger] nth(a, j) == nth(b, j);
    let k = choose|k: int|
        0 <= k && #[trigger] nth(b, k) > nth(c, k) && forall|j: int|
            0 <= j < k ==> #[trigger] nth(b, j) == nth(c, j);
    let m = if i < k {
        i
    } else {
        k
    };
    assert(nth(a, m) > nth(c, m)) by {
        if i < k {
            assert(nth(b, i) == nth(c, i));
        } else if k < i {
            assert(nth(a, k) == nth(b, k));
        }
    }
    assert forall|j: int| 0 <= j < m implies #[trigger] nth(a, j) == nth(c, j) by {
        assert(nth(a, j) == nth(b, j));
        assert(nth(b, j) == nth(c, j));
    }
}

/// Two tags with the same numbers, trailing zeros aside, are the same release.
pub proof fn trailing_zeros_do_not_count(a: Seq<char>, b: Seq<char>)
    requires
        forall|i: int| 0 <= i ==> #[trigger] nth(a, i) == nth(b, i),
    ensures
        !later(a, b),
        !later(b, a),
{
}

/// The tag of a version.
pub fn current_tag(version: &str) -> (r: String)
    ensures
        r@ == "v"@ + version@,
{
    let mut s = text::owned("v");
    s.append(version);
    s
}

/// The release to tell of, out of what the last check recorded: only a tag, and
/// only one later than what runs.
pub open spec fn update_in(recorded: Option<Seq<char>>, current: Seq<char>) -> Option<Seq<char>> {
    match recorded {
        Some(s) => if tag(text::trim(s)) && later(text::trim(s), current) {
            Some(text::trim(s))
        } else {
            None
        },
        None => None,
    }
}

/// The release to tell of, out of what the last check recorded, if one has run. A
/// checkout ahead of every release is not told to go back.
pub fn update_available(recorded: Option<&str>, current: &str) -> (r: Option<String>)
    ensures
        match r {
            Some(t) => update_in(
                match recorded {
                    Some(s) => Some(s@),
                    None => None,
                },
                current@,
            ) == Some(t@),
            None => update_in(
                match recorded {
                    Some(s) => Some(s@),
                    None => None,
                },
                current@,
            ) is None,
        },
{
    let latest = match recorded {
        Some(s) => text::trimmed(s),
        None => {
            return None;
        },
    };
    if is_tag(latest.as_str()) && newer_than(latest.as_str(), current) {
        Some(latest)
    } else {
        None
    }
}

/// A notice has no line end in it: the header that it stands in keeps to one
/// line. Nor is it of a release that is not later than what runs.
pub proof fn a_notice_is_one_line(recorded: Option<Seq<char>>, current: Seq<char>)
    ensures
        update_in(recorded, current) matches Some(t) ==> !t.contains('\n') && later(t, current)
            && t != current,
{
    if let Some(t) = update_in(recorded, current) {
        if t.contains('\n') {
            let i = choose|i: int| 0 <= i < t.len() && t[i] == '\n';
            assert(tag_char(t[i]));
        }
        none_is_later_than_itself(t);
    }
}

/// The tags among the lines, white space around them aside.
pub open spec fn tags_in(lines: Seq<Seq<char>>) -> Seq<Seq<char>>
    decreases lines.len(),
{
    if lines.len() == 0 {
        Seq::empty()
    } else {
        let rest = tags_in(lines.drop_last());
        let t = text::trim(lines.last());
        if tag(t) {
            rest.push(t)
        } else {
            rest
        }
    }
}

/// How many releases the picker offers.
pub const PICKER_TAGS: usize = 10;

/// The first tags of a list.
pub open spec fn offered(tags: Seq<Seq<char>>) -> Seq<Seq<char>> {
    if tags.len() > PICKER_TAGS {
        tags.take(PICKER_TAGS as int)
    } else {
        tags
    }
}

/// The releases that the picker offers, out of the file that records them,
/// newest first.
pub fn known_tags(recorded: &str) -> (r: Vec<String>)
    ensures
        text::views(r@) == offered(tags_in(text::lines(recorded@))),
{
    let lines = text::lines_of(recorded);
    let ghost all = text::lines(recorded@);
    let mut out: Vec<String> = Vec::new();
    let mut i: usize = 0;
    assert(text::views(out@) =~= Seq::<Seq<char>>::empty());
    while i < lines.len()
        invariant
            all == text::views(lines@),
            i <= lines@.len(),
            text::views(out@) == tags_in(all.take(i as int)),
        decreases lines@.len() - i,
    {
        let t = text::trimmed(lines[i].as_str());
        proof {
            assert(all.take(i + 1).drop_last() =~= all.take(i as int));
            assert(all.take(i + 1).last() == lines@[i as int]@);
        }
        if is_tag(t.as_str()) {
            let ghost was = out@;
            out.push(t);
            assert(text::views(out@) =~= text::views(was).push(t@));
        }
        i += 1;
    }
    assert(all.take(i as int) =~= all);
    let ghost full = out@;
    if out.len() > PICKER_TAGS {
        out.truncate(PICKER_TAGS);
        assert(text::views(out@) =~= text::views(full).take(PICKER_TAGS as int));
    }
    out
}

/// Everything that the picker offers is a tag.
pub proof fn only_tags_are_offered(lines: Seq<Seq<char>>)
    ensures
        offered(tags_in(lines)).len() <= PICKER_TAGS,
        forall|i: int|
            0 <= i < offered(tags_in(lines)).len() ==> tag(#[trigger] offered(tags_in(lines))[i]),
{
    lemma_tags_in(lines);
}

proof fn lemma_tags_in(lines: Seq<Seq<char>>)
    ensures
        forall|i: int| 0 <= i < tags_in(lines).len() ==> tag(#[trigger] tags_in(lines)[i]),
    decreases lines.len(),
{
    if lines.len() > 0 {
        lemma_tags_in(lines.drop_last());
        let rest = tags_in(lines.drop_last());
        let all = tags_in(lines);
        assert forall|i: int| 0 <= i < all.len() implies tag(#[trigger] all[i]) by {
            if i < rest.len() {
                assert(all[i] == rest[i]);
            }
        }
    }
}

/// Where the picker's cursor stands: on the release that was chosen, on the
/// current one where none was, and else where it stood; never past the end.
pub open spec fn picked(
    tags: Seq<Seq<char>>,
    cur: Seq<char>,
    chosen: Option<Seq<char>>,
    sel: int,
) -> int {
    let want = match chosen {
        Some(t) => text::position_of(tags, t, 0),
        None => text::position_of(tags, cur, 0),
    };
    let at = match want {
        Some(p) => p,
        None => sel,
    };
    if at < tags.len() {
        at
    } else {
        text::over(tags.len() as int, 1)
    }
}

/// Where the picker's cursor stands after the list was read again.
pub fn picker_sel(tags: &Vec<String>, cur: &str, chosen: Option<&str>, sel: usize) -> (r: usize)
    ensures
        r == picked(
            text::views(tags@),
            cur@,
            match chosen {
                Some(t) => Some(t@),
                None => None,
            },
            sel as int,
        ),
{
    let want: Option<usize> = match chosen {
        Some(t) => text::position(tags, t),
        None => text::position(tags, cur),
    };
    let at: usize = match want {
        Some(p) => p,
        None => sel,
    };
    if at < tags.len() {
        at
    } else if tags.len() > 0 {
        tags.len() - 1
    } else {
        0
    }
}

/// A chosen release keeps the cursor as long as it is listed, wherever it moves.
pub proof fn the_chosen_release_keeps_the_cursor(
    tags: Seq<Seq<char>>,
    cur: Seq<char>,
    t: Seq<char>,
    sel: int,
)
    requires
        tags.contains(t),
    ensures
        0 <= picked(tags, cur, Some(t), sel) < tags.len(),
        tags[picked(tags, cur, Some(t), sel)] == t,
{
    text::lemma_position_of(tags, t, 0);
    let k = choose|k: int| 0 <= k < tags.len() && tags[k] == t;
    assert(tags[k] == t);
}

} // verus!
