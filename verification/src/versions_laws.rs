//! Which release is the later one, which are offered, and where the picker's
//! cursor is.

use crate::keys::Meaning;
use crate::overlay;
use crate::overlay::Picture;
use crate::overlay::Turn;
use crate::paint;
use crate::text;
use crate::versions;
use vstd::prelude::*;

verus! {

/// The tag of a release of three numbers.
pub open spec fn tag_of(a: nat, b: nat, c: nat) -> Seq<char> {
    seq!['v'] + text::decimal(a) + seq!['.'] + text::decimal(b) + seq!['.'] + text::decimal(c)
}

/// A decimal holds digits alone.
proof fn lemma_digits(n: nat)
    ensures
        text::decimal(n).len() > 0,
        forall|i: int| 0 <= i < text::decimal(n).len() ==> '0' <= #[trigger] text::decimal(n)[i] <= '9',
    decreases n,
{
    let d = n % 10;
    crate::text_laws::decimal_is_written_by_tens(n, d);
    let all = seq!['0', '1', '2', '3', '4', '5', '6', '7', '8', '9'];
    assert('0' <= all[d as int] <= '9') by {
        if d == 0 {} else if d == 1 {} else if d == 2 {} else if d == 3 {} else if d == 4 {} else if d == 5 {}
        else if d == 6 {} else if d == 7 {} else if d == 8 {} else {}
    }
    assert(text::decimal(d) =~= seq![all[d as int]]);
    assert(text::figure(d as int) == text::decimal(d)[0]);
    if n >= 10 {
        lemma_digits(n / 10);
        let t = text::decimal(n / 10);
        let s = text::decimal(n);
        assert(s == t.push(text::figure(d as int)));
        assert forall|i: int| 0 <= i < s.len() implies '0' <= #[trigger] s[i] <= '9' by {
            if i < t.len() {
                assert(s[i] == t[i]);
            }
        }
    } else {
        assert(d == n);
    }
}

/// A tag is read as its numbers, whatever their sizes.
pub proof fn a_tag_is_its_numbers(a: nat, b: nat, c: nat, i: int)
    requires
        a <= u64::MAX,
        b <= u64::MAX,
        c <= u64::MAX,
        0 <= i,
    ensures
        versions::nth(tag_of(a, b, c), 0) == a,
        versions::nth(tag_of(a, b, c), 1) == b,
        versions::nth(tag_of(a, b, c), 2) == c,
        i > 2 ==> versions::nth(tag_of(a, b, c), i) == 0,
{
    let x = text::decimal(a);
    let y = text::decimal(b);
    let z = text::decimal(c);
    lemma_digits(a);
    lemma_digits(b);
    lemma_digits(c);
    let dot = seq!['.'];
    let body = x + dot + (y + dot + z);
    assert(tag_of(a, b, c) =~= text::fill('v', 1) + body);
    assert(body[0] == x[0]);
    crate::text_laws::a_leading_run_is_dropped('v', 1, body);
    assert(text::recolour(body, '-', '.') =~= body) by {
        assert forall|k: int| 0 <= k < body.len() implies body[k] != '-' by {
            if k < x.len() {
                assert(body[k] == x[k]);
            } else if k == x.len() {
            } else if k - x.len() - 1 < y.len() {
                assert(body[k] == y[k - x.len() - 1]);
            } else if k - x.len() - 1 == y.len() {
            } else {
                assert(body[k] == z[k - x.len() - 1 - y.len() - 1]);
            }
        }
    }
    assert(!x.contains('.') && !y.contains('.') && !z.contains('.')) by {
        assert forall|k: int| 0 <= k < x.len() implies x[k] != '.' by {
            assert('0' <= x[k]);
        }
        assert forall|k: int| 0 <= k < y.len() implies y[k] != '.' by {
            assert('0' <= y[k]);
        }
        assert forall|k: int| 0 <= k < z.len() implies z[k] != '.' by {
            assert('0' <= z[k]);
        }
    }
    crate::text_laws::fields_lie_between_separators(x, '.', y + dot + z, 1);
    crate::text_laws::fields_lie_between_separators(y, '.', z, 1);
    crate::text_laws::fields_lie_between_separators(z, '.', z, 1);
    let parts = versions::parts(tag_of(a, b, c));
    assert(parts =~= seq![x, y, z]);
    assert(parts[0] == x && parts[1] == y && parts[2] == z);
    text::decimal_reads_back(a, u64::MAX as nat);
    text::decimal_reads_back(b, u64::MAX as nat);
    text::decimal_reads_back(c, u64::MAX as nat);
}

/// Of two releases the later is the one whose first number is larger, or, where
/// those are the same, the second, and so on: numbers are compared as numbers.
pub proof fn the_first_number_that_differs_decides(a: nat, b: nat, c: nat, x: nat, y: nat, z: nat)
    requires
        a <= u64::MAX,
        b <= u64::MAX,
        c <= u64::MAX,
        x <= u64::MAX,
        y <= u64::MAX,
        z <= u64::MAX,
    ensures
        versions::later(tag_of(a, b, c), tag_of(x, y, z)) <==> (a > x || (a == x && (b > y || (b == y && c > z)))),
{
    let p = tag_of(a, b, c);
    let q = tag_of(x, y, z);
    a_tag_is_its_numbers(a, b, c, 0);
    a_tag_is_its_numbers(x, y, z, 0);
    assert forall|i: int| i > 2 implies versions::nth(p, i) == 0 && versions::nth(q, i) == 0 by {
        a_tag_is_its_numbers(a, b, c, i);
        a_tag_is_its_numbers(x, y, z, i);
    }
    if a > x {
        assert(versions::nth(p, 0) > versions::nth(q, 0));
    } else if a == x && b > y {
        assert(versions::nth(p, 1) > versions::nth(q, 1));
    } else if a == x && b == y && c > z {
        assert(versions::nth(p, 2) > versions::nth(q, 2));
    }
    if versions::later(p, q) {
        let i = choose|i: int|
            0 <= i && #[trigger] versions::nth(p, i) > versions::nth(q, i) && forall|j: int|
                0 <= j < i ==> #[trigger] versions::nth(p, j) == versions::nth(q, j);
        assert(i <= 2);
        if i > 0 {
            assert(versions::nth(p, 0) == versions::nth(q, 0));
        }
        if i > 1 {
            assert(versions::nth(p, 1) == versions::nth(q, 1));
        }
    }
}

/// A tag is a `v` and then letters, digits, dots and dashes, at least one.
pub proof fn a_tag_is_made_of_these(t: Seq<char>)
    ensures
        versions::tag(t) <==> (t.len() > 1 && t[0] == 'v' && forall|i: int|
            1 <= i < t.len() ==> ('a' <= #[trigger] t[i] <= 'z' || 'A' <= t[i] <= 'Z' || '0' <= t[i] <= '9' || t[i] == '.'
                || t[i] == '-')),
{
    if versions::tag(t) {
        assert forall|i: int| 1 <= i < t.len() implies ('a' <= #[trigger] t[i] <= 'z' || 'A' <= t[i] <= 'Z' || '0'
            <= t[i] <= '9' || t[i] == '.' || t[i] == '-') by {
            assert(versions::tag_char(t[i]));
        }
    }
}

/// A later release is told of exactly where the recorded text, trimmed, is a tag
/// that is later than the current one.
pub proof fn only_a_later_tag_is_told_of(recorded: Seq<char>, current: Seq<char>)
    ensures
        versions::update_in(None, current) is None,
        versions::tag(text::trim(recorded)) && versions::later(text::trim(recorded), current) ==> versions::update_in(
            Some(recorded),
            current,
        ) == Some(text::trim(recorded)),
        !(versions::tag(text::trim(recorded)) && versions::later(text::trim(recorded), current)) ==> versions::update_in(
            Some(recorded),
            current,
        ) is None,
{
}

/// The tags of a list are its lines, trimmed, in order, without those that are no
/// tags.
pub proof fn tags_come_in_the_order_of_the_lines(lines: Seq<Seq<char>>, line: Seq<char>)
    ensures
        versions::tags_in(Seq::<Seq<char>>::empty()).len() == 0,
        versions::tag(text::trim(line)) ==> versions::tags_in(lines.push(line)) == versions::tags_in(lines).push(
            text::trim(line),
        ),
        !versions::tag(text::trim(line)) ==> versions::tags_in(lines.push(line)) == versions::tags_in(lines),
{
    assert(lines.push(line).drop_last() =~= lines);
}

/// At most ten releases are offered, the first of the list.
pub proof fn ten_releases_are_offered(tags: Seq<Seq<char>>, i: int)
    ensures
        tags.len() <= 10 ==> versions::offered(tags) == tags,
        tags.len() > 10 ==> versions::offered(tags).len() == 10,
        0 <= i < versions::offered(tags).len() ==> versions::offered(tags)[i] == tags[i],
{
}

/// The picker's cursor is on the release it was moved to, else on the current
/// one; where that is not offered it keeps its place, within the list.
pub proof fn the_picker_points_at_the_choice(
    tags: Seq<Seq<char>>,
    cur: Seq<char>,
    t: Seq<char>,
    sel: int,
    p: int,
)
    requires
        0 <= sel,
    ensures
        0 <= p < tags.len() && tags[p] == t && (forall|k: int| 0 <= k < p ==> tags[k] != t) ==> versions::picked(
            tags,
            cur,
            Some(t),
            sel,
        ) == p,
        0 <= p < tags.len() && tags[p] == cur && (forall|k: int| 0 <= k < p ==> tags[k] != cur) ==> versions::picked(
            tags,
            cur,
            None,
            sel,
        ) == p,
        !tags.contains(t) && sel < tags.len() ==> versions::picked(tags, cur, Some(t), sel) == sel,
        !tags.contains(t) && sel >= tags.len() && tags.len() > 0 ==> versions::picked(tags, cur, Some(t), sel)
            == tags.len() - 1,
        !tags.contains(cur) && sel < tags.len() ==> versions::picked(tags, cur, None, sel) == sel,
        !tags.contains(cur) && sel >= tags.len() && tags.len() > 0 ==> versions::picked(tags, cur, None, sel)
            == tags.len() - 1,
        tags.len() == 0 ==> versions::picked(tags, cur, None, sel) == 0 && versions::picked(tags, cur, Some(t), sel)
            == 0,
{
    text::lemma_position_of(tags, t, 0);
    text::lemma_position_of(tags, cur, 0);
    if let Some(q) = text::position_of(tags, t, 0) {
        assert(tags.contains(tags[q]));
    }
    if let Some(q) = text::position_of(tags, cur, 0) {
        assert(tags.contains(tags[q]));
    }
}

/// In the picker down and up move the cursor by one release, and stop at the ends;
/// the release that it comes to is the choice.
pub proof fn the_picker_moves_by_one(sel: int, chosen: Option<Seq<char>>, tags: Seq<Seq<char>>, cur: Seq<char>)
    requires
        0 <= sel,
        tags.len() > 0,
    ensures
        ({
            let at = versions::picked(tags, cur, chosen, sel);
            let p = Picture::Versions { sel, chosen };
            &&& 0 <= at < tags.len()
            &&& at + 1 < tags.len() ==> overlay::turned(p, Meaning::Down, tags, cur) == Turn::Stays(
                Picture::Versions { sel: at + 1, chosen: Some(tags[at + 1]) },
            )
            &&& at + 1 == tags.len() ==> overlay::turned(p, Meaning::Down, tags, cur) == Turn::Stays(
                Picture::Versions { sel: at, chosen: Some(tags[at]) },
            )
            &&& at > 0 ==> overlay::turned(p, Meaning::Up, tags, cur) == Turn::Stays(
                Picture::Versions { sel: at - 1, chosen: Some(tags[at - 1]) },
            )
            &&& at == 0 ==> overlay::turned(p, Meaning::Up, tags, cur) == Turn::Stays(
                Picture::Versions { sel: 0, chosen: Some(tags[0]) },
            )
            &&& tags[at] != cur ==> overlay::turned(p, Meaning::Jump, tags, cur) == Turn::Switches(tags[at])
            &&& tags[at] == cur ==> overlay::turned(p, Meaning::Jump, tags, cur) is Closes
        }),
{
    text::lemma_position_of(tags, cur, 0);
    if let Some(t) = chosen {
        text::lemma_position_of(tags, t, 0);
    }
}

/// Quit and close leave the picker without a switch, and so does enter where
/// nothing is offered; another key leaves the cursor where it is.
pub proof fn other_keys_leave_the_picker_or_stay(
    sel: int,
    chosen: Option<Seq<char>>,
    key: Meaning,
    tags: Seq<Seq<char>>,
    cur: Seq<char>,
)
    requires
        0 <= sel,
    ensures
        ({
            let p = Picture::Versions { sel, chosen };
            let at = versions::picked(tags, cur, chosen, sel);
            &&& overlay::turned(p, Meaning::Quit, tags, cur) is Closes
            &&& overlay::turned(p, Meaning::Close, tags, cur) is Closes
            &&& tags.len() == 0 ==> overlay::turned(p, Meaning::Jump, tags, cur) is Closes
            &&& overlay::turned(Picture::Help, key, tags, cur) is Closes
            &&& !(key is Up || key is Down || key is Jump || key is Quit || key is Close) ==> {
                &&& overlay::turned(p, key, tags, cur) is Stays
                &&& overlay::turned(p, key, tags, cur)->Stays_0 is Versions
                &&& overlay::turned(p, key, tags, cur)->Stays_0->sel == at
            }
        }),
{
}

/// The picker's page has a line for each release, in order: the mark stands
/// before the one under the cursor alone, and the current one is called so.
pub proof fn each_release_has_a_line(tags: Seq<Seq<char>>, cur: Seq<char>, sel: int, i: int)
    requires
        0 <= i < tags.len(),
    ensures
        overlay::release_lines(tags, cur, sel, 0).len() == 0,
        overlay::release_lines(tags, cur, sel, i + 1) == overlay::release_lines(tags, cur, sel, i) + (if i == sel {
            "\x1b[1;"@ + paint::hue("idle"@) + "m❯\x1b[0m "@
        } else {
            seq![' ', ' ']
        }) + tags[i] + (if tags[i] == cur {
            " \x1b[2m(current)\x1b[0m"@
        } else {
            Seq::empty()
        }) + seq!['\n'],
{
    reveal_strlit("  ");
    reveal_strlit("\n");
    assert("  "@ =~= seq![' ', ' ']);
    assert("\n"@ =~= seq!['\n']);
    let before = overlay::release_lines(tags, cur, sel, i);
    let mark = if i == sel {
        "\x1b[1;"@ + paint::hue("idle"@) + "m❯\x1b[0m "@
    } else {
        seq![' ', ' ']
    };
    let note = if tags[i] == cur {
        " \x1b[2m(current)\x1b[0m"@
    } else {
        Seq::empty()
    };
    assert(overlay::release_lines(tags, cur, sel, i + 1) =~= before + mark + tags[i] + note + seq!['\n']);
}

/// What an overlay shows: the help says which release runs, and the picker that
/// and the releases; drawing moves the picker's cursor to its choice and changes
/// nothing else.
pub proof fn an_overlay_shows_this(sel: int, chosen: Option<Seq<char>>, tags: Seq<Seq<char>>, cur: Seq<char>)
    ensures
        overlay::drawn(Picture::Help, tags, cur) == (
            "\x1b[2J\x1b[H\x1b[1magents — help\x1b[0m \x1b[2m"@ + cur + overlay::HELP_BODY@,
            Picture::Help,
        ),
        ({
            let at = versions::picked(tags, cur, chosen, sel);
            let head = "\x1b[2J\x1b[H\x1b[1magents — versions\x1b[0m \x1b[2m"@ + cur + "\x1b[0m\n\n"@;
            let (page, p) = overlay::drawn(Picture::Versions { sel, chosen }, tags, cur);
            &&& p == (Picture::Versions { sel: at, chosen })
            &&& tags.len() > 0 ==> page == head + (overlay::release_lines(tags, cur, at, tags.len() as int)
                + "\n\x1b[2m↵ switch · j/k ↑/↓ · q back\x1b[0m"@)
            &&& tags.len() == 0 ==> page == head
                + " \x1b[2mno releases found — checking…\x1b[0m\n\n\x1b[2mq back\x1b[0m"@
        }),
{
}

/// Any tag is read as the parts between its dots and dashes, without the letters
/// before them: a part that is no number counts as zero, and so does one that is
/// not there.
pub proof fn any_tag_is_read_by_its_parts(n: int, b: Seq<char>, i: int)
    requires
        0 <= n,
        0 <= i,
        b.len() > 0 ==> b[0] != 'v',
    ensures
        ({
            let t = text::fill('v', n) + b;
            let parts = text::split(text::recolour(b, '-', '.'), '.');
            &&& i >= parts.len() ==> versions::nth(t, i) == 0
            &&& i < parts.len() && text::number(parts[i], u64::MAX as nat) is None ==> versions::nth(t, i) == 0
            &&& i < parts.len() ==> (text::number(parts[i], u64::MAX as nat) matches Some(v) ==> versions::nth(t, i) == v)
        }),
{
    crate::text_laws::a_leading_run_is_dropped('v', n, b);
}

/// The first part in which two tags differ decides which is later.
pub proof fn the_first_part_that_differs_decides(a: Seq<char>, b: Seq<char>, i: int)
    requires
        0 <= i,
        forall|j: int| 0 <= j < i ==> #[trigger] versions::nth(a, j) == versions::nth(b, j),
    ensures
        versions::nth(a, i) > versions::nth(b, i) ==> versions::later(a, b),
        versions::nth(a, i) < versions::nth(b, i) ==> !versions::later(a, b),
{
    if versions::nth(a, i) < versions::nth(b, i) && versions::later(a, b) {
        let k = choose|k: int|
            0 <= k && #[trigger] versions::nth(a, k) > versions::nth(b, k) && forall|j: int|
                0 <= j < k ==> #[trigger] versions::nth(a, j) == versions::nth(b, j);
        if k > i {
            assert(versions::nth(a, i) == versions::nth(b, i));
        } else if k < i {
            assert(versions::nth(a, k) == versions::nth(b, k));
        }
    }
}

} // verus!
