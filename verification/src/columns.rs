//! How wide a drawn line is: the columns that it takes on a terminal.

use crate::filter;
use crate::frame;
use crate::paint;
use crate::scan::Row;
use crate::sidebar;
use crate::sidebar::State;
use crate::text;
use vstd::prelude::*;
use vstd::string::*;

verus! {

/// An ASCII letter: it ends an escape sequence.
pub open spec fn letter(c: char) -> bool {
    'a' <= c <= 'z' || 'A' <= c <= 'Z'
}

/// Is the terminal within an escape sequence after the character?
pub open spec fn within(inside: bool, c: char) -> bool {
    if inside {
        !letter(c)
    } else {
        c == '\x1b'
    }
}

/// Is the terminal within an escape sequence after the text from `i` on?
pub open spec fn ends_within(s: Seq<char>, inside: bool, i: int) -> bool
    decreases s.len() - i,
{
    if i >= s.len() {
        inside
    } else {
        ends_within(s, within(inside, s[i]), i + 1)
    }
}

/// How many columns the text from `i` on takes: one for each character that is
/// neither part of an escape sequence nor a line end.
pub open spec fn columns_from(s: Seq<char>, inside: bool, i: int) -> int
    decreases s.len() - i,
{
    if i >= s.len() {
        0
    } else {
        (if !inside && s[i] != '\x1b' && s[i] != '\n' {
            1int
        } else {
            0
        }) + columns_from(s, within(inside, s[i]), i + 1)
    }
}

/// How many columns the text takes.
pub open spec fn columns(s: Seq<char>) -> int {
    columns_from(s, false, 0)
}

/// Does the text take `n` columns, and end outside of escape sequences?
pub open spec fn takes(s: Seq<char>, n: int) -> bool {
    columns(s) == n && !ends_within(s, false, 0)
}

/// Is the text made of characters that take a column each?
pub open spec fn plain(s: Seq<char>) -> bool {
    forall|i: int| 0 <= i < s.len() ==> #[trigger] s[i] != '\x1b' && s[i] != '\n'
}

proof fn lemma_add_from(a: Seq<char>, b: Seq<char>, inside: bool, i: int)
    requires
        0 <= i <= a.len(),
    ensures
        columns_from(a + b, inside, i) == columns_from(a, inside, i) + columns_from(
            b,
            ends_within(a, inside, i),
            0,
        ),
        ends_within(a + b, inside, i) == ends_within(b, ends_within(a, inside, i), 0),
    decreases a.len() - i,
{
    if i < a.len() {
        assert((a + b)[i] == a[i]);
        lemma_add_from(a, b, within(inside, a[i]), i + 1);
    } else {
        lemma_shift(a, b, inside, 0);
    }
}

proof fn lemma_shift(a: Seq<char>, b: Seq<char>, inside: bool, i: int)
    requires
        0 <= i <= b.len(),
    ensures
        columns_from(a + b, inside, a.len() + i) == columns_from(b, inside, i),
        ends_within(a + b, inside, a.len() + i) == ends_within(b, inside, i),
    decreases b.len() - i,
{
    if i < b.len() {
        assert((a + b)[a.len() + i] == b[i]);
        lemma_shift(a, b, within(inside, b[i]), i + 1);
    }
}

/// Texts one behind the other take what each of them takes.
proof fn lemma_add(a: Seq<char>, m: int, b: Seq<char>, n: int)
    requires
        takes(a, m),
        takes(b, n),
    ensures
        takes(a + b, m + n),
{
    lemma_add_from(a, b, false, 0);
}

proof fn lemma_plain_from(s: Seq<char>, i: int)
    requires
        plain(s),
        0 <= i <= s.len(),
    ensures
        columns_from(s, false, i) == s.len() - i,
        !ends_within(s, false, i),
    decreases s.len() - i,
{
    if i < s.len() {
        lemma_plain_from(s, i + 1);
    }
}

proof fn lemma_plain(s: Seq<char>)
    requires
        plain(s),
    ensures
        takes(s, s.len() as int),
{
    lemma_plain_from(s, 0);
}

/// Is the text one escape sequence?
pub open spec fn is_escape(s: Seq<char>) -> bool {
    &&& s.len() > 1
    &&& s[0] == '\x1b'
    &&& letter(s[s.len() - 1])
    &&& forall|i: int| 0 < i < s.len() - 1 ==> !letter(#[trigger] s[i])
}

proof fn lemma_escape_from(s: Seq<char>, i: int)
    requires
        is_escape(s),
        0 < i < s.len(),
    ensures
        columns_from(s, true, i) == 0,
        !ends_within(s, true, i),
    decreases s.len() - i,
{
    if i < s.len() - 1 {
        lemma_escape_from(s, i + 1);
    } else {
        assert(columns_from(s, false, i + 1) == 0);
        assert(!ends_within(s, false, i + 1));
    }
}

/// An escape sequence takes no column.
proof fn lemma_escape(s: Seq<char>)
    requires
        is_escape(s),
    ensures
        takes(s, 0),
{
    lemma_escape_from(s, 1);
}

proof fn lemma_break()
    ensures
        takes(seq!['\n'], 0),
{
    let s = seq!['\n'];
    assert(columns_from(s, false, 1) == 0);
    assert(!ends_within(s, false, 1));
}

// ---------------------------------------------------------------------------
// Bars

/// After a reset the terminal is outside of escape sequences, wherever it was
/// before, and the reset takes no column.
proof fn lemma_reset(inside: bool)
    ensures
        columns_from(paint::RESET@, inside, 0) == 0,
        !ends_within(paint::RESET@, inside, 0),
        paint::RESET@.len() == 4,
        is_escape(paint::RESET@),
{
    reveal_strlit("\x1b[0m");
    reveal_with_fuel(columns_from, 5);
    reveal_with_fuel(ends_within, 5);
}

proof fn lemma_replaced(line: Seq<char>, bg: Seq<char>, inside: bool, i: int)
    requires
        0 <= i <= line.len(),
        takes(bg, 0),
    ensures
        ({
            let r = text::replace_from(line, paint::RESET@, paint::RESET@ + bg, i);
            &&& columns_from(r, inside, 0) == columns_from(line, inside, i)
            &&& ends_within(r, inside, 0) == ends_within(line, inside, i)
        }),
    decreases line.len() - i,
{
    let reset = paint::RESET@;
    lemma_reset(inside);
    if i < line.len() {
        let r = text::replace_from(line, reset, reset + bg, i);
        if text::stands_at(line, reset, i) {
            let rest = text::replace_from(line, reset, reset + bg, i + 4);
            assert(r =~= reset + (bg + rest));
            lemma_add_from(reset, bg + rest, inside, 0);
            lemma_add_from(bg, rest, false, 0);
            lemma_replaced(line, bg, false, i + 4);
            // the same in the line itself
            let head = line.take(i);
            let tail = line.skip(i + 4);
            assert(line.subrange(i, i + 4) == reset);
            assert(line =~= head + (reset + tail));
            lemma_shift(head, reset + tail, inside, 0);
            lemma_add_from(reset, tail, inside, 0);
            assert(line =~= line.take(i + 4) + tail);
            lemma_shift(line.take(i + 4), tail, false, 0);
        } else {
            let rest = text::replace_from(line, reset, reset + bg, i + 1);
            lemma_replaced(line, bg, within(inside, line[i]), i + 1);
            assert(r =~= seq![line[i]] + rest);
            assert(r[0] == line[i]);
            lemma_shift(seq![line[i]], rest, within(inside, line[i]), 0);
        }
    }
}

/// A painted line takes as many columns as the line, and those that it is filled
/// up with.
proof fn lemma_painted(line: Seq<char>, bg: Seq<char>, cols: int, width: int)
    requires
        takes(line, width),
        bg.len() == 0 || takes(bg, 0),
    ensures
        takes(
            paint::painted(line, bg, cols, width),
            width + (if bg.len() == 0 {
                0
            } else {
                text::over(cols, width)
            }),
        ),
{
    if bg.len() > 0 {
        let body = text::replace(line, paint::RESET@, paint::RESET@ + bg);
        let pad = text::fill(' ', text::over(cols, width));
        lemma_replaced(line, bg, false, 0);
        lemma_plain(pad);
        lemma_reset(false);
        lemma_add(bg, 0, body, width);
        lemma_add(bg + body, width, pad, pad.len() as int);
        lemma_add(bg + body + pad, width + pad.len(), paint::RESET@, 0);
    }
}

proof fn lemma_background(state: Seq<char>, focused: bool)
    ensures
        takes(paint::row_background(state, focused), 0),
{
    reveal_strlit("\x1b[48;2;42;16;16m");
    reveal_strlit("\x1b[48;2;32;12;12m");
    reveal_strlit("\x1b[48;2;38;32;16m");
    reveal_strlit("\x1b[48;2;29;24;12m");
    reveal_strlit("\x1b[48;2;15;36;16m");
    reveal_strlit("\x1b[48;2;11;27;12m");
    lemma_escape(paint::row_background(state, focused));
}

// ---------------------------------------------------------------------------
// Signs

proof fn lemma_sign_of(colour: Seq<char>, c: char)
    requires
        is_escape(colour),
        c != '\x1b',
        c != '\n',
    ensures
        takes(colour + seq![c] + paint::RESET@, 1),
{
    lemma_reset(false);
    lemma_escape(colour);
    lemma_plain(seq![c]);
    lemma_escape(paint::RESET@);
    lemma_add(colour, 0, seq![c], 1);
    lemma_add(colour + seq![c], 1, paint::RESET@, 0);
}

proof fn lemma_sign(state: Seq<char>, tick: int)
    ensures
        takes(paint::sign(state, tick), 1),
{
    reveal_strlit("\x1b[31m⣿\x1b[0m");
    reveal_strlit("\x1b[32m⣿\x1b[0m");
    reveal_strlit("\x1b[33m");
    reveal_strlit("\x1b[0m");
    reveal_strlit(" ");
    reveal_strlit("⠹");
    reveal_strlit("⢸");
    reveal_strlit("⣰");
    reveal_strlit("⣤");
    reveal_strlit("⣆");
    reveal_strlit("⡇");
    reveal_strlit("⠏");
    reveal_strlit("⠛");
    let red = seq!['\x1b', '[', '3', '1', 'm'];
    let green = seq!['\x1b', '[', '3', '2', 'm'];
    lemma_sign_of(red, '⣿');
    lemma_sign_of(green, '⣿');
    assert("\x1b[31m⣿\x1b[0m"@ =~= red + seq!['⣿'] + paint::RESET@);
    assert("\x1b[32m⣿\x1b[0m"@ =~= green + seq!['⣿'] + paint::RESET@);
    lemma_plain(" "@);
    let spin = paint::spinner(tick % 8);
    lemma_sign_of("\x1b[33m"@, spin[0]);
    assert(spin =~= seq![spin[0]]);
}

proof fn lemma_mark(selected: bool, plugin: bool, state: Seq<char>)
    ensures
        takes(paint::mark(selected, plugin, state), 2),
{
    reveal_strlit("  ");
    lemma_plain("  "@);
    if selected {
        reveal_strlit("\x1b[1;");
        reveal_strlit("\x1b[");
        reveal_strlit("31");
        reveal_strlit("33");
        reveal_strlit("32");
        reveal_strlit("m❯\x1b[0m ");
        reveal_strlit("\x1b[0m");
        let colour = (if plugin {
            "\x1b[1;"@
        } else {
            "\x1b["@
        }) + paint::hue(state) + seq!['m'];
        lemma_sign_of(colour, '❯');
        let head = colour + seq!['❯'] + paint::RESET@;
        lemma_plain(seq![' ']);
        lemma_add(head, 1, seq![' '], 1);
        assert(paint::mark(selected, plugin, state) =~= head + seq![' ']);
    }
}

// ---------------------------------------------------------------------------
// Lines

/// Is a row made of characters that take a column each?
pub open spec fn plain_row(r: Row) -> bool {
    plain(r.loc) && plain(r.agent) && plain(r.cwd) && plain(r.title)
}

proof fn lemma_line_end(s: Seq<char>, n: int)
    requires
        takes(s, n),
    ensures
        takes(s + "\x1b[K\n"@, n),
{
    reveal_strlit("\x1b[K\n");
    let clear = seq!['\x1b', '[', 'K'];
    lemma_escape(clear);
    lemma_break();
    lemma_add(clear, 0, seq!['\n'], 0);
    assert("\x1b[K\n"@ =~= clear + seq!['\n']);
    lemma_add(s, n, "\x1b[K\n"@, 0);
}

proof fn lemma_parts_are_plain(r: Row, cols: int)
    requires
        plain_row(r),
        cols >= 0,
    ensures
        plain(filter::session(r.loc)),
        plain(frame::whereabouts(r, cols)),
{
    reveal_strlit(" ");
    text::lemma_index_from(r.loc, ':', 0);
}

/// The line of an agent takes its parts' columns, and is filled up to the edge
/// under the cursor.
pub proof fn the_width_of_an_agent_line(s: State, r: Row, selected: bool, cols: int)
    requires
        plain_row(r),
        cols >= 0,
    ensures
        ({
            let width = 6 + r.agent.len() as int + frame::whereabouts(r, cols).len() as int;
            columns(frame::agent_line(s, r, selected, cols).text) == (if selected && width < cols {
                cols
            } else {
                width
            })
        }),
{
    reveal_strlit(" ");
    reveal_strlit(" \x1b[1m");
    reveal_strlit("\x1b[0m \x1b[2m");
    reveal_strlit("\x1b[0m");
    lemma_parts_are_plain(r, cols);
    let mark = paint::mark(selected, s.plugin_selected, r.state);
    let sign = paint::sign(r.state, s.tick);
    let rest = frame::whereabouts(r, cols);
    let bold = seq!['\x1b', '[', '1', 'm'];
    let dim = seq!['\x1b', '[', '2', 'm'];
    lemma_mark(selected, s.plugin_selected, r.state);
    lemma_sign(r.state, s.tick);
    lemma_reset(false);
    lemma_escape(paint::RESET@);
    lemma_escape(bold);
    lemma_escape(dim);
    lemma_plain(" "@);
    lemma_plain(r.agent);
    lemma_plain(rest);
    lemma_add(" "@, 1, bold, 0);
    assert(" \x1b[1m"@ =~= " "@ + bold);
    lemma_add(paint::RESET@, 0, " "@, 1);
    lemma_add(paint::RESET@ + " "@, 1, dim, 0);
    assert("\x1b[0m \x1b[2m"@ =~= paint::RESET@ + " "@ + dim);
    let a = r.agent.len() as int;
    let b = rest.len() as int;
    lemma_add(" "@, 1, mark, 2);
    lemma_add(" "@ + mark, 3, sign, 1);
    lemma_add(" "@ + mark + sign, 4, " \x1b[1m"@, 1);
    lemma_add(" "@ + mark + sign + " \x1b[1m"@, 5, r.agent, a);
    lemma_add(" "@ + mark + sign + " \x1b[1m"@ + r.agent, 5 + a, "\x1b[0m \x1b[2m"@, 1);
    let head = " "@ + mark + sign + " \x1b[1m"@ + r.agent + "\x1b[0m \x1b[2m"@;
    lemma_add(head, 6 + a, rest, b);
    lemma_add(head + rest, 6 + a + b, "\x1b[0m"@, 0);
    let bg = frame::background(s, r, selected);
    lemma_background(r.state, s.plugin_selected);
    if selected {
        lemma_background_is_there(r.state, s.plugin_selected);
    }
    lemma_painted(head + rest + "\x1b[0m"@, bg, cols, 6 + a + b);
    let p = paint::painted(head + rest + "\x1b[0m"@, bg, cols, 6 + a + b);
    lemma_line_end(p, columns(p));
}

proof fn lemma_background_is_there(state: Seq<char>, focused: bool)
    ensures
        paint::row_background(state, focused).len() > 0,
{
    paint::the_backgrounds_are_backgrounds(state, focused);
}

/// So does the line of a title.
pub proof fn the_width_of_a_title_line(s: State, r: Row, selected: bool, cols: int)
    requires
        plain_row(r),
        cols >= 0,
    ensures
        ({
            let width = 5 + text::clip(r.title, text::over(cols, 5)).len() as int;
            columns(frame::title_line(s, r, selected, cols).text) == (if selected && width < cols {
                cols
            } else {
                width
            })
        }),
{
    reveal_strlit("     \x1b[2m");
    let t = text::clip(r.title, text::over(cols, 5));
    let n = t.len() as int;
    let dim = seq!['\x1b', '[', '2', 'm'];
    let gap = seq![' ', ' ', ' ', ' ', ' '];
    lemma_plain(gap);
    lemma_escape(dim);
    lemma_add(gap, 5, dim, 0);
    assert("     \x1b[2m"@ =~= gap + dim);
    lemma_plain(t);
    lemma_add("     \x1b[2m"@, 5, t, n);
    lemma_reset(false);
    lemma_escape(paint::RESET@);
    lemma_add("     \x1b[2m"@ + t, 5 + n, paint::RESET@, 0);
    let line = "     \x1b[2m"@ + t + "\x1b[0m"@;
    let bg = frame::background(s, r, selected);
    lemma_background(r.state, s.plugin_selected);
    if selected {
        lemma_background_is_there(r.state, s.plugin_selected);
    }
    lemma_painted(line, bg, cols, 5 + n);
    let p = paint::painted(line, bg, cols, 5 + n);
    lemma_line_end(p, columns(p));
}

/// The line of a session takes the columns of what is shown of its name.
pub proof fn the_width_of_a_heading(session: Seq<char>, cols: int)
    requires
        plain(session),
        cols >= 0,
    ensures
        columns(frame::heading(session, cols).text) == text::clip(session, cols).len(),
{
    reveal_strlit("\x1b[1;34m");
    reveal_strlit("\x1b[0m\x1b[K\n");
    reveal_strlit("\x1b[0m");
    reveal_strlit("\x1b[K\n");
    let name = text::clip(session, cols);
    lemma_escape("\x1b[1;34m"@);
    lemma_plain(name);
    lemma_reset(false);
    lemma_escape(paint::RESET@);
    lemma_add("\x1b[1;34m"@, 0, name, name.len() as int);
    lemma_add("\x1b[1;34m"@ + name, name.len() as int, paint::RESET@, 0);
    let head = "\x1b[1;34m"@ + name + paint::RESET@;
    lemma_line_end(head, name.len() as int);
    assert(frame::heading(session, cols).text =~= head + "\x1b[K\n"@);
}

/// Does the agent's name leave a column for where it is?
pub open spec fn leaves_room(r: Row, cols: int) -> bool {
    6 + r.agent.len() < cols
}

/// No line of the list is wider than the terminal, where the agents' names leave
/// room: a line that wraps would shift all below it, and the clicks with them.
pub proof fn no_line_wraps(s: State, cols: int, n: int, k: int)
    requires
        sidebar::sound(s),
        5 <= cols,
        forall|i: int|
            0 <= i < s.rows.len() ==> plain_row(#[trigger] s.rows[i]) && leaves_room(
                s.rows[i],
                cols,
            ),
        0 <= n <= s.visible.len(),
        0 <= k < frame::list(s, cols, n).len(),
    ensures
        columns(frame::list(s, cols, n)[k].text) <= cols,
    decreases n,
{
    if n > 0 {
        let a = frame::list(s, cols, n - 1);
        let b = frame::above(s, cols, n - 1);
        let c = frame::entry(s, cols, n - 1);
        let all = frame::list(s, cols, n);
        sidebar::lemma_shown_in_range(s);
        assert(0 <= s.visible[n - 1] < s.rows.len());
        let r = frame::nth_row(s, n - 1);
        assert(plain_row(s.rows[s.visible[n - 1]]));
        let selected = frame::cursor(s) == Some(n - 1);
        lemma_parts_are_plain(r, cols);
        the_width_of_a_heading(filter::session(r.loc), cols);
        the_width_of_an_agent_line(s, r, selected, cols);
        the_width_of_a_title_line(s, r, selected, cols);
        if k < a.len() {
            no_line_wraps(s, cols, n - 1, k);
            assert(all[k] == a[k]);
        } else if k < a.len() + b.len() {
            assert(all[k] == b[k - a.len()]);
        } else {
            assert(all[k] == c[k - a.len() - b.len()]);
        }
    }
}

// ---------------------------------------------------------------------------
// The header

/// What the header says of the filters takes a column for each character.
pub proof fn lemma_filter_label(s: State)
    ensures
        plain(frame::filter_label(s)),
{
    reveal_strlit(" [");
    reveal_strlit("blocked");
    reveal_strlit("working");
    reveal_strlit("idle");
    reveal_strlit("done");
    reveal_strlit("]");
    reveal_strlit(" /");
    reveal_strlit(" ");
    reveal_strlit("/");
    lemma_printable(s.query);
    lemma_decimal(s.visible.len());
    lemma_decimal(s.rows.len());
}

proof fn lemma_decimal(n: nat)
    ensures
        plain(text::decimal(n)),
    decreases n,
{
    if n >= 10 {
        lemma_decimal(n / 10);
    }
}

proof fn lemma_printable(s: Seq<char>)
    ensures
        plain(text::printable(s)),
{
    let keep = |c: char| !text::control(c);
    let p = s.filter(keep);
    assert forall|i: int| 0 <= i < p.len() implies #[trigger] p[i] != '\x1b' && p[i] != '\n' by {
        s.lemma_filter_pred(keep, i);
    }
}

proof fn lemma_notice(update: Option<Seq<char>>)
    requires
        update matches Some(t) ==> plain(t),
    ensures
        takes(frame::notice(update), frame::notice_width(update)),
{
    if let Some(t) = update {
        reveal_strlit(" \x1b[2m↑");
        let bare = text::unled(t, 'v');
        text::lemma_run_end(t, 'v', 0);
        lemma_plain(bare);
        let dim = seq!['\x1b', '[', '2', 'm'];
        lemma_escape(dim);
        lemma_plain(seq![' ']);
        lemma_plain(seq!['↑']);
        lemma_add(seq![' '], 1, dim, 0);
        lemma_add(seq![' '] + dim, 1, seq!['↑'], 1);
        assert(" \x1b[2m↑"@ =~= seq![' '] + dim + seq!['↑']);
        lemma_add(" \x1b[2m↑"@, 2, bare, bare.len() as int);
        lemma_reset(false);
        lemma_escape(paint::RESET@);
        lemma_add(" \x1b[2m↑"@ + bare, 2 + bare.len() as int, paint::RESET@, 0);
    } else {
        lemma_plain(frame::notice(update));
    }
}

/// The header takes the columns of its parts, and is filled up to the edge while
/// the user navigates the sidebar. It does not wrap, where the notice leaves room
/// for its first word.
pub proof fn the_width_of_the_header(s: State, cols: int)
    requires
        s.update matches Some(t) ==> plain(t),
        cols >= 0,
    ensures
        ({
            let width = 6 + frame::filter_shown(s, cols).len() as int + frame::notice_width(
                s.update,
            );
            &&& columns(frame::header(s, cols)) == (if s.plugin_selected && width < cols {
                cols
            } else {
                width
            })
            &&& 6 + frame::notice_width(s.update) <= cols ==> columns(frame::header(s, cols))
                <= cols
        }),
{
    reveal_strlit("\x1b[H");
    reveal_strlit("\x1b[48;5;236m");
    reveal_strlit("\x1b[1magents\x1b[22m\x1b[2m");
    reveal_strlit("\x1b[22m");
    reveal_strlit("\x1b[0m\x1b[K\n");
    reveal_strlit("\x1b[K\n");
    reveal_strlit("\x1b[0m");
    let shown = frame::filter_shown(s, cols);
    let notice = frame::notice(s.update);
    let f = shown.len() as int;
    let n = frame::notice_width(s.update);
    lemma_filter_label(s);
    assert(plain(shown));
    lemma_plain(shown);
    lemma_notice(s.update);
    let home = "\x1b[H"@;
    lemma_escape(home);
    let bar = if s.plugin_selected {
        paint::BAR_BG@
    } else {
        Seq::empty()
    };
    if s.plugin_selected {
        lemma_escape(bar);
    } else {
        lemma_plain(bar);
    }
    let title = "\x1b[1magents\x1b[22m\x1b[2m"@;
    let bold = seq!['\x1b', '[', '1', 'm'];
    let word = seq!['a', 'g', 'e', 'n', 't', 's'];
    let faint = seq!['\x1b', '[', '2', '2', 'm'];
    let dim = seq!['\x1b', '[', '2', 'm'];
    lemma_escape(bold);
    lemma_plain(word);
    lemma_escape(faint);
    lemma_escape(dim);
    lemma_add(bold, 0, word, 6);
    lemma_add(bold + word, 6, faint, 0);
    lemma_add(bold + word + faint, 6, dim, 0);
    assert(title =~= bold + word + faint + dim);
    let off = "\x1b[22m"@;
    lemma_escape(off);
    let pad = if s.plugin_selected {
        text::fill(' ', text::over(cols, 6 + f + n))
    } else {
        Seq::empty()
    };
    let p = pad.len() as int;
    lemma_plain(pad);
    lemma_add(home, 0, bar, 0);
    lemma_add(home + bar, 0, title, 6);
    lemma_add(home + bar + title, 6, shown, f);
    lemma_add(home + bar + title + shown, 6 + f, off, 0);
    lemma_add(home + bar + title + shown + off, 6 + f, notice, n);
    let head = home + bar + title + shown + off + notice;
    lemma_add(head, 6 + f + n, pad, p);
    lemma_reset(false);
    lemma_escape(paint::RESET@);
    lemma_add(head + pad, 6 + f + n + p, paint::RESET@, 0);
    lemma_line_end(head + pad + paint::RESET@, 6 + f + n + p);
    assert(frame::header(s, cols) =~= head + pad + paint::RESET@ + "\x1b[K\n"@);
}

/// The hint takes the columns of what is shown of it, and does not wrap.
pub proof fn the_width_of_the_hint(s: State, cols: int)
    requires
        cols >= 0,
    ensures
        columns(frame::hint_line(s, cols)) == frame::hint(s, cols).len() <= cols,
{
    reveal_strlit("↵ nav · ^u clear · esc clear");
    reveal_strlit("f status · j/k · esc clear");
    reveal_strlit("j/k · ↵ open · esc clear");
    reveal_strlit("u update · / search");
    reveal_strlit("\x1b[2m");
    reveal_strlit("\x1b[0m\x1b[K\n");
    reveal_strlit("\x1b[K\n");
    reveal_strlit("\x1b[0m");
    let h = frame::hint(s, cols);
    assert(plain(h));
    lemma_plain(h);
    lemma_escape("\x1b[2m"@);
    lemma_reset(false);
    lemma_escape(paint::RESET@);
    lemma_add("\x1b[2m"@, 0, h, h.len() as int);
    lemma_add("\x1b[2m"@ + h, h.len() as int, paint::RESET@, 0);
    let head = "\x1b[2m"@ + h + paint::RESET@;
    lemma_line_end(head, h.len() as int);
    if h.len() > 0 {
        assert(frame::hint_line(s, cols) =~= head + "\x1b[K\n"@);
    } else {
        lemma_plain(frame::hint_line(s, cols));
    }
}

} // verus!
