//! What the list of rows shows, line by line, and where it is scrolled to.

use crate::filter;
use crate::filter::StateFilter;
use crate::frame;
use crate::frame::Drawn;
use crate::paint;
use crate::scan::Row;
use crate::sidebar;
use crate::sidebar::State;
use crate::text;
use vstd::prelude::*;

verus! {

/// How many of the first `n` shown rows have a title.
pub open spec fn titles(s: State, n: int) -> int
    decreases n,
{
    if n <= 0 {
        0
    } else {
        titles(s, n - 1) + (if s.rows[s.visible[n - 1]].title.len() > 0 {
            1int
        } else {
            0
        })
    }
}

/// Is the session of the `n`th shown row another than that of the row above it?
/// The first row stands under no session.
pub open spec fn opens(s: State, n: int) -> bool {
    let here = text::before(s.rows[s.visible[n]].loc, ':');
    if n == 0 {
        here.len() > 0
    } else {
        here != text::before(s.rows[s.visible[n - 1]].loc, ':')
    }
}

/// How many of the first `n` shown rows open a session.
pub open spec fn sessions(s: State, n: int) -> int
    decreases n,
{
    if n <= 0 {
        0
    } else {
        sessions(s, n - 1) + (if opens(s, n - 1) {
            1int
        } else {
            0
        })
    }
}

/// The place in the list of the `n`th shown row: below it stand as many lines as
/// the rows before it, their titles, and the sessions up to its own.
pub open spec fn place(s: State, n: int) -> int {
    n + titles(s, n) + sessions(s, n + 1)
}

proof fn lemma_begins(s: State, n: int)
    requires
        0 <= n,
    ensures
        frame::begins(s, n) == opens(s, n),
{
    if n == 0 {
        let here = text::before(s.rows[s.visible[n]].loc, ':');
        if here.len() == 0 {
            assert(here =~= Seq::<char>::empty());
        }
    }
}

/// The list has a line for each shown row, one more for each title and one for
/// each session that begins.
pub proof fn the_list_has_a_line_for_each_row_title_and_session(s: State, cols: int, n: int)
    requires
        0 <= n,
    ensures
        frame::list(s, cols, n).len() == n + titles(s, n) + sessions(s, n),
    decreases n,
{
    if n > 0 {
        the_list_has_a_line_for_each_row_title_and_session(s, cols, n - 1);
        lemma_begins(s, n - 1);
    }
}

/// The whole list.
pub proof fn the_whole_list_has_so_many_lines(s: State, cols: int)
    ensures
        frame::whole(s, cols).len() == s.visible.len() + titles(s, s.visible.len() as int) + sessions(
            s,
            s.visible.len() as int,
        ),
{
    the_list_has_a_line_for_each_row_title_and_session(s, cols, s.visible.len() as int);
}

proof fn lemma_kept(s: State, cols: int, n: int, m: int)
    requires
        0 <= n <= m,
    ensures
        frame::list(s, cols, n).len() <= frame::list(s, cols, m).len(),
        forall|k: int|
            0 <= k < frame::list(s, cols, n).len() ==> frame::list(s, cols, m)[k] == frame::list(s, cols, n)[k],
    decreases m - n,
{
    if n < m {
        lemma_kept(s, cols, n, m - 1);
    }
}

/// Whatever its state, each shown row has its line in the list, in the order of
/// the rows, and it stands for the row's pane. Right under it, where the row has
/// a title, comes the title's line, which stands for the same pane. Right above
/// it, where its session begins, comes the session's line, which stands for no
/// pane.
pub proof fn each_row_has_its_lines(s: State, cols: int, n: int)
    requires
        0 <= n < s.visible.len(),
    ensures
        ({
            let r = s.rows[s.visible[n]];
            let list = frame::whole(s, cols);
            let p = place(s, n);
            let selected = frame::cursor(s) == Some(n);
            &&& 0 <= p < list.len()
            &&& list[p] == frame::agent_line(s, r, selected, cols)
            &&& list[p].pane == r.pane
            &&& r.title.len() > 0 ==> p + 1 < list.len() && list[p + 1] == frame::title_line(s, r, selected, cols)
                && list[p + 1].pane == r.pane
            &&& opens(s, n) ==> p > 0 && list[p - 1] == frame::heading(text::before(r.loc, ':'), cols) && list[p - 1].pane
                == seq!['-']
            &&& n + 1 < s.visible.len() ==> place(s, n + 1) == p + 1 + (if r.title.len() > 0 {
                1int
            } else {
                0
            }) + (if opens(s, n + 1) {
                1int
            } else {
                0
            })
        }),
{
    reveal_strlit("-");
    assert("-"@ =~= seq!['-']);
    let m = s.visible.len() as int;
    the_list_has_a_line_for_each_row_title_and_session(s, cols, n);
    the_list_has_a_line_for_each_row_title_and_session(s, cols, n + 1);
    lemma_begins(s, n);
    lemma_kept(s, cols, n + 1, m);
    let before = frame::list(s, cols, n);
    let now = frame::list(s, cols, n + 1);
    assert(now == before + frame::above(s, cols, n) + frame::entry(s, cols, n));
    let p = place(s, n);
    assert(p == before.len() + frame::above(s, cols, n).len());
    assert(now[p] == frame::entry(s, cols, n)[0]);
    assert(frame::whole(s, cols)[p] == now[p]);
    if s.rows[s.visible[n]].title.len() > 0 {
        assert(now[p + 1] == frame::entry(s, cols, n)[1]);
        assert(frame::whole(s, cols)[p + 1] == now[p + 1]);
    }
    if opens(s, n) {
        assert(now[p - 1] == frame::above(s, cols, n)[0]);
        assert(frame::whole(s, cols)[p - 1] == now[p - 1]);
    }
}

/// The room that the agent's line has behind the agent's name is filled with the
/// window and the directory; where there is none, they are not cut.
pub open spec fn rest_of(r: Row, cols: int) -> Seq<char> {
    let window = match text::after(r.loc, ':') {
        Some(w) => w,
        None => Seq::empty(),
    };
    let all = window + seq![' '] + r.cwd;
    if cols > 6 + r.agent.len() {
        text::clip(all, cols - 6 - r.agent.len())
    } else {
        all
    }
}

/// An agent's line holds its mark, its sign, its name in bold, and dimly where it
/// is; under the cursor all of it lies on the colour of the state.
pub proof fn an_agent_line_shows_who_and_where(s: State, r: Row, cols: int)
    ensures
        frame::agent_line(s, r, false, cols).text == seq![' ', ' ', ' '] + paint::sign(r.state, s.tick) + " \x1b[1m"@
            + r.agent + "\x1b[0m \x1b[2m"@ + rest_of(r, cols) + "\x1b[0m"@ + "\x1b[K\n"@,
        frame::agent_line(s, r, true, cols).text == paint::painted(
            seq![' '] + paint::mark(true, s.plugin_selected, r.state) + paint::sign(r.state, s.tick) + " \x1b[1m"@
                + r.agent + "\x1b[0m \x1b[2m"@ + rest_of(r, cols) + "\x1b[0m"@,
            paint::row_background(r.state, s.plugin_selected),
            cols,
            (6 + r.agent.len() + rest_of(r, cols).len()) as int,
        ) + "\x1b[K\n"@,
        frame::agent_line(s, r, true, cols).pane == r.pane,
        frame::agent_line(s, r, false, cols).pane == r.pane,
{
    reveal_strlit(" ");
    reveal_strlit("  ");
    assert(" "@ =~= seq![' ']);
    assert("  "@ =~= seq![' ', ' ']);
    assert(seq![' '] + seq![' ', ' '] =~= seq![' ', ' ', ' ']);
    assert(frame::whereabouts(r, cols) == rest_of(r, cols));
}

/// A title's line holds the title, set in and dim, cut to the width; under the
/// cursor it lies on the colour of the state.
pub proof fn a_title_line_shows_the_title(s: State, r: Row, cols: int)
    requires
        cols >= 0,
    ensures
        ({
            let t = if cols > 5 {
                text::clip(r.title, cols - 5)
            } else {
                Seq::empty()
            };
            let line = seq![' ', ' ', ' ', ' ', ' '] + "\x1b[2m"@ + t + "\x1b[0m"@;
            &&& frame::title_line(s, r, false, cols).text == line + "\x1b[K\n"@
            &&& frame::title_line(s, r, true, cols).text == paint::painted(
                line,
                paint::row_background(r.state, s.plugin_selected),
                cols,
                (5 + t.len()) as int,
            ) + "\x1b[K\n"@
            &&& text::occurs(frame::title_line(s, r, false, cols).text, t)
            &&& frame::title_line(s, r, true, cols).pane == r.pane
            &&& frame::title_line(s, r, false, cols).pane == r.pane
        }),
{
    reveal_strlit("     \x1b[2m");
    reveal_strlit("\x1b[2m");
    let t = if cols > 5 {
        text::clip(r.title, cols - 5)
    } else {
        Seq::empty()
    };
    let lead = seq![' ', ' ', ' ', ' ', ' '] + "\x1b[2m"@;
    assert("     \x1b[2m"@ =~= lead);
    crate::text_laws::a_text_stands_in_its_surroundings(lead, t, "\x1b[0m"@ + "\x1b[K\n"@);
    assert(lead + t + "\x1b[0m"@ + "\x1b[K\n"@ =~= lead + t + ("\x1b[0m"@ + "\x1b[K\n"@));
}

/// A session's line holds its name, cut to the width, and stands for no pane.
pub proof fn a_heading_shows_the_session(session: Seq<char>, cols: int)
    ensures
        frame::heading(session, cols).text == "\x1b[1;34m"@ + text::clip(session, cols) + "\x1b[0m\x1b[K\n"@,
        frame::heading(session, cols).pane == seq!['-'],
{
    reveal_strlit("-");
    assert("-"@ =~= seq!['-']);
}

/// Does no row stand for the pane `-`? (A pane is named by a per cent sign and a
/// number.)
pub open spec fn panes_are_named(s: State) -> bool {
    forall|i: int| 0 <= i < s.rows.len() ==> (#[trigger] s.rows[i]).pane != seq!['-']
}

/// The first line that has to be in sight for the cursor's row is its own, or
/// that of the session which begins there, and the last is its title's.
pub proof fn the_lines_of_the_cursor_are_these(s: State, cols: int, c: int)
    requires
        sidebar::sound(s),
        panes_are_named(s),
        0 <= c < s.visible.len(),
    ensures
        frame::top(s, cols, c) == c + titles(s, c) + sessions(s, c),
        frame::bottom(s, cols, c) == c + titles(s, c + 1) + sessions(s, c + 1),
{
    reveal_strlit("-");
    assert("-"@ =~= seq!['-']);
    the_list_has_a_line_for_each_row_title_and_session(s, cols, c);
    the_list_has_a_line_for_each_row_title_and_session(s, cols, c + 1);
    lemma_begins(s, c);
    each_row_has_its_lines(s, cols, c);
    if c > 0 {
        each_row_has_its_lines(s, cols, c - 1);
        sidebar::lemma_shown_in_range(s);
        assert(0 <= s.visible[c - 1] < s.rows.len());
        let above = s.rows[s.visible[c - 1]];
        assert(s.rows[s.visible[c - 1]].pane != seq!['-']);
        if !opens(s, c) {
            assert(frame::whole(s, cols)[place(s, c) - 1].pane == above.pane);
        }
    }
}

/// The list is scrolled no further than it must be: where the cursor's lines are
/// in sight it stays, where they are below it comes up until the last is in
/// sight, where they are above it goes down to the first; and it never goes past
/// its end.
pub proof fn the_list_is_scrolled_only_as_far_as_needed(s: State, cols: int, rows: int)
    requires
        frame::space(s, cols, rows) > 0,
        frame::cursor(s) is Some,
    ensures
        ({
            let c = frame::cursor(s)->0;
            let room = frame::space(s, cols, rows);
            let top = frame::top(s, cols, c);
            let bottom = frame::bottom(s, cols, c);
            let total = frame::whole(s, cols).len() as int;
            let most = if total > room {
                total - room
            } else {
                0
            };
            let from = frame::scrolled(s, cols, rows);
            &&& s.scroll <= top && bottom < s.scroll + room && s.scroll <= most ==> from == s.scroll
            &&& s.scroll <= top && bottom < s.scroll + room && s.scroll > most ==> from == most
            &&& bottom >= s.scroll + room && bottom - top < room && bottom < total ==> from == bottom + 1 - room
            &&& top < s.scroll && bottom < s.scroll + room && top <= most ==> from == top
            &&& top < s.scroll && bottom < s.scroll + room && top > most ==> from == most
        }),
{
}

/// Without a cursor the list stays where it is, but for its end; without room it
/// stands at its start.
pub proof fn the_list_stays_without_a_cursor(s: State, cols: int, rows: int)
    ensures
        frame::space(s, cols, rows) == 0 ==> frame::scrolled(s, cols, rows) == 0,
        frame::space(s, cols, rows) > 0 && frame::cursor(s) is None && s.scroll + frame::space(s, cols, rows)
            <= frame::whole(s, cols).len() ==> frame::scrolled(s, cols, rows) == s.scroll,
        frame::space(s, cols, rows) > 0 && frame::cursor(s) is None && s.scroll + frame::space(s, cols, rows)
            > frame::whole(s, cols).len() >= frame::space(s, cols, rows) ==> frame::scrolled(s, cols, rows)
            == frame::whole(s, cols).len() - frame::space(s, cols, rows),
        frame::space(s, cols, rows) > 0 && frame::cursor(s) is None && s.scroll >= 0 && frame::whole(s, cols).len()
            < frame::space(s, cols, rows) ==> frame::scrolled(s, cols, rows) == 0,
{
}

/// What is in view is the list from where it is scrolled to, line after line,
/// for as long as there is room and there are lines.
pub proof fn the_view_is_the_list_from_there(s: State, cols: int, rows: int, k: int)
    requires
        sidebar::sound(s),
        s.scroll >= 0,
    ensures
        ({
            let from = frame::scrolled(s, cols, rows);
            let room = frame::space(s, cols, rows);
            let left = frame::whole(s, cols).len() - from;
            &&& frame::in_view(s, cols, rows).len() == (if left < room {
                left
            } else {
                room
            })
            &&& 0 <= k < frame::in_view(s, cols, rows).len() ==> frame::in_view(s, cols, rows)[k] == frame::whole(
                s,
                cols,
            )[from + k]
        }),
{
    if frame::space(s, cols, rows) > 0 {
        crate::frame_laws::no_room_is_wasted(s, cols, rows);
    }
}

/// The line of the row under the cursor is drawn wherever there is room for the
/// row and its session.
pub proof fn the_row_under_the_cursor_is_drawn(s: State, cols: int, rows: int)
    requires
        sidebar::sound(s),
        panes_are_named(s),
        s.scroll >= 0,
        frame::cursor(s) is Some,
        frame::space(s, cols, rows) >= 3,
    ensures
        ({
            let c = frame::cursor(s)->0;
            let r = s.rows[s.visible[c]];
            let view = frame::in_view(s, cols, rows);
            let k = place(s, c) - frame::scrolled(s, cols, rows);
            &&& 0 <= k < view.len()
            &&& view[k] == frame::agent_line(s, r, true, cols)
            &&& r.title.len() > 0 ==> k + 1 < view.len() && view[k + 1] == frame::title_line(s, r, true, cols)
        }),
{
    frame::lemma_cursor(s);
    let c = frame::cursor(s)->0;
    crate::frame_laws::the_cursor_is_in_sight(s, cols, rows);
    the_lines_of_the_cursor_are_these(s, cols, c);
    each_row_has_its_lines(s, cols, c);
    frame::lemma_top_in_whole(s, cols, c);
    let k = place(s, c) - frame::scrolled(s, cols, rows);
    the_view_is_the_list_from_there(s, cols, rows, k);
    the_view_is_the_list_from_there(s, cols, rows, k + 1);
}

/// Beside the list stand the header, the line under it where there is a hint,
/// and one line that is left free.
pub proof fn the_list_has_the_room_that_is_left(s: State, cols: int, rows: int)
    ensures
        rows >= 2 + frame::hint_rows(s, cols) ==> frame::space(s, cols, rows) == rows - 2 - frame::hint_rows(s, cols),
        rows < 2 + frame::hint_rows(s, cols) ==> frame::space(s, cols, rows) == 0,
{
}

/// Is there anything to hint at?
pub open spec fn hinting(s: State) -> bool {
    s.searching || s.filter is Some || text::trim(s.query).len() > 0 || s.update is Some
}

/// A hint takes one line, and is there while something is typed, filtered or can
/// be updated.
pub proof fn a_hint_takes_one_line(s: State, cols: int)
    requires
        cols > 0,
    ensures
        hinting(s) ==> frame::hint_rows(s, cols) == 1,
        !hinting(s) ==> frame::hint_rows(s, cols) == 0 && frame::hint_line(s, cols).len() == 0,
        frame::hint_rows(s, 0) == 0,
{
    reveal_strlit("↵ nav · ^u clear · esc clear");
    reveal_strlit("f status · j/k · esc clear");
    reveal_strlit("j/k · ↵ open · esc clear");
    reveal_strlit("u update · / search");
}

/// What the hint says: typing comes before a state filter, that before a query,
/// and that before an update.
pub proof fn a_hint_says_what_can_be_pressed(s: State, cols: int)
    requires
        cols > 0,
    ensures
        s.searching ==> frame::hint(s, cols) == text::clip("↵ nav · ^u clear · esc clear"@, cols),
        !s.searching && s.filter is Some ==> frame::hint(s, cols) == text::clip("f status · j/k · esc clear"@, cols),
        !s.searching && s.filter is None && text::trim(s.query).len() > 0 ==> frame::hint(s, cols) == text::clip(
            "j/k · ↵ open · esc clear"@,
            cols,
        ),
        !s.searching && s.filter is None && text::trim(s.query).len() == 0 && s.update is Some ==> frame::hint(s, cols)
            == text::clip("u update · / search"@, cols),
        hinting(s) ==> frame::hint_line(s, cols) == "\x1b[2m"@ + frame::hint(s, cols) + "\x1b[0m\x1b[K\n"@,
{
    a_hint_takes_one_line(s, cols);
}

/// The label says what the list is filtered by and how many of the rows are left:
/// the name of a state in brackets, or what was typed behind a slash.
pub proof fn the_label_says_what_is_filtered(s: State)
    ensures
        ({
            let count = seq![' '] + text::decimal(s.visible.len()) + seq!['/'] + text::decimal(s.rows.len());
            &&& s.filter == Some(StateFilter::Blocked) ==> frame::filter_label(s) == " [blocked]"@ + count
            &&& s.filter == Some(StateFilter::Working) ==> frame::filter_label(s) == " [working]"@ + count
            &&& s.filter == Some(StateFilter::Idle) ==> frame::filter_label(s) == " [idle]"@ + count
            &&& s.filter == Some(StateFilter::Done) ==> frame::filter_label(s) == " [done]"@ + count
            &&& s.filter is None && text::trim(s.query).len() > 0 && s.query.len() > 0 ==> frame::filter_label(s)
                == " /"@ + text::printable(s.query) + count
            &&& s.filter is None && text::trim(s.query).len() == 0 && (s.searching || s.query.len() > 0)
                ==> frame::filter_label(s) == " /"@ + text::printable(s.query)
            &&& s.filter is None && text::trim(s.query).len() == 0 && !s.searching && s.query.len() == 0
                ==> frame::filter_label(s).len() == 0
        }),
{
    reveal_strlit(" [");
    reveal_strlit("]");
    reveal_strlit(" ");
    reveal_strlit("/");
    reveal_strlit("blocked");
    reveal_strlit("working");
    reveal_strlit("idle");
    reveal_strlit("done");
    reveal_strlit(" [blocked]");
    reveal_strlit(" [working]");
    reveal_strlit(" [idle]");
    reveal_strlit(" [done]");
    assert(" ["@ + "blocked"@ + "]"@ =~= " [blocked]"@);
    assert(" ["@ + "working"@ + "]"@ =~= " [working]"@);
    assert(" ["@ + "idle"@ + "]"@ =~= " [idle]"@);
    assert(" ["@ + "done"@ + "]"@ =~= " [done]"@);
    assert(" "@ =~= seq![' ']);
    assert("/"@ =~= seq!['/']);
    let count = seq![' '] + text::decimal(s.visible.len()) + seq!['/'] + text::decimal(s.rows.len());
    assert(" "@ + text::decimal(s.visible.len()) + "/"@ + text::decimal(s.rows.len()) =~= count);
    if s.filter is None && text::trim(s.query).len() == 0 {
        assert(" /"@ + text::printable(s.query) + Seq::<char>::empty() =~= " /"@ + text::printable(s.query));
    }
}

/// The notice names the version that is out, without the letter before it.
pub proof fn the_notice_names_the_version(n: int, version: Seq<char>)
    requires
        0 <= n,
        version.len() > 0 ==> version[0] != 'v',
    ensures
        frame::notice(None).len() == 0,
        frame::notice_width(None) == 0,
        frame::notice(Some(text::fill('v', n) + version)) == " \x1b[2m↑"@ + version + "\x1b[0m"@,
        frame::notice_width(Some(text::fill('v', n) + version)) == 2 + version.len(),
{
    crate::text_laws::a_leading_run_is_dropped('v', n, version);
}

/// The header starts at the top left, says `agents`, then how the list is
/// filtered, as far as there is room, and then the notice; while the plugin is
/// focused it lies on a bar as wide as the window.
pub proof fn the_header_says_this(s: State, cols: int)
    requires
        cols >= 0,
    ensures
        ({
            let taken = 6 + frame::notice_width(s.update);
            let label = if cols > taken {
                text::clip(frame::filter_label(s), cols - taken)
            } else {
                Seq::empty()
            };
            let free = cols - taken - label.len();
            let says = "\x1b[1magents\x1b[22m\x1b[2m"@ + label + "\x1b[22m"@ + frame::notice(s.update);
            &&& !s.plugin_selected ==> frame::header(s, cols) == "\x1b[H"@ + says + "\x1b[0m\x1b[K\n"@
            &&& s.plugin_selected && free >= 0 ==> frame::header(s, cols) == "\x1b[H"@ + paint::BAR_BG@ + says
                + text::fill(' ', free) + "\x1b[0m\x1b[K\n"@
            &&& s.plugin_selected && free < 0 ==> frame::header(s, cols) == "\x1b[H"@ + paint::BAR_BG@ + says
                + "\x1b[0m\x1b[K\n"@
        }),
{
    let taken = 6 + frame::notice_width(s.update);
    let label = if cols > taken {
        text::clip(frame::filter_label(s), cols - taken)
    } else {
        Seq::empty()
    };
    let free = cols - taken - label.len();
    let says = "\x1b[1magents\x1b[22m\x1b[2m"@ + label + "\x1b[22m"@ + frame::notice(s.update);
    assert(frame::filter_shown(s, cols) =~= label);
    if !s.plugin_selected {
        assert(frame::header(s, cols) =~= "\x1b[H"@ + says + "\x1b[0m\x1b[K\n"@);
    } else if free >= 0 {
        assert(frame::header(s, cols) =~= "\x1b[H"@ + paint::BAR_BG@ + says + text::fill(' ', free)
            + "\x1b[0m\x1b[K\n"@);
    } else {
        assert(text::fill(' ', text::over(cols, 6 + label.len() + frame::notice_width(s.update))) =~= Seq::<
            char,
        >::empty());
        assert(frame::header(s, cols) =~= "\x1b[H"@ + paint::BAR_BG@ + says + "\x1b[0m\x1b[K\n"@);
    }
}

/// A frame is the header, the hint, the lines in view and an order to clear what
/// is below; without rows, or without rows to show, it says so in place of the
/// list.
pub proof fn a_frame_is_put_together(s: State, cols: int, rows: int)
    ensures
        s.rows.len() == 0 ==> frame::frame(s, cols, rows) == frame::header(s, cols) + frame::hint_line(s, cols)
            + "\x1b[2mno agents\x1b[0m\x1b[K\n"@ + "\x1b[J"@,
        s.rows.len() > 0 && s.visible.len() == 0 ==> frame::frame(s, cols, rows) == frame::header(s, cols)
            + frame::hint_line(s, cols) + "\x1b[2mno matches · Esc shows all\x1b[0m\x1b[K\n"@ + "\x1b[J"@,
        s.rows.len() > 0 && s.visible.len() > 0 ==> frame::frame(s, cols, rows) == frame::header(s, cols)
            + frame::hint_line(s, cols) + frame::texts(frame::in_view(s, cols, rows)) + "\x1b[J"@,
{
}

/// Lines are written one after the other, and so are their panes, each with a
/// line break.
pub proof fn lines_are_written_one_by_one(v: Seq<Drawn>, d: Drawn)
    ensures
        frame::texts(Seq::<Drawn>::empty()).len() == 0,
        frame::panes(Seq::<Drawn>::empty()).len() == 0,
        frame::texts(v.push(d)) == frame::texts(v) + d.text,
        frame::panes(v.push(d)) == frame::panes(v) + d.pane + seq!['\n'],
{
    reveal_strlit("\n");
    assert("\n"@ =~= seq!['\n']);
    assert(v.push(d).drop_last() =~= v);
    assert(frame::panes(v.push(d)) =~= frame::panes(v) + d.pane + seq!['\n']);
}

/// Drawing changes nothing but where the list is scrolled to, and that only
/// where a list is drawn.
pub proof fn drawing_changes_only_the_scroll(s: State, cols: int, rows: int)
    ensures
        s.rows.len() == 0 || s.visible.len() == 0 ==> frame::after_frame(s, cols, rows) == s,
        s.rows.len() > 0 && s.visible.len() > 0 ==> frame::after_frame(s, cols, rows).scroll == frame::scrolled(
            s,
            cols,
            rows,
        ),
        (State { scroll: s.scroll, ..frame::after_frame(s, cols, rows) }) == s,
{
}

/// The cursor of the list is on the selected row while the plugin is focused,
/// and else on the row of the pane that the user is in.
pub proof fn the_list_has_its_cursor(s: State, k: int)
    requires
        0 <= k < s.visible.len(),
    ensures
        s.plugin_selected && s.sel == k + 1 ==> frame::cursor(s) == Some(k),
        !s.plugin_selected && s.rows[s.visible[k]].pane == s.active && (forall|j: int|
            0 <= j < k ==> s.rows[#[trigger] s.visible[j]].pane != s.active) ==> frame::cursor(s) == Some(k),
        !s.plugin_selected && (forall|j: int|
            0 <= j < s.visible.len() ==> s.rows[#[trigger] s.visible[j]].pane != s.active) ==> frame::cursor(s) is None,
{
    crate::filter_laws::the_cursor_is_where_the_user_is(s.rows, s.visible, s.sel, s.active, k);
}

/// Where the cursor's lines do not all fit, the first of them is the first in
/// view.
pub proof fn a_row_that_does_not_fit_is_shown_from_its_top(s: State, cols: int, rows: int)
    requires
        frame::space(s, cols, rows) > 0,
        frame::cursor(s) is Some,
    ensures
        ({
            let c = frame::cursor(s)->0;
            let room = frame::space(s, cols, rows);
            let top = frame::top(s, cols, c);
            let bottom = frame::bottom(s, cols, c);
            bottom >= s.scroll + room && bottom - top >= room && bottom < frame::whole(s, cols).len()
                ==> frame::scrolled(s, cols, rows) == top
        }),
{
}

/// The map holds one line for each line under the header: a dash for the hint,
/// and then the panes of the lines in view.
pub proof fn the_map_follows_the_frame(s: State, cols: int, rows: int)
    requires
        cols > 0,
    ensures
        s.rows.len() > 0 && s.visible.len() > 0 && hinting(s) ==> frame::row_map(s, cols, rows) == seq!['-', '\n']
            + frame::panes(frame::in_view(s, cols, rows)),
        s.rows.len() > 0 && s.visible.len() > 0 && !hinting(s) ==> frame::row_map(s, cols, rows) == frame::panes(
            frame::in_view(s, cols, rows),
        ),
        (s.rows.len() == 0 || s.visible.len() == 0) && hinting(s) ==> frame::row_map(s, cols, rows) == seq!['-', '\n'],
        (s.rows.len() == 0 || s.visible.len() == 0) && !hinting(s) ==> frame::row_map(s, cols, rows).len() == 0,
{
    reveal_strlit("-\n");
    assert("-\n"@ =~= seq!['-', '\n']);
    a_hint_takes_one_line(s, cols);
    let none = Seq::<char>::empty();
    assert(none + frame::panes(frame::in_view(s, cols, rows)) =~= frame::panes(frame::in_view(s, cols, rows)));
    assert(seq!['-', '\n'] + none =~= seq!['-', '\n']);
}

} // verus!
