//! What holds of every frame.

use crate::columns;
use crate::filter;
use crate::frame;
use crate::frame::Drawn;
use crate::paint;
use crate::scan::Row;
use crate::sidebar;
use crate::sidebar::State;
use crate::text;
use vstd::prelude::*;
use vstd::string::*;

verus! {

/// Is there no line end in the text?
pub open spec fn one_line(s: Seq<char>) -> bool {
    forall|i: int| 0 <= i < s.len() ==> #[trigger] s[i] != '\n'
}

/// Is there no line end in a row, and does its pane keep to itself at the end of
/// a line?
pub open spec fn tidy(r: Row) -> bool {
    &&& one_line(r.pane)
    &&& r.pane.len() > 0 ==> r.pane.last() != '\r'
    &&& one_line(r.loc)
    &&& one_line(r.agent)
    &&& one_line(r.cwd)
    &&& one_line(r.title)
}

/// Is there no line end in anything that the sidebar shows?
pub open spec fn all_tidy(s: State) -> bool {
    &&& forall|i: int| 0 <= i < s.rows.len() ==> tidy(#[trigger] s.rows[i])
    &&& s.update matches Some(t) ==> one_line(t)
}

// ---------------------------------------------------------------------------
// The cursor

/// The cursor's row is in sight, all of it where it fits, and else its top; so
/// is the name of its session, where that stands right above.
pub proof fn the_cursor_is_in_sight(s: State, cols: int, rows: int)
    requires
        sidebar::sound(s),
        frame::cursor(s) is Some,
        s.scroll >= 0,
        frame::space(s, cols, rows) > 0,
    ensures
        ({
            let c = frame::cursor(s)->0;
            let from = frame::scrolled(s, cols, rows);
            let room = frame::space(s, cols, rows);
            let top = frame::top(s, cols, c);
            let bottom = frame::bottom(s, cols, c);
            &&& 0 <= from <= top < from + room
            &&& bottom - top < room ==> bottom < from + room
        }),
{
    frame::lemma_cursor(s);
    frame::lemma_top_in_whole(s, cols, frame::cursor(s)->0);
}

/// The list is not scrolled past its end: as long as lines are left above, the
/// room is filled.
pub proof fn no_room_is_wasted(s: State, cols: int, rows: int)
    requires
        sidebar::sound(s),
        s.scroll >= 0,
        frame::space(s, cols, rows) > 0,
    ensures
        ({
            let from = frame::scrolled(s, cols, rows);
            let room = frame::space(s, cols, rows);
            let total = frame::whole(s, cols).len();
            &&& 0 <= from <= total
            &&& from > 0 ==> from + room <= total
        }),
{
    if frame::cursor(s) is Some {
        frame::lemma_cursor(s);
        frame::lemma_top_in_whole(s, cols, frame::cursor(s)->0);
    }
}

proof fn lemma_list_ignores_scroll(s: State, k: int, cols: int, n: int)
    ensures
        frame::list(State { scroll: k, ..s }, cols, n) == frame::list(s, cols, n),
    decreases n,
{
    if n > 0 {
        lemma_list_ignores_scroll(s, k, cols, n - 1);
        let t = State { scroll: k, ..s };
        assert(frame::above(t, cols, n - 1) == frame::above(s, cols, n - 1));
        assert(frame::entry(t, cols, n - 1) == frame::entry(s, cols, n - 1));
    }
}

/// Drawing once more changes nothing: neither the frame nor the sidebar.
pub proof fn drawing_again_changes_nothing(s: State, cols: int, rows: int)
    requires
        sidebar::sound(s),
        s.scroll >= 0,
    ensures
        frame::frame(frame::after_frame(s, cols, rows), cols, rows) == frame::frame(s, cols, rows),
        frame::row_map(frame::after_frame(s, cols, rows), cols, rows) == frame::row_map(
            s,
            cols,
            rows,
        ),
        frame::after_frame(frame::after_frame(s, cols, rows), cols, rows) == frame::after_frame(
            s,
            cols,
            rows,
        ),
{
    let t = frame::after_frame(s, cols, rows);
    let k = frame::scrolled(s, cols, rows);
    if frame::has_list(s) {
        assert(t == State { scroll: k, ..s });
        lemma_list_ignores_scroll(s, k, cols, s.visible.len() as int);
        assert(frame::whole(t, cols) == frame::whole(s, cols));
        assert(frame::cursor(t) == frame::cursor(s));
        assert(frame::space(t, cols, rows) == frame::space(s, cols, rows));
        if frame::cursor(s) is Some {
            let c = frame::cursor(s)->0;
            lemma_list_ignores_scroll(s, k, cols, c);
            lemma_list_ignores_scroll(s, k, cols, c + 1);
            assert(frame::above(t, cols, c) == frame::above(s, cols, c));
            frame::lemma_cursor(s);
            frame::lemma_top_in_whole(s, cols, c);
        }
        assert(frame::sight(t, cols) == frame::sight(s, cols));
        assert(frame::scrolled(t, cols, rows) == k);
        assert(frame::header(t, cols) == frame::header(s, cols));
        assert(frame::hint_line(t, cols) == frame::hint_line(s, cols));
    }
}

// ---------------------------------------------------------------------------
// Lines

/// Is the text a line with its line end, and no more?
pub open spec fn chunk(t: Seq<char>) -> bool {
    &&& t.len() > 0
    &&& t.last() == '\n'
    &&& one_line(t.drop_last())
    &&& t.len() > 1 ==> t[t.len() - 2] != '\r'
}

proof fn lemma_lines_of_chunk(t: Seq<char>)
    requires
        chunk(t),
    ensures
        text::lines(t) == seq![t.drop_last()],
{
    text::lemma_index_from(t, '\n', 0);
    let e = text::index_from(t, '\n', 0);
    assert(e == t.len() - 1) by {
        if e < t.len() - 1 {
            assert(t.drop_last()[e] == '\n');
        }
        if e == t.len() {
            assert(t[t.len() - 1] != '\n');
        }
    }
    assert(t.subrange(0, e) =~= t.drop_last());
    assert(text::lines_from(t, e + 1) =~= Seq::<Seq<char>>::empty());
    assert(text::lines(t) =~= seq![t.drop_last()]);
}

proof fn lemma_lines_after_chunk(t: Seq<char>, rest: Seq<char>)
    requires
        chunk(t),
    ensures
        text::lines(t + rest) == seq![t.drop_last()] + text::lines(rest),
{
    lemma_lines_of_chunk(t);
    text::lemma_lines_of_two(t, rest, 0);
}

/// The lines of texts.
pub open spec fn bare_texts(v: Seq<Drawn>) -> Seq<Seq<char>> {
    v.map_values(|d: Drawn| d.text.drop_last())
}

/// The panes of lines.
pub open spec fn bare_panes(v: Seq<Drawn>) -> Seq<Seq<char>> {
    v.map_values(|d: Drawn| d.pane)
}

/// Is each line a line, and its pane too?
pub open spec fn all_chunks(v: Seq<Drawn>) -> bool {
    forall|i: int|
        0 <= i < v.len() ==> chunk((#[trigger] v[i]).text) && chunk(v[i].pane + seq!['\n'])
}

proof fn lemma_ends_with_break(v: Seq<Drawn>)
    requires
        all_chunks(v),
    ensures
        v.len() > 0 ==> frame::texts(v).len() > 0 && frame::texts(v).last() == '\n',
        v.len() > 0 ==> frame::panes(v).len() > 0 && frame::panes(v).last() == '\n',
{
    reveal_strlit("\n");
    if v.len() > 0 {
        assert(chunk(v[v.len() - 1].text));
    }
}

proof fn lemma_lines_of_drawn(v: Seq<Drawn>)
    requires
        all_chunks(v),
    ensures
        text::lines(frame::texts(v)) == bare_texts(v),
        text::lines(frame::panes(v)) == bare_panes(v),
    decreases v.len(),
{
    reveal_strlit("\n");
    if v.len() == 0 {
        assert(text::lines(frame::texts(v)) =~= bare_texts(v));
        assert(text::lines(frame::panes(v)) =~= bare_panes(v));
    } else {
        let head = v.drop_last();
        let last = v[v.len() - 1];
        assert(v.last() == last);
        assert(all_chunks(head)) by {
            assert forall|i: int| 0 <= i < head.len() implies chunk((#[trigger] head[i]).text)
                && chunk(head[i].pane + seq!['\n']) by {
                assert(head[i] == v[i]);
            }
        }
        lemma_lines_of_drawn(head);
        lemma_lines_of_chunk(last.text);
        lemma_lines_of_chunk(last.pane + seq!['\n']);
        assert("\n"@ =~= seq!['\n']);
        assert((last.pane + seq!['\n']).drop_last() =~= last.pane);
        if head.len() > 0 {
            lemma_ends_with_break(head);
            text::lemma_lines_of_two(frame::texts(head), last.text, 0);
            text::lemma_lines_of_two(frame::panes(head), last.pane + seq!['\n'], 0);
        } else {
            assert(frame::texts(head) + last.text =~= last.text);
            assert(frame::panes(head) + (last.pane + seq!['\n']) =~= last.pane + seq!['\n']);
        }
        assert(bare_texts(v) =~= bare_texts(head) + seq![last.text.drop_last()]);
        assert(bare_panes(v) =~= bare_panes(head) + seq![last.pane]);
    }
}

// ---------------------------------------------------------------------------
// Every line is one

proof fn lemma_signs_are_one_line(state: Seq<char>, tick: int)
    ensures
        one_line(paint::sign(state, tick)),
{
    reveal_strlit("\x1b[31m⣿\x1b[0m");
    reveal_strlit("\x1b[32m⣿\x1b[0m");
    reveal_strlit("\x1b[33m");
    reveal_strlit("\x1b[0m");
    reveal_strlit(" ");
    reveal_strlit("⠹");
    reveal_strlit("⢸");
    reveal_strlit("⣰");
    reveal_strlit("⣤");
    reveal_strlit("⣆");
    reveal_strlit("⡇");
    reveal_strlit("⠏");
    reveal_strlit("⠛");
}

proof fn lemma_marks_are_one_line(selected: bool, plugin: bool, state: Seq<char>)
    ensures
        one_line(paint::mark(selected, plugin, state)),
{
    reveal_strlit("  ");
    reveal_strlit("\x1b[1;");
    reveal_strlit("\x1b[");
    reveal_strlit("31");
    reveal_strlit("33");
    reveal_strlit("32");
    reveal_strlit("m❯\x1b[0m ");
}

proof fn lemma_backgrounds_are_one_line(s: State, r: Row, selected: bool)
    ensures
        one_line(frame::background(s, r, selected)),
{
    reveal_strlit("\x1b[48;2;42;16;16m");
    reveal_strlit("\x1b[48;2;32;12;12m");
    reveal_strlit("\x1b[48;2;38;32;16m");
    reveal_strlit("\x1b[48;2;29;24;12m");
    reveal_strlit("\x1b[48;2;15;36;16m");
    reveal_strlit("\x1b[48;2;11;27;12m");
}

proof fn lemma_replaced_is_one_line(s: Seq<char>, t: Seq<char>, u: Seq<char>, i: int)
    requires
        one_line(s),
        one_line(u),
    ensures
        one_line(text::replace_from(s, t, u, i)),
    decreases s.len() - i,
{
    if 0 <= i < s.len() {
        if t.len() > 0 && text::stands_at(s, t, i) {
            lemma_replaced_is_one_line(s, t, u, i + t.len());
        } else {
            lemma_replaced_is_one_line(s, t, u, i + 1);
        }
    }
}

proof fn lemma_painted_is_one_line(line: Seq<char>, bg: Seq<char>, cols: int, width: int)
    requires
        one_line(line),
        one_line(bg),
    ensures
        one_line(paint::painted(line, bg, cols, width)),
{
    reveal_strlit("\x1b[0m");
    lemma_replaced_is_one_line(line, paint::RESET@, paint::RESET@ + bg, 0);
}

proof fn lemma_after_is_one_line(s: Seq<char>, c: char)
    requires
        one_line(s),
    ensures
        one_line(text::before(s, c)),
        text::after(s, c) matches Some(t) ==> one_line(t),
{
    text::lemma_index_from(s, c, 0);
}

proof fn lemma_agent_line(s: State, r: Row, selected: bool, cols: int)
    requires
        tidy(r),
        cols >= 0,
    ensures
        chunk(frame::agent_line(s, r, selected, cols).text),
{
    lemma_signs_are_one_line(r.state, s.tick);
    lemma_marks_are_one_line(selected, s.plugin_selected, r.state);
    lemma_backgrounds_are_one_line(s, r, selected);
    lemma_after_is_one_line(r.loc, ':');
    reveal_strlit(" ");
    reveal_strlit(" \x1b[1m");
    reveal_strlit("\x1b[0m \x1b[2m");
    reveal_strlit("\x1b[0m");
    reveal_strlit("\x1b[K\n");
    let rest = frame::whereabouts(r, cols);
    assert(one_line(rest));
    let line = " "@ + paint::mark(selected, s.plugin_selected, r.state) + paint::sign(
        r.state,
        s.tick,
    ) + " \x1b[1m"@ + r.agent + "\x1b[0m \x1b[2m"@ + rest + "\x1b[0m"@;
    assert(one_line(line));
    let bg = frame::background(s, r, selected);
    let width = 6 + r.agent.len() as int + rest.len() as int;
    lemma_painted_is_one_line(line, bg, cols, width);
    let t = paint::painted(line, bg, cols, width) + "\x1b[K\n"@;
    assert(t.drop_last() =~= paint::painted(line, bg, cols, width) + "\x1b[K\n"@.drop_last());
}

proof fn lemma_title_line(s: State, r: Row, selected: bool, cols: int)
    requires
        tidy(r),
    ensures
        chunk(frame::title_line(s, r, selected, cols).text),
{
    lemma_backgrounds_are_one_line(s, r, selected);
    reveal_strlit("     \x1b[2m");
    reveal_strlit("\x1b[0m");
    reveal_strlit("\x1b[K\n");
    let t = text::clip(r.title, text::over(cols, 5));
    let line = "     \x1b[2m"@ + t + "\x1b[0m"@;
    assert(one_line(line));
    let bg = frame::background(s, r, selected);
    lemma_painted_is_one_line(line, bg, cols, 5 + t.len() as int);
    let p = paint::painted(line, bg, cols, 5 + t.len() as int);
    assert((p + "\x1b[K\n"@).drop_last() =~= p + "\x1b[K\n"@.drop_last());
}

proof fn lemma_heading(session: Seq<char>, cols: int)
    requires
        one_line(session),
        cols >= 0,
    ensures
        chunk(frame::heading(session, cols).text),
        chunk(frame::heading(session, cols).pane + seq!['\n']),
{
    reveal_strlit("\x1b[1;34m");
    reveal_strlit("\x1b[0m\x1b[K\n");
    reveal_strlit("-");
    let a = "\x1b[1;34m"@ + text::clip(session, cols);
    assert((a + "\x1b[0m\x1b[K\n"@).drop_last() =~= a + "\x1b[0m\x1b[K\n"@.drop_last());
    assert(("-"@ + seq!['\n']).drop_last() =~= "-"@);
}

proof fn lemma_pane(r: Row)
    requires
        tidy(r),
    ensures
        chunk(r.pane + seq!['\n']),
{
    assert((r.pane + seq!['\n']).drop_last() =~= r.pane);
}

proof fn lemma_list(s: State, cols: int, n: int)
    requires
        sidebar::sound(s),
        all_tidy(s),
        cols >= 0,
        0 <= n <= s.visible.len(),
    ensures
        all_chunks(frame::list(s, cols, n)),
    decreases n,
{
    if n > 0 {
        lemma_list(s, cols, n - 1);
        sidebar::lemma_shown_in_range(s);
        assert(0 <= s.visible[n - 1] < s.rows.len());
        let r = frame::nth_row(s, n - 1);
        assert(tidy(r));
        let selected = frame::cursor(s) == Some(n - 1);
        lemma_agent_line(s, r, selected, cols);
        lemma_title_line(s, r, selected, cols);
        lemma_pane(r);
        lemma_after_is_one_line(r.loc, ':');
        lemma_heading(filter::session(r.loc), cols);
        let a = frame::list(s, cols, n - 1);
        let b = frame::above(s, cols, n - 1);
        let c = frame::entry(s, cols, n - 1);
        let all = frame::list(s, cols, n);
        assert(all =~= a + b + c);
        assert forall|i: int| 0 <= i < all.len() implies chunk((#[trigger] all[i]).text) && chunk(
            all[i].pane + seq!['\n'],
        ) by {
            if i < a.len() {
                assert(all[i] == a[i]);
            } else if i < a.len() + b.len() {
                assert(all[i] == b[i - a.len()]);
            } else {
                assert(all[i] == c[i - a.len() - b.len()]);
            }
        }
    }
}

proof fn lemma_in_view(s: State, cols: int, rows: int)
    requires
        sidebar::sound(s),
        all_tidy(s),
        cols >= 0,
        s.scroll >= 0,
    ensures
        all_chunks(frame::in_view(s, cols, rows)),
        frame::in_view(s, cols, rows).len() <= frame::space(s, cols, rows),
{
    lemma_list(s, cols, s.visible.len() as int);
    if frame::cursor(s) is Some {
        frame::lemma_cursor(s);
        frame::lemma_top_in_whole(s, cols, frame::cursor(s)->0);
    }
    let from = frame::scrolled(s, cols, rows);
    let all = frame::whole(s, cols);
    let view = frame::in_view(s, cols, rows);
    assert(0 <= from <= all.len());
    assert forall|i: int| 0 <= i < view.len() implies chunk((#[trigger] view[i]).text) && chunk(
        view[i].pane + seq!['\n'],
    ) by {
        assert(view[i] == all[from + i]);
    }
}

// ---------------------------------------------------------------------------
// The header is one line

proof fn lemma_notice(s: State)
    requires
        all_tidy(s),
    ensures
        one_line(frame::notice(s.update)),
{
    reveal_strlit(" \x1b[2m↑");
    reveal_strlit("\x1b[0m");
    if let Some(t) = s.update {
        text::lemma_run_end(t, 'v', 0);
        assert(one_line(text::unled(t, 'v')));
    }
}

proof fn lemma_header(s: State, cols: int)
    requires
        all_tidy(s),
    ensures
        chunk(frame::header(s, cols)),
{
    lemma_notice(s);
    columns::lemma_filter_label(s);
    assert(one_line(frame::filter_label(s)));
    reveal_strlit("\x1b[H");
    reveal_strlit("\x1b[48;5;236m");
    reveal_strlit("\x1b[1magents\x1b[22m\x1b[2m");
    reveal_strlit("\x1b[22m");
    reveal_strlit("\x1b[0m\x1b[K\n");
    assert(one_line(frame::filter_shown(s, cols)));
    let bar = if s.plugin_selected {
        paint::BAR_BG@
    } else {
        Seq::empty()
    };
    let pad = if s.plugin_selected {
        text::fill(
            ' ',
            text::over(cols, 6 + frame::filter_shown(s, cols).len() + frame::notice_width(s.update)),
        )
    } else {
        Seq::empty()
    };
    assert(one_line(bar));
    assert(one_line(pad));
    let a = "\x1b[H"@ + bar + "\x1b[1magents\x1b[22m\x1b[2m"@ + frame::filter_shown(s, cols)
        + "\x1b[22m"@ + frame::notice(s.update) + pad;
    assert(one_line(a));
    assert(frame::header(s, cols) =~= a + "\x1b[0m\x1b[K\n"@);
    assert((a + "\x1b[0m\x1b[K\n"@).drop_last() =~= a + "\x1b[0m\x1b[K\n"@.drop_last());
}

proof fn lemma_hint(s: State, cols: int)
    requires
        frame::hint_rows(s, cols) > 0,
        cols >= 0,
    ensures
        chunk(frame::hint_line(s, cols)),
{
    reveal_strlit("↵ nav · ^u clear · esc clear");
    reveal_strlit("f status · j/k · esc clear");
    reveal_strlit("j/k · ↵ open · esc clear");
    reveal_strlit("u update · / search");
    reveal_strlit("\x1b[2m");
    reveal_strlit("\x1b[0m\x1b[K\n");
    assert(one_line(frame::hint(s, cols)));
    let a = "\x1b[2m"@ + frame::hint(s, cols);
    assert((a + "\x1b[0m\x1b[K\n"@).drop_last() =~= a + "\x1b[0m\x1b[K\n"@.drop_last());
}

proof fn lemma_tail()
    ensures
        text::lines("\x1b[J"@) == seq!["\x1b[J"@],
{
    reveal_strlit("\x1b[J");
    let t = "\x1b[J"@;
    text::lemma_index_from(t, '\n', 0);
    assert(t.subrange(0, t.len() as int) =~= t);
    assert(text::lines(t) =~= seq![t]);
}

/// The lines of the hint, without their line ends.
pub open spec fn hint_lines(s: State, cols: int) -> Seq<Seq<char>> {
    if frame::hint_rows(s, cols) > 0 {
        seq![frame::hint_line(s, cols).drop_last()]
    } else {
        Seq::empty()
    }
}

proof fn lemma_lines_of_frame(s: State, cols: int, under: Seq<char>)
    requires
        all_tidy(s),
        cols >= 0,
    ensures
        text::lines(frame::header(s, cols) + frame::hint_line(s, cols) + under) == seq![
            frame::header(s, cols).drop_last(),
        ] + hint_lines(s, cols) + text::lines(under),
{
    let head = frame::header(s, cols);
    let hint = frame::hint_line(s, cols);
    lemma_header(s, cols);
    assert(head + hint + under =~= head + (hint + under));
    lemma_lines_after_chunk(head, hint + under);
    if frame::hint_rows(s, cols) > 0 {
        lemma_hint(s, cols);
        lemma_lines_after_chunk(hint, under);
    } else {
        assert(hint + under =~= under);
    }
    assert(text::lines(head + hint + under) =~= seq![head.drop_last()] + hint_lines(s, cols)
        + text::lines(under));
}

/// A click finds its pane: under the header the frame and the map go line by
/// line. Each line of the list that is drawn stands in the frame as far down as
/// its pane stands in the map.
pub proof fn a_click_finds_its_pane(s: State, cols: int, rows: int, k: int)
    requires
        sidebar::sound(s),
        all_tidy(s),
        frame::has_list(s),
        s.scroll >= 0,
        cols >= 0,
        0 <= k < frame::in_view(s, cols, rows).len(),
    ensures
        ({
            let drawn = frame::in_view(s, cols, rows);
            let above = frame::hint_rows(s, cols);
            let picture = text::lines(frame::frame(s, cols, rows));
            let map = text::lines(frame::row_map(s, cols, rows));
            &&& map.len() == above + drawn.len()
            &&& picture.len() == 1 + map.len() + 1
            &&& picture[1 + above + k] == drawn[k].text.drop_last()
            &&& map[above + k] == drawn[k].pane
        }),
{
    lemma_frame_lines(s, cols, rows);
    lemma_map_lines(s, cols, rows);
}

proof fn lemma_frame_lines(s: State, cols: int, rows: int)
    requires
        sidebar::sound(s),
        all_tidy(s),
        frame::has_list(s),
        s.scroll >= 0,
        cols >= 0,
    ensures
        text::lines(frame::frame(s, cols, rows)) == seq![frame::header(s, cols).drop_last()]
            + hint_lines(s, cols) + (bare_texts(frame::in_view(s, cols, rows)) + seq!["\x1b[J"@]),
{
    let view = frame::in_view(s, cols, rows);
    let under = frame::texts(view) + "\x1b[J"@;
    lemma_in_view(s, cols, rows);
    lemma_lines_of_drawn(view);
    lemma_tail();
    if view.len() > 0 {
        lemma_ends_with_break(view);
        text::lemma_lines_of_two(frame::texts(view), "\x1b[J"@, 0);
    } else {
        assert(under =~= "\x1b[J"@);
        assert(bare_texts(view) + seq!["\x1b[J"@] =~= seq!["\x1b[J"@]);
    }
    lemma_lines_of_frame(s, cols, under);
    assert(frame::frame(s, cols, rows) =~= frame::header(s, cols) + frame::hint_line(s, cols)
        + under);
}

proof fn lemma_map_lines(s: State, cols: int, rows: int)
    requires
        sidebar::sound(s),
        all_tidy(s),
        frame::has_list(s),
        s.scroll >= 0,
        cols >= 0,
    ensures
        text::lines(frame::row_map(s, cols, rows)) == (if frame::hint_rows(s, cols) > 0 {
            seq!["-"@]
        } else {
            Seq::empty()
        }) + bare_panes(frame::in_view(s, cols, rows)),
{
    let view = frame::in_view(s, cols, rows);
    lemma_in_view(s, cols, rows);
    lemma_lines_of_drawn(view);
    if frame::hint_rows(s, cols) > 0 {
        reveal_strlit("-\n");
        reveal_strlit("-");
        assert("-\n"@.drop_last() =~= "-"@);
        lemma_lines_after_chunk("-\n"@, frame::panes(view));
    } else {
        assert(frame::row_map(s, cols, rows) =~= frame::panes(view));
        assert(Seq::<Seq<char>>::empty() + bare_panes(view) =~= bare_panes(view));
    }
}

/// A frame with a list fits the terminal, where that has a row for each line
/// around the list: none of its line ends scrolls it.
pub proof fn the_frame_fits(s: State, cols: int, rows: int)
    requires
        sidebar::sound(s),
        all_tidy(s),
        frame::has_list(s),
        s.scroll >= 0,
        cols >= 0,
        2 + frame::hint_rows(s, cols) <= rows,
    ensures
        text::lines(frame::frame(s, cols, rows)).len() <= rows,
{
    lemma_frame_lines(s, cols, rows);
    lemma_in_view(s, cols, rows);
}

/// So does a frame without a list, which says so on a line of its own.
pub proof fn the_empty_frame_fits(s: State, cols: int, rows: int)
    requires
        all_tidy(s),
        !frame::has_list(s),
        cols >= 0,
        3 + frame::hint_rows(s, cols) <= rows,
    ensures
        text::lines(frame::frame(s, cols, rows)).len() <= rows,
{
    reveal_strlit("\x1b[2mno agents\x1b[0m\x1b[K\n");
    reveal_strlit("\x1b[2mno matches · Esc shows all\x1b[0m\x1b[K\n");
    let word = frame::body(s, cols, rows);
    let under = word + "\x1b[J"@;
    assert(chunk(word));
    lemma_lines_after_chunk(word, "\x1b[J"@);
    lemma_tail();
    lemma_lines_of_frame(s, cols, under);
    assert(frame::frame(s, cols, rows) =~= frame::header(s, cols) + frame::hint_line(s, cols)
        + under);
}

} // verus!
