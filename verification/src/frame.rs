//! The frame: what the sidebar draws, and which pane each of its lines stands
//! for.

use crate::filter;
use crate::overlay;
use crate::paint;
use crate::scan;
use crate::scan::{PaneRow, Row};
use crate::sidebar;
use crate::sidebar::{Sidebar, State};
use crate::text;
use vstd::prelude::*;
use vstd::string::*;

verus! {

// ---------------------------------------------------------------------------
// The header

/// The notice of a later release.
pub open spec fn notice(update: Option<Seq<char>>) -> Seq<char> {
    match update {
        Some(t) => " \x1b[2m↑"@ + text::unled(t, 'v') + "\x1b[0m"@,
        None => Seq::empty(),
    }
}

/// How many columns the notice takes.
pub open spec fn notice_width(update: Option<Seq<char>>) -> int {
    match update {
        Some(t) => 2 + text::unled(t, 'v').len() as int,
        None => 0,
    }
}

/// Is there a filter that hides rows?
pub open spec fn filtering(s: State) -> bool {
    s.filter is Some || text::trim(s.query).len() > 0
}

/// What the header says of the filters, and of how many rows pass them.
pub open spec fn filter_label(s: State) -> Seq<char> {
    (match s.filter {
        Some(f) => " ["@ + filter::state_of(f) + "]"@,
        None => if s.searching || s.query.len() > 0 {
            " /"@ + text::printable(s.query)
        } else {
            Seq::empty()
        },
    }) + (if filtering(s) {
        " "@ + text::decimal(s.visible.len()) + "/"@ + text::decimal(s.rows.len())
    } else {
        Seq::empty()
    })
}

/// What fits of it.
pub open spec fn filter_shown(s: State, cols: int) -> Seq<char> {
    text::clip(filter_label(s), text::over(cols, 6 + notice_width(s.update)))
}

/// What the keys do just now, where it is worth saying.
pub open spec fn hint_label(s: State) -> Seq<char> {
    if s.searching {
        "↵ nav · ^u clear · esc clear"@
    } else if s.filter is Some {
        "f status · j/k · esc clear"@
    } else if text::trim(s.query).len() > 0 {
        "j/k · ↵ open · esc clear"@
    } else if s.update is Some {
        "u update · / search"@
    } else {
        Seq::empty()
    }
}

/// What fits of it.
pub open spec fn hint(s: State, cols: int) -> Seq<char> {
    text::clip(hint_label(s), cols)
}

/// How many lines the hint takes.
pub open spec fn hint_rows(s: State, cols: int) -> int {
    if hint(s, cols).len() > 0 {
        1
    } else {
        0
    }
}

/// The first line of the frame.
pub open spec fn header(s: State, cols: int) -> Seq<char> {
    "\x1b[H"@ + (if s.plugin_selected {
        paint::BAR_BG@
    } else {
        Seq::empty()
    }) + "\x1b[1magents\x1b[22m\x1b[2m"@ + filter_shown(s, cols) + "\x1b[22m"@ + notice(s.update)
        + (if s.plugin_selected {
        text::fill(
            ' ',
            text::over(cols, 6 + filter_shown(s, cols).len() + notice_width(s.update)),
        )
    } else {
        Seq::empty()
    }) + "\x1b[0m\x1b[K\n"@
}

/// The line of the hint, where there is one.
pub open spec fn hint_line(s: State, cols: int) -> Seq<char> {
    if hint_rows(s, cols) > 0 {
        "\x1b[2m"@ + hint(s, cols) + "\x1b[0m\x1b[K\n"@
    } else {
        Seq::empty()
    }
}

/// How many lines of the list fit: the last row of the terminal stays free, for
/// a line end there would scroll.
pub open spec fn space(s: State, cols: int, rows: int) -> int {
    text::over(text::over(rows, 1), 1 + hint_rows(s, cols))
}

// ---------------------------------------------------------------------------
// The list

/// A line of the list, and the pane it stands for.
pub struct Line {
    pub text: String,
    pub pane: String,
}

/// A line of the list, and the pane it stands for.
#[verifier::ext_equal]
pub struct Drawn {
    pub text: Seq<char>,
    pub pane: Seq<char>,
}

impl View for Line {
    type V = Drawn;

    open spec fn view(&self) -> Drawn {
        Drawn { text: self.text@, pane: self.pane@ }
    }
}

/// Lines of the list.
pub open spec fn drawn(v: Seq<Line>) -> Seq<Drawn> {
    v.map_values(|l: Line| l@)
}

/// The line above the rows of a session. It stands for no pane.
pub open spec fn heading(session: Seq<char>, cols: int) -> Drawn {
    Drawn { text: "\x1b[1;34m"@ + text::clip(session, cols) + "\x1b[0m\x1b[K\n"@, pane: "-"@ }
}

/// Where the agent of a row is, as far as it fits.
pub open spec fn whereabouts(r: Row, cols: int) -> Seq<char> {
    let all = filter::window(r.loc) + " "@ + r.cwd;
    let room = text::over(cols, 6 + r.agent.len() as int);
    if room > 0 {
        text::clip(all, room)
    } else {
        all
    }
}

/// The background of a row.
pub open spec fn background(s: State, r: Row, selected: bool) -> Seq<char> {
    if selected {
        paint::row_background(r.state, s.plugin_selected)
    } else {
        Seq::empty()
    }
}

/// The line of an agent.
pub open spec fn agent_line(s: State, r: Row, selected: bool, cols: int) -> Drawn {
    let rest = whereabouts(r, cols);
    let line = " "@ + paint::mark(selected, s.plugin_selected, r.state) + paint::sign(
        r.state,
        s.tick,
    ) + " \x1b[1m"@ + r.agent + "\x1b[0m \x1b[2m"@ + rest + "\x1b[0m"@;
    Drawn {
        text: paint::painted(
            line,
            background(s, r, selected),
            cols,
            6 + r.agent.len() as int + rest.len() as int,
        ) + "\x1b[K\n"@,
        pane: r.pane,
    }
}

/// The line of an agent's title.
pub open spec fn title_line(s: State, r: Row, selected: bool, cols: int) -> Drawn {
    let t = text::clip(r.title, text::over(cols, 5));
    Drawn {
        text: paint::painted(
            "     \x1b[2m"@ + t + "\x1b[0m"@,
            background(s, r, selected),
            cols,
            5 + t.len() as int,
        ) + "\x1b[K\n"@,
        pane: r.pane,
    }
}

/// The `n`-th of the rows that are shown.
pub open spec fn nth_row(s: State, n: int) -> Row {
    s.rows[s.visible[n]]
}

/// Does the `n`-th row begin a session?
pub open spec fn begins(s: State, n: int) -> bool {
    filter::session(nth_row(s, n).loc) != (if n == 0 {
        Seq::empty()
    } else {
        filter::session(nth_row(s, n - 1).loc)
    })
}

/// The row that the cursor is on.
pub open spec fn cursor(s: State) -> Option<int> {
    filter::cursor(s.rows, s.visible, s.sel, s.plugin_selected, s.active)
}

/// The lines above the `n`-th row: that of its session, if it begins one.
pub open spec fn above(s: State, cols: int, n: int) -> Seq<Drawn> {
    if begins(s, n) {
        seq![heading(filter::session(nth_row(s, n).loc), cols)]
    } else {
        Seq::empty()
    }
}

/// The lines of the `n`-th row.
pub open spec fn entry(s: State, cols: int, n: int) -> Seq<Drawn> {
    let r = nth_row(s, n);
    let selected = cursor(s) == Some(n);
    if r.title.len() > 0 {
        seq![agent_line(s, r, selected, cols), title_line(s, r, selected, cols)]
    } else {
        seq![agent_line(s, r, selected, cols)]
    }
}

/// The lines of the first `n` rows, with those of their sessions.
pub open spec fn list(s: State, cols: int, n: int) -> Seq<Drawn>
    decreases n,
{
    if n <= 0 {
        Seq::empty()
    } else {
        list(s, cols, n - 1) + above(s, cols, n - 1) + entry(s, cols, n - 1)
    }
}

/// All lines of the list.
pub open spec fn whole(s: State, cols: int) -> Seq<Drawn> {
    list(s, cols, s.visible.len() as int)
}

// ---------------------------------------------------------------------------
// The window on the list

/// The first line that should be in sight: that of the cursor, or of the session
/// above it.
pub open spec fn top(s: State, cols: int, c: int) -> int {
    let t = list(s, cols, c).len() + above(s, cols, c).len();
    if t > 0 && whole(s, cols)[t - 1].pane == "-"@ {
        t - 1
    } else {
        t as int
    }
}

/// The last line that should be in sight.
pub open spec fn bottom(s: State, cols: int, c: int) -> int {
    list(s, cols, c + 1).len() - 1
}

/// The least change of `scroll` that brings the lines from `top` to `bottom`
/// into sight; the top comes first where they do not all fit.
pub open spec fn brought(scroll: int, space: int, top: int, bottom: int) -> int {
    let x = if bottom + 1 > scroll + space {
        bottom + 1 - space
    } else {
        scroll
    };
    if top < x {
        top
    } else {
        x
    }
}

/// The first line to draw of a list of `total` lines, where `room` lines fit and
/// those in `sight` should be drawn.
pub open spec fn scroll_for(scroll: int, room: int, total: int, sight: Option<(int, int)>) -> int {
    if room == 0 {
        0
    } else {
        let x = match sight {
            Some((t, b)) => brought(scroll, room, t, b),
            None => scroll,
        };
        let most = text::over(total, room);
        if x < most {
            x
        } else {
            most
        }
    }
}

/// The lines that should be in sight: those of the cursor's row.
pub open spec fn sight(s: State, cols: int) -> Option<(int, int)> {
    match cursor(s) {
        Some(c) => Some((top(s, cols, c), bottom(s, cols, c))),
        None => None,
    }
}

/// The first line of the list that is drawn.
pub open spec fn scrolled(s: State, cols: int, rows: int) -> int {
    scroll_for(s.scroll, space(s, cols, rows), whole(s, cols).len() as int, sight(s, cols))
}

/// The lines of the list that are drawn.
pub open spec fn in_view(s: State, cols: int, rows: int) -> Seq<Drawn> {
    let from = scrolled(s, cols, rows);
    let total = whole(s, cols).len() as int;
    let to = from + space(s, cols, rows);
    whole(s, cols).subrange(
        from,
        if to < total {
            to
        } else {
            total
        },
    )
}

/// The text of lines.
pub open spec fn texts(v: Seq<Drawn>) -> Seq<char>
    decreases v.len(),
{
    if v.len() == 0 {
        Seq::empty()
    } else {
        texts(v.drop_last()) + v.last().text
    }
}

/// The panes of lines, a line for each.
pub open spec fn panes(v: Seq<Drawn>) -> Seq<char>
    decreases v.len(),
{
    if v.len() == 0 {
        Seq::empty()
    } else {
        panes(v.drop_last()) + (v.last().pane + "\n"@)
    }
}

// ---------------------------------------------------------------------------
// The frame

/// Is there a list to draw?
pub open spec fn has_list(s: State) -> bool {
    s.rows.len() > 0 && s.visible.len() > 0
}

/// What stands under the header.
pub open spec fn body(s: State, cols: int, rows: int) -> Seq<char> {
    if s.rows.len() == 0 {
        "\x1b[2mno agents\x1b[0m\x1b[K\n"@
    } else if s.visible.len() == 0 {
        "\x1b[2mno matches · Esc shows all\x1b[0m\x1b[K\n"@
    } else {
        texts(in_view(s, cols, rows))
    }
}

/// The frame.
pub open spec fn frame(s: State, cols: int, rows: int) -> Seq<char> {
    header(s, cols) + hint_line(s, cols) + body(s, cols, rows) + "\x1b[J"@
}

/// For each line of the frame under the header the pane it stands for: a click
/// on the line goes there.
pub open spec fn row_map(s: State, cols: int, rows: int) -> Seq<char> {
    (if hint_rows(s, cols) > 0 {
        "-\n"@
    } else {
        Seq::empty()
    }) + (if has_list(s) {
        panes(in_view(s, cols, rows))
    } else {
        Seq::empty()
    })
}

/// The sidebar after the frame was drawn: the list may have been scrolled.
pub open spec fn after_frame(s: State, cols: int, rows: int) -> State {
    if has_list(s) {
        State { scroll: scrolled(s, cols, rows), ..s }
    } else {
        s
    }
}

// ---------------------------------------------------------------------------
// Drawing

fn less(a: usize, b: usize) -> (r: usize)
    ensures
        r == text::over(a as int, b as int),
{
    if a > b {
        a - b
    } else {
        0
    }
}

/// A sum, or the greatest number: a width as great as that leaves no room in any
/// case.
fn sum(a: usize, b: usize) -> (r: usize)
    ensures
        r == if a + b > usize::MAX {
            usize::MAX as int
        } else {
            a + b
        },
{
    if a > usize::MAX - b {
        usize::MAX
    } else {
        a + b
    }
}

fn notice_text(update: &Option<String>) -> (r: (String, usize))
    ensures
        r.0@ == notice(overlay::maybe(*update)),
        r.1 == if notice_width(overlay::maybe(*update)) > usize::MAX {
            usize::MAX as int
        } else {
            notice_width(overlay::maybe(*update))
        },
{
    match update {
        Some(t) => {
            let bare = text::without_lead(t.as_str(), 'v');
            let n: usize = bare.as_str().unicode_len();
            let mut s = text::owned(" \x1b[2m↑");
            s.append(bare.as_str());
            s.append("\x1b[0m");
            (s, sum(2, n))
        },
        None => {
            let s = String::new();
            assert(s@ =~= Seq::<char>::empty());
            (s, 0)
        },
    }
}

impl Sidebar {
    fn filter_text(&self) -> (r: String)
        ensures
            r@ == filter_label(self@),
    {
        let bare = text::trimmed(self.query.as_str());
        let counts = self.state_filter.is_some() || !bare.as_str().is_empty();
        let mut s = match self.state_filter {
            Some(f) => {
                let mut t = text::owned(" [");
                t.append(f.label());
                t.append("]");
                t
            },
            None => {
                if self.search_focused || !self.query.as_str().is_empty() {
                    let plain = text::printable_of(self.query.as_str());
                    let mut t = text::owned(" /");
                    t.append(plain.as_str());
                    t
                } else {
                    String::new()
                }
            },
        };
        if counts {
            s.append(" ");
            text::append_decimal(&mut s, self.visible.len() as u64);
            s.append("/");
            text::append_decimal(&mut s, self.rows.len() as u64);
        }
        assert(s@ =~= filter_label(self@));
        s
    }

    fn hint_text(&self) -> (r: String)
        ensures
            r@ == hint_label(self@),
    {
        let bare = text::trimmed(self.query.as_str());
        if self.search_focused {
            text::owned("↵ nav · ^u clear · esc clear")
        } else if self.state_filter.is_some() {
            text::owned("f status · j/k · esc clear")
        } else if !bare.as_str().is_empty() {
            text::owned("j/k · ↵ open · esc clear")
        } else if self.update.is_some() {
            text::owned("u update · / search")
        } else {
            let s = String::new();
            assert(s@ =~= Seq::<char>::empty());
            s
        }
    }

    fn header_text(&self, cols: usize) -> (r: String)
        ensures
            r@ == header(self@, cols as int),
    {
        let (notice, notice_len) = notice_text(&self.update);
        let label = self.filter_text();
        let shown = text::clipped(label.as_str(), less(less(cols, 6), notice_len));
        assert(shown@ == filter_shown(self@, cols as int));
        let mut s = text::owned("\x1b[H");
        if self.plugin_selected {
            s.append(paint::BAR_BG);
        }
        s.append("\x1b[1magents\x1b[22m\x1b[2m");
        s.append(shown.as_str());
        s.append("\x1b[22m");
        s.append(notice.as_str());
        if self.plugin_selected {
            let n: usize = shown.as_str().unicode_len();
            let pad = text::blanks(less(less(less(cols, 6), n), notice_len));
            s.append(pad.as_str());
        }
        s.append("\x1b[0m\x1b[K\n");
        assert(s@ =~= header(self@, cols as int));
        s
    }
}

fn heading_line(session: &str, cols: usize) -> (r: Line)
    ensures
        r@ == heading(session@, cols as int),
{
    let clip = text::clipped(session, cols);
    let mut s = text::owned("\x1b[1;34m");
    s.append(clip.as_str());
    s.append("\x1b[0m\x1b[K\n");
    Line { text: s, pane: text::owned("-") }
}

fn whereabouts_text(row: &PaneRow, cols: usize) -> (r: String)
    ensures
        r@ == whereabouts(row@, cols as int),
{
    let mut all = filter::window_of(row.loc.as_str());
    all.append(" ");
    all.append(row.cwd.as_str());
    let room: usize = less(less(cols, 6), row.agent.as_str().unicode_len());
    if room > 0 {
        text::clipped(all.as_str(), room)
    } else {
        all
    }
}

impl Sidebar {
    fn draw_agent(&self, row: &PaneRow, selected: bool, cols: usize) -> (r: Line)
        ensures
            r@ == agent_line(self@, row@, selected, cols as int),
    {
        let mark = paint::cursor_mark(selected, self.plugin_selected, row.state.as_str());
        let dot = paint::dot(row.state.as_str(), self.tick);
        let rest = whereabouts_text(row, cols);
        let mut line = text::owned(" ");
        line.append(mark.as_str());
        line.append(dot.as_str());
        line.append(" \x1b[1m");
        line.append(row.agent.as_str());
        line.append("\x1b[0m \x1b[2m");
        line.append(rest.as_str());
        line.append("\x1b[0m");
        let bg = if selected {
            paint::state_bg(row.state.as_str(), self.plugin_selected)
        } else {
            ""
        };
        proof {
            reveal_strlit("");
            assert(bg@ =~= background(self@, row@, selected));
        }
        let width: usize = sum(
            sum(6, row.agent.as_str().unicode_len()),
            rest.as_str().unicode_len(),
        );
        let mut s = paint::bar(line.as_str(), bg, cols, width);
        s.append("\x1b[K\n");
        Line { text: s, pane: row.pane.clone() }
    }

    fn draw_title(&self, row: &PaneRow, selected: bool, cols: usize) -> (r: Line)
        ensures
            r@ == title_line(self@, row@, selected, cols as int),
    {
        let t = text::clipped(row.title.as_str(), less(cols, 5));
        let mut line = text::owned("     \x1b[2m");
        line.append(t.as_str());
        line.append("\x1b[0m");
        let bg = if selected {
            paint::state_bg(row.state.as_str(), self.plugin_selected)
        } else {
            ""
        };
        proof {
            reveal_strlit("");
            assert(bg@ =~= background(self@, row@, selected));
        }
        let width: usize = sum(5, t.as_str().unicode_len());
        let mut s = paint::bar(line.as_str(), bg, cols, width);
        s.append("\x1b[K\n");
        Line { text: s, pane: row.pane.clone() }
    }

    fn lines(&self, cols: usize, on: Option<usize>) -> (r: (Vec<Line>, usize, usize))
        requires
            sidebar::sound(self@),
            match on {
                Some(c) => cursor(self@) == Some(c as int),
                None => cursor(self@) is None,
            },
        ensures
            drawn(r.0@) == whole(self@, cols as int),
            match cursor(self@) {
                Some(c) => r.1 == list(self@, cols as int, c).len() + above(
                    self@,
                    cols as int,
                    c,
                ).len() && r.2 == bottom(self@, cols as int, c),
                None => true,
            },
    {
        proof {
            sidebar::lemma_shown_in_range(self@);
            lemma_cursor(self@);
        }
        let ghost s = self@;
        let ghost w = cols as int;
        let mut out: Vec<Line> = Vec::new();
        let mut first: usize = 0;
        let mut last: usize = 0;
        let mut session = String::new();
        let mut n: usize = 0;
        assert(session@ =~= Seq::<char>::empty());
        assert(drawn(out@) =~= Seq::<Drawn>::empty());
        while n < self.visible.len()
            invariant
                s == self@,
                w == cols as int,
                filter::in_range(s.visible, s.rows.len()),
                match on {
                    Some(c) => cursor(s) == Some(c as int) && c < s.visible.len(),
                    None => cursor(s) is None,
                },
                n <= self.visible@.len(),
                drawn(out@) == list(s, w, n as int),
                session@ == (if n == 0 {
                    Seq::empty()
                } else {
                    filter::session(nth_row(s, n - 1).loc)
                }),
                match cursor(s) {
                    Some(c) => c < n ==> first == list(s, w, c).len() + above(s, w, c).len()
                        && last == bottom(s, w, c),
                    None => true,
                },
            decreases self.visible@.len() - n,
        {
            assert(s.visible[n as int] == self.visible@[n as int]);
            let row = &self.rows[self.visible[n]];
            assert(row@ == nth_row(s, n as int));
            let here = filter::session_of(row.loc.as_str());
            let ghost was = out@;
            if !text::same(here.as_str(), session.as_str()) {
                let head = heading_line(here.as_str(), cols);
                out.push(head);
                assert(drawn(out@) =~= drawn(was).push(head@));
            }
            session = here;
            assert(drawn(out@) =~= list(s, w, n as int) + above(s, w, n as int));
            let selected = match on {
                Some(c) => c == n,
                None => false,
            };
            if selected {
                first = out.len();
            }
            let ghost mid = out@;
            let line = self.draw_agent(row, selected, cols);
            out.push(line);
            assert(drawn(out@) =~= drawn(mid).push(line@));
            if !row.title.as_str().is_empty() {
                let ghost mid2 = out@;
                let line = self.draw_title(row, selected, cols);
                out.push(line);
                assert(drawn(out@) =~= drawn(mid2).push(line@));
            }
            assert(drawn(out@) =~= list(s, w, n + 1));
            if selected {
                last = out.len() - 1;
            }
            n += 1;
        }
        (out, first, last)
    }
}

pub proof fn lemma_cursor(s: State)
    ensures
        cursor(s) matches Some(c) ==> 0 <= c < s.visible.len(),
{
    filter::lemma_place_of(s.rows, s.visible, s.active, 0);
}

proof fn lemma_list_grows(s: State, cols: int, n: int, m: int)
    requires
        0 <= n <= m,
    ensures
        list(s, cols, n).len() <= list(s, cols, m).len(),
        list(s, cols, m).take(list(s, cols, n).len() as int) == list(s, cols, n),
    decreases m - n,
{
    if n < m {
        lemma_list_grows(s, cols, n, m - 1);
        let a = list(s, cols, n);
        let b = list(s, cols, m - 1);
        let c = list(s, cols, m);
        assert(c.take(a.len() as int) =~= b.take(a.len() as int));
    } else {
        assert(list(s, cols, m).take(list(s, cols, n).len() as int) =~= list(s, cols, n));
    }
}

pub proof fn lemma_top_in_whole(s: State, cols: int, c: int)
    requires
        0 <= c < s.visible.len(),
    ensures
        list(s, cols, c).len() + above(s, cols, c).len() <= bottom(s, cols, c),
        0 <= top(s, cols, c) <= bottom(s, cols, c) < whole(s, cols).len(),
{
    lemma_list_grows(s, cols, c + 1, s.visible.len() as int);
}

fn scroll_to(scroll: usize, room: usize, total: usize, sight: Option<(usize, usize)>) -> (r: usize)
    requires
        sight matches Some(p) ==> p.1 < total,
    ensures
        r == scroll_for(
            scroll as int,
            room as int,
            total as int,
            match sight {
                Some(p) => Some((p.0 as int, p.1 as int)),
                None => None,
            },
        ),
{
    if room == 0 {
        return 0;
    }
    let mut x: usize = scroll;
    if let Some((t, b)) = sight {
        // b + 1 > scroll + room
        if b >= room && b - room >= x {
            x = b - room + 1;
        }
        if t < x {
            x = t;
        }
    }
    let most: usize = less(total, room);
    if x < most {
        x
    } else {
        most
    }
}

/// What a drawing gives.
pub struct Rendered {
    pub frame: String,
    /// For each line of the frame under the header the pane it stands for.
    pub row_map: String,
}

impl Sidebar {
    fn draw_list(&mut self, cols: usize, rows: usize, room: usize) -> (r: (String, String))
        requires
            sidebar::sound(old(self)@),
            has_list(old(self)@),
            room == space(old(self)@, cols as int, rows as int),
        ensures
            r.0@ == texts(in_view(old(self)@, cols as int, rows as int)),
            r.1@ == panes(in_view(old(self)@, cols as int, rows as int)),
            final(self)@ == after_frame(old(self)@, cols as int, rows as int),
    {
        let ghost s = self@;
        let ghost w = cols as int;
        let ghost h = rows as int;
        let ghost all = whole(s, w);
        proof {
            sidebar::lemma_shown_in_range(s);
            lemma_cursor(s);
        }
        let on = filter::cursor_row(
            &self.rows,
            &self.visible,
            self.sel,
            self.plugin_selected,
            self.active.as_str(),
        );
        let (lines, first, last) = self.lines(cols, on);
        assert(lines@.len() == all.len());
        let shown: Option<(usize, usize)> = match on {
            Some(c) => {
                proof {
                    lemma_top_in_whole(s, w, c as int);
                }
                let mut t: usize = first;
                if t > 0 {
                    assert(all[t - 1] == lines@[t - 1]@);
                    if text::same(lines[t - 1].pane.as_str(), "-") {
                        t -= 1;
                    }
                }
                Some((t, last))
            },
            None => None,
        };
        let from: usize = scroll_to(self.scroll, room, lines.len(), shown);
        assert(from == scrolled(s, w, h));
        self.scroll = from;
        let mut out = String::new();
        let mut map = String::new();
        let ghost view = in_view(s, w, h);
        let mut i: usize = from;
        assert(from <= all.len());
        assert(view.take(0) =~= Seq::<Drawn>::empty());
        assert(out@ =~= Seq::<char>::empty());
        assert(map@ =~= Seq::<char>::empty());
        while i < lines.len() && i - from < room
            invariant
                drawn(lines@) == all,
                all == whole(s, w),
                from == scrolled(s, w, h),
                room == space(s, w, h),
                view == in_view(s, w, h),
                from <= i <= lines@.len(),
                i - from <= room,
                out@ == texts(view.take(i - from)),
                map@ == panes(view.take(i - from)),
            decreases lines@.len() - i,
        {
            proof {
                assert(all[i as int] == lines@[i as int]@);
                assert(view[i - from] == all[i as int]);
                assert(view.take(i + 1 - from).drop_last() =~= view.take(i - from));
                assert(view.take(i + 1 - from).last() == lines@[i as int]@);
            }
            out.append(lines[i].text.as_str());
            map.append(lines[i].pane.as_str());
            map.append("\n");
            assert(map@ =~= panes(view.take(i + 1 - from)));
            i += 1;
        }
        assert(view.take(i - from) =~= view);
        (out, map)
    }

    /// Draws the frame for a terminal of `cols` columns and `rows` rows, and
    /// scrolls the list so that the cursor is in sight.
    pub fn render(&mut self, cols: usize, rows: usize) -> (r: Rendered)
        requires
            sidebar::sound(old(self)@),
        ensures
            r.frame@ == frame(old(self)@, cols as int, rows as int),
            r.row_map@ == row_map(old(self)@, cols as int, rows as int),
            final(self)@ == after_frame(old(self)@, cols as int, rows as int),
            sidebar::sound(final(self)@),
    {
        let ghost s = self@;
        let ghost w = cols as int;
        let ghost h = rows as int;
        let mut out = self.header_text(cols);
        let label = self.hint_text();
        let hint_shown = text::clipped(label.as_str(), cols);
        let has_hint = !hint_shown.as_str().is_empty();
        let taken: usize = if has_hint {
            2
        } else {
            1
        };
        let room: usize = less(less(rows, 1), taken);
        let mut map = String::new();
        assert(map@ =~= Seq::<char>::empty());
        if has_hint {
            out.append("\x1b[2m");
            out.append(hint_shown.as_str());
            out.append("\x1b[0m\x1b[K\n");
            map.append("-\n");
            assert(map@ =~= "-\n"@);
        }
        assert(out@ =~= header(s, w) + hint_line(s, w));
        if self.rows.len() == 0 {
            out.append("\x1b[2mno agents\x1b[0m\x1b[K\n");
        } else if self.visible.len() == 0 {
            out.append("\x1b[2mno matches · Esc shows all\x1b[0m\x1b[K\n");
        } else {
            let (lines, panes_of) = self.draw_list(cols, rows, room);
            out.append(lines.as_str());
            map.append(panes_of.as_str());
        }
        out.append("\x1b[J");
        assert(out@ =~= frame(s, w, h));
        assert(map@ =~= row_map(s, w, h));
        Rendered { frame: out, row_map: map }
    }
}

} // verus!
