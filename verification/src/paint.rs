//! Colours, marks and bars.

use crate::text;
use vstd::prelude::*;
use vstd::string::*;

verus! {

/// The escape character.
pub const E: &'static str = "\x1b";

/// The background of the title bar while the user navigates the sidebar: one
/// step lighter than a dark terminal.
pub const BAR_BG: &'static str = "\x1b[48;5;236m";

/// What takes all colours back.
pub const RESET: &'static str = "\x1b[0m";

/// The background of the row under the cursor.
pub open spec fn row_background(state: Seq<char>, focused: bool) -> Seq<char> {
    if state == "blocked"@ {
        if focused {
            "\x1b[48;2;42;16;16m"@
        } else {
            "\x1b[48;2;32;12;12m"@
        }
    } else if state == "working"@ {
        if focused {
            "\x1b[48;2;38;32;16m"@
        } else {
            "\x1b[48;2;29;24;12m"@
        }
    } else {
        if focused {
            "\x1b[48;2;15;36;16m"@
        } else {
            "\x1b[48;2;11;27;12m"@
        }
    }
}

/// The background of the row under the cursor.
pub fn state_bg(state: &str, focused: bool) -> (r: &'static str)
    ensures
        r@ == row_background(state@, focused),
{
    if text::same(state, "blocked") {
        if focused {
            "\x1b[48;2;42;16;16m"
        } else {
            "\x1b[48;2;32;12;12m"
        }
    } else if text::same(state, "working") {
        if focused {
            "\x1b[48;2;38;32;16m"
        } else {
            "\x1b[48;2;29;24;12m"
        }
    } else {
        if focused {
            "\x1b[48;2;15;36;16m"
        } else {
            "\x1b[48;2;11;27;12m"
        }
    }
}

/// A line on a background that goes on to the edge: after every reset the
/// background is set again.
pub open spec fn painted(line: Seq<char>, bg: Seq<char>, cols: int, width: int) -> Seq<char> {
    if bg.len() == 0 {
        line
    } else {
        bg + text::replace(line, RESET@, RESET@ + bg) + text::fill(' ', text::over(cols, width))
            + RESET@
    }
}

/// A line `width` columns wide on a background that goes on to column `cols`.
pub fn bar(line: &str, bg: &str, cols: usize, width: usize) -> (r: String)
    ensures
        r@ == painted(line@, bg@, cols as int, width as int),
{
    if bg.is_empty() {
        return text::owned(line);
    }
    proof {
        reveal_strlit("\x1b[0m");
    }
    let mut again = text::owned(RESET);
    again.append(bg);
    let body = text::replaced(line, RESET, again.as_str());
    let mut s = text::owned(bg);
    s.append(body.as_str());
    let room: usize = if cols > width {
        cols - width
    } else {
        0
    };
    let pad = text::blanks(room);
    s.append(pad.as_str());
    s.append(RESET);
    s
}

/// Does the reset stand at the place?
pub open spec fn reset_at(s: Seq<char>, p: int) -> bool {
    0 <= p && p + 4 <= s.len() && s[p] == '\x1b' && s[p + 1] == '[' && s[p + 2] == '0' && s[p + 3]
        == 'm'
}

proof fn lemma_reset_at(s: Seq<char>, p: int)
    requires
        0 <= p,
    ensures
        RESET@.len() == 4,
        RESET@[0] == '\x1b',
        text::stands_at(s, RESET@, p) == reset_at(s, p),
{
    reveal_strlit("\x1b[0m");
    if reset_at(s, p) {
        assert(s.subrange(p, p + 4) =~= RESET@);
    }
    if text::stands_at(s, RESET@, p) {
        let t = s.subrange(p, p + 4);
        assert(t[0] == s[p] && t[1] == s[p + 1] && t[2] == s[p + 2] && t[3] == s[p + 3]);
    }
}

/// What is left of a painted line from the `i`-th character of the line on.
spec fn painted_from(line: Seq<char>, bg: Seq<char>, room: int, i: int) -> Seq<char> {
    text::replace_from(line, RESET@, RESET@ + bg, i) + (text::fill(' ', room) + RESET@)
}

proof fn lemma_painted_step(line: Seq<char>, bg: Seq<char>, room: int, i: int)
    requires
        0 <= i < line.len(),
    ensures
        painted_from(line, bg, room, i) == (if reset_at(line, i) {
            RESET@ + bg + painted_from(line, bg, room, i + 4)
        } else {
            seq![line[i]] + painted_from(line, bg, room, i + 1)
        }),
{
    lemma_reset_at(line, i);
    let g = painted_from(line, bg, room, i);
    if reset_at(line, i) {
        assert(g =~= RESET@ + bg + painted_from(line, bg, room, i + 4));
    } else {
        assert(g =~= seq![line[i]] + painted_from(line, bg, room, i + 1));
    }
}

/// Behind the end of the line there is no part of a reset but a whole one.
proof fn lemma_painted_end(line: Seq<char>, bg: Seq<char>, room: int, i: int)
    requires
        i >= line.len(),
    ensures
        painted_from(line, bg, room, i) == text::fill(' ', room) + RESET@,
        painted_from(line, bg, room, i).len() >= 4,
        painted_from(line, bg, room, i)[0] == ' ' || painted_from(line, bg, room, i)[0] == '\x1b',
{
    lemma_reset_at(line, 0);
    assert(painted_from(line, bg, room, i) =~= text::fill(' ', room) + RESET@);
}

/// The rest of a reset in front of what is left of the line stood in the line.
proof fn lemma_part_of_reset(line: Seq<char>, bg: Seq<char>, room: int, i: int)
    requires
        0 <= i,
    ensures
        ({
            let g = painted_from(line, bg, room, i);
            &&& g.len() >= 4
            &&& g[0] == 'm' ==> i < line.len() && line[i] == 'm'
            &&& g[0] == '0' && g[1] == 'm' ==> i + 1 < line.len() && line[i] == '0' && line[i + 1]
                == 'm'
            &&& g[0] == '[' && g[1] == '0' && g[2] == 'm' ==> i + 2 < line.len() && line[i] == '['
                && line[i + 1] == '0' && line[i + 2] == 'm'
        }),
    decreases line.len() - i,
{
    lemma_reset_at(line, 0);
    if i >= line.len() {
        lemma_painted_end(line, bg, room, i);
    } else {
        lemma_painted_step(line, bg, room, i);
        if !reset_at(line, i) {
            lemma_part_of_reset(line, bg, room, i + 1);
            let g = painted_from(line, bg, room, i);
            let h = painted_from(line, bg, room, i + 1);
            assert(g[1] == h[0] && g[2] == h[1]);
        }
    }
}

/// A background of its own: one escape sequence or more, and no reset.
pub open spec fn is_background(bg: Seq<char>) -> bool {
    &&& bg.len() > 0
    &&& bg.last() == 'm'
    &&& forall|p: int| !#[trigger] reset_at(bg, p)
}

/// A reset in a text behind a background stands in the text.
proof fn lemma_behind_background(bg: Seq<char>, s: Seq<char>, p: int)
    requires
        is_background(bg),
        reset_at(bg + s, p),
    ensures
        p >= bg.len(),
        reset_at(s, p - bg.len()),
{
    let t = bg + s;
    if p < bg.len() {
        if p + 4 <= bg.len() {
            assert(reset_at(bg, p));
        } else {
            assert(t[bg.len() - 1] == bg.last());
        }
    }
}

proof fn lemma_resets_in_paint(line: Seq<char>, bg: Seq<char>, room: int, i: int, p: int)
    requires
        0 <= i,
        is_background(bg),
        reset_at(painted_from(line, bg, room, i), p),
    ensures
        ({
            let g = painted_from(line, bg, room, i);
            p + 4 == g.len() || text::stands_at(g, bg, p + 4)
        }),
    decreases line.len() - i,
{
    let g = painted_from(line, bg, room, i);
    lemma_reset_at(line, 0);
    if i >= line.len() {
        lemma_painted_end(line, bg, room, i);
        let f = text::fill(' ', room);
        if p < f.len() {
            assert(g[p] == ' ');
        } else {
            assert(g[p] == RESET@[p - f.len()]);
        }
    } else {
        lemma_painted_step(line, bg, room, i);
        if reset_at(line, i) {
            let h = painted_from(line, bg, room, i + 4);
            reveal_strlit("\x1b[0m");
            if p == 0 {
                assert(g.subrange(4, 4 + bg.len() as int) =~= bg);
            } else if p < 4 {
                assert(g[p] == RESET@[p]);
            } else {
                assert(reset_at(bg + h, p - 4)) by {
                    assert(g =~= RESET@ + (bg + h));
                }
                lemma_behind_background(bg, h, p - 4);
                lemma_resets_in_paint(line, bg, room, i + 4, p - 4 - bg.len());
                let q = p - 4 - bg.len();
                if q + 4 != h.len() {
                    assert(g.subrange(p + 4, p + 4 + bg.len()) =~= h.subrange(
                        q + 4,
                        q + 4 + bg.len(),
                    ));
                }
            }
        } else {
            let h = painted_from(line, bg, room, i + 1);
            if p == 0 {
                lemma_part_of_reset(line, bg, room, i + 1);
                assert(h[0] == g[1] && h[1] == g[2] && h[2] == g[3]);
            } else {
                assert(reset_at(h, p - 1));
                lemma_resets_in_paint(line, bg, room, i + 1, p - 1);
                if p - 1 + 4 != h.len() {
                    assert(g.subrange(p + 4, p + 4 + bg.len()) =~= h.subrange(
                        p + 3,
                        p + 3 + bg.len(),
                    ));
                }
            }
        }
    }
}

/// The background is set again after every reset but the last, which ends the
/// line.
pub proof fn every_reset_is_followed_by_the_background(
    line: Seq<char>,
    bg: Seq<char>,
    cols: int,
    width: int,
    p: int,
)
    requires
        is_background(bg),
        reset_at(painted(line, bg, cols, width), p),
    ensures
        p + RESET@.len() == painted(line, bg, cols, width).len() || text::stands_at(
            painted(line, bg, cols, width),
            bg,
            p + RESET@.len(),
        ),
{
    let room = text::over(cols, width);
    let t = painted(line, bg, cols, width);
    let g = painted_from(line, bg, room, 0);
    lemma_reset_at(line, 0);
    assert(t =~= bg + g);
    lemma_behind_background(bg, g, p);
    let q = p - bg.len();
    lemma_resets_in_paint(line, bg, room, 0, q);
    if q + 4 != g.len() {
        assert(t.subrange(p + 4, p + 4 + bg.len()) =~= g.subrange(q + 4, q + 4 + bg.len()));
    }
}

/// What the rows under the cursor and the title bar are painted on are
/// backgrounds.
pub proof fn the_backgrounds_are_backgrounds(state: Seq<char>, focused: bool)
    ensures
        is_background(row_background(state, focused)),
        is_background(BAR_BG@),
{
    reveal_strlit("\x1b[48;2;42;16;16m");
    reveal_strlit("\x1b[48;2;32;12;12m");
    reveal_strlit("\x1b[48;2;38;32;16m");
    reveal_strlit("\x1b[48;2;29;24;12m");
    reveal_strlit("\x1b[48;2;15;36;16m");
    reveal_strlit("\x1b[48;2;11;27;12m");
    reveal_strlit("\x1b[48;5;236m");
}

/// The colour of a state.
pub open spec fn hue(state: Seq<char>) -> Seq<char> {
    if state == "blocked"@ {
        "31"@
    } else if state == "working"@ {
        "33"@
    } else {
        "32"@
    }
}

/// The cursor in front of a row: in the colour of its state, and bold while the
/// user navigates the sidebar.
pub open spec fn mark(selected: bool, plugin_selected: bool, state: Seq<char>) -> Seq<char> {
    if !selected {
        "  "@
    } else if plugin_selected {
        "\x1b[1;"@ + hue(state) + "m❯\x1b[0m "@
    } else {
        "\x1b["@ + hue(state) + "m❯\x1b[0m "@
    }
}

/// The cursor in front of a row, or blanks where it is not.
pub fn cursor_mark(selected: bool, plugin_selected: bool, state: &str) -> (r: String)
    ensures
        r@ == mark(selected, plugin_selected, state@),
{
    if !selected {
        return text::owned("  ");
    }
    let fg = if text::same(state, "blocked") {
        "31"
    } else if text::same(state, "working") {
        "33"
    } else {
        "32"
    };
    let mut s = if plugin_selected {
        text::owned("\x1b[1;")
    } else {
        text::owned("\x1b[")
    };
    s.append(fg);
    s.append("m❯\x1b[0m ");
    s
}

/// The spinner at a step.
pub open spec fn spinner(step: int) -> Seq<char> {
    if step == 0 {
        "⠹"@
    } else if step == 1 {
        "⢸"@
    } else if step == 2 {
        "⣰"@
    } else if step == 3 {
        "⣤"@
    } else if step == 4 {
        "⣆"@
    } else if step == 5 {
        "⡇"@
    } else if step == 6 {
        "⠏"@
    } else {
        "⠛"@
    }
}

/// The sign of a state at a tick: what waits for the user blinks, what works
/// spins.
pub open spec fn sign(state: Seq<char>, tick: int) -> Seq<char> {
    let on = tick / 2 % 2 == 0;
    if state == "blocked"@ {
        if on {
            "\x1b[31m⣿\x1b[0m"@
        } else {
            " "@
        }
    } else if state == "working"@ {
        "\x1b[33m"@ + spinner(tick % 8) + "\x1b[0m"@
    } else if state == "done"@ && !on {
        " "@
    } else {
        "\x1b[32m⣿\x1b[0m"@
    }
}

/// The sign of a state at a tick.
pub fn dot(state: &str, tick: u32) -> (r: String)
    ensures
        r@ == sign(state@, tick as int),
{
    let on = tick / 2 % 2 == 0;
    if text::same(state, "blocked") {
        if on {
            text::owned("\x1b[31m⣿\x1b[0m")
        } else {
            text::owned(" ")
        }
    } else if text::same(state, "working") {
        let step: u32 = tick % 8;
        let mut s = text::owned("\x1b[33m");
        s.append(
            match step {
                0 => "⠹",
                1 => "⢸",
                2 => "⣰",
                3 => "⣤",
                4 => "⣆",
                5 => "⡇",
                6 => "⠏",
                _ => "⠛",
            },
        );
        s.append("\x1b[0m");
        s
    } else if text::same(state, "done") {
        if on {
            text::owned("\x1b[32m⣿\x1b[0m")
        } else {
            text::owned(" ")
        }
    } else {
        text::owned("\x1b[32m⣿\x1b[0m")
    }
}

/// The ticks come round after forty: every sign is then where it was.
pub const TICKS: u32 = 40;

/// The tick after this one.
pub fn next_tick(tick: u32) -> (r: u32)
    requires
        tick < u32::MAX,
    ensures
        r == (tick + 1) % TICKS as int,
        r < TICKS,
{
    (tick + 1) % TICKS
}

/// A round of ticks leaves every sign as it was.
pub proof fn signs_come_round(state: Seq<char>, tick: int)
    requires
        0 <= tick,
    ensures
        sign(state, tick % TICKS as int) == sign(state, tick),
{
    assert((tick % 40) % 8 == tick % 8);
    assert((tick % 40) / 2 % 2 == tick / 2 % 2);
}

} // verus!
