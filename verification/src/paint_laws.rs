//! Which colours, marks and signs stand for which state.

use crate::paint;
use crate::text;
use vstd::prelude::*;

verus! {

/// Blocked is red, working yellow, anything else green.
pub proof fn a_state_has_its_colour(state: Seq<char>)
    ensures
        paint::hue("blocked"@) == seq!['3', '1'],
        paint::hue("working"@) == seq!['3', '3'],
        state != "blocked"@ && state != "working"@ ==> paint::hue(state) == seq!['3', '2'],
{
    reveal_strlit("blocked");
    reveal_strlit("working");
    reveal_strlit("31");
    reveal_strlit("33");
    reveal_strlit("32");
    assert("blocked"@[0] == 'b' && "working"@[0] == 'w');
    assert("31"@ =~= seq!['3', '1']);
    assert("33"@ =~= seq!['3', '3']);
    assert("32"@ =~= seq!['3', '2']);
}

/// Only the selected row has a mark, in the colour of its state and bold while
/// the plugin is focused; any other has as much space.
pub proof fn only_the_selected_row_is_marked(plugin: bool, state: Seq<char>)
    ensures
        paint::mark(false, plugin, state) == seq![' ', ' '],
        paint::mark(true, true, state) == "\x1b[1;"@ + paint::hue(state) + "m❯\x1b[0m "@,
        paint::mark(true, false, state) == "\x1b["@ + paint::hue(state) + "m❯\x1b[0m "@,
{
    reveal_strlit("  ");
    assert("  "@ =~= seq![' ', ' ']);
}

/// A blocked agent's sign blinks in red, a finished one's in green: lit for two
/// ticks, out for two. A working agent's turns in yellow, one step a tick, eight
/// steps round. Any other sign is steady and green.
pub proof fn a_state_has_its_sign(state: Seq<char>, tick: int)
    requires
        0 <= tick,
    ensures
        tick % 4 < 2 ==> paint::sign("blocked"@, tick) == "\x1b[31m⣿\x1b[0m"@ && paint::sign("done"@, tick)
            == "\x1b[32m⣿\x1b[0m"@,
        tick % 4 >= 2 ==> paint::sign("blocked"@, tick) == seq![' '] && paint::sign("done"@, tick) == seq![' '],
        paint::sign("working"@, tick) == "\x1b[33m"@ + seq![
            "⠹"@, "⢸"@, "⣰"@, "⣤"@, "⣆"@, "⡇"@, "⠏"@, "⠛"@,
        ][tick % 8] + "\x1b[0m"@,
        state != "blocked"@ && state != "working"@ && state != "done"@ ==> paint::sign(state, tick)
            == "\x1b[32m⣿\x1b[0m"@,
{
    reveal_strlit("blocked");
    reveal_strlit("working");
    reveal_strlit("done");
    reveal_strlit(" ");
    assert("blocked"@[0] == 'b' && "working"@[0] == 'w' && "done"@[0] == 'd');
    assert(" "@ =~= seq![' ']);
    assert(tick / 2 % 2 == 0 <==> tick % 4 < 2) by (nonlinear_arith)
        requires
            0 <= tick,
    ;
    let turns = seq!["⠹"@, "⢸"@, "⣰"@, "⣤"@, "⣆"@, "⡇"@, "⠏"@, "⠛"@];
    assert(turns[0] == "⠹"@ && turns[1] == "⢸"@ && turns[2] == "⣰"@ && turns[3] == "⣤"@);
    assert(turns[4] == "⣆"@ && turns[5] == "⡇"@ && turns[6] == "⠏"@ && turns[7] == "⠛"@);
    assert(0 <= tick % 8 < 8);
    assert(paint::spinner(tick % 8) == turns[tick % 8]);
}

/// The background of a row is a shade of its state's colour, brighter while the
/// plugin is focused.
pub proof fn a_state_has_its_background(state: Seq<char>)
    ensures
        paint::row_background("blocked"@, true) == "\x1b[48;2;42;16;16m"@,
        paint::row_background("blocked"@, false) == "\x1b[48;2;32;12;12m"@,
        paint::row_background("working"@, true) == "\x1b[48;2;38;32;16m"@,
        paint::row_background("working"@, false) == "\x1b[48;2;29;24;12m"@,
        state != "blocked"@ && state != "working"@ ==> paint::row_background(state, true) == "\x1b[48;2;15;36;16m"@
            && paint::row_background(state, false) == "\x1b[48;2;11;27;12m"@,
{
    reveal_strlit("blocked");
    reveal_strlit("working");
    assert("blocked"@[0] == 'b' && "working"@[0] == 'w');
}

/// Without a background a line is drawn as it is. With one the colour comes
/// first and again behind every reset, and spaces fill the line to the width of
/// the window before the last reset.
pub proof fn a_background_goes_under_the_whole_line(line: Seq<char>, bg: Seq<char>, cols: int, width: int)
    ensures
        paint::painted(line, Seq::empty(), cols, width) == line,
        bg.len() > 0 && width <= cols ==> paint::painted(line, bg, cols, width) == bg + text::replace(
            line,
            "\x1b[0m"@,
            "\x1b[0m"@ + bg,
        ) + text::fill(' ', cols - width) + "\x1b[0m"@,
        bg.len() > 0 && width > cols ==> paint::painted(line, bg, cols, width) == bg + text::replace(
            line,
            "\x1b[0m"@,
            "\x1b[0m"@ + bg,
        ) + "\x1b[0m"@,
{
    if bg.len() > 0 {
        let r = text::replace(line, "\x1b[0m"@, "\x1b[0m"@ + bg);
        assert(bg + r + text::fill(' ', 0) + "\x1b[0m"@ =~= bg + r + "\x1b[0m"@);
        if width == cols {
            assert(text::fill(' ', text::over(cols, width)) =~= text::fill(' ', cols - width));
        }
    }
}

} // verus!
