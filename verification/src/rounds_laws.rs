//! How the rounds of the sidebar go on from each step, how long it sleeps, and
//! how much of a frame a smaller pane shows.

use crate::clock;
use crate::mirror;
use crate::rounds;
use crate::rounds::Course;
use crate::rounds::Event;
use crate::rounds::Place;
use crate::rounds::Step;
use crate::text;
use crate::tmux::TmuxError;
use vstd::prelude::*;

verus! {

/// A scan is due every two seconds, a turn of the signs four times a second.
pub proof fn these_are_the_beats()
    ensures
        clock::SCAN_EVERY == 2_000_000_000,
        clock::TICK_EVERY == 250_000_000,
        clock::FRESH == 6,
        rounds::PANE_WAIT == 3_000_000_000,
        rounds::PANE_PAUSE == 50,
        rounds::CLIENT_TRIES == 100,
        rounds::CLIENT_PAUSE == 10,
        mirror::FIFO_WAIT == 10_000_000_000,
        mirror::FIFO_PAUSE == 200,
        mirror::HOT == 300_000_000,
        mirror::STALE == 10_000_000_000,
{
}

/// A later time is as much later as is asked for, as far as the clock goes.
pub proof fn a_later_time_is_so_much_later(now: int, d: int)
    ensures
        now + d <= u64::MAX ==> clock::later(now, d) == now + d,
        now + d > u64::MAX ==> clock::later(now, d) == u64::MAX,
{
}

/// Where signs move the sleep lasts until the next turn, else until the next
/// scan, in whole milliseconds; what is due is not slept over, and no sleep is
/// longer than a poll can be told.
pub proof fn the_sleep_lasts_until_what_is_due(scan: int, tick: int, now: int, ms: int, rest: int)
    requires
        0 <= ms <= i32::MAX,
        0 <= rest < 1_000_000,
    ensures
        clock::sleep(scan, now + ms * 1_000_000 + rest, true, now) == ms,
        clock::sleep(now + ms * 1_000_000 + rest, tick, false, now) == ms,
        scan <= now ==> clock::sleep(scan, tick, false, now) == 0,
        tick <= now ==> clock::sleep(scan, tick, true, now) == 0,
        scan - now >= (i32::MAX + 1) * 1_000_000 ==> clock::sleep(scan, tick, false, now) == i32::MAX,
{
    let d: int = ms * 1_000_000 + rest;
    assert(d / 1_000_000 == ms) by (nonlinear_arith)
        requires
            d == ms * 1_000_000 + rest,
            0 <= rest < 1_000_000,
    ;
    if d == 0 {
        assert(ms == 0);
    }
    let far: int = scan - now;
    if far >= (i32::MAX + 1) * 1_000_000 {
        assert(far / 1_000_000 > i32::MAX) by (nonlinear_arith)
            requires
                far >= (i32::MAX + 1) * 1_000_000,
        ;
    }
}

/// A round ends the sidebar where it was told to; it scans where a scan is due,
/// turns the signs where some move and a turn is due, and waits else, until
/// whatever is due next.
pub proof fn a_round_does_what_is_due(c: Course, daemon: bool, quit: bool, now: u64, animating: bool)
    requires
        c.place is Start,
    ensures
        ({
            let (after, step) = rounds::turned(c, daemon, Event::Round { quit, now, animating });
            &&& quit ==> step == (Step::End { replaced: false }) && after.place == Place::Ended(false)
            &&& !quit && now >= c.next_scan ==> step is Scan && after == (Course { place: Place::Scanning, ..c })
            &&& !quit && now < c.next_scan && animating && now >= c.next_tick ==> {
                &&& step is Tick
                &&& after.place is Ticking
                &&& after.next_tick == clock::later(now as int, 250_000_000)
                &&& after.next_scan == c.next_scan
            }
            &&& !quit && now < c.next_scan && !(animating && now >= c.next_tick) ==> {
                &&& step == Step::Poll(clock::sleep(c.next_scan, c.next_tick, animating, now as int) as i32)
                &&& after == (Course { place: Place::Polling, ..c })
            }
        }),
{
}

/// A scan is followed by a frame; a daemon first asks whether it was replaced and
/// whether panes are left.
pub proof fn a_scan_leads_to_a_frame(c: Course, daemon: bool, failure: Option<TmuxError>, yes: bool)
    ensures
        c.place is Scanning && (failure matches Some(e) ==> e is Error) && !daemon ==> rounds::turned(
            c,
            daemon,
            Event::Scanned { failure },
        ) == ((Course { place: Place::Showing, ..c }), Step::Draw),
        c.place is Scanning && (failure matches Some(e) ==> e is Error) && daemon ==> rounds::turned(
            c,
            daemon,
            Event::Scanned { failure },
        ) == ((Course { place: Place::Asking, ..c }), Step::AskOwner),
        c.place is Scanning && failure is Some && !(failure->0 is Error) ==> rounds::turned(
            c,
            daemon,
            Event::Scanned { failure },
        ).1 == (Step::End { replaced: false }),
        c.place is Asking && yes ==> rounds::turned(c, daemon, Event::Owner { replaced: yes }).1 == (Step::End {
            replaced: true,
        }),
        c.place is Asking && !yes ==> rounds::turned(c, daemon, Event::Owner { replaced: yes }) == (
            (Course { place: Place::Measuring, ..c }),
            Step::Measure,
        ),
        c.place is Measuring && yes ==> rounds::turned(c, daemon, Event::Panes { left: yes }) == (
            (Course { place: Place::Showing, ..c }),
            Step::Draw,
        ),
        c.place is Measuring && !yes ==> rounds::turned(c, daemon, Event::Panes { left: yes }).1 == (Step::End {
            replaced: false,
        }),
{
}

/// The next scan is due two seconds after the frame of the last; then the signs
/// turn where that is due, and the sidebar waits.
pub proof fn a_frame_leads_to_a_wait(c: Course, daemon: bool, now: u64, animating: bool)
    ensures
        c.place is Showing ==> {
            let (after, step) = rounds::turned(c, daemon, Event::Drawn { now, animating });
            &&& after.next_scan == clock::later(now as int, 2_000_000_000)
            &&& animating && now >= c.next_tick ==> step is Tick && after.next_tick == clock::later(
                now as int,
                250_000_000,
            )
            &&& !(animating && now >= c.next_tick) ==> step == Step::Poll(
                clock::sleep(after.next_scan, c.next_tick, animating, now as int) as i32,
            ) && after.next_tick == c.next_tick && after.place is Polling
        },
        c.place matches Place::Ticking(ms) ==> rounds::turned(c, daemon, Event::Drawn { now, animating }) == (
            (Course { place: Place::Polling, ..c }),
            Step::Poll(ms),
        ),
{
}

/// What is on the pipe is taken in before a key; a key before the size of the
/// terminal is asked for; a daemon has no terminal, and begins the next round.
pub proof fn a_wait_leads_to_the_pipe_and_the_keys(c: Course, daemon: bool, key: bool, pipe: bool)
    requires
        c.place is Polling,
    ensures
        ({
            let (after, step) = rounds::turned(c, daemon, Event::Ready { key, pipe });
            &&& pipe ==> step is Drain && after == (Course { place: Place::Draining(key), ..c })
            &&& !pipe && key ==> step is ReadKey && after == (Course { place: Place::Reading, ..c })
            &&& !pipe && !key && daemon ==> step is Round && after == (Course { place: Place::Start, ..c })
            &&& !pipe && !key && !daemon ==> step is AskSize && after == (Course { place: Place::Sizing, ..c })
        }),
{
}

/// A change of focus makes a scan due at once; other notices change nothing; a
/// pipe that fails ends the sidebar. A key that was there is read then.
pub proof fn notices_lead_on_to_the_keys(c: Course, daemon: bool, key: bool, focus: bool, e: TmuxError, now: u64)
    requires
        c.place == Place::Draining(key),
    ensures
        ({
            let (after, step) = rounds::turned(c, daemon, Event::Drained { result: Ok(focus), now });
            &&& focus ==> after.next_scan == now
            &&& !focus ==> after.next_scan == c.next_scan
            &&& after.next_tick == c.next_tick
            &&& key ==> step is ReadKey
            &&& !key && daemon ==> step is Round
            &&& !key && !daemon ==> step is AskSize
        }),
        rounds::turned(c, daemon, Event::Drained { result: Err(e), now }).1 == (Step::End { replaced: false }),
{
}

/// A key that went to a search or an overlay is followed by the next round at
/// once, any other by a look at the size of the terminal; one that was changed is
/// drawn anew. An ended sidebar stays ended.
pub proof fn a_key_leads_to_the_next_round(c: Course, daemon: bool, e: Event, now: u64, animating: bool, changed: bool)
    ensures
        c.place == Place::Answering(true) ==> rounds::turned(c, daemon, Event::Drawn { now, animating }) == (
            (Course { place: Place::Start, ..c }),
            Step::Round,
        ),
        c.place == Place::Answering(false) && !daemon ==> rounds::turned(c, daemon, Event::Drawn { now, animating }) == (
            (Course { place: Place::Sizing, ..c }),
            Step::AskSize,
        ),
        c.place == Place::Answering(false) && daemon ==> rounds::turned(c, daemon, Event::Drawn { now, animating }) == (
            (Course { place: Place::Start, ..c }),
            Step::Round,
        ),
        c.place is Sizing && changed ==> rounds::turned(c, daemon, Event::Size { changed }) == (
            (Course { place: Place::Redrawing, ..c }),
            Step::Redraw,
        ),
        c.place is Sizing && !changed ==> rounds::turned(c, daemon, Event::Size { changed }) == (
            (Course { place: Place::Start, ..c }),
            Step::Round,
        ),
        c.place is Redrawing ==> rounds::turned(c, daemon, Event::Drawn { now, animating }) == (
            (Course { place: Place::Start, ..c }),
            Step::Round,
        ),
        c.place matches Place::Ended(quiet) ==> rounds::turned(c, daemon, e) == (c, Step::End { replaced: quiet }),
{
}

/// A frame that is too high for a pane is cut at a line break: as many lines are
/// left as the pane has rows, less one; a frame that is lower is shown whole. In
/// either case what is below is cleared.
pub proof fn a_frame_is_cut_to_the_rows(first: Seq<char>, rest: Seq<char>, rows: int)
    requires
        !first.contains('\n'),
    ensures
        rows <= 1 ==> mirror::fitted(first + seq!['\n'] + rest, rows) == "\x1b[J"@,
        rows > 1 ==> mirror::fitted(first, rows) == first + "\x1b[J"@,
        rows > 1 ==> mirror::fitted(first + seq!['\n'] + rest, rows) == first + seq!['\n'] + mirror::fitted(
            rest,
            rows - 1,
        ),
{
    let s = first + seq!['\n'] + rest;
    let head = first + seq!['\n'];
    if rows <= 1 {
        assert(s.take(0) + "\x1b[J"@ =~= "\x1b[J"@);
    } else {
        lemma_first_break(first, rest);
        lemma_first_break_none(first);
        lemma_end_shifts(head, rest, 0, rows - 2);
        assert(s =~= head + rest);
        let e = mirror::lines_end(rest, 0, rows - 2);
        lemma_end_bounds(rest, 0, rows - 2);
        assert(mirror::lines_end(s, 0, rows - 1) == head.len() + e);
        assert(s.take(head.len() + e) =~= head + rest.take(e));
        assert(text::over(rows - 1, 1) == rows - 2) by {
            if rows == 2 {
            }
        }
        assert(mirror::fitted(s, rows) =~= head + mirror::fitted(rest, rows - 1));
        if first.len() == 0 {
            assert(mirror::lines_end(first, 0, rows - 1) == 0);
        }
        assert(first.take(first.len() as int) =~= first);
    }
}

proof fn lemma_first_break(first: Seq<char>, rest: Seq<char>)
    requires
        !first.contains('\n'),
    ensures
        text::index_from(first + seq!['\n'] + rest, '\n', 0) == first.len(),
{
    let s = first + seq!['\n'] + rest;
    text::lemma_index_from(s, '\n', 0);
    let e = text::index_from(s, '\n', 0);
    assert(s[first.len() as int] == '\n');
    if e < first.len() {
        assert(first[e] == s[e]);
        assert(first.contains('\n'));
    }
}

proof fn lemma_first_break_none(first: Seq<char>)
    requires
        !first.contains('\n'),
    ensures
        text::index_from(first, '\n', 0) == first.len(),
{
    text::lemma_index_from(first, '\n', 0);
    let e = text::index_from(first, '\n', 0);
    if e < first.len() {
        assert(first.contains(first[e]));
    }
}

proof fn lemma_end_shifts(a: Seq<char>, b: Seq<char>, i: int, n: int)
    requires
        0 <= i <= b.len(),
    ensures
        mirror::lines_end(a + b, a.len() + i, n) == a.len() + mirror::lines_end(b, i, n),
    decreases n,
{
    if n > 0 && i < b.len() {
        text::lemma_index_shifts(a, b, '\n', i);
        text::lemma_index_from(b, '\n', i);
        let e = text::index_from(b, '\n', i);
        if e < b.len() {
            lemma_end_shifts(a, b, e + 1, n - 1);
        }
    }
}

proof fn lemma_end_bounds(s: Seq<char>, i: int, n: int)
    requires
        0 <= i <= s.len(),
    ensures
        i <= mirror::lines_end(s, i, n) <= s.len(),
    decreases n,
{
    if n > 0 && i < s.len() {
        text::lemma_index_from(s, '\n', i);
        let e = text::index_from(s, '\n', i);
        if e < s.len() {
            lemma_end_bounds(s, e + 1, n - 1);
        }
    }
}

/// After the signs were turned the sidebar waits as long as it would have, for
/// the turn after that.
pub proof fn a_turn_leads_to_a_wait(c: Course, daemon: bool, now: u64)
    requires
        now >= c.next_tick,
    ensures
        c.place is Start && now < c.next_scan ==> rounds::turned(
            c,
            daemon,
            Event::Round { quit: false, now, animating: true },
        ).0.place == Place::Ticking(
            clock::sleep(c.next_scan, clock::later(now as int, 250_000_000), true, now as int) as i32,
        ),
        c.place is Showing ==> rounds::turned(c, daemon, Event::Drawn { now, animating: true }).0.place
            == Place::Ticking(
            clock::sleep(
                clock::later(now as int, 2_000_000_000),
                clock::later(now as int, 250_000_000),
                true,
                now as int,
            ) as i32,
        ),
{
}

} // verus!
