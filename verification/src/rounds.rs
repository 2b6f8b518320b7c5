//! The sidebar's rounds: what it does next, after each thing that it did.

use crate::clock;
use crate::clock::Clock;
use crate::tmux::TmuxError;
use vstd::prelude::*;

verus! {

/// What has happened.
pub enum Event {
    /// A round begins: was the sidebar told to end, and does any sign move?
    Round { quit: bool, now: u64, animating: bool },
    /// A scan was made, and may have failed.
    Scanned { failure: Option<TmuxError> },
    /// Has another daemon claimed the panes?
    Owner { replaced: bool },
    /// Are there panes left to draw in?
    Panes { left: bool },
    /// A frame was drawn.
    Drawn { now: u64, animating: bool },
    /// Is there a key, and is there something on the pipe?
    Ready { key: bool, pipe: bool },
    /// The notifications were taken in: did the focus change?
    Drained { result: Result<bool, TmuxError>, now: u64 },
    /// A key was taken and what it asks for was done. Does it end the sidebar?
    /// `quick` keys went to a search or an overlay.
    Acted { end: bool, quick: bool },
    /// Has the terminal another size?
    Size { changed: bool },
}

/// What to do next.
#[derive(Clone, Copy, Debug, PartialEq, Eq, Structural)]
pub enum Step {
    /// Begin a round.
    Round,
    /// Scan the panes.
    Scan,
    /// Ask who owns the panes.
    AskOwner,
    /// Measure and arrange the panes.
    Measure,
    /// Draw.
    Draw,
    /// Move the signs on, and draw.
    Tick,
    /// Wait for a key or for the pipe, so many milliseconds at most.
    Poll(i32),
    /// Take the notifications in.
    Drain,
    /// Read a key, and do what it asks for.
    ReadKey,
    /// Ask whether the terminal was resized.
    AskSize,
    /// Clear the terminal, and draw in any case.
    Redraw,
    /// End: quietly where another daemon took over.
    End { replaced: bool },
}

/// Where in a round the sidebar is.
#[derive(Clone, Copy, Debug, PartialEq, Eq, Structural)]
pub enum Place {
    Start,
    Scanning,
    Asking,
    Measuring,
    Showing,
    /// The signs move; the wait after that is known.
    Ticking(i32),
    Polling,
    /// The pipe is read; there may be a key, too.
    Draining(bool),
    Reading,
    Answering(bool),
    Sizing,
    Redrawing,
    Ended(bool),
}

/// The state of the rounds: the place, and when the next scan and the next move
/// of the signs are due.
pub struct Course {
    pub place: Place,
    pub next_scan: int,
    pub next_tick: int,
}

/// On with the move of the signs, where it is due, and then with the wait.
pub open spec fn to_tick(c: Course, animating: bool, now: int) -> (Course, Step) {
    if animating && now >= c.next_tick {
        let next_tick = clock::later(now, clock::TICK_EVERY as int);
        let ms = clock::sleep(c.next_scan, next_tick, animating, now) as i32;
        (Course { place: Place::Ticking(ms), next_tick, ..c }, Step::Tick)
    } else {
        let ms = clock::sleep(c.next_scan, c.next_tick, animating, now) as i32;
        (Course { place: Place::Polling, ..c }, Step::Poll(ms))
    }
}

/// On with the terminal's size, where there is a terminal, and else with the next
/// round.
pub open spec fn to_size(c: Course, daemon: bool) -> (Course, Step) {
    if daemon {
        (Course { place: Place::Start, ..c }, Step::Round)
    } else {
        (Course { place: Place::Sizing, ..c }, Step::AskSize)
    }
}

/// On with the key, where there is one.
pub open spec fn to_key(c: Course, daemon: bool, key: bool) -> (Course, Step) {
    if key {
        (Course { place: Place::Reading, ..c }, Step::ReadKey)
    } else {
        to_size(c, daemon)
    }
}

/// The end.
pub open spec fn to_end(c: Course, replaced: bool) -> (Course, Step) {
    (Course { place: Place::Ended(replaced), ..c }, Step::End { replaced })
}

/// Does the failure leave the pipe unusable? A command that tmux refused does
/// not.
pub open spec fn is_fatal(failure: Option<TmuxError>) -> bool {
    failure is Some && !(failure->0 is Error)
}

/// What is next, and how the rounds stand then. Something that nothing asked for
/// leads to a new round.
pub open spec fn turned(c: Course, daemon: bool, e: Event) -> (Course, Step) {
    match (c.place, e) {
        (Place::Ended(replaced), _) => to_end(c, replaced),
        (Place::Start, Event::Round { quit, now, animating }) => if quit {
            to_end(c, false)
        } else if now >= c.next_scan {
            (Course { place: Place::Scanning, ..c }, Step::Scan)
        } else {
            to_tick(c, animating, now as int)
        },
        (Place::Scanning, Event::Scanned { failure }) => if is_fatal(failure) {
            to_end(c, false)
        } else if daemon {
            (Course { place: Place::Asking, ..c }, Step::AskOwner)
        } else {
            (Course { place: Place::Showing, ..c }, Step::Draw)
        },
        (Place::Asking, Event::Owner { replaced }) => if replaced {
            to_end(c, true)
        } else {
            (Course { place: Place::Measuring, ..c }, Step::Measure)
        },
        (Place::Measuring, Event::Panes { left }) => if left {
            (Course { place: Place::Showing, ..c }, Step::Draw)
        } else {
            to_end(c, false)
        },
        (Place::Showing, Event::Drawn { now, animating }) => to_tick(
            Course { next_scan: clock::later(now as int, clock::SCAN_EVERY as int), ..c },
            animating,
            now as int,
        ),
        (Place::Ticking(ms), Event::Drawn { .. }) => (
            Course { place: Place::Polling, ..c },
            Step::Poll(ms),
        ),
        (Place::Polling, Event::Ready { key, pipe }) => if pipe {
            (Course { place: Place::Draining(key), ..c }, Step::Drain)
        } else {
            to_key(c, daemon, key)
        },
        (Place::Draining(key), Event::Drained { result, now }) => match result {
            Ok(focus) => to_key(
                Course {
                    next_scan: if focus {
                        now as int
                    } else {
                        c.next_scan
                    },
                    ..c
                },
                daemon,
                key,
            ),
            Err(_) => to_end(c, false),
        },
        (Place::Reading, Event::Acted { end, quick }) => if end {
            to_end(c, false)
        } else {
            (Course { place: Place::Answering(quick), ..c }, Step::Draw)
        },
        (Place::Answering(quick), Event::Drawn { .. }) => if quick {
            (Course { place: Place::Start, ..c }, Step::Round)
        } else {
            to_size(c, daemon)
        },
        (Place::Sizing, Event::Size { changed }) => if changed {
            (Course { place: Place::Redrawing, ..c }, Step::Redraw)
        } else {
            (Course { place: Place::Start, ..c }, Step::Round)
        },
        _ => (Course { place: Place::Start, ..c }, Step::Round),
    }
}

/// The sidebar's rounds.
pub struct Rounds {
    pub place: Place,
    pub clock: Clock,
    /// Is there no terminal?
    pub daemon: bool,
}

impl View for Rounds {
    type V = Course;

    open spec fn view(&self) -> Course {
        Course {
            place: self.place,
            next_scan: self.clock.next_scan as int,
            next_tick: self.clock.next_tick as int,
        }
    }
}

impl Rounds {
    /// The rounds before the first: everything is due.
    pub fn new(daemon: bool, now: u64) -> (r: Rounds)
        ensures
            r@ == (Course {
                place: Place::Start,
                next_scan: now as int,
                next_tick: now as int,
            }),
            r.daemon == daemon,
    {
        Rounds { place: Place::Start, clock: Clock::new(now), daemon }
    }

    fn tick_next(&mut self, animating: bool, now: u64) -> (r: Step)
        ensures
            (final(self)@, r) == to_tick(old(self)@, animating, now as int),
            final(self).daemon == old(self).daemon,
    {
        let due = self.clock.tick(animating, now);
        let ms: i32 = self.clock.wait(animating, now);
        if due {
            self.place = Place::Ticking(ms);
            Step::Tick
        } else {
            self.place = Place::Polling;
            Step::Poll(ms)
        }
    }

    fn size_next(&mut self) -> (r: Step)
        ensures
            (final(self)@, r) == to_size(old(self)@, old(self).daemon),
            final(self).daemon == old(self).daemon,
    {
        if self.daemon {
            self.place = Place::Start;
            Step::Round
        } else {
            self.place = Place::Sizing;
            Step::AskSize
        }
    }

    fn key_next(&mut self, key: bool) -> (r: Step)
        ensures
            (final(self)@, r) == to_key(old(self)@, old(self).daemon, key),
            final(self).daemon == old(self).daemon,
    {
        if key {
            self.place = Place::Reading;
            Step::ReadKey
        } else {
            self.size_next()
        }
    }

    fn end(&mut self, replaced: bool) -> (r: Step)
        ensures
            (final(self)@, r) == to_end(old(self)@, replaced),
            final(self).daemon == old(self).daemon,
    {
        self.place = Place::Ended(replaced);
        Step::End { replaced }
    }

    /// What to do after what has happened.
    pub fn next(&mut self, e: Event) -> (r: Step)
        ensures
            (final(self)@, r) == turned(old(self)@, old(self).daemon, e),
            final(self).daemon == old(self).daemon,
    {
        match (self.place, e) {
            (Place::Ended(replaced), _) => self.end(replaced),
            (Place::Start, Event::Round { quit, now, animating }) => {
                if quit {
                    self.end(false)
                } else if self.clock.scan_due(now) {
                    self.place = Place::Scanning;
                    Step::Scan
                } else {
                    self.tick_next(animating, now)
                }
            },
            (Place::Scanning, Event::Scanned { failure }) => {
                let fatal = match failure {
                    Some(TmuxError::Exited) => true,
                    Some(TmuxError::Io(_)) => true,
                    Some(TmuxError::Error(_)) => false,
                    None => false,
                };
                if fatal {
                    self.end(false)
                } else if self.daemon {
                    self.place = Place::Asking;
                    Step::AskOwner
                } else {
                    self.place = Place::Showing;
                    Step::Draw
                }
            },
            (Place::Asking, Event::Owner { replaced }) => {
                if replaced {
                    self.end(true)
                } else {
                    self.place = Place::Measuring;
                    Step::Measure
                }
            },
            (Place::Measuring, Event::Panes { left }) => {
                if left {
                    self.place = Place::Showing;
                    Step::Draw
                } else {
                    self.end(false)
                }
            },
            (Place::Showing, Event::Drawn { now, animating }) => {
                self.clock.scanned(now);
                self.tick_next(animating, now)
            },
            (Place::Ticking(ms), Event::Drawn { .. }) => {
                self.place = Place::Polling;
                Step::Poll(ms)
            },
            (Place::Polling, Event::Ready { key, pipe }) => {
                if pipe {
                    self.place = Place::Draining(key);
                    Step::Drain
                } else {
                    self.key_next(key)
                }
            },
            (Place::Draining(key), Event::Drained { result, now }) => match result {
                Ok(focus) => {
                    if focus {
                        self.clock.hurry(now);
                    }
                    self.key_next(key)
                },
                Err(_) => self.end(false),
            },
            (Place::Reading, Event::Acted { end, quick }) => {
                if end {
                    self.end(false)
                } else {
                    self.place = Place::Answering(quick);
                    Step::Draw
                }
            },
            (Place::Answering(quick), Event::Drawn { .. }) => {
                if quick {
                    self.place = Place::Start;
                    Step::Round
                } else {
                    self.size_next()
                }
            },
            (Place::Sizing, Event::Size { changed }) => {
                if changed {
                    self.place = Place::Redrawing;
                    Step::Redraw
                } else {
                    self.place = Place::Start;
                    Step::Round
                }
            },
            _ => {
                self.place = Place::Start;
                Step::Round
            },
        }
    }
}

/// How long a daemon waits for its first pane, in nanoseconds.
pub const PANE_WAIT: u64 = 3_000_000_000;

/// How long it lets pass between two looks for it, in milliseconds.
pub const PANE_PAUSE: u64 = 50;

/// Does a new daemon go on waiting for its first pane before it draws? Only where
/// panes may still come, none has been measured, and the time is not over.
pub fn waits_for_panes(elapsed: u64, left: bool, seen: bool) -> (r: bool)
    ensures
        r == (left && !seen && elapsed < PANE_WAIT),
{
    left && !seen && elapsed < PANE_WAIT
}

/// How often a daemon looks for the name of its control client.
pub const CLIENT_TRIES: u32 = 100;

/// How long it lets pass between two looks for it, in milliseconds.
pub const CLIENT_PAUSE: u64 = 10;

/// Does a new daemon look once more for the name of its control client, after so
/// many looks?
pub fn tries_again(tries: u32, found: bool) -> (r: bool)
    ensures
        r == (!found && tries < CLIENT_TRIES),
{
    !found && tries < CLIENT_TRIES
}

/// The sidebar ends quietly only where another daemon took over: in every other
/// case it cleans up.
pub proof fn only_a_takeover_is_quiet(c: Course, daemon: bool, e: Event)
    requires
        c.place != Place::Ended(true),
    ensures
        turned(c, daemon, e).1 == (Step::End { replaced: true }) ==> c.place is Asking
            && e == (Event::Owner { replaced: true }),
{
}

/// A command that tmux refused during a scan, such as for a pane that died
/// meanwhile, does not end the sidebar; a broken pipe does.
pub proof fn only_a_broken_pipe_ends_a_scan(c: Course, daemon: bool, failure: Option<TmuxError>)
    requires
        c.place is Scanning,
    ensures
        turned(c, daemon, Event::Scanned { failure }).1 is End <==> failure is Some
            && !(failure->0 is Error),
{
}

/// A sidebar with a terminal of its own asks neither who owns the panes nor for
/// their sizes.
pub proof fn a_popup_has_no_panes(c: Course, e: Event)
    requires
        !(c.place is Asking),
    ensures
        !(turned(c, false, e).1 is AskOwner),
        !(turned(c, false, e).1 is Measure),
        !(turned(c, false, e).0.place is Asking),
{
}

/// Every key that does not end the sidebar is followed by a frame.
pub proof fn every_key_is_answered(c: Course, daemon: bool, end: bool, quick: bool)
    requires
        c.place is Reading,
    ensures
        turned(c, daemon, Event::Acted { end, quick }).1 is End <==> end,
        turned(c, daemon, Event::Acted { end, quick }).1 is Draw <==> !end,
{
}

/// A change of the focus makes the next round begin with a scan.
pub proof fn a_focus_change_is_seen_at_once(
    c: Course,
    daemon: bool,
    key: bool,
    now: u64,
    then: u64,
    animating: bool,
)
    requires
        c.place == Place::Draining(key),
        then >= now,
    ensures
        ({
            let after = turned(c, daemon, Event::Drained { result: Ok(true), now }).0;
            let begun = Course { place: Place::Start, ..after };
            turned(begun, daemon, Event::Round { quit: false, now: then, animating }).1 is Scan
        }),
{
}

/// Held keys do not stop the signs: where one is due at the start of a round with
/// no scan, it moves before any key is read.
pub proof fn held_keys_do_not_stop_the_signs(c: Course, daemon: bool, now: u64)
    requires
        c.place is Start,
        now >= c.next_tick,
        now < c.next_scan,
    ensures
        turned(c, daemon, Event::Round { quit: false, now, animating: true }).1 is Tick,
{
}

} // verus!
