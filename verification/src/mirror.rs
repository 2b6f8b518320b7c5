//! The mirror: a display that shows the frames another process draws.

use crate::text;
use vstd::prelude::*;
use vstd::string::*;

verus! {

/// Where the text ends that starts at `i` and has `n` lines, or less where it
/// has no more.
pub open spec fn lines_end(s: Seq<char>, i: int, n: int) -> int
    decreases n,
{
    if n <= 0 || i >= s.len() {
        i
    } else {
        let e = text::index_from(s, '\n', i);
        if e >= s.len() {
            s.len() as int
        } else {
            lines_end(s, e + 1, n - 1)
        }
    }
}

/// A frame as far as it fits `rows` rows: the last of them stays free, and what
/// is left of an earlier frame below goes away.
pub open spec fn fitted(frame: Seq<char>, rows: int) -> Seq<char> {
    frame.take(lines_end(frame, 0, text::over(rows, 1))) + "\x1b[J"@
}

/// A frame as far as it fits `rows` rows. Panes may shrink between two frames:
/// no line that would scroll them is drawn.
pub fn fit(frame: &str, rows: usize) -> (r: String)
    ensures
        r@ == fitted(frame@, rows as int),
{
    let v = text::chars_of(frame);
    let mut left: usize = if rows > 1 {
        rows - 1
    } else {
        0
    };
    let mut i: usize = 0;
    while left > 0 && i < v.len()
        invariant
            i <= v@.len(),
            lines_end(v@, 0, text::over(rows as int, 1)) == lines_end(v@, i as int, left as int),
        decreases left,
    {
        let e: usize = text::find(&v, '\n', i);
        if e == v.len() {
            i = e;
        } else {
            i = e + 1;
        }
        left -= 1;
    }
    let mut s = text::string_of(&v, 0, i);
    assert(s@ =~= frame@.take(lines_end(frame@, 0, text::over(rows as int, 1))));
    s.append("\x1b[J");
    s
}

/// How many line ends a text has.
pub open spec fn breaks(s: Seq<char>) -> nat
    decreases s.len(),
{
    if s.len() == 0 {
        0
    } else {
        breaks(s.drop_last()) + (if s.last() == '\n' {
            1nat
        } else {
            0
        })
    }
}

proof fn lemma_breaks_add(a: Seq<char>, b: Seq<char>)
    ensures
        breaks(a + b) == breaks(a) + breaks(b),
    decreases b.len(),
{
    if b.len() == 0 {
        assert(a + b =~= a);
    } else {
        assert((a + b).drop_last() =~= a + b.drop_last());
        lemma_breaks_add(a, b.drop_last());
    }
}

proof fn lemma_no_breaks(s: Seq<char>)
    requires
        forall|i: int| 0 <= i < s.len() ==> s[i] != '\n',
    ensures
        breaks(s) == 0,
    decreases s.len(),
{
    if s.len() > 0 {
        lemma_no_breaks(s.drop_last());
    }
}

proof fn lemma_lines_end(s: Seq<char>, i: int, n: int)
    requires
        0 <= i <= s.len(),
        0 <= n,
    ensures
        i <= lines_end(s, i, n) <= s.len(),
        breaks(s.subrange(i, lines_end(s, i, n))) <= n,
    decreases n,
{
    if n <= 0 || i >= s.len() {
        assert(s.subrange(i, i) =~= Seq::<char>::empty());
    } else {
        text::lemma_index_from(s, '\n', i);
        let e = text::index_from(s, '\n', i);
        let line = s.subrange(i, e);
        lemma_no_breaks(line);
        if e >= s.len() {
            assert(s.subrange(i, s.len() as int) =~= line);
        } else {
            lemma_lines_end(s, e + 1, n - 1);
            let end = lines_end(s, e + 1, n - 1);
            let rest = s.subrange(e + 1, end);
            assert(s.subrange(i, end) =~= line + (seq!['\n'] + rest));
            lemma_breaks_add(line, seq!['\n'] + rest);
            lemma_breaks_add(seq!['\n'], rest);
            assert(seq!['\n'].drop_last() =~= Seq::<char>::empty());
            assert(breaks(seq!['\n']) == 1) by {
                reveal_with_fuel(breaks, 2);
            }
        }
    }
}

/// What is drawn never scrolls the pane: it has fewer line ends than the pane has
/// rows.
pub proof fn no_frame_scrolls_the_pane(frame: Seq<char>, rows: int)
    requires
        rows >= 1,
    ensures
        breaks(fitted(frame, rows)) < rows,
{
    let n = text::over(rows, 1);
    lemma_lines_end(frame, 0, n);
    let head = frame.take(lines_end(frame, 0, n));
    assert(head =~= frame.subrange(0, lines_end(frame, 0, n)));
    reveal_strlit("\x1b[J");
    lemma_no_breaks("\x1b[J"@);
    lemma_breaks_add(head, "\x1b[J"@);
}

// ---------------------------------------------------------------------------
// The loop

/// How long to wait for a key, in milliseconds: not long just after one, for
/// what it changes should be seen at once.
pub fn key_wait(hot: bool) -> (r: u64)
    ensures
        r == if hot {
            10u64
        } else {
            100
        },
{
    if hot {
        10
    } else {
        100
    }
}

/// How long a mirror waits for the FIFO of the keys, in nanoseconds.
pub const FIFO_WAIT: u64 = 10_000_000_000;

/// How long it lets pass between two tries to open it, in milliseconds.
pub const FIFO_PAUSE: u64 = 200;

/// Does a mirror try again to open the FIFO? It cannot be opened for writing
/// before the daemon reads from it.
pub fn waits_for_fifo(elapsed: u64, open: bool, quit: bool) -> (r: bool)
    ensures
        r == (!open && elapsed < FIFO_WAIT && !quit),
{
    !open && elapsed < FIFO_WAIT && !quit
}

/// How long a key keeps the waits short, in nanoseconds.
pub const HOT: u64 = 300_000_000;

/// The age at which a frame is given up, in nanoseconds.
pub const STALE: u64 = 10_000_000_000;

/// What to do about the file that the frames come in.
#[derive(Clone, Copy, Debug, PartialEq, Eq, Structural)]
pub enum Watch {
    /// End: whoever draws the frames is gone.
    Quit,
    /// Read the frame.
    Read,
    /// Wait.
    Wait,
}

/// What to do about the file: `found` says whether its time changed, if it is
/// there, and `age` how long ago that is, if it is known.
pub fn watch(found: Option<bool>, age: Option<u64>) -> (r: Watch)
    ensures
        r == match found {
            None => Watch::Quit,
            Some(true) => Watch::Read,
            Some(false) => if age is Some && age->0 > STALE {
                Watch::Quit
            } else {
                Watch::Wait
            },
        },
{
    match found {
        None => Watch::Quit,
        Some(changed) => {
            if changed {
                return Watch::Read;
            }
            match age {
                Some(a) => if a > STALE {
                    Watch::Quit
                } else {
                    Watch::Wait
                },
                None => Watch::Wait,
            }
        },
    }
}

/// What the mirror shows.
pub struct Mirror {
    pub last_frame: String,
}

impl Mirror {
    /// A mirror that shows nothing.
    pub fn new() -> (r: Mirror)
        ensures
            r.last_frame@.len() == 0,
    {
        Mirror { last_frame: String::new() }
    }

    /// Takes a frame in, and gives what to draw of it on `rows` rows: nothing
    /// where it is shown already.
    pub fn show(&mut self, frame: &str, rows: usize) -> (r: Option<String>)
        ensures
            final(self).last_frame@ == frame@,
            match r {
                Some(s) => frame@ != old(self).last_frame@ && s@ == fitted(frame@, rows as int),
                None => frame@ == old(self).last_frame@,
            },
    {
        if text::same(frame, self.last_frame.as_str()) {
            return None;
        }
        self.last_frame = text::owned(frame);
        Some(fit(frame, rows))
    }
}

} // verus!
