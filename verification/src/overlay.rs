//! What lies over the list: the help, and the picker of releases.

use crate::keys::{Key, Meaning};
use crate::paint;
use crate::text;
use crate::versions;
use vstd::prelude::*;
use vstd::string::*;

verus! {

/// What lies over the list.
pub enum Overlay {
    Help,
    /// The place of the cursor, and the release that it was moved to.
    Versions { sel: usize, chosen: Option<String> },
}

/// What lies over the list.
pub enum Picture {
    Help,
    Versions { sel: int, chosen: Option<Seq<char>> },
}

/// A text that may be missing.
pub open spec fn maybe(s: Option<String>) -> Option<Seq<char>> {
    match s {
        Some(t) => Some(t@),
        None => None,
    }
}

impl View for Overlay {
    type V = Picture;

    open spec fn view(&self) -> Picture {
        match self {
            Overlay::Help => Picture::Help,
            Overlay::Versions { sel, chosen } => Picture::Versions {
                sel: *sel as int,
                chosen: maybe(*chosen),
            },
        }
    }
}

// ---------------------------------------------------------------------------
// How it looks

/// The help under its title.
pub const HELP_BODY: &'static str =
    "\x1b[0m\n\n\
\x1b[1mstatus\x1b[0m\n\
\x1b[32m⣿\x1b[0m  idle\n\
\x1b[33m⠹\x1b[0m  working (spinner)\n\
\x1b[31m⣿\x1b[0m  blocked, waiting for input (blinks)\n\
\x1b[32m⣿\x1b[0m  done, not viewed yet (blinks)\n\n\
\x1b[1mkeys\x1b[0m\n\
j/k ↑/↓  move selection\n\
Enter/l  jump to agent\n\
/        live search; Enter enables j/k\n\
f        select next state filter\n\
Esc      clear filters / show all\n\
u        update / switch version\n q        close sidebar\n\
?        this help\n\n\
\x1b[2mpress any key to return\x1b[0m";

/// The help.
pub open spec fn help_page(cur: Seq<char>) -> Seq<char> {
    "\x1b[2J\x1b[H\x1b[1magents — help\x1b[0m \x1b[2m"@ + cur + HELP_BODY@
}

/// The help, under the tag of the release that runs.
pub fn help_text(cur: &str) -> (r: String)
    ensures
        r@ == help_page(cur@),
{
    let mut s = text::owned("\x1b[2J\x1b[H\x1b[1magents — help\x1b[0m \x1b[2m");
    s.append(cur);
    s.append(HELP_BODY);
    s
}

/// The line of the picker's `i`-th release.
pub open spec fn release_line(tags: Seq<Seq<char>>, cur: Seq<char>, sel: int, i: int) -> Seq<char> {
    paint::mark(i == sel, true, "idle"@) + tags[i] + (if tags[i] == cur {
        " \x1b[2m(current)\x1b[0m"@
    } else {
        Seq::empty()
    }) + "\n"@
}

/// The lines of the first `n` releases.
pub open spec fn release_lines(tags: Seq<Seq<char>>, cur: Seq<char>, sel: int, n: int) -> Seq<char>
    decreases n,
{
    if n <= 0 {
        Seq::empty()
    } else {
        release_lines(tags, cur, sel, n - 1) + release_line(tags, cur, sel, n - 1)
    }
}

/// The picker with its cursor at `sel`.
pub open spec fn picker_page(tags: Seq<Seq<char>>, cur: Seq<char>, sel: int) -> Seq<char> {
    "\x1b[2J\x1b[H\x1b[1magents — versions\x1b[0m \x1b[2m"@ + cur + "\x1b[0m\n\n"@ + (if tags.len()
        == 0 {
        " \x1b[2mno releases found — checking…\x1b[0m\n\n\x1b[2mq back\x1b[0m"@
    } else {
        release_lines(tags, cur, sel, tags.len() as int)
            + "\n\x1b[2m↵ switch · j/k ↑/↓ · q back\x1b[0m"@
    })
}

/// The picker with its cursor at `sel`.
pub fn picker_text(tags: &Vec<String>, cur: &str, sel: usize) -> (r: String)
    ensures
        r@ == picker_page(text::views(tags@), cur@, sel as int),
{
    let ghost all = text::views(tags@);
    let ghost top = "\x1b[2J\x1b[H\x1b[1magents — versions\x1b[0m \x1b[2m"@ + cur@
        + "\x1b[0m\n\n"@;
    let mut s = text::owned("\x1b[2J\x1b[H\x1b[1magents — versions\x1b[0m \x1b[2m");
    s.append(cur);
    s.append("\x1b[0m\n\n");
    if tags.len() == 0 {
        s.append(" \x1b[2mno releases found — checking…\x1b[0m\n\n\x1b[2mq back\x1b[0m");
        return s;
    }
    let mut i: usize = 0;
    assert(top + release_lines(all, cur@, sel as int, 0) =~= top);
    while i < tags.len()
        invariant
            all == text::views(tags@),
            i <= tags@.len(),
            s@ == top + release_lines(all, cur@, sel as int, i as int),
        decreases tags@.len() - i,
    {
        let t = tags[i].as_str();
        assert(all[i as int] == t@);
        let mark = paint::cursor_mark(i == sel, true, "idle");
        s.append(mark.as_str());
        s.append(t);
        if text::same(t, cur) {
            s.append(" \x1b[2m(current)\x1b[0m");
        }
        s.append("\n");
        assert(s@ =~= top + release_lines(all, cur@, sel as int, i + 1));
        i += 1;
    }
    s.append("\n\x1b[2m↵ switch · j/k ↑/↓ · q back\x1b[0m");
    assert(s@ =~= picker_page(all, cur@, sel as int));
    s
}

/// What the overlay shows, and how it is then.
pub open spec fn drawn(p: Picture, tags: Seq<Seq<char>>, cur: Seq<char>) -> (Seq<char>, Picture) {
    match p {
        Picture::Help => (help_page(cur), p),
        Picture::Versions { sel, chosen } => {
            let at = versions::picked(tags, cur, chosen, sel);
            (picker_page(tags, cur, at), Picture::Versions { sel: at, chosen })
        },
    }
}

fn picker_place(tags: &Vec<String>, cur: &str, chosen: &Option<String>, sel: usize) -> (r: usize)
    ensures
        r == versions::picked(text::views(tags@), cur@, maybe(*chosen), sel as int),
{
    match chosen {
        Some(t) => versions::picker_sel(tags, cur, Some(t.as_str()), sel),
        None => versions::picker_sel(tags, cur, None, sel),
    }
}

impl Overlay {
    /// What the overlay shows. The list of releases may have changed: the picker's
    /// cursor is set anew.
    pub fn draw(&mut self, tags: &Vec<String>, cur: &str) -> (r: String)
        ensures
            (r@, final(self)@) == drawn(old(self)@, text::views(tags@), cur@),
    {
        match self {
            Overlay::Help => help_text(cur),
            Overlay::Versions { sel, chosen } => {
                let at: usize = picker_place(tags, cur, chosen, *sel);
                *sel = at;
                picker_text(tags, cur, at)
            },
        }
    }
}

// ---------------------------------------------------------------------------
// How it takes keys

/// What a key makes of the overlay.
pub enum Outcome {
    Stays(Overlay),
    Closes,
    /// It closes, and the release is to be switched to.
    Switches(String),
}

/// What a key makes of the overlay.
pub enum Turn {
    Stays(Picture),
    Closes,
    Switches(Seq<char>),
}

impl View for Outcome {
    type V = Turn;

    open spec fn view(&self) -> Turn {
        match self {
            Outcome::Stays(o) => Turn::Stays(o@),
            Outcome::Closes => Turn::Closes,
            Outcome::Switches(t) => Turn::Switches(t@),
        }
    }
}

/// Where a key moves the picker's cursor.
pub open spec fn stepped(at: int, key: Meaning, n: int) -> int {
    match key {
        Meaning::Down => if n > 0 && at + 1 < n {
            at + 1
        } else if n > 0 {
            n - 1
        } else {
            at
        },
        Meaning::Up => text::over(at, 1),
        _ => at,
    }
}

/// What a key makes of the overlay: any key closes the help, and in the picker
/// Enter switches to a release that does not run already.
pub open spec fn turned(p: Picture, key: Meaning, tags: Seq<Seq<char>>, cur: Seq<char>) -> Turn {
    match p {
        Picture::Help => Turn::Closes,
        Picture::Versions { sel, chosen } => {
            let at = stepped(versions::picked(tags, cur, chosen, sel), key, tags.len() as int);
            match key {
                Meaning::Jump => if at < tags.len() && tags[at] != cur {
                    Turn::Switches(tags[at])
                } else {
                    Turn::Closes
                },
                Meaning::Quit => Turn::Closes,
                Meaning::Close => Turn::Closes,
                _ => Turn::Stays(
                    Picture::Versions {
                        sel: at,
                        chosen: if at < tags.len() {
                            Some(tags[at])
                        } else {
                            None
                        },
                    },
                ),
            }
        },
    }
}

/// What a key makes of the overlay.
pub fn overlay_key(overlay: Overlay, key: &Key, tags: &Vec<String>, cur: &str) -> (r: Outcome)
    ensures
        r@ == turned(overlay@, key@, text::views(tags@), cur@),
{
    let ghost all = text::views(tags@);
    match overlay {
        Overlay::Help => Outcome::Closes,
        Overlay::Versions { sel, chosen } => {
            let from: usize = picker_place(tags, cur, &chosen, sel);
            let n: usize = tags.len();
            let at: usize = match key {
                Key::Down => if n > 0 && from < n - 1 {
                    from + 1
                } else if n > 0 {
                    n - 1
                } else {
                    from
                },
                Key::Up => if from > 0 {
                    from - 1
                } else {
                    0
                },
                _ => from,
            };
            match key {
                Key::Jump => {
                    if at < n && !text::same(tags[at].as_str(), cur) {
                        assert(all[at as int] == tags@[at as int]@);
                        Outcome::Switches(tags[at].clone())
                    } else {
                        Outcome::Closes
                    }
                },
                Key::Quit => Outcome::Closes,
                Key::Close => Outcome::Closes,
                _ => {
                    let next: Option<String> = if at < n {
                        assert(all[at as int] == tags@[at as int]@);
                        Some(tags[at].clone())
                    } else {
                        None
                    };
                    Outcome::Stays(Overlay::Versions { sel: at, chosen: next })
                },
            }
        },
    }
}

/// The picker never switches to the release that runs, nor to one that it does
/// not offer.
pub proof fn only_other_releases_are_switched_to(
    p: Picture,
    key: Meaning,
    tags: Seq<Seq<char>>,
    cur: Seq<char>,
)
    requires
        p matches Picture::Versions { sel, .. } ==> sel >= 0,
    ensures
        turned(p, key, tags, cur) matches Turn::Switches(t) ==> key is Jump && t != cur
            && tags.contains(t),
{
    if let Picture::Versions { sel, chosen } = p {
        text::lemma_position_of(tags, cur, 0);
        if let Some(t) = chosen {
            text::lemma_position_of(tags, t, 0);
        }
        let at = stepped(versions::picked(tags, cur, chosen, sel), key, tags.len() as int);
        if turned(p, key, tags, cur) is Switches {
            if at >= 0 {
                assert(tags[at] == tags[at]);
            }
        }
    }
}

} // verus!
