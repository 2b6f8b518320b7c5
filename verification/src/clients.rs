//! What tmux's list of clients tells.

use crate::text;
use vstd::prelude::*;
use vstd::string::*;

verus! {

/// The command that lists the clients with their pids.
pub const LIST_PIDS: &'static str = "list-clients -F '#{client_pid}\t#{client_name}'";

/// The command that lists the real clients with the time of their last activity.
pub const LIST_ACTIVITY: &'static str =
    "list-clients -f '#{?#{m:*control-mode*,#{client_flags}},0,1}' -F '#{client_activity} #{client_name}'";

/// The command that lists the sessions of the real clients.
pub const LIST_SESSIONS: &'static str =
    "list-clients -f '#{?#{m:*control-mode*,#{client_flags}},0,1}' -F '#{session_id}'";

/// The command that lists the clients with the title of the pane they are in.
pub const LIST_TITLES: &'static str = "list-clients -F '#{client_name}\t#{pane_title}'";

/// The command that lists the clients with what they look at.
pub const LIST_FOCUS: &'static str =
    "list-clients -F '#{client_activity}\t#{client_name}\t#{session_id}\t#{pane_id}\t#{pane_title}\t#{client_flags}'";

/// The command that reads the control client's name.
pub const SHOW_CLAIM: &'static str = "show-option -gqv @agents-mon-control-client";

// ---------------------------------------------------------------------------
// The control client

/// The client that a line of pids and names says, if it has the pid and a name.
pub open spec fn named_on(line: Seq<char>, pid: Seq<char>) -> Option<Seq<char>> {
    match text::after(line, '\t') {
        Some(name) => if text::before(line, '\t') == pid && name.len() > 0 {
            Some(name)
        } else {
            None
        },
        None => None,
    }
}

/// The first client from the `i`-th line on with the pid.
pub open spec fn client_with(lines: Seq<Seq<char>>, pid: Seq<char>, i: int) -> Option<Seq<char>>
    decreases lines.len() - i,
{
    if i >= lines.len() {
        None
    } else {
        match named_on(lines[i], pid) {
            Some(name) => Some(name),
            None => client_with(lines, pid, i + 1),
        }
    }
}

/// The name of the client with the pid, out of a list of pids and names. A
/// client may be listed before it has a name.
pub fn control_client(list: &str, pid: &str) -> (r: Option<String>)
    ensures
        match r {
            Some(name) => client_with(text::lines(list@), pid@, 0) == Some(name@),
            None => client_with(text::lines(list@), pid@, 0) is None,
        },
{
    let lines = text::lines_of(list);
    let ghost all = text::lines(list@);
    let mut i: usize = 0;
    while i < lines.len()
        invariant
            all == text::views(lines@),
            all == text::lines(list@),
            i <= lines@.len(),
            client_with(all, pid@, 0) == client_with(all, pid@, i as int),
        decreases lines@.len() - i,
    {
        let line = lines[i].as_str();
        assert(all[i as int] == line@);
        match text::after_char(line, '\t') {
            Some(name) => {
                let said = text::before_char(line, '\t');
                if text::same(said.as_str(), pid) && !name.as_str().is_empty() {
                    return Some(name);
                }
            },
            None => {},
        }
        i += 1;
    }
    None
}

/// The command that publishes the control client's name.
pub open spec fn claim(client: Seq<char>) -> Seq<char> {
    "set-option -g @agents-mon-control-client '"@ + text::replace(client, "'"@, "\\'"@) + "'"@
}

/// The command that publishes the control client's name.
pub fn claim_command(client: &str) -> (r: String)
    ensures
        r@ == claim(client@),
{
    proof {
        reveal_strlit("'");
    }
    let quoted = text::replaced(client, "'", "\\'");
    let mut s = text::owned("set-option -g @agents-mon-control-client '");
    s.append(quoted.as_str());
    s.append("'");
    s
}

/// Has the option named another control client than `mine`? An empty option is
/// no claim: a late teardown may unset it after the next daemon set it.
pub open spec fn taken_over(mine: Seq<char>, current: Seq<char>) -> bool {
    mine.len() > 0 && text::trim(current).len() > 0 && text::trim(current) != mine
}

/// Has the option named another control client than `mine`?
pub fn superseded(mine: &str, current: &str) -> (r: bool)
    ensures
        r == taken_over(mine@, current@),
{
    let c = text::trimmed(current);
    !mine.is_empty() && !c.as_str().is_empty() && !text::same(c.as_str(), mine)
}

// ---------------------------------------------------------------------------
// The client the user looks at

/// When the client of a line was last active, and its name.
pub open spec fn activity_on(line: Seq<char>) -> Option<(nat, Seq<char>)> {
    match text::after(line, ' ') {
        Some(name) => match text::number(text::before(line, ' '), u64::MAX as nat) {
            Some(t) => Some((t, name)),
            None => None,
        },
        None => None,
    }
}

/// The most recently active client: of several, the one listed last.
pub open spec fn latest(lines: Seq<Seq<char>>) -> Option<(nat, Seq<char>)>
    decreases lines.len(),
{
    if lines.len() == 0 {
        None
    } else {
        let best = latest(lines.drop_last());
        match (activity_on(lines.last()), best) {
            (Some(a), Some(b)) => if a.0 >= b.0 {
                Some(a)
            } else {
                best
            },
            (Some(a), None) => Some(a),
            (None, _) => best,
        }
    }
}

/// The name of the most recently active client, out of a list of times and
/// names.
pub fn latest_client(list: &str) -> (r: Option<String>)
    ensures
        match r {
            Some(name) => latest(text::lines(list@)) is Some && (latest(text::lines(list@))->0).1
                == name@,
            None => latest(text::lines(list@)) is None,
        },
{
    let lines = text::lines_of(list);
    let ghost all = text::lines(list@);
    let mut best: Option<(u64, String)> = None;
    let mut i: usize = 0;
    while i < lines.len()
        invariant
            all == text::views(lines@),
            i <= lines@.len(),
            match best {
                Some(b) => latest(all.take(i as int)) == Some((b.0 as nat, b.1@)),
                None => latest(all.take(i as int)) is None,
            },
        decreases lines@.len() - i,
    {
        let line = lines[i].as_str();
        proof {
            assert(all.take(i + 1).drop_last() =~= all.take(i as int));
            assert(all.take(i + 1).last() == line@);
        }
        match text::after_char(line, ' ') {
            Some(name) => {
                let said = text::before_char(line, ' ');
                match text::parse_number(said.as_str(), u64::MAX) {
                    Some(t) => {
                        let newer = match &best {
                            Some(b) => t >= b.0,
                            None => true,
                        };
                        if newer {
                            best = Some((t, name));
                        }
                    },
                    None => {},
                }
            },
            None => {},
        }
        i += 1;
    }
    assert(all.take(i as int) =~= all);
    match best {
        Some(b) => Some(b.1),
        None => None,
    }
}

/// No listed client was active after the one that is chosen.
pub proof fn none_is_later(lines: Seq<Seq<char>>, k: int)
    requires
        0 <= k < lines.len(),
        activity_on(lines[k]) is Some,
    ensures
        latest(lines) is Some,
        (latest(lines)->0).0 >= (activity_on(lines[k])->0).0,
        exists|i: int| 0 <= i < lines.len() && activity_on(#[trigger] lines[i]) == latest(lines),
    decreases lines.len(),
{
    let head = lines.drop_last();
    if k < head.len() {
        assert(head[k] == lines[k]);
        none_is_later(head, k);
        let i = choose|i: int|
            0 <= i < head.len() && activity_on(#[trigger] head[i]) == latest(head);
        assert(lines[i] == head[i]);
    } else {
        if latest(head) is Some {
            lemma_latest_stands(head);
            let i = choose|i: int|
                0 <= i < head.len() && activity_on(#[trigger] head[i]) == latest(head);
            assert(lines[i] == head[i]);
        }
    }
    assert(activity_on(lines[lines.len() - 1]) == activity_on(lines.last()));
}

proof fn lemma_latest_stands(lines: Seq<Seq<char>>)
    requires
        latest(lines) is Some,
    ensures
        exists|i: int| 0 <= i < lines.len() && activity_on(#[trigger] lines[i]) == latest(lines),
    decreases lines.len(),
{
    if lines.len() > 0 {
        let head = lines.drop_last();
        if activity_on(lines.last()) == latest(lines) {
            assert(activity_on(lines[lines.len() - 1]) == latest(lines));
        } else {
            lemma_latest_stands(head);
            let i = choose|i: int|
                0 <= i < head.len() && activity_on(#[trigger] head[i]) == latest(head);
            assert(lines[i] == head[i]);
        }
    }
}

// ---------------------------------------------------------------------------
// What the user looks at

/// The pane that has the user's focus.
pub struct Focus {
    pub pane: String,
    pub session: String,
    /// Is it a sidebar?
    pub plugin_selected: bool,
}

/// The pane that has the user's focus.
#[verifier::ext_equal]
pub struct Gaze {
    pub pane: Seq<char>,
    pub session: Seq<char>,
    pub plugin_selected: bool,
}

impl View for Focus {
    type V = Gaze;

    open spec fn view(&self) -> Gaze {
        Gaze {
            pane: self.pane@,
            session: self.session@,
            plugin_selected: self.plugin_selected,
        }
    }
}

/// When the client of a line was last active, and what it looks at. Control
/// clients look at nothing.
pub open spec fn gaze_on(line: Seq<char>) -> Option<(nat, Gaze)> {
    let f = text::split(line, '\t');
    if f.len() != 6 || text::occurs(f[5], "control-mode"@) {
        None
    } else {
        match text::number(f[0], u64::MAX as nat) {
            Some(t) => Some(
                (t, Gaze { pane: f[3], session: f[2], plugin_selected: f[4] == "agents-mon"@ }),
            ),
            None => None,
        }
    }
}

/// What the most recently active client looks at: of several, the one listed
/// last.
pub open spec fn latest_gaze(lines: Seq<Seq<char>>) -> Option<(nat, Gaze)>
    decreases lines.len(),
{
    if lines.len() == 0 {
        None
    } else {
        let best = latest_gaze(lines.drop_last());
        match (gaze_on(lines.last()), best) {
            (Some(a), Some(b)) => if a.0 >= b.0 {
                Some(a)
            } else {
                best
            },
            (Some(a), None) => Some(a),
            (None, _) => best,
        }
    }
}

fn parse_focus(line: &str) -> (r: Option<(u64, Focus)>)
    ensures
        match r {
            Some(p) => gaze_on(line@) == Some((p.0 as nat, p.1@)),
            None => gaze_on(line@) is None,
        },
{
    let f = text::split_of(line, '\t');
    let ghost all = text::split(line@, '\t');
    assert(all == text::views(f@));
    if f.len() != 6 {
        return None;
    }
    assert forall|k: int| 0 <= k < 6 implies all[k] == #[trigger] f@[k]@ by {}
    if text::contains(f[5].as_str(), "control-mode") {
        return None;
    }
    match text::parse_number(f[0].as_str(), u64::MAX) {
        Some(t) => Some(
            (
                t,
                Focus {
                    pane: f[3].clone(),
                    session: f[2].clone(),
                    plugin_selected: text::same(f[4].as_str(), "agents-mon"),
                },
            ),
        ),
        None => None,
    }
}

/// What the most recently active client looks at, out of a list of clients. With
/// several terminals attached tmux keeps more than one of them focused.
pub fn client_focus(list: &str) -> (r: Option<Focus>)
    ensures
        match r {
            Some(f) => latest_gaze(text::lines(list@)) is Some && (latest_gaze(
                text::lines(list@),
            )->0).1 == f@,
            None => latest_gaze(text::lines(list@)) is None,
        },
{
    let lines = text::lines_of(list);
    let ghost all = text::lines(list@);
    let mut best: Option<(u64, Focus)> = None;
    let mut i: usize = 0;
    while i < lines.len()
        invariant
            all == text::views(lines@),
            i <= lines@.len(),
            match best {
                Some(b) => latest_gaze(all.take(i as int)) == Some((b.0 as nat, b.1@)),
                None => latest_gaze(all.take(i as int)) is None,
            },
        decreases lines@.len() - i,
    {
        let line = lines[i].as_str();
        proof {
            assert(all.take(i + 1).drop_last() =~= all.take(i as int));
            assert(all.take(i + 1).last() == line@);
        }
        match parse_focus(line) {
            Some(p) => {
                let newer = match &best {
                    Some(b) => p.0 >= b.0,
                    None => true,
                };
                if newer {
                    best = Some(p);
                }
            },
            None => {},
        }
        i += 1;
    }
    assert(all.take(i as int) =~= all);
    match best {
        Some(b) => Some(b.1),
        None => None,
    }
}

// ---------------------------------------------------------------------------
// Clients in a sidebar

/// The clients that the lines list in a sidebar pane.
pub open spec fn in_sidebar(lines: Seq<Seq<char>>) -> Seq<Seq<char>>
    decreases lines.len(),
{
    if lines.len() == 0 {
        Seq::empty()
    } else {
        let rest = in_sidebar(lines.drop_last());
        if text::after(lines.last(), '\t') == Some("agents-mon"@) {
            rest.push(text::before(lines.last(), '\t'))
        } else {
            rest
        }
    }
}

/// The clients in a sidebar pane, out of a list of names and titles.
pub fn sidebar_clients(list: &str) -> (r: Vec<String>)
    ensures
        text::views(r@) == in_sidebar(text::lines(list@)),
{
    let lines = text::lines_of(list);
    let ghost all = text::lines(list@);
    let mut out: Vec<String> = Vec::new();
    let mut i: usize = 0;
    assert(text::views(out@) =~= Seq::<Seq<char>>::empty());
    while i < lines.len()
        invariant
            all == text::views(lines@),
            i <= lines@.len(),
            text::views(out@) == in_sidebar(all.take(i as int)),
        decreases lines@.len() - i,
    {
        let line = lines[i].as_str();
        proof {
            assert(all.take(i + 1).drop_last() =~= all.take(i as int));
            assert(all.take(i + 1).last() == line@);
        }
        match text::after_char(line, '\t') {
            Some(title) => {
                if text::same(title.as_str(), "agents-mon") {
                    let ghost was = out@;
                    let name = text::before_char(line, '\t');
                    out.push(name);
                    assert(text::views(out@) =~= text::views(was).push(name@));
                }
            },
            None => {},
        }
        i += 1;
    }
    assert(all.take(i as int) =~= all);
    out
}

} // verus!
