//! What the contracts see of a value: all that it holds.

use crate::clients::Focus;
use crate::conf;
use crate::conf::AgentConf;
use crate::filter;
use crate::frame;
use crate::frame::Line;
use crate::keys::Decode;
use crate::keys::Key;
use crate::keys::Meaning;
use crate::keys::Pending;
use crate::keys::Read;
use crate::keys::Want;
use crate::mirrors;
use crate::mirrors::Daemon;
use crate::mirrors::M;
use crate::mirrors::WinSize;
use crate::overlay;
use crate::overlay::Outcome;
use crate::overlay::Overlay;
use crate::overlay::Picture;
use crate::overlay::Turn;
use crate::procs;
use crate::scan;
use crate::scan::PaneLine;
use crate::scan::PaneRow;
use crate::scan::Target;
use crate::sidebar::Act;
use crate::sidebar::Deed;
use crate::sidebar::Sidebar;
use crate::text;
use crate::tmux;
use crate::tmux::Reply;
use crate::tmux::TmuxError;
use vstd::prelude::*;

verus! {

/// A row of a scan is seen with all its fields, and so is a line about a pane.
pub proof fn rows_are_seen_whole(r: PaneRow, p: PaneLine, t: Target, rows: Seq<PaneRow>, i: int)
    ensures
        r@.pane == r.pane@ && r@.loc == r.loc@ && r@.agent == r.agent@ && r@.state == r.state@ && r@.cwd == r.cwd@
            && r@.title == r.title@,
        p@.pane == p.pane@ && p@.pid == p.pid && p@.cmd == p.cmd@ && p@.path == p.path@ && p@.loc == p.loc@ && p@.title
            == p.title@,
        p@.key() == (p.pane@, p.pid, p.cmd@),
        t@.line == t.line@ && t@.conf == t.conf,
        scan::rows_view(rows).len() == rows.len(),
        0 <= i < rows.len() ==> scan::rows_view(rows)[i] == rows[i]@,
{
}

/// A sidebar is seen with all it remembers.
pub proof fn a_sidebar_is_seen_whole(s: Sidebar)
    ensures
        s@.rows == scan::rows_view(s.rows@),
        s@.visible == filter::ints(s.visible@),
        s@.query == s.query@,
        s@.filter == s.state_filter,
        s@.searching == s.search_focused,
        s@.sel == s.sel,
        s@.scroll == s.scroll,
        s@.sel_pane == s.sel_pane@,
        s@.last_active == s.last_active@,
        s@.active == s.active@,
        s@.active_session == s.active_session@,
        s@.plugin_selected == s.plugin_selected,
        s@.tick == s.tick,
        s@.self_pane == s.self_pane@,
        s@.pin == overlay::maybe(s.pin),
        s@.last_frame == s.last_frame@,
        s@.update == overlay::maybe(s.update),
        s@.daemon is Some <==> s.daemon is Some,
        s.daemon matches Some(d) ==> s@.daemon == Some(d@),
        s@.overlay is Some <==> s.overlay is Some,
        s.overlay matches Some(o) ==> s@.overlay == Some(o@),
{
}

/// Lists are seen item by item, in their order, and what may be missing is seen
/// as it is.
pub proof fn lists_are_seen_item_by_item(
    v: Seq<String>,
    n: Seq<usize>,
    a: Seq<(String, String)>,
    c: Seq<AgentConf>,
    l: Seq<Line>,
    t: Seq<Target>,
    m: Seq<M>,
    w: Seq<WinSize>,
    i: int,
    s: String,
)
    requires
        0 <= i,
    ensures
        text::views(v).len() == v.len() && (i < v.len() ==> text::views(v)[i] == v[i]@),
        filter::ints(n).len() == n.len() && (i < n.len() ==> filter::ints(n)[i] == n[i]),
        conf::pairs(a).len() == a.len() && (i < a.len() ==> conf::pairs(a)[i] == (a[i].0@, a[i].1@)),
        conf::names(c).len() == c.len() && (i < c.len() ==> conf::names(c)[i] == c[i].name@),
        frame::drawn(l).len() == l.len() && (i < l.len() ==> frame::drawn(l)[i].text == l[i].text@ && frame::drawn(
            l,
        )[i].pane == l[i].pane@),
        scan::aims(t).len() == t.len() && (i < t.len() ==> scan::aims(t)[i] == t[i]@),
        mirrors::mirrors(m).len() == m.len() && (i < m.len() ==> mirrors::mirrors(m)[i] == m[i]@),
        mirrors::windows(w).len() == w.len() && (i < w.len() ==> mirrors::windows(w)[i] == w[i]@),
        overlay::maybe(Some(s)) == Some(s@),
        overlay::maybe(None) is None,
        procs::agent_view(Some(s)) == Some(s@),
        procs::agent_view(None) is None,
{
}

/// A pane that was measured, a window and a daemon are seen with all that is
/// known of them.
pub proof fn measurements_are_seen_whole(m: M, w: WinSize, d: Daemon, f: Focus)
    ensures
        m@.pane == m.pane@ && m@.win == m.win@ && m@.sess == m.sess@ && m@.w == m.w && m@.h == m.h && m@.win_size.0
            == m.win_size.0 && m@.win_size.1 == m.win_size.1 && m@.panes == m.panes && m@.active == m.active,
        w@.win == w.win@ && w@.size.0 == w.size.0 && w@.size.1 == w.size.1 && w@.panes == w.panes,
        d@.size.0 == d.size.0 && d@.size.1 == d.size.1 && d@.seen_mirror == d.seen_mirror && d@.empty_ticks
            == d.empty_ticks && d@.client == d.client@ && d@.win_sizes == mirrors::windows(d.win_sizes@) && d@.attached
            == d.attached@,
        f@.pane == f.pane@ && f@.session == f.session@ && f@.plugin_selected == f.plugin_selected,
{
}

/// A key is seen as what it means.
pub proof fn keys_are_seen_as_what_they_mean(s: String, k: Key, p: Pending, a: u8, b: Vec<u8>, n: usize)
    ensures
        Key::Up@ == Meaning::Up && Key::Down@ == Meaning::Down && Key::Jump@ == Meaning::Jump && Key::Quit@
            == Meaning::Quit && Key::Close@ == Meaning::Close && Key::Help@ == Meaning::Help && Key::Versions@
            == Meaning::Versions && Key::Search@ == Meaning::Search && Key::Backspace@ == Meaning::Backspace
            && Key::ClearSearch@ == Meaning::ClearSearch && Key::CycleState@ == Meaning::CycleState && Key::AllStates@
            == Meaning::AllStates && Key::Other@ == Meaning::Other,
        Key::Text(s)@ == Meaning::Text(s@),
        Decode::Done(k)@ == Read::Done(k@),
        Decode::More(p)@ == Read::More(p@),
        Pending::Packet@ == Want::Packet,
        Pending::Escape@ == Want::Escape,
        Pending::Sequence(a)@ == Want::Sequence(a),
        Pending::Character(b, n)@ == Want::Character(b@, n as int),
{
}

/// What a key leads to is seen as it is, and so are an overlay and what becomes of
/// it.
pub proof fn acts_are_seen_as_they_are(s: String, t: String, p: Option<String>, n: usize, o: Overlay)
    ensures
        Act::Draw@ == Deed::Draw,
        Act::Refresh@ == Deed::Refresh,
        Act::Leave@ == Deed::Leave,
        Act::Close@ == Deed::Close,
        Act::Switch(s)@ == Deed::Switch(s@),
        Act::Go(s)@ == Deed::Go(s@),
        Act::HandOff(s, t)@ == Deed::HandOff(s@, t@),
        Act::Quit(p)@ == Deed::Quit(overlay::maybe(p)),
        Overlay::Help@ == Picture::Help,
        (Overlay::Versions { sel: n, chosen: p })@ == (Picture::Versions { sel: n as int, chosen: overlay::maybe(p) }),
        Outcome::Stays(o)@ == Turn::Stays(o@),
        Outcome::Closes@ == Turn::Closes,
        Outcome::Switches(s)@ == Turn::Switches(s@),
{
}

/// A reply is handed on as it came: what was printed, what was refused, or the
/// end.
pub proof fn replies_are_handed_on(s: String, body: Seq<char>)
    ensures
        tmux::ends_as(Ok(s), Reply::Body(body)) <==> s@ == body,
        tmux::ends_as(Err(TmuxError::Error(s)), Reply::Refusal(body)) <==> s@ == body,
        tmux::ends_as(Err(TmuxError::Exited), Reply::Exited),
        !tmux::ends_as(Ok(s), Reply::Refusal(body)) && !tmux::ends_as(Ok(s), Reply::Exited),
        !tmux::ends_as(Err(TmuxError::Exited), Reply::Body(body)) && !tmux::ends_as(
            Err(TmuxError::Exited),
            Reply::Refusal(body),
        ),
        !tmux::ends_as(Err(TmuxError::Error(s)), Reply::Body(body)) && !tmux::ends_as(
            Err(TmuxError::Error(s)),
            Reply::Exited,
        ),
        !tmux::ends_as(Err(TmuxError::Io(s)), Reply::Body(body)),
{
}

} // verus!
