//! The sidebar: its rows, what of them is shown and selected, and what the keys
//! do.

use crate::filter;
use crate::filter::StateFilter;
use crate::keys::{Key, Meaning};
use crate::mirrors;
use crate::mirrors::Daemon;
use crate::overlay;
use crate::overlay::{Outcome, Overlay, Picture, Turn};
use crate::paint;
use crate::scan;
use crate::scan::{PaneRow, Row};
use crate::text;
use vstd::prelude::*;
use vstd::string::*;

verus! {

/// How many characters a query may have.
pub const QUERY_MAX: usize = 256;

/// The sidebar.
pub struct Sidebar {
    /// All rows: the filters never take any from here.
    pub rows: Vec<PaneRow>,
    /// The indices of the rows that are shown.
    pub visible: Vec<usize>,
    pub query: String,
    pub state_filter: Option<StateFilter>,
    pub search_focused: bool,
    /// The selected one of the rows that are shown, counted from one.
    pub sel: usize,
    /// The first line of the list that is drawn.
    pub scroll: usize,
    /// The pane of the selected row.
    pub sel_pane: String,
    /// The focused pane that the selection last snapped to.
    pub last_active: String,
    /// The focused pane, and its session.
    pub active: String,
    pub active_session: String,
    /// Does the user navigate the sidebar?
    pub plugin_selected: bool,
    pub tick: u32,
    /// The pane that the sidebar is in.
    pub self_pane: String,
    pub pin: Option<String>,
    pub last_frame: String,
    /// A later release to tell of.
    pub update: Option<String>,
    /// What a sidebar without a terminal of its own remembers.
    pub daemon: Option<Daemon>,
    pub overlay: Option<Overlay>,
}

/// What the sidebar holds.
#[verifier::ext_equal]
pub struct State {
    pub rows: Seq<Row>,
    pub visible: Seq<int>,
    pub query: Seq<char>,
    pub filter: Option<StateFilter>,
    pub searching: bool,
    pub sel: int,
    pub scroll: int,
    pub sel_pane: Seq<char>,
    pub last_active: Seq<char>,
    pub active: Seq<char>,
    pub active_session: Seq<char>,
    pub plugin_selected: bool,
    pub tick: int,
    pub self_pane: Seq<char>,
    pub pin: Option<Seq<char>>,
    pub last_frame: Seq<char>,
    pub update: Option<Seq<char>>,
    pub daemon: Option<mirrors::Memory>,
    pub overlay: Option<Picture>,
}

impl View for Sidebar {
    type V = State;

    open spec fn view(&self) -> State {
        State {
            rows: scan::rows_view(self.rows@),
            visible: filter::ints(self.visible@),
            query: self.query@,
            filter: self.state_filter,
            searching: self.search_focused,
            sel: self.sel as int,
            scroll: self.scroll as int,
            sel_pane: self.sel_pane@,
            last_active: self.last_active@,
            active: self.active@,
            active_session: self.active_session@,
            plugin_selected: self.plugin_selected,
            tick: self.tick as int,
            self_pane: self.self_pane@,
            pin: overlay::maybe(self.pin),
            last_frame: self.last_frame@,
            update: overlay::maybe(self.update),
            daemon: match self.daemon {
                Some(d) => Some(d@),
                None => None,
            },
            overlay: match self.overlay {
                Some(o) => Some(o@),
                None => None,
            },
        }
    }
}

/// The pane of the selected row, if any row is shown.
pub open spec fn selected_pane(s: State) -> Option<Seq<char>> {
    if 1 <= s.sel <= s.visible.len() {
        Some(s.rows[s.visible[s.sel - 1]].pane)
    } else {
        None
    }
}

/// What holds of the sidebar between any two events.
pub open spec fn sound(s: State) -> bool {
    // the rows that pass the filters are shown
    &&& s.visible == filter::shown(s.rows, s.query, s.filter)
    // one of them is selected, where there are any
    &&& 1 <= s.sel
    &&& s.sel <= s.visible.len() || s.sel == 1
    // and its pane is remembered
    &&& s.sel_pane == match selected_pane(s) {
        Some(p) => p,
        None => Seq::empty(),
    }
    // there is never both a query and a state filter
    &&& s.filter is Some ==> s.query.len() == 0 && !s.searching
    &&& s.query.len() <= QUERY_MAX
    &&& s.tick < paint::TICKS
}

/// The indices of the rows that are shown point at rows.
pub proof fn lemma_shown_in_range(s: State)
    requires
        s.visible == filter::shown(s.rows, s.query, s.filter),
    ensures
        filter::in_range(s.visible, s.rows.len()),
{
    filter::shown_rows_are_those_that_pass(s.rows, s.query, s.filter);
}

// ---------------------------------------------------------------------------
// The selection

/// The selection within the rows that are shown.
pub open spec fn clamped(s: State) -> State {
    let n = s.visible.len() as int;
    State {
        sel: if s.sel > n {
            if n < 1 {
                1
            } else {
                n
            }
        } else if s.sel < 1 {
            1
        } else {
            s.sel
        },
        ..s
    }
}

/// The pane of the selected row remembered.
pub open spec fn synced(s: State) -> State {
    State {
        sel_pane: match selected_pane(s) {
            Some(p) => p,
            None => Seq::empty(),
        },
        ..s
    }
}

/// The selection moved by `d` rows.
pub open spec fn moved(s: State, d: int) -> State {
    synced(
        clamped(
            State {
                sel: if s.sel + d < 1 {
                    1
                } else {
                    s.sel + d
                },
                ..s
            },
        ),
    )
}

/// The selection on the remembered pane, where that is shown, and else near.
pub open spec fn restored(s: State) -> State {
    if s.sel_pane.len() == 0 {
        synced(s)
    } else {
        match filter::place_of(s.rows, s.visible, s.sel_pane, 0) {
            Some(k) => State { sel: k + 1, ..s },
            None => synced(clamped(s)),
        }
    }
}

/// The rows that pass the filters shown anew, the first of them selected or the
/// remembered one.
pub open spec fn rebuilt(s: State, select_first: bool) -> State {
    let v = State { visible: filter::shown(s.rows, s.query, s.filter), ..s };
    let t = if select_first {
        synced(State { sel: 1, ..v })
    } else {
        restored(clamped(v))
    };
    State {
        sel_pane: if v.visible.len() == 0 {
            Seq::empty()
        } else {
            t.sel_pane
        },
        scroll: 0,
        ..t
    }
}

proof fn lemma_rebuilt(s: State, select_first: bool)
    requires
        s.filter is Some ==> s.query.len() == 0 && !s.searching,
        s.query.len() <= QUERY_MAX,
        s.tick < paint::TICKS,
    ensures
        sound(rebuilt(s, select_first)),
{
    let v = State { visible: filter::shown(s.rows, s.query, s.filter), ..s };
    lemma_shown_in_range(v);
    filter::lemma_place_of(v.rows, v.visible, v.sel_pane, 0);
}

proof fn lemma_moved(s: State, d: int)
    requires
        sound(s),
    ensures
        sound(moved(s, d)),
{
}

impl Sidebar {
    fn clamp_sel(&mut self)
        ensures
            final(self)@ == clamped(old(self)@),
    {
        if self.sel > self.visible.len() {
            self.sel = self.visible.len();
        }
        if self.sel < 1 {
            self.sel = 1;
        }
    }

    fn sync_sel_pane(&mut self)
        requires
            filter::in_range(old(self)@.visible, old(self)@.rows.len()),
        ensures
            final(self)@ == synced(old(self)@),
    {
        if self.sel >= 1 && self.sel <= self.visible.len() {
            proof {
                assert(self@.visible[self.sel - 1] == self.visible@[self.sel - 1]);
            }
            self.sel_pane = self.rows[self.visible[self.sel - 1]].pane.clone();
        } else {
            self.sel_pane = String::new();
            assert(self.sel_pane@ =~= Seq::<char>::empty());
        }
    }

    fn restore_sel(&mut self)
        requires
            filter::in_range(old(self)@.visible, old(self)@.rows.len()),
        ensures
            final(self)@ == restored(old(self)@),
    {
        if self.sel_pane.as_str().is_empty() {
            self.sync_sel_pane();
            return;
        }
        match filter::place(&self.rows, &self.visible, self.sel_pane.as_str()) {
            Some(k) => {
                proof {
                    filter::lemma_place_of(self@.rows, self@.visible, self@.sel_pane, 0);
                }
                let n: usize = self.visible.len();
                assert(k < n);
                self.sel = k + 1;
            },
            None => {
                self.clamp_sel();
                self.sync_sel_pane();
            },
        }
    }

    fn rebuild_visible(&mut self, select_first: bool)
        ensures
            final(self)@ == rebuilt(old(self)@, select_first),
    {
        self.visible =
        filter::filtered_indices(&self.rows, self.query.as_str(), self.state_filter);
        proof {
            lemma_shown_in_range(self@);
        }
        if select_first {
            self.sel = 1;
            self.sync_sel_pane();
        } else {
            self.clamp_sel();
            self.restore_sel();
        }
        if self.visible.len() == 0 {
            self.sel_pane = String::new();
            assert(self.sel_pane@ =~= Seq::<char>::empty());
        }
        self.scroll = 0;
    }

    /// Moves the selection by `d` rows, to the end of the list at most.
    pub fn move_sel(&mut self, d: i64)
        requires
            sound(old(self)@),
        ensures
            final(self)@ == moved(old(self)@, d as int),
            sound(final(self)@),
    {
        proof {
            lemma_shown_in_range(self@);
            lemma_moved(self@, d as int);
        }
        let n: usize = self.visible.len();
        let to: i128 = self.sel as i128 + d as i128;
        self.sel = if to < 1 {
            1
        } else if to > n as i128 {
            n
        } else {
            to as usize
        };
        self.clamp_sel();
        self.sync_sel_pane();
    }
}

/// One step down and one up lead back.
pub proof fn down_and_up_again(s: State)
    requires
        sound(s),
        s.sel < s.visible.len(),
    ensures
        moved(moved(s, 1), -1) == s,
{
}

/// A pane that is still shown stays selected, wherever its row has gone.
pub proof fn the_selection_follows_its_pane(s: State)
    requires
        s.sel_pane.len() > 0,
        filter::place_of(
            s.rows,
            filter::shown(s.rows, s.query, s.filter),
            s.sel_pane,
            0,
        ) is Some,
    ensures
        rebuilt(s, false).sel_pane == s.sel_pane,
        selected_pane(rebuilt(s, false)) == Some(s.sel_pane),
{
    let v = filter::shown(s.rows, s.query, s.filter);
    filter::lemma_place_of(s.rows, v, s.sel_pane, 0);
}

// ---------------------------------------------------------------------------
// The filters

/// The search begun.
pub open spec fn search_begun(s: State) -> State {
    rebuilt(State { filter: None, searching: true, ..s }, false)
}

/// The next state filter set.
pub open spec fn filter_cycled(s: State) -> State {
    rebuilt(
        State {
            query: Seq::empty(),
            filter: filter::next_filter(s.filter),
            searching: false,
            ..s
        },
        true,
    )
}

/// Every filter taken away.
pub open spec fn cleared(s: State) -> State {
    rebuilt(State { query: Seq::empty(), filter: None, searching: false, ..s }, false)
}

/// A query with what was typed behind it, as far as there is room.
pub open spec fn typed(query: Seq<char>, t: Seq<char>) -> Seq<char> {
    query + text::clip(text::printable(t), text::over(QUERY_MAX as int, query.len() as int))
}

/// What a key does while a search takes the keys.
pub open spec fn searched(s: State, key: Meaning) -> State {
    match key {
        Meaning::Quit | Meaning::Close | Meaning::AllStates => cleared(s),
        Meaning::Jump => State { searching: false, ..s },
        Meaning::Down => moved(s, 1),
        Meaning::Up => moved(s, -1),
        Meaning::Backspace => rebuilt(
            State {
                filter: None,
                query: text::clip(s.query, text::over(s.query.len() as int, 1)),
                ..s
            },
            true,
        ),
        Meaning::ClearSearch => rebuilt(State { filter: None, query: Seq::empty(), ..s }, false),
        Meaning::Text(t) => rebuilt(
            State { filter: None, query: typed(s.query, t), ..s },
            true,
        ),
        Meaning::Search | Meaning::CycleState | Meaning::Help | Meaning::Versions | Meaning::Other
        => s,
    }
}

impl Sidebar {
    /// Begins a search.
    pub fn focus_search(&mut self)
        requires
            sound(old(self)@),
        ensures
            final(self)@ == search_begun(old(self)@),
            sound(final(self)@),
    {
        self.state_filter = None;
        self.search_focused = true;
        proof {
            lemma_rebuilt(self@, false);
        }
        self.rebuild_visible(false);
    }

    /// Sets the next state filter.
    pub fn cycle_state_filter(&mut self)
        requires
            sound(old(self)@),
        ensures
            final(self)@ == filter_cycled(old(self)@),
            sound(final(self)@),
    {
        self.query = String::new();
        assert(self.query@ =~= Seq::<char>::empty());
        self.state_filter = StateFilter::cycle(self.state_filter);
        self.search_focused = false;
        proof {
            lemma_rebuilt(self@, true);
        }
        self.rebuild_visible(true);
    }

    /// Takes every filter away.
    pub fn clear_filter(&mut self)
        requires
            sound(old(self)@),
        ensures
            final(self)@ == cleared(old(self)@),
            sound(final(self)@),
    {
        self.query = String::new();
        assert(self.query@ =~= Seq::<char>::empty());
        self.state_filter = None;
        self.search_focused = false;
        proof {
            lemma_rebuilt(self@, false);
        }
        self.rebuild_visible(false);
    }

    /// Takes a key while a search takes the keys. The first Enter accepts the
    /// query and gives the other keys their meaning back.
    pub fn search_key(&mut self, key: Key)
        requires
            sound(old(self)@),
        ensures
            final(self)@ == searched(old(self)@, key@),
            sound(final(self)@),
    {
        match key {
            Key::Quit | Key::Close | Key::AllStates => self.clear_filter(),
            Key::Jump => {
                self.search_focused = false;
            },
            Key::Down => self.move_sel(1),
            Key::Up => self.move_sel(-1),
            Key::Backspace => {
                self.state_filter = None;
                let n: usize = self.query.as_str().unicode_len();
                let keep: usize = if n > 0 {
                    n - 1
                } else {
                    0
                };
                self.query = text::clipped(self.query.as_str(), keep);
                proof {
                    lemma_rebuilt(self@, true);
                }
                self.rebuild_visible(true);
            },
            Key::ClearSearch => {
                self.query = String::new();
                assert(self.query@ =~= Seq::<char>::empty());
                self.state_filter = None;
                proof {
                    lemma_rebuilt(self@, false);
                }
                self.rebuild_visible(false);
            },
            Key::Text(t) => {
                self.state_filter = None;
                let n: usize = self.query.as_str().unicode_len();
                let room: usize = if n < QUERY_MAX {
                    QUERY_MAX - n
                } else {
                    0
                };
                let plain = text::printable_of(t.as_str());
                let more = text::clipped(plain.as_str(), room);
                self.query.append(more.as_str());
                proof {
                    lemma_rebuilt(self@, true);
                }
                self.rebuild_visible(true);
            },
            Key::Search | Key::CycleState | Key::Help | Key::Versions | Key::Other => {},
        }
    }
}

/// Clearing the filters restores the full list.
pub proof fn clearing_shows_all(s: State)
    ensures
        cleared(s).filter is None,
        cleared(s).query.len() == 0,
        !cleared(s).searching,
        cleared(s).rows == s.rows,
        cleared(s).visible == Seq::new(s.rows.len(), |i: int| i),
{
    lemma_trim_empty();
    filter::without_a_filter_all_is_shown(s.rows, Seq::empty());
}

proof fn lemma_trim_empty()
    ensures
        text::trim(Seq::empty()).len() == 0,
{
    let e = Seq::<char>::empty();
    text::lemma_skip_white(e, 0);
    text::lemma_white_tail(e, 0);
}

/// Accepting a query changes nothing but who takes the keys.
pub proof fn accepting_keeps_the_query(s: State)
    ensures
        searched(s, Meaning::Jump) == (State { searching: false, ..s }),
{
}

/// A search takes a state filter away, and a state filter a search: there is
/// never both.
pub proof fn filters_exclude_each_other(s: State)
    ensures
        search_begun(s).filter is None,
        filter_cycled(s).query.len() == 0,
        !filter_cycled(s).searching,
{
}

// ---------------------------------------------------------------------------
// Construction

/// The rows that are not of the pane.
pub open spec fn others(rows: Seq<Row>, pane: Seq<char>) -> Seq<Row>
    decreases rows.len(),
{
    if rows.len() == 0 {
        Seq::empty()
    } else if rows.last().pane != pane {
        others(rows.drop_last(), pane).push(rows.last())
    } else {
        others(rows.drop_last(), pane)
    }
}

/// The rows that a new sidebar starts with: those of the last scan that was
/// saved, without its own.
pub open spec fn seeded(cache: Option<Seq<char>>, self_pane: Seq<char>) -> Seq<Row> {
    match cache {
        Some(tsv) => others(scan::line_rows(text::lines(tsv)), self_pane),
        None => Seq::empty(),
    }
}

/// A new sidebar.
pub open spec fn fresh(
    cache: Option<Seq<char>>,
    self_pane: Seq<char>,
    update: Option<Seq<char>>,
    pin: Option<Seq<char>>,
    daemon: Option<mirrors::Memory>,
) -> State {
    rebuilt(
        State {
            rows: seeded(cache, self_pane),
            visible: Seq::empty(),
            query: Seq::empty(),
            filter: None,
            searching: false,
            sel: 1,
            scroll: 0,
            sel_pane: Seq::empty(),
            last_active: Seq::empty(),
            active: Seq::empty(),
            active_session: Seq::empty(),
            plugin_selected: daemon is None,
            tick: 0,
            self_pane,
            pin,
            last_frame: Seq::empty(),
            update,
            daemon,
            overlay: None,
        },
        false,
    )
}

fn rows_of_others(rows: &Vec<PaneRow>, pane: &str) -> (r: Vec<PaneRow>)
    ensures
        scan::rows_view(r@) == others(scan::rows_view(rows@), pane@),
{
    let ghost all = scan::rows_view(rows@);
    let mut out: Vec<PaneRow> = Vec::new();
    let mut i: usize = 0;
    assert(scan::rows_view(out@) =~= Seq::<Row>::empty());
    while i < rows.len()
        invariant
            all == scan::rows_view(rows@),
            i <= rows@.len(),
            scan::rows_view(out@) == others(all.take(i as int), pane@),
        decreases rows@.len() - i,
    {
        proof {
            assert(all.take(i + 1).drop_last() =~= all.take(i as int));
            assert(all.take(i + 1).last() == rows@[i as int]@);
        }
        if !text::same(rows[i].pane.as_str(), pane) {
            let ghost was = out@;
            let row = rows[i].copy();
            out.push(row);
            assert(scan::rows_view(out@) =~= scan::rows_view(was).push(row@));
        }
        i += 1;
    }
    assert(all.take(i as int) =~= all);
    out
}

impl Sidebar {
    /// A new sidebar. It starts with the rows of the last scan that was saved,
    /// for a first frame at once. One with a terminal of its own takes the input
    /// as long as it is open.
    pub fn new(
        cache: Option<&str>,
        self_pane: String,
        update: Option<String>,
        pin: Option<String>,
        daemon: Option<Daemon>,
    ) -> (r: Sidebar)
        ensures
            r@ == fresh(
                scan::opt_view(cache),
                self_pane@,
                overlay::maybe(update),
                overlay::maybe(pin),
                match daemon {
                    Some(d) => Some(d@),
                    None => None,
                },
            ),
            sound(r@),
    {
        let rows: Vec<PaneRow> = match cache {
            Some(tsv) => {
                let all = scan::from_tsv(tsv);
                rows_of_others(&all, self_pane.as_str())
            },
            None => Vec::new(),
        };
        proof {
            assert(scan::rows_view(rows@) =~= seeded(scan::opt_view(cache), self_pane@));
        }
        let plugin_selected = daemon.is_none();
        let mut sb = Sidebar {
            rows,
            visible: Vec::new(),
            query: String::new(),
            state_filter: None,
            search_focused: false,
            sel: 1,
            scroll: 0,
            sel_pane: String::new(),
            last_active: String::new(),
            active: String::new(),
            active_session: String::new(),
            plugin_selected,
            tick: 0,
            self_pane,
            pin,
            last_frame: String::new(),
            update,
            daemon,
            overlay: None,
        };
        proof {
            assert(sb@.visible =~= Seq::<int>::empty());
            assert(sb@.query =~= Seq::<char>::empty());
            lemma_rebuilt(sb@, false);
        }
        sb.rebuild_visible(false);
        sb
    }
}

/// A sidebar starts with the rows that an earlier one saved, but for its own.
pub proof fn a_saved_scan_comes_back(rows: Seq<Row>, self_pane: Seq<char>)
    requires
        forall|i: int| 0 <= i < rows.len() ==> scan::writable(#[trigger] rows[i]),
    ensures
        seeded(Some(scan::tsv(rows)), self_pane) == others(rows, self_pane),
        forall|i: int|
            0 <= i < others(rows, self_pane).len() ==> (#[trigger] others(
                rows,
                self_pane,
            )[i]).pane != self_pane,
{
    scan::rows_read_back(rows);
    lemma_others(rows, self_pane);
}

proof fn lemma_others(rows: Seq<Row>, pane: Seq<char>)
    ensures
        forall|i: int|
            0 <= i < others(rows, pane).len() ==> (#[trigger] others(rows, pane)[i]).pane != pane,
    decreases rows.len(),
{
    if rows.len() > 0 {
        lemma_others(rows.drop_last(), pane);
        let rest = others(rows.drop_last(), pane);
        let all = others(rows, pane);
        assert forall|i: int| 0 <= i < all.len() implies (#[trigger] all[i]).pane != pane by {
            if i < rest.len() {
                assert(all[i] == rest[i]);
            }
        }
    }
}

// ---------------------------------------------------------------------------
// Scans

/// The selection on a pane that got the focus since it last was, if its row is
/// shown.
pub open spec fn snapped(s: State) -> State {
    if s.active.len() > 0 && s.active != s.last_active {
        match filter::place_of(s.rows, s.visible, s.active, 0) {
            Some(k) => State { sel: k + 1, sel_pane: s.active, last_active: s.active, ..s },
            None => State { last_active: s.active, ..s },
        }
    } else {
        s
    }
}

proof fn lemma_snapped(s: State)
    requires
        sound(s),
    ensures
        sound(snapped(s)),
{
    filter::lemma_place_of(s.rows, s.visible, s.active, 0);
}

/// The sidebar after a scan that found the rows, with the focus on `active`.
pub open spec fn scanned(
    s: State,
    rows: Seq<Row>,
    active: Seq<char>,
    active_session: Seq<char>,
    plugin_selected: bool,
) -> State {
    snapped(
        rebuilt(
            State {
                rows,
                active,
                active_session,
                plugin_selected: s.daemon is None || plugin_selected,
                ..s
            },
            false,
        ),
    )
}

/// The session that the control client should be switched to, if any: tmux
/// tells of changes in the session it is attached to alone.
pub open spec fn to_follow(s: State) -> Option<Seq<char>> {
    match s.daemon {
        Some(d) => if s.active_session.len() > 0 && d.attached != s.active_session {
            Some(s.active_session)
        } else {
            None
        },
        None => None,
    }
}

/// Is a row in one of the states whose sign moves?
pub open spec fn moving(state: Seq<char>) -> bool {
    state == "working"@ || state == "blocked"@ || state == "done"@
}

impl Sidebar {
    /// Takes a scan in, and where the focus is. A sidebar with a terminal of its
    /// own has the input whatever tmux says.
    pub fn scan_tick(
        &mut self,
        rows: Vec<PaneRow>,
        active: String,
        active_session: String,
        plugin_selected: bool,
    )
        requires
            sound(old(self)@),
        ensures
            final(self)@ == scanned(
                old(self)@,
                scan::rows_view(rows@),
                active@,
                active_session@,
                plugin_selected,
            ),
            sound(final(self)@),
    {
        self.rows = rows;
        self.active = active;
        self.active_session = active_session;
        self.plugin_selected = self.daemon.is_none() || plugin_selected;
        proof {
            lemma_rebuilt(self@, false);
        }
        self.rebuild_visible(false);
        proof {
            lemma_snapped(self@);
        }
        self.snap();
    }

    fn snap(&mut self)
        requires
            sound(old(self)@),
        ensures
            final(self)@ == snapped(old(self)@),
    {
        proof {
            lemma_shown_in_range(self@);
            filter::lemma_place_of(self@.rows, self@.visible, self@.active, 0);
        }
        if !self.active.as_str().is_empty() && !text::same(
            self.active.as_str(),
            self.last_active.as_str(),
        ) {
            match filter::place(&self.rows, &self.visible, self.active.as_str()) {
                Some(k) => {
                    let n: usize = self.visible.len();
                    assert(k < n);
                    self.sel = k + 1;
                    self.sel_pane = self.active.clone();
                },
                None => {},
            }
            self.last_active = self.active.clone();
        }
    }

    /// The session that the control client should be switched to, if any.
    pub fn session_to_follow(&self) -> (r: Option<String>)
        ensures
            overlay::maybe(r) == to_follow(self@),
    {
        match &self.daemon {
            Some(d) => {
                if !self.active_session.as_str().is_empty() && !text::same(
                    d.attached.as_str(),
                    self.active_session.as_str(),
                ) {
                    Some(self.active_session.clone())
                } else {
                    None
                }
            },
            None => None,
        }
    }

    /// Does the sign of any row that is shown move?
    pub fn animating(&self) -> (r: bool)
        requires
            sound(self@),
        ensures
            r == exists|k: int|
                0 <= k < self@.visible.len() && moving(
                    self@.rows[#[trigger] self@.visible[k]].state,
                ),
    {
        proof {
            lemma_shown_in_range(self@);
        }
        let ghost shown = self@.visible;
        let mut k: usize = 0;
        while k < self.visible.len()
            invariant
                filter::in_range(self@.visible, self@.rows.len()),
                shown == self@.visible,
                k <= self.visible@.len(),
                forall|j: int| 0 <= j < k ==> !moving(self@.rows[#[trigger] shown[j]].state),
            decreases self.visible@.len() - k,
        {
            assert(shown[k as int] == self.visible@[k as int]);
            let state = self.rows[self.visible[k]].state.as_str();
            if text::same(state, "working") || text::same(state, "blocked") || text::same(
                state,
                "done",
            ) {
                assert(moving(self@.rows[shown[k as int]].state));
                return true;
            }
            k += 1;
        }
        false
    }

    /// Moves the signs on.
    pub fn advance(&mut self)
        requires
            sound(old(self)@),
        ensures
            final(self)@ == (State {
                tick: (old(self)@.tick + 1) % paint::TICKS as int,
                ..old(self)@
            }),
            sound(final(self)@),
    {
        self.tick = paint::next_tick(self.tick);
    }
}

/// The selection snaps to a pane that got the focus, unless the filters hide its
/// row.
pub proof fn the_selection_snaps_to_the_focus(
    s: State,
    rows: Seq<Row>,
    active: Seq<char>,
    session: Seq<char>,
    plugin: bool,
)
    requires
        active.len() > 0,
        active != s.last_active,
    ensures
        ({
            let t = scanned(s, rows, active, session, plugin);
            &&& t.last_active == active
            &&& match filter::place_of(rows, filter::shown(rows, s.query, s.filter), active, 0) {
                Some(k) => t.sel == k + 1 && t.sel_pane == active && selected_pane(t) == Some(
                    active,
                ),
                None => t == (State {
                    last_active: active,
                    ..rebuilt(
                        State {
                            rows,
                            active,
                            active_session: session,
                            plugin_selected: s.daemon is None || plugin,
                            ..s
                        },
                        false,
                    )
                }),
            }
        }),
{
    let v = filter::shown(rows, s.query, s.filter);
    filter::lemma_place_of(rows, v, active, 0);
}

/// The selection stays where the user moved it as long as the focus does not
/// change and its pane is shown.
pub proof fn scans_leave_the_selection(
    s: State,
    rows: Seq<Row>,
    session: Seq<char>,
    plugin: bool,
)
    requires
        s.sel_pane.len() > 0,
        filter::place_of(rows, filter::shown(rows, s.query, s.filter), s.sel_pane, 0) is Some,
    ensures
        selected_pane(scanned(s, rows, s.last_active, session, plugin)) == Some(s.sel_pane),
{
    the_selection_follows_its_pane(
        State {
            rows,
            active: s.last_active,
            active_session: session,
            plugin_selected: s.daemon is None || plugin,
            ..s
        },
    );
}

// ---------------------------------------------------------------------------
// Keys

/// What is to be done after a key.
pub enum Act {
    /// Draw.
    Draw,
    /// Ask for the list of releases, and draw.
    Refresh,
    /// Leave the overlay, and draw.
    Leave,
    /// Switch to the release, leave the overlay, and draw.
    Switch(String),
    /// Go to the pane, and draw.
    Go(String),
    /// Write the pane to the file, and end: whoever holds the pin goes there.
    HandOff(String, String),
    /// Take the pin away, and end.
    Quit(Option<String>),
    /// End.
    Close,
}

/// What is to be done after a key.
pub enum Deed {
    Draw,
    Refresh,
    Leave,
    Switch(Seq<char>),
    Go(Seq<char>),
    HandOff(Seq<char>, Seq<char>),
    Quit(Option<Seq<char>>),
    Close,
}

impl View for Act {
    type V = Deed;

    open spec fn view(&self) -> Deed {
        match self {
            Act::Draw => Deed::Draw,
            Act::Refresh => Deed::Refresh,
            Act::Leave => Deed::Leave,
            Act::Switch(t) => Deed::Switch(t@),
            Act::Go(p) => Deed::Go(p@),
            Act::HandOff(f, p) => Deed::HandOff(f@, p@),
            Act::Quit(p) => Deed::Quit(overlay::maybe(*p)),
            Act::Close => Deed::Close,
        }
    }
}

/// Does it end the sidebar?
pub open spec fn is_end(d: Deed) -> bool {
    d is HandOff || d is Quit || d is Close
}

impl Act {
    /// Does it end the sidebar?
    pub fn ends(&self) -> (r: bool)
        ensures
            r == is_end(self@),
    {
        match self {
            Act::HandOff(_, _) => true,
            Act::Quit(_) => true,
            Act::Close => true,
            _ => false,
        }
    }
}

/// The pane to jump to: that of the selected row, if it is a pane of tmux's.
pub open spec fn jump_target(s: State) -> Option<Seq<char>> {
    match selected_pane(s) {
        Some(p) => if p.len() > 0 && p[0] == '%' {
            Some(p)
        } else {
            None
        },
        None => None,
    }
}

/// The jump to the selected pane: the filters are taken away on the way.
pub open spec fn jumped(s: State) -> (State, Deed) {
    match jump_target(s) {
        Some(p) => (
            cleared(s),
            match s.pin {
                Some(pin) => Deed::HandOff(pin + ".jump"@, p),
                None => Deed::Go(p),
            },
        ),
        None => (s, Deed::Draw),
    }
}

/// What a key does to the list.
pub open spec fn listed(s: State, key: Meaning) -> (State, Deed) {
    match key {
        Meaning::Down => (moved(s, 1), Deed::Draw),
        Meaning::Up => (moved(s, -1), Deed::Draw),
        Meaning::Jump => jumped(s),
        Meaning::Help => (
            State { overlay: Some(Picture::Help), last_frame: Seq::empty(), ..s },
            Deed::Draw,
        ),
        Meaning::Versions => (
            State {
                overlay: Some(Picture::Versions { sel: 0, chosen: None }),
                last_frame: Seq::empty(),
                ..s
            },
            Deed::Refresh,
        ),
        Meaning::Search => (search_begun(s), Deed::Draw),
        Meaning::CycleState => (filter_cycled(s), Deed::Draw),
        Meaning::AllStates => (cleared(s), Deed::Draw),
        Meaning::Quit => if s.daemon is None {
            (s, Deed::Quit(s.pin))
        } else {
            (s, Deed::Draw)
        },
        Meaning::Close => (s, Deed::Close),
        Meaning::Backspace | Meaning::ClearSearch | Meaning::Text(_) | Meaning::Other => (
            s,
            Deed::Draw,
        ),
    }
}

/// What a key does: the overlay comes first, then the search, then the list.
pub open spec fn pressed(
    s: State,
    key: Meaning,
    tags: Seq<Seq<char>>,
    cur: Seq<char>,
) -> (State, Deed) {
    match s.overlay {
        Some(p) => match overlay::turned(p, key, tags, cur) {
            Turn::Stays(q) => (State { overlay: Some(q), ..s }, Deed::Draw),
            Turn::Closes => (State { overlay: None, last_frame: Seq::empty(), ..s }, Deed::Leave),
            Turn::Switches(t) => (
                State { overlay: None, last_frame: Seq::empty(), ..s },
                Deed::Switch(t),
            ),
        },
        None => if s.searching {
            (searched(s, key), Deed::Draw)
        } else {
            listed(s, key)
        },
    }
}

impl Sidebar {
    /// Jumps to the selected pane. With a pin the popup that the sidebar is in
    /// holds the client: the pane is handed to whoever opened it.
    pub fn jump(&mut self) -> (r: Act)
        requires
            sound(old(self)@),
        ensures
            (final(self)@, r@) == jumped(old(self)@),
            sound(final(self)@),
    {
        proof {
            lemma_shown_in_range(self@);
        }
        if !(self.sel >= 1 && self.sel <= self.visible.len()) {
            return Act::Draw;
        }
        proof {
            assert(self@.visible[self.sel - 1] == self.visible@[self.sel - 1]);
            reveal_strlit("%");
        }
        let target = self.rows[self.visible[self.sel - 1]].pane.clone();
        let ghost p = target@;
        if !text::starts_with(target.as_str(), "%") {
            assert(!(p.len() > 0 && p[0] == '%')) by {
                if p.len() > 0 && p[0] == '%' {
                    assert(p.subrange(0, 1) =~= "%"@);
                }
            }
            return Act::Draw;
        }
        assert(p[0] == '%') by {
            assert("%"@[0] == '%');
            assert(p.subrange(0, 1)[0] == '%');
        }
        self.clear_filter();
        match &self.pin {
            Some(pin) => {
                let mut file = pin.clone();
                file.append(".jump");
                Act::HandOff(file, target)
            },
            None => Act::Go(target),
        }
    }

    fn list_key(&mut self, key: Key) -> (r: Act)
        requires
            sound(old(self)@),
        ensures
            (final(self)@, r@) == listed(old(self)@, key@),
            sound(final(self)@),
    {
        match key {
            Key::Down => {
                self.move_sel(1);
                Act::Draw
            },
            Key::Up => {
                self.move_sel(-1);
                Act::Draw
            },
            Key::Jump => self.jump(),
            Key::Help => {
                self.overlay = Some(Overlay::Help);
                self.forget_frame();
                Act::Draw
            },
            Key::Versions => {
                self.overlay = Some(Overlay::Versions { sel: 0, chosen: None });
                self.forget_frame();
                Act::Refresh
            },
            Key::Search => {
                self.focus_search();
                Act::Draw
            },
            Key::CycleState => {
                self.cycle_state_filter();
                Act::Draw
            },
            Key::AllStates => {
                self.clear_filter();
                Act::Draw
            },
            Key::Quit => {
                if self.daemon.is_none() {
                    match &self.pin {
                        Some(p) => Act::Quit(Some(p.clone())),
                        None => Act::Quit(None),
                    }
                } else {
                    // the end of the FIFO must not end the sidebar
                    Act::Draw
                }
            },
            Key::Close => Act::Close,
            Key::Backspace | Key::ClearSearch | Key::Text(_) | Key::Other => Act::Draw,
        }
    }

    /// Takes a key. `tags` are the releases that the picker offers, `cur` is the
    /// one that runs.
    pub fn press(&mut self, key: Key, tags: &Vec<String>, cur: &str) -> (r: Act)
        requires
            sound(old(self)@),
        ensures
            (final(self)@, r@) == pressed(old(self)@, key@, text::views(tags@), cur@),
            sound(final(self)@),
    {
        match self.overlay.take() {
            Some(o) => match overlay::overlay_key(o, &key, tags, cur) {
                Outcome::Stays(p) => {
                    self.overlay = Some(p);
                    Act::Draw
                },
                Outcome::Closes => {
                    self.forget_frame();
                    Act::Leave
                },
                Outcome::Switches(t) => {
                    self.forget_frame();
                    Act::Switch(t)
                },
            },
            None => {
                if self.search_focused {
                    self.search_key(key);
                    Act::Draw
                } else {
                    self.list_key(key)
                }
            },
        }
    }

    /// What the overlay shows, if there is one.
    pub fn render_overlay(&mut self, tags: &Vec<String>, cur: &str) -> (r: Option<String>)
        requires
            sound(old(self)@),
        ensures
            match old(self)@.overlay {
                Some(p) => {
                    let (page, q) = overlay::drawn(p, text::views(tags@), cur@);
                    &&& overlay::maybe(r) == Some(page)
                    &&& final(self)@ == (State { overlay: Some(q), ..old(self)@ })
                },
                None => r is None && final(self)@ == old(self)@,
            },
            sound(final(self)@),
    {
        match self.overlay.take() {
            Some(mut o) => {
                let page = o.draw(tags, cur);
                self.overlay = Some(o);
                Some(page)
            },
            None => None,
        }
    }

    /// Does a search take the bytes of the terminal as text?
    pub fn reads_text(&self) -> (r: bool)
        ensures
            r == (self@.searching && self@.daemon is None),
    {
        self.search_focused && self.daemon.is_none()
    }

    /// Do the keys go to an overlay or to a search?
    pub fn diverts_keys(&self) -> (r: bool)
        ensures
            r == (self@.overlay is Some || self@.searching),
    {
        self.overlay.is_some() || self.search_focused
    }

    /// Forgets what was drawn last: the next frame is drawn whatever it holds.
    pub fn forget_frame(&mut self)
        ensures
            final(self)@ == (State { last_frame: Seq::empty(), ..old(self)@ }),
    {
        self.last_frame = String::new();
        assert(self.last_frame@ =~= Seq::<char>::empty());
    }

    /// Remembers the frame, and says whether it is to be drawn: where it is not
    /// what was drawn last, or where it must be.
    pub fn emit(&mut self, frame: &str, force: bool) -> (r: bool)
        ensures
            r == (force || frame@ != old(self)@.last_frame),
            final(self)@ == (if r {
                State { last_frame: frame@, ..old(self)@ }
            } else {
                old(self)@
            }),
    {
        let changed = force || !text::same(frame, self.last_frame.as_str());
        if changed {
            self.last_frame = text::owned(frame);
        }
        changed
    }
}

/// Esc clears every filter, in the list and in a search alike.
pub proof fn escape_clears_the_filters(s: State, tags: Seq<Seq<char>>, cur: Seq<char>)
    requires
        s.overlay is None,
    ensures
        pressed(s, Meaning::AllStates, tags, cur) == (cleared(s), Deed::Draw),
        cleared(s).visible == Seq::new(s.rows.len(), |i: int| i),
{
    clearing_shows_all(s);
}

/// In a search a typed character goes to the query, whatever it means elsewhere.
pub proof fn a_search_takes_what_is_typed(
    s: State,
    c: char,
    tags: Seq<Seq<char>>,
    cur: Seq<char>,
)
    requires
        s.overlay is None,
        s.searching,
        s.query.len() < QUERY_MAX,
        !text::control(c),
    ensures
        pressed(s, Meaning::Text(seq![c]), tags, cur).0.query == s.query.push(c),
        pressed(s, Meaning::Text(seq![c]), tags, cur).1 is Draw,
{
    assert(text::printable(seq![c]) =~= seq![c]) by {
        assert(seq![c].drop_last() =~= Seq::<char>::empty());
        reveal_with_fuel(Seq::filter, 2);
    }
    assert(typed(s.query, seq![c]) =~= s.query.push(c));
}

/// Nothing but Enter on a pane of tmux's leads to a jump, and a jump leaves no
/// filter behind.
pub proof fn a_jump_leaves_no_filter(
    s: State,
    key: Meaning,
    tags: Seq<Seq<char>>,
    cur: Seq<char>,
)
    ensures
        ({
            let (t, d) = pressed(s, key, tags, cur);
            d is Go || d is HandOff ==> key is Jump && jump_target(s) is Some && t.filter is None
                && t.query.len() == 0 && !t.searching
        }),
{
}

/// A daemon ends on nothing but the key that closes it.
pub proof fn a_daemon_ends_when_told(
    s: State,
    key: Meaning,
    tags: Seq<Seq<char>>,
    cur: Seq<char>,
)
    requires
        s.daemon is Some,
        s.pin is None,
    ensures
        ({
            let d = pressed(s, key, tags, cur).1;
            is_end(d) ==> key is Close
        }),
{
}

// ---------------------------------------------------------------------------
// Where a jump goes

/// tmux's arguments that show the pane to the client, and leave the sidebar's
/// key table.
pub open spec fn switching(client: Option<Seq<char>>, target: Seq<char>) -> Seq<Seq<char>> {
    (match client {
        Some(c) => seq![
            "switch-client"@,
            "-c"@,
            c,
            "-t"@,
            target,
            ";"@,
            "switch-client"@,
            "-c"@,
            c,
            "-T"@,
            "root"@,
            ";"@,
        ],
        None => Seq::empty(),
    }) + seq![
        "select-window"@,
        "-t"@,
        target,
        ";"@,
        "select-pane"@,
        "-t"@,
        target,
    ]
}

/// tmux's arguments that show the pane to the client.
pub fn switch_arguments(client: Option<&str>, target: &str) -> (r: Vec<String>)
    ensures
        text::views(r@) == switching(scan::opt_view(client), target@),
{
    let mut argv: Vec<String> = Vec::new();
    if let Some(c) = client {
        argv.push(text::owned("switch-client"));
        argv.push(text::owned("-c"));
        argv.push(text::owned(c));
        argv.push(text::owned("-t"));
        argv.push(text::owned(target));
        argv.push(text::owned(";"));
        argv.push(text::owned("switch-client"));
        argv.push(text::owned("-c"));
        argv.push(text::owned(c));
        argv.push(text::owned("-T"));
        argv.push(text::owned("root"));
        argv.push(text::owned(";"));
    }
    argv.push(text::owned("select-window"));
    argv.push(text::owned("-t"));
    argv.push(text::owned(target));
    argv.push(text::owned(";"));
    argv.push(text::owned("select-pane"));
    argv.push(text::owned("-t"));
    argv.push(text::owned(target));
    assert(text::views(argv@) =~= switching(scan::opt_view(client), target@));
    argv
}

/// The name of the file for the map of a sidebar in the pane.
pub fn row_map_name(self_pane: &str) -> (r: String)
    ensures
        r@ == "agents-mon-rows-"@ + text::unled(self_pane@, '%'),
{
    let bare = text::without_lead(self_pane, '%');
    let mut s = text::owned("agents-mon-rows-");
    s.append(bare.as_str());
    s
}

/// The command that attaches the control client to the session.
pub fn follow_command(session: &str) -> (r: String)
    ensures
        r@ == "switch-client -t '"@ + session@ + "'"@,
{
    let mut s = text::owned("switch-client -t '");
    s.append(session);
    s.append("'");
    s
}

} // verus!
