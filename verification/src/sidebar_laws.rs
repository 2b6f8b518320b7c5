//! What each key, scan and turn of the clock does to the sidebar, and what it
//! leaves alone.

use crate::filter;
use crate::filter::StateFilter;
use crate::keys::Meaning;
use crate::overlay::Picture;
use crate::scan;
use crate::scan::Row;
use crate::sidebar;
use crate::sidebar::Deed;
use crate::sidebar::State;
use crate::text;
use vstd::prelude::*;

verus! {

/// Is `t` the state `s` but for which row is selected?
pub open spec fn only_selects(s: State, t: State) -> bool {
    (State { sel: s.sel, sel_pane: s.sel_pane, ..t }) == s
}

/// Is `t` the state `s` but for what is shown of the rows and which is selected?
pub open spec fn only_shows(s: State, t: State) -> bool {
    (State { visible: s.visible, sel: s.sel, sel_pane: s.sel_pane, scroll: s.scroll, ..t }) == s
}

/// The selection moves by as many rows as it is told, and stops at the first and
/// at the last; its pane is that of the row it comes to, and nothing else
/// changes.
pub proof fn the_selection_moves_within_the_list(s: State, d: int)
    requires
        sidebar::sound(s),
    ensures
        ({
            let t = sidebar::moved(s, d);
            let n = s.visible.len() as int;
            &&& only_selects(s, t)
            &&& 1 <= s.sel + d <= n ==> t.sel == s.sel + d
            &&& s.sel + d < 1 ==> t.sel == 1
            &&& s.sel + d > n && n > 0 ==> t.sel == n
            &&& n == 0 ==> t.sel == 1 && t.sel_pane.len() == 0
            &&& n > 0 ==> t.sel_pane == s.rows[s.visible[t.sel - 1]].pane
        }),
{
}

/// Filtering anew changes nothing but what is shown and selected: the rows that
/// pass are shown, from their start.
pub proof fn filtering_changes_only_the_view(s: State, first: bool)
    ensures
        ({
            let t = sidebar::rebuilt(s, first);
            &&& only_shows(s, t)
            &&& t.visible == filter::shown(s.rows, s.query, s.filter)
            &&& t.scroll == 0
            &&& first ==> t.sel == 1
            &&& t.visible.len() == 0 ==> t.sel == 1 && t.sel_pane.len() == 0
            &&& first && t.visible.len() > 0 ==> t.sel_pane == s.rows[t.visible[0]].pane
        }),
{
    lemma_restored(sidebar::clamped(State { visible: filter::shown(s.rows, s.query, s.filter), ..s }));
}

proof fn lemma_restored(s: State)
    ensures
        only_selects(s, sidebar::restored(s)),
        s.visible.len() == 0 && s.sel == 1 ==> sidebar::restored(s).sel == 1,
{
    filter::lemma_place_of(s.rows, s.visible, s.sel_pane, 0);
}

/// The selection stays with its pane where that is still shown, on its first row;
/// where it is not, the selection stays at its place, or at the last row where
/// there are fewer.
pub proof fn the_selection_stays_put(s: State, k: int)
    requires
        s.sel >= 1,
    ensures
        ({
            let t = sidebar::rebuilt(s, false);
            let shown = filter::shown(s.rows, s.query, s.filter);
            &&& s.sel_pane.len() > 0 && 0 <= k < shown.len() && s.rows[shown[k]].pane == s.sel_pane && (forall|j: int|
                0 <= j < k ==> s.rows[#[trigger] shown[j]].pane != s.sel_pane) ==> t.sel == k + 1 && t.sel_pane
                == s.sel_pane
            &&& shown.len() > 0 && (s.sel_pane.len() == 0 || forall|j: int|
                0 <= j < shown.len() ==> s.rows[#[trigger] shown[j]].pane != s.sel_pane) ==> {
                &&& s.sel <= shown.len() ==> t.sel == s.sel
                &&& s.sel > shown.len() ==> t.sel == shown.len()
                &&& t.sel_pane == s.rows[shown[t.sel - 1]].pane
            }
        }),
{
    let shown = filter::shown(s.rows, s.query, s.filter);
    if 0 <= k < shown.len() && s.rows[shown[k]].pane == s.sel_pane && (forall|j: int|
        0 <= j < k ==> s.rows[#[trigger] shown[j]].pane != s.sel_pane) {
        crate::filter_laws::the_cursor_is_where_the_user_is(s.rows, shown, 0, s.sel_pane, k);
        assert(filter::cursor(s.rows, shown, 0, false, s.sel_pane) == Some(k));
    }
    if shown.len() > 0 && (forall|j: int| 0 <= j < shown.len() ==> s.rows[#[trigger] shown[j]].pane != s.sel_pane) {
        crate::filter_laws::the_cursor_is_where_the_user_is(s.rows, shown, 0, s.sel_pane, 0);
        assert(filter::cursor(s.rows, shown, 0, false, s.sel_pane) is None);
    }
}

/// While something is typed, a text goes behind the query, without its control
/// characters and as far as the query may grow; the first row that passes is
/// selected.
pub proof fn typing_adds_to_the_query(s: State, t: Seq<char>, tags: Seq<Seq<char>>, cur: Seq<char>)
    requires
        sidebar::sound(s),
        s.overlay is None,
        s.searching,
    ensures
        ({
            let (u, deed) = sidebar::pressed(s, Meaning::Text(t), tags, cur);
            let whole = s.query + text::printable(t);
            &&& deed is Draw
            &&& whole.len() <= 256 ==> u.query == whole
            &&& whole.len() > 256 ==> u.query == whole.take(256)
            &&& u.filter is None && u.searching
            &&& u.visible == filter::shown(s.rows, u.query, None)
            &&& u.sel == 1
            &&& only_shows(s, State { query: s.query, ..u })
        }),
{
    let (u, deed) = sidebar::pressed(s, Meaning::Text(t), tags, cur);
    let whole = s.query + text::printable(t);
    let v = State { filter: None, query: sidebar::typed(s.query, t), ..s };
    filtering_changes_only_the_view(v, true);
    if whole.len() <= 256 {
        assert(u.query =~= whole);
    } else {
        assert(u.query =~= whole.take(256));
    }
}

/// Backspace takes the last character of the query, and the first row that passes
/// is selected; an empty query stays empty.
pub proof fn backspace_takes_the_last_character(
    s: State,
    q: Seq<char>,
    c: char,
    tags: Seq<Seq<char>>,
    cur: Seq<char>,
)
    requires
        sidebar::sound(s),
        s.overlay is None,
        s.searching,
    ensures
        ({
            let (u, deed) = sidebar::pressed(s, Meaning::Backspace, tags, cur);
            &&& deed is Draw
            &&& s.query == q.push(c) ==> u.query == q
            &&& s.query.len() == 0 ==> u.query.len() == 0
            &&& u.filter is None && u.searching
            &&& u.visible == filter::shown(s.rows, u.query, None)
            &&& u.sel == 1
            &&& only_shows(s, State { query: s.query, ..u })
        }),
{
    let (u, deed) = sidebar::pressed(s, Meaning::Backspace, tags, cur);
    let v = State {
        filter: None,
        query: text::clip(s.query, text::over(s.query.len() as int, 1)),
        ..s
    };
    filtering_changes_only_the_view(v, true);
    if s.query == q.push(c) {
        assert(u.query =~= q);
    }
}

/// Clearing what is typed leaves the search open and shows every row.
pub proof fn clearing_the_query_goes_on_searching(s: State, tags: Seq<Seq<char>>, cur: Seq<char>, i: int)
    requires
        sidebar::sound(s),
        s.overlay is None,
        s.searching,
    ensures
        ({
            let (u, deed) = sidebar::pressed(s, Meaning::ClearSearch, tags, cur);
            &&& deed is Draw
            &&& u.query.len() == 0
            &&& u.searching
            &&& u.filter is None
            &&& 0 <= i < s.rows.len() ==> u.visible.contains(i)
            &&& only_shows(s, State { query: s.query, ..u })
        }),
{
    filtering_changes_only_the_view(State { filter: None, query: Seq::empty(), ..s }, false);
    sidebar::clearing_shows_all(s);
    if 0 <= i < s.rows.len() {
        crate::text_laws::trimming_takes_the_ends_off(Seq::empty(), Seq::empty(), Seq::empty());
        assert(Seq::<char>::empty() + Seq::<char>::empty() + Seq::<char>::empty() =~= Seq::<char>::empty());
        crate::filter_laws::a_blank_query_shows_all(s.rows, Seq::empty(), i);
    }
}

/// In a search, enter keeps the query and goes back to the list; the arrows move
/// the selection; leaving it by escape, quit or close clears it and ends nothing;
/// the keys of the list do nothing.
pub proof fn keys_in_a_search_do_this(s: State, tags: Seq<Seq<char>>, cur: Seq<char>)
    requires
        s.overlay is None,
        s.searching,
    ensures
        sidebar::pressed(s, Meaning::Jump, tags, cur) == ((State { searching: false, ..s }), Deed::Draw),
        sidebar::pressed(s, Meaning::Down, tags, cur) == (sidebar::moved(s, 1), Deed::Draw),
        sidebar::pressed(s, Meaning::Up, tags, cur) == (sidebar::moved(s, -1), Deed::Draw),
        sidebar::pressed(s, Meaning::AllStates, tags, cur) == (sidebar::cleared(s), Deed::Draw),
        sidebar::pressed(s, Meaning::Quit, tags, cur) == (sidebar::cleared(s), Deed::Draw),
        sidebar::pressed(s, Meaning::Close, tags, cur) == (sidebar::cleared(s), Deed::Draw),
        sidebar::pressed(s, Meaning::Search, tags, cur) == (s, Deed::Draw),
        sidebar::pressed(s, Meaning::CycleState, tags, cur) == (s, Deed::Draw),
        sidebar::pressed(s, Meaning::Help, tags, cur) == (s, Deed::Draw),
        sidebar::pressed(s, Meaning::Versions, tags, cur) == (s, Deed::Draw),
        sidebar::pressed(s, Meaning::Other, tags, cur) == (s, Deed::Draw),
{
}

/// Is this the sidebar as it is with its list in front: no overlay, no search?
pub open spec fn lists(s: State) -> bool {
    s.overlay is None && !s.searching
}

/// In the list the arrows move the selection, and the keys that belong to a
/// search do nothing.
pub proof fn arrows_move_the_selection(s: State, t: Seq<char>, tags: Seq<Seq<char>>, cur: Seq<char>)
    requires
        lists(s),
    ensures
        sidebar::pressed(s, Meaning::Down, tags, cur) == (sidebar::moved(s, 1), Deed::Draw),
        sidebar::pressed(s, Meaning::Up, tags, cur) == (sidebar::moved(s, -1), Deed::Draw),
        sidebar::pressed(s, Meaning::Backspace, tags, cur) == (s, Deed::Draw),
        sidebar::pressed(s, Meaning::ClearSearch, tags, cur) == (s, Deed::Draw),
        sidebar::pressed(s, Meaning::Text(t), tags, cur) == (s, Deed::Draw),
        sidebar::pressed(s, Meaning::Other, tags, cur) == (s, Deed::Draw),
{
}

/// A search starts from the query that was there, lifts a state filter, and takes
/// what is typed from then on.
pub proof fn a_search_starts_from_the_query(s: State, tags: Seq<Seq<char>>, cur: Seq<char>)
    requires
        lists(s),
    ensures
        ({
            let (u, deed) = sidebar::pressed(s, Meaning::Search, tags, cur);
            &&& deed is Draw
            &&& u.searching
            &&& u.filter is None
            &&& u.query == s.query
            &&& u.visible == filter::shown(s.rows, s.query, None)
            &&& only_shows(s, State { searching: false, filter: s.filter, ..u })
        }),
{
    filtering_changes_only_the_view(State { filter: None, searching: true, ..s }, false);
}

/// The filter key goes to the next state, forgets the query, and selects the
/// first row in that state.
pub proof fn the_filter_key_goes_to_the_next_state(s: State, tags: Seq<Seq<char>>, cur: Seq<char>, i: int)
    requires
        lists(s),
        0 <= i < s.rows.len(),
    ensures
        ({
            let (u, deed) = sidebar::pressed(s, Meaning::CycleState, tags, cur);
            &&& deed is Draw
            &&& !u.searching
            &&& u.query.len() == 0
            &&& u.sel == 1
            &&& u.filter == (match s.filter {
                None => Some(StateFilter::Blocked),
                Some(StateFilter::Blocked) => Some(StateFilter::Working),
                Some(StateFilter::Working) => Some(StateFilter::Idle),
                Some(StateFilter::Idle) => Some(StateFilter::Done),
                Some(StateFilter::Done) => None,
            })
            &&& s.filter is None ==> (u.visible.contains(i) <==> s.rows[i].state == "blocked"@)
            &&& s.filter == Some(StateFilter::Blocked) ==> (u.visible.contains(i) <==> s.rows[i].state == "working"@)
            &&& s.filter == Some(StateFilter::Working) ==> (u.visible.contains(i) <==> s.rows[i].state == "idle"@)
            &&& s.filter == Some(StateFilter::Idle) ==> (u.visible.contains(i) <==> s.rows[i].state == "done"@)
            &&& s.filter == Some(StateFilter::Done) ==> u.visible.contains(i)
            &&& only_shows(s, State { query: s.query, filter: s.filter, ..u })
        }),
{
    let v = State {
        query: Seq::empty(),
        filter: filter::next_filter(s.filter),
        searching: false,
        ..s
    };
    filtering_changes_only_the_view(v, true);
    crate::filter_laws::a_state_filter_shows_one_state(s.rows, Seq::empty(), i);
    crate::text_laws::trimming_takes_the_ends_off(Seq::empty(), Seq::empty(), Seq::empty());
    assert(Seq::<char>::empty() + Seq::<char>::empty() + Seq::<char>::empty() =~= Seq::<char>::empty());
    crate::filter_laws::a_blank_query_shows_all(s.rows, Seq::empty(), i);
}

/// Clearing lifts every filter and shows all rows, and keeps the rest.
pub proof fn clearing_lifts_every_filter(s: State)
    ensures
        ({
            let u = sidebar::cleared(s);
            &&& u.query.len() == 0
            &&& u.filter is None
            &&& !u.searching
            &&& u.visible == Seq::new(s.rows.len(), |i: int| i)
            &&& only_shows(s, State { query: s.query, filter: s.filter, searching: s.searching, ..u })
        }),
{
    sidebar::clearing_shows_all(s);
    filtering_changes_only_the_view(State { query: Seq::empty(), filter: None, searching: false, ..s }, false);
}

/// Help and the list of releases open over the list, and what was drawn is
/// forgotten; for the releases they are asked for anew.
pub proof fn overlays_open_over_the_list(s: State, tags: Seq<Seq<char>>, cur: Seq<char>)
    requires
        lists(s),
    ensures
        sidebar::pressed(s, Meaning::Help, tags, cur).0 == (State {
            overlay: Some(Picture::Help),
            last_frame: Seq::empty(),
            ..s
        }),
        sidebar::pressed(s, Meaning::Help, tags, cur).1 is Draw,
        sidebar::pressed(s, Meaning::Versions, tags, cur).0 == (State {
            overlay: Some(Picture::Versions { sel: 0, chosen: None }),
            last_frame: Seq::empty(),
            ..s
        }),
        sidebar::pressed(s, Meaning::Versions, tags, cur).1 is Refresh,
{
}

/// Quit ends a sidebar that has a terminal and takes its pin along; one without a
/// terminal stays. Close ends either.
pub proof fn quit_and_close_end_the_sidebar(s: State, tags: Seq<Seq<char>>, cur: Seq<char>)
    requires
        lists(s),
    ensures
        s.daemon is None ==> sidebar::pressed(s, Meaning::Quit, tags, cur) == (s, Deed::Quit(s.pin)),
        s.daemon is Some ==> sidebar::pressed(s, Meaning::Quit, tags, cur) == (s, Deed::Draw),
        sidebar::pressed(s, Meaning::Close, tags, cur) == (s, Deed::Close),
        sidebar::is_end(Deed::Close),
        sidebar::is_end(Deed::Quit(s.pin)),
        sidebar::is_end(Deed::HandOff(cur, cur)),
        !sidebar::is_end(Deed::Go(cur)) && !sidebar::is_end(Deed::Draw) && !sidebar::is_end(Deed::Refresh)
            && !sidebar::is_end(Deed::Leave) && !sidebar::is_end(Deed::Switch(cur)),
{
}

/// A jump goes to the pane of the selected row and clears the filters; under a
/// pin the pane is handed over to whoever holds it. Where nothing is selected, or
/// no pane of tmux's, nothing happens.
pub proof fn a_jump_goes_to_the_selected_pane(s: State, tags: Seq<Seq<char>>, cur: Seq<char>)
    requires
        lists(s),
        sidebar::sound(s),
    ensures
        ({
            let (u, deed) = sidebar::pressed(s, Meaning::Jump, tags, cur);
            &&& s.visible.len() == 0 ==> u == s && deed is Draw
            &&& s.visible.len() > 0 ==> {
                let pane = s.rows[s.visible[s.sel - 1]].pane;
                &&& pane.len() == 0 || pane[0] != '%' ==> u == s && deed is Draw
                &&& pane.len() > 0 && pane[0] == '%' && s.pin is None ==> u == sidebar::cleared(s) && deed == Deed::Go(
                    pane,
                )
                &&& pane.len() > 0 && pane[0] == '%' && s.pin is Some ==> u == sidebar::cleared(s) && deed
                    == Deed::HandOff(s.pin->0 + ".jump"@, pane)
            }
        }),
{
}

/// Any key closes the help, and the list is drawn anew.
pub proof fn any_key_closes_the_help(s: State, key: Meaning, tags: Seq<Seq<char>>, cur: Seq<char>)
    requires
        s.overlay == Some(Picture::Help),
    ensures
        sidebar::pressed(s, key, tags, cur) == ((State { overlay: None, last_frame: Seq::empty(), ..s }), Deed::Leave),
{
}

/// While the releases are shown a key changes nothing of the list under them:
/// either they stay and a draw is owed, or they close, and what was drawn is
/// forgotten.
pub proof fn the_picker_keeps_the_list(s: State, key: Meaning, tags: Seq<Seq<char>>, cur: Seq<char>)
    requires
        s.overlay is Some,
    ensures
        ({
            let (u, deed) = sidebar::pressed(s, key, tags, cur);
            &&& (State { overlay: s.overlay, last_frame: s.last_frame, ..u }) == s
            &&& u.overlay is Some ==> deed is Draw && u.last_frame == s.last_frame
            &&& u.overlay is None ==> (deed is Leave || deed is Switch) && u.last_frame.len() == 0
        }),
{
}

/// A scan replaces the rows and where the user is, and filters them by what was
/// typed before; a sidebar with a terminal is always focused.
pub proof fn a_scan_brings_new_rows(
    s: State,
    rows: Seq<Row>,
    active: Seq<char>,
    session: Seq<char>,
    plugin: bool,
)
    ensures
        ({
            let t = sidebar::scanned(s, rows, active, session, plugin);
            &&& t.rows == rows
            &&& t.visible == filter::shown(rows, s.query, s.filter)
            &&& t.active == active
            &&& t.active_session == session
            &&& s.daemon is None ==> t.plugin_selected
            &&& s.daemon is Some ==> t.plugin_selected == plugin
            &&& active.len() > 0 ==> t.last_active == active
            &&& active.len() == 0 ==> t.last_active == s.last_active
            &&& only_shows(
                s,
                State {
                    rows: s.rows,
                    active: s.active,
                    active_session: s.active_session,
                    plugin_selected: s.plugin_selected,
                    last_active: s.last_active,
                    ..t
                },
            )
        }),
{
    filtering_changes_only_the_view(
        State { rows, active, active_session: session, plugin_selected: s.daemon is None || plugin, ..s },
        false,
    );
}

/// A new focus moves the selection to the first row of that pane.
pub proof fn a_new_focus_moves_the_selection(
    s: State,
    rows: Seq<Row>,
    active: Seq<char>,
    session: Seq<char>,
    plugin: bool,
    k: int,
)
    requires
        active.len() > 0,
        active != s.last_active,
        0 <= k < filter::shown(rows, s.query, s.filter).len(),
        rows[filter::shown(rows, s.query, s.filter)[k]].pane == active,
        forall|j: int|
            0 <= j < k ==> rows[#[trigger] filter::shown(rows, s.query, s.filter)[j]].pane != active,
    ensures
        sidebar::scanned(s, rows, active, session, plugin).sel == k + 1,
        sidebar::scanned(s, rows, active, session, plugin).sel_pane == active,
{
    let shown = filter::shown(rows, s.query, s.filter);
    crate::filter_laws::the_cursor_is_where_the_user_is(rows, shown, 0, active, k);
    assert(filter::cursor(rows, shown, 0, false, active) == Some(k));
    filtering_changes_only_the_view(
        State { rows, active, active_session: session, plugin_selected: s.daemon is None || plugin, ..s },
        false,
    );
}

/// The same focus leaves the selection with its pane.
pub proof fn the_same_focus_leaves_the_selection(
    s: State,
    rows: Seq<Row>,
    session: Seq<char>,
    plugin: bool,
    k: int,
)
    requires
        s.sel >= 1,
        s.sel_pane.len() > 0,
        0 <= k < filter::shown(rows, s.query, s.filter).len(),
        rows[filter::shown(rows, s.query, s.filter)[k]].pane == s.sel_pane,
        forall|j: int|
            0 <= j < k ==> rows[#[trigger] filter::shown(rows, s.query, s.filter)[j]].pane != s.sel_pane,
    ensures
        sidebar::scanned(s, rows, s.last_active, session, plugin).sel == k + 1,
        sidebar::scanned(s, rows, s.last_active, session, plugin).sel_pane == s.sel_pane,
{
    the_selection_stays_put(
        State {
            rows,
            active: s.last_active,
            active_session: session,
            plugin_selected: s.daemon is None || plugin,
            ..s
        },
        k,
    );
}

/// The rows of other panes are kept in their order, and those of the pane itself
/// are left out.
pub proof fn a_pane_is_left_out_of_its_own_list(rows: Seq<Row>, r: Row, pane: Seq<char>)
    ensures
        sidebar::others(Seq::<Row>::empty(), pane).len() == 0,
        r.pane == pane ==> sidebar::others(rows.push(r), pane) == sidebar::others(rows, pane),
        r.pane != pane ==> sidebar::others(rows.push(r), pane) == sidebar::others(rows, pane).push(r),
{
    assert(rows.push(r).drop_last() =~= rows);
}

/// A new sidebar shows what the last scan left, nothing filtered, the first row
/// selected; it is focused where it has a terminal.
pub proof fn a_new_sidebar_shows_the_last_scan(
    saved: Seq<char>,
    self_pane: Seq<char>,
    update: Option<Seq<char>>,
    pin: Option<Seq<char>>,
    daemon: Option<crate::mirrors::Memory>,
)
    ensures
        ({
            let s = sidebar::fresh(Some(saved), self_pane, update, pin, daemon);
            &&& s.rows == sidebar::others(scan::line_rows(text::lines(saved)), self_pane)
            &&& s.visible == Seq::new(s.rows.len(), |i: int| i)
            &&& s.query.len() == 0 && s.filter is None && !s.searching
            &&& s.sel == 1 && s.scroll == 0 && s.tick == 0
            &&& s.last_active.len() == 0 && s.active.len() == 0 && s.active_session.len() == 0
            &&& s.plugin_selected == (daemon is None)
            &&& s.self_pane == self_pane && s.pin == pin && s.update == update && s.daemon == daemon
            &&& s.overlay is None && s.last_frame.len() == 0
        }),
        sidebar::fresh(None, self_pane, update, pin, daemon).rows.len() == 0,
{
    let none: Option<Seq<char>> = None;
    lemma_fresh(Some(saved), self_pane, update, pin, daemon);
    lemma_fresh(none, self_pane, update, pin, daemon);
}

proof fn lemma_fresh(
    cache: Option<Seq<char>>,
    self_pane: Seq<char>,
    update: Option<Seq<char>>,
    pin: Option<Seq<char>>,
    daemon: Option<crate::mirrors::Memory>,
)
    ensures
        ({
            let s = sidebar::fresh(cache, self_pane, update, pin, daemon);
            &&& s.rows == sidebar::seeded(cache, self_pane)
            &&& s.visible == Seq::new(s.rows.len(), |i: int| i)
            &&& s.query.len() == 0 && s.filter is None && !s.searching
            &&& s.sel == 1 && s.scroll == 0 && s.tick == 0
            &&& s.last_active.len() == 0 && s.active.len() == 0 && s.active_session.len() == 0
            &&& s.plugin_selected == (daemon is None)
            &&& s.self_pane == self_pane && s.pin == pin && s.update == update && s.daemon == daemon
            &&& s.overlay is None && s.last_frame.len() == 0
        }),
{
    let s = sidebar::fresh(cache, self_pane, update, pin, daemon);
    crate::text_laws::trimming_takes_the_ends_off(Seq::empty(), Seq::empty(), Seq::empty());
    assert(Seq::<char>::empty() + Seq::<char>::empty() + Seq::<char>::empty() =~= Seq::<char>::empty());
    filter::without_a_filter_all_is_shown(s.rows, Seq::empty());
}

/// The control client follows the user to a session it is not in, and stays where
/// it is otherwise.
pub proof fn the_client_follows_the_user(s: State)
    ensures
        s.daemon is None ==> sidebar::to_follow(s) is None,
        s.active_session.len() == 0 ==> sidebar::to_follow(s) is None,
        s.daemon matches Some(d) ==> d.attached == s.active_session ==> sidebar::to_follow(s) is None,
        s.daemon matches Some(d) ==> s.active_session.len() > 0 && d.attached != s.active_session ==> sidebar::to_follow(
            s,
        ) == Some(s.active_session),
{
}

/// The signs that move are those of working, blocked and finished agents; that of
/// an idle one is still.
pub proof fn these_signs_move()
    ensures
        sidebar::moving("working"@),
        sidebar::moving("blocked"@),
        sidebar::moving("done"@),
        !sidebar::moving("idle"@),
{
    reveal_strlit("working");
    reveal_strlit("blocked");
    reveal_strlit("done");
    reveal_strlit("idle");
    assert("working"@[0] == 'w' && "blocked"@[0] == 'b' && "done"@[0] == 'd' && "idle"@[0] == 'i');
}

/// A jump selects the window of the pane and then the pane; where a client is to
/// show it, that client is switched to it first and given its root keys again.
pub proof fn a_switch_names_the_pane(client: Seq<char>, target: Seq<char>)
    ensures
        sidebar::switching(None, target) == seq![
            "select-window"@, "-t"@, target, ";"@, "select-pane"@, "-t"@, target,
        ],
        sidebar::switching(Some(client), target) == seq![
            "switch-client"@, "-c"@, client, "-t"@, target, ";"@, "switch-client"@, "-c"@, client, "-T"@, "root"@, ";"@,
        ] + sidebar::switching(None, target),
{
    assert(sidebar::switching(None, target) =~= seq![
        "select-window"@, "-t"@, target, ";"@, "select-pane"@, "-t"@, target,
    ]);
}

/// Without a new focus a scan only filters anew; with one whose pane is hidden
/// that is remembered, too, and the selection is left alone.
pub proof fn a_scan_without_a_new_focus_only_filters(
    s: State,
    rows: Seq<Row>,
    active: Seq<char>,
    session: Seq<char>,
    plugin: bool,
)
    ensures
        ({
            let t = sidebar::scanned(s, rows, active, session, plugin);
            let shown = filter::shown(rows, s.query, s.filter);
            let u = sidebar::rebuilt(
                State { rows, active, active_session: session, plugin_selected: s.daemon is None || plugin, ..s },
                false,
            );
            &&& active.len() == 0 || active == s.last_active ==> t == u
            &&& active.len() > 0 && active != s.last_active && (forall|j: int|
                0 <= j < shown.len() ==> rows[#[trigger] shown[j]].pane != active) ==> t == (State {
                last_active: active,
                ..u
            })
        }),
{
    let shown = filter::shown(rows, s.query, s.filter);
    filtering_changes_only_the_view(
        State { rows, active, active_session: session, plugin_selected: s.daemon is None || plugin, ..s },
        false,
    );
    filter::lemma_place_of(rows, shown, active, 0);
}

} // verus!
