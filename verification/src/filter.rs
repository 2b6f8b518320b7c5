//! Filters: which rows the sidebar shows, and which of them the cursor is on.

use crate::scan;
use crate::scan::{PaneRow, Row};
use crate::text;
use crate::unicode;
use vstd::prelude::*;
use vstd::string::*;

verus! {

/// The states that can be filtered for.
#[derive(Clone, Copy, Debug, PartialEq, Eq, Structural)]
pub enum StateFilter {
    Blocked,
    Working,
    Idle,
    Done,
}

/// The state that a filter lets through.
pub open spec fn state_of(f: StateFilter) -> Seq<char> {
    match f {
        StateFilter::Blocked => "blocked"@,
        StateFilter::Working => "working"@,
        StateFilter::Idle => "idle"@,
        StateFilter::Done => "done"@,
    }
}

/// The filter after this one: all, blocked, working, idle, done, and all again.
pub open spec fn next_filter(current: Option<StateFilter>) -> Option<StateFilter> {
    match current {
        None => Some(StateFilter::Blocked),
        Some(StateFilter::Blocked) => Some(StateFilter::Working),
        Some(StateFilter::Working) => Some(StateFilter::Idle),
        Some(StateFilter::Idle) => Some(StateFilter::Done),
        Some(StateFilter::Done) => None,
    }
}

impl StateFilter {
    /// The state that the filter lets through.
    pub fn label(self) -> (r: &'static str)
        ensures
            r@ == state_of(self),
    {
        match self {
            StateFilter::Blocked => "blocked",
            StateFilter::Working => "working",
            StateFilter::Idle => "idle",
            StateFilter::Done => "done",
        }
    }

    /// The filter after this one.
    pub fn cycle(current: Option<StateFilter>) -> (r: Option<StateFilter>)
        ensures
            r == next_filter(current),
    {
        match current {
            None => Some(StateFilter::Blocked),
            Some(StateFilter::Blocked) => Some(StateFilter::Working),
            Some(StateFilter::Working) => Some(StateFilter::Idle),
            Some(StateFilter::Idle) => Some(StateFilter::Done),
            Some(StateFilter::Done) => None,
        }
    }
}

/// The filters come round after five steps.
pub proof fn filters_come_round(f: Option<StateFilter>)
    ensures
        next_filter(next_filter(next_filter(next_filter(next_filter(f))))) == f,
{
}

// ---------------------------------------------------------------------------
// Places

/// The session of a place: what stands before the first colon.
pub open spec fn session(loc: Seq<char>) -> Seq<char> {
    text::before(loc, ':')
}

/// The window and pane of a place: what stands after the first colon.
pub open spec fn window(loc: Seq<char>) -> Seq<char> {
    match text::after(loc, ':') {
        Some(w) => w,
        None => Seq::empty(),
    }
}

/// The session of a place.
pub fn session_of(loc: &str) -> (r: String)
    ensures
        r@ == session(loc@),
{
    text::before_char(loc, ':')
}

/// The window and pane of a place.
pub fn window_of(loc: &str) -> (r: String)
    ensures
        r@ == window(loc@),
{
    match text::after_char(loc, ':') {
        Some(w) => w,
        None => String::new(),
    }
}

// ---------------------------------------------------------------------------
// Which rows are shown

/// Everything that a search looks at in a row.
pub open spec fn searched(r: Row) -> Seq<char> {
    r.agent + seq![' '] + r.loc + seq![' '] + r.cwd + seq![' '] + r.title + seq![' '] + r.state
}

/// Everything that a search looks at in a row, in lower case.
pub fn row_filter_text(row: &PaneRow) -> (r: String)
    ensures
        r@ == unicode::lowercase(searched(row@)),
{
    proof {
        reveal_strlit(" ");
    }
    let mut s = row.agent.clone();
    s.append(" ");
    s.append(row.loc.as_str());
    s.append(" ");
    s.append(row.cwd.as_str());
    s.append(" ");
    s.append(row.title.as_str());
    s.append(" ");
    s.append(row.state.as_str());
    assert(s@ =~= searched(row@));
    unicode::lowered(s.as_str())
}

/// The places of the flags that are set, in order.
pub open spec fn places(flags: Seq<bool>) -> Seq<int>
    decreases flags.len(),
{
    if flags.len() == 0 {
        Seq::empty()
    } else {
        let rest = places(flags.drop_last());
        if flags.last() {
            rest.push(flags.len() - 1)
        } else {
            rest
        }
    }
}

/// Indices as numbers.
pub open spec fn ints(v: Seq<usize>) -> Seq<int> {
    v.map_values(|i: usize| i as int)
}

/// Does a search for `query` keep a row with this session and this text, all of
/// them in lower case? A session that matches keeps all its rows.
pub open spec fn keeps(query: Seq<char>, session: Seq<char>, text: Seq<char>) -> bool {
    text::occurs(session, query) || text::occurs(text, query)
}

/// For each row whether a search keeps it, out of the sessions and the texts of
/// the rows.
pub open spec fn kept(
    query: Seq<char>,
    sessions: Seq<Seq<char>>,
    texts: Seq<Seq<char>>,
) -> Seq<bool> {
    Seq::new(sessions.len(), |i: int| keeps(query, sessions[i], texts[i]))
}

/// What a search is for: blanks around it do not count.
pub open spec fn needle(query: Seq<char>) -> Seq<char> {
    unicode::lowercase(text::trim(query))
}

/// Is there nothing to search for?
pub open spec fn blank(query: Seq<char>) -> bool {
    text::trim(query).len() == 0 || needle(query).len() == 0
}

/// Is the row shown? A state filter lets one state through, exactly, whatever
/// the query; else a query is looked for, in lower case.
pub open spec fn shows(r: Row, query: Seq<char>, filter: Option<StateFilter>) -> bool {
    match filter {
        Some(f) => r.state == state_of(f),
        None => blank(query) || keeps(
            needle(query),
            unicode::lowercase(session(r.loc)),
            unicode::lowercase(searched(r)),
        ),
    }
}

/// For each row whether it is shown.
pub open spec fn showing(rows: Seq<Row>, query: Seq<char>, filter: Option<StateFilter>) -> Seq<
    bool,
> {
    Seq::new(rows.len(), |i: int| shows(rows[i], query, filter))
}

/// The indices of the rows that are shown, in order.
pub open spec fn shown(rows: Seq<Row>, query: Seq<char>, filter: Option<StateFilter>) -> Seq<int> {
    places(showing(rows, query, filter))
}

/// The indices of the rows that a search keeps, out of the query and the rows'
/// sessions and texts in lower case.
pub fn kept_indices(query: &str, sessions: &Vec<String>, texts: &Vec<String>) -> (r: Vec<usize>)
    requires
        sessions@.len() == texts@.len(),
    ensures
        ints(r@) == places(kept(query@, text::views(sessions@), text::views(texts@))),
{
    let ghost flags = kept(query@, text::views(sessions@), text::views(texts@));
    let mut out: Vec<usize> = Vec::new();
    let mut i: usize = 0;
    assert(ints(out@) =~= Seq::<int>::empty());
    while i < sessions.len()
        invariant
            sessions@.len() == texts@.len(),
            flags == kept(query@, text::views(sessions@), text::views(texts@)),
            i <= sessions@.len(),
            ints(out@) == places(flags.take(i as int)),
        decreases sessions@.len() - i,
    {
        proof {
            assert(flags.take(i + 1).drop_last() =~= flags.take(i as int));
            assert(text::views(sessions@)[i as int] == sessions@[i as int]@);
            assert(text::views(texts@)[i as int] == texts@[i as int]@);
        }
        if text::contains(sessions[i].as_str(), query) || text::contains(texts[i].as_str(), query) {
            let ghost was = out@;
            out.push(i);
            assert(ints(out@) =~= ints(was).push(i as int));
        }
        i += 1;
    }
    assert(flags.take(i as int) =~= flags);
    out
}

fn all_indices(n: usize) -> (r: Vec<usize>)
    ensures
        ints(r@) == places(Seq::new(n as nat, |i: int| true)),
{
    let ghost flags = Seq::new(n as nat, |i: int| true);
    let mut out: Vec<usize> = Vec::new();
    let mut i: usize = 0;
    assert(ints(out@) =~= Seq::<int>::empty());
    while i < n
        invariant
            flags == Seq::new(n as nat, |i: int| true),
            i <= n,
            ints(out@) == places(flags.take(i as int)),
        decreases n - i,
    {
        let ghost was = out@;
        assert(flags.take(i + 1).drop_last() =~= flags.take(i as int));
        out.push(i);
        assert(ints(out@) =~= ints(was).push(i as int));
        i += 1;
    }
    assert(flags.take(i as int) =~= flags);
    out
}

fn indices_in_state(rows: &Vec<PaneRow>, state: &str) -> (r: Vec<usize>)
    ensures
        ints(r@) == places(
            Seq::new(rows@.len(), |i: int| scan::rows_view(rows@)[i].state == state@),
        ),
{
    let ghost flags = Seq::new(rows@.len(), |i: int| scan::rows_view(rows@)[i].state == state@);
    let mut out: Vec<usize> = Vec::new();
    let mut i: usize = 0;
    assert(ints(out@) =~= Seq::<int>::empty());
    while i < rows.len()
        invariant
            flags == Seq::new(rows@.len(), |i: int| scan::rows_view(rows@)[i].state == state@),
            i <= rows@.len(),
            ints(out@) == places(flags.take(i as int)),
        decreases rows@.len() - i,
    {
        assert(flags.take(i + 1).drop_last() =~= flags.take(i as int));
        if text::same(rows[i].state.as_str(), state) {
            let ghost was = out@;
            out.push(i);
            assert(ints(out@) =~= ints(was).push(i as int));
        }
        i += 1;
    }
    assert(flags.take(i as int) =~= flags);
    out
}

fn lowered_sessions(rows: &Vec<PaneRow>) -> (r: Vec<String>)
    ensures
        r@.len() == rows@.len(),
        forall|i: int|
            0 <= i < r@.len() ==> (#[trigger] r@[i])@ == unicode::lowercase(
                session(rows@[i].loc@),
            ),
{
    let mut out: Vec<String> = Vec::new();
    let mut i: usize = 0;
    while i < rows.len()
        invariant
            i <= rows@.len(),
            out@.len() == i,
            forall|k: int|
                0 <= k < i ==> (#[trigger] out@[k])@ == unicode::lowercase(session(rows@[k].loc@)),
        decreases rows@.len() - i,
    {
        let s = session_of(rows[i].loc.as_str());
        out.push(unicode::lowered(s.as_str()));
        i += 1;
    }
    out
}

fn lowered_texts(rows: &Vec<PaneRow>) -> (r: Vec<String>)
    ensures
        r@.len() == rows@.len(),
        forall|i: int|
            0 <= i < r@.len() ==> (#[trigger] r@[i])@ == unicode::lowercase(searched(rows@[i]@)),
{
    let mut out: Vec<String> = Vec::new();
    let mut i: usize = 0;
    while i < rows.len()
        invariant
            i <= rows@.len(),
            out@.len() == i,
            forall|k: int|
                0 <= k < i ==> (#[trigger] out@[k])@ == unicode::lowercase(searched(rows@[k]@)),
        decreases rows@.len() - i,
    {
        out.push(row_filter_text(&rows[i]));
        i += 1;
    }
    out
}

/// The indices of the rows that are shown.
pub fn filtered_indices(
    rows: &Vec<PaneRow>,
    query: &str,
    state_filter: Option<StateFilter>,
) -> (r: Vec<usize>)
    ensures
        ints(r@) == shown(scan::rows_view(rows@), query@, state_filter),
{
    let ghost all = scan::rows_view(rows@);
    let ghost flags = showing(all, query@, state_filter);
    if let Some(f) = state_filter {
        assert(flags =~= Seq::new(rows@.len(), |i: int| all[i].state == state_of(f)));
        return indices_in_state(rows, f.label());
    }
    let bare = text::trimmed(query);
    let low = unicode::lowered(bare.as_str());
    if bare.as_str().is_empty() || low.as_str().is_empty() {
        assert(flags =~= Seq::new(rows@.len(), |i: int| true));
        return all_indices(rows.len());
    }
    let sessions = lowered_sessions(rows);
    let texts = lowered_texts(rows);
    assert(flags =~= kept(low@, text::views(sessions@), text::views(texts@))) by {
        assert forall|i: int| 0 <= i < rows@.len() implies flags[i] == keeps(
            low@,
            text::views(sessions@)[i],
            text::views(texts@)[i],
        ) by {
            assert(all[i] == rows@[i]@);
            assert(text::views(sessions@)[i] == sessions@[i]@);
            assert(text::views(texts@)[i] == texts@[i]@);
        }
    }
    kept_indices(low.as_str(), &sessions, &texts)
}

/// The places of set flags are in order, and are those of all set flags.
pub proof fn lemma_places(flags: Seq<bool>)
    ensures
        places(flags).len() <= flags.len(),
        forall|k: int|
            0 <= k < places(flags).len() ==> 0 <= #[trigger] places(flags)[k] < flags.len()
                && flags[places(flags)[k]],
        forall|j: int, k: int|
            0 <= j < k < places(flags).len() ==> #[trigger] places(flags)[j]
                < #[trigger] places(flags)[k],
        forall|i: int| 0 <= i < flags.len() && #[trigger] flags[i] ==> places(flags).contains(i),
    decreases flags.len(),
{
    if flags.len() > 0 {
        let head = flags.drop_last();
        let rest = places(head);
        let all = places(flags);
        lemma_places(head);
        assert forall|k: int| 0 <= k < all.len() implies 0 <= #[trigger] all[k] < flags.len()
            && flags[all[k]] by {
            if k < rest.len() {
                assert(all[k] == rest[k]);
                assert(head[rest[k]]);
            }
        }
        assert forall|j: int, k: int| 0 <= j < k < all.len() implies #[trigger] all[j]
            < #[trigger] all[k] by {
            assert(all[j] == rest[j]);
            if k < rest.len() {
                assert(all[k] == rest[k]);
            }
        }
        assert forall|i: int| 0 <= i < flags.len() && #[trigger] flags[i] implies all.contains(
            i,
        ) by {
            if i < head.len() {
                assert(head[i]);
                assert(rest.contains(i));
                let k = choose|k: int| 0 <= k < rest.len() && rest[k] == i;
                assert(all[k] == i);
            } else {
                assert(all[all.len() - 1] == i);
            }
        }
    }
}

/// Exactly the rows that pass are shown, each once and in their order.
pub proof fn shown_rows_are_those_that_pass(
    rows: Seq<Row>,
    query: Seq<char>,
    filter: Option<StateFilter>,
)
    ensures
        shown(rows, query, filter).len() <= rows.len(),
        forall|j: int, k: int|
            0 <= j < k < shown(rows, query, filter).len() ==> #[trigger] shown(
                rows,
                query,
                filter,
            )[j] < #[trigger] shown(rows, query, filter)[k],
        forall|k: int|
            0 <= k < shown(rows, query, filter).len() ==> 0 <= #[trigger] shown(
                rows,
                query,
                filter,
            )[k] < rows.len(),
        forall|i: int|
            0 <= i < rows.len() ==> (shows(#[trigger] rows[i], query, filter) <==> shown(
                rows,
                query,
                filter,
            ).contains(i)),
{
    let flags = showing(rows, query, filter);
    lemma_places(flags);
    assert forall|i: int| 0 <= i < rows.len() implies (shows(#[trigger] rows[i], query, filter)
        <==> shown(rows, query, filter).contains(i)) by {
        assert(flags[i] == shows(rows[i], query, filter));
    }
}

/// With no filter and nothing to search for, every row is shown.
pub proof fn without_a_filter_all_is_shown(rows: Seq<Row>, query: Seq<char>)
    requires
        text::trim(query).len() == 0,
    ensures
        shown(rows, query, None) == Seq::new(rows.len(), |i: int| i),
{
    lemma_all_places(rows.len());
    assert(showing(rows, query, None) =~= Seq::new(rows.len(), |i: int| true));
}

proof fn lemma_all_places(n: nat)
    ensures
        places(Seq::new(n, |i: int| true)) == Seq::new(n, |i: int| i),
    decreases n,
{
    let flags = Seq::new(n, |i: int| true);
    if n > 0 {
        lemma_all_places((n - 1) as nat);
        assert(flags.drop_last() =~= Seq::new((n - 1) as nat, |i: int| true));
        assert(places(flags) =~= Seq::new(n, |i: int| i));
    } else {
        assert(places(flags) =~= Seq::new(n, |i: int| i));
    }
}

/// A search that finds the session of a row shows every row of that session.
pub proof fn a_matching_session_keeps_its_rows(rows: Seq<Row>, query: Seq<char>, i: int, j: int)
    requires
        0 <= i < rows.len(),
        0 <= j < rows.len(),
        session(rows[i].loc) == session(rows[j].loc),
        text::occurs(unicode::lowercase(session(rows[i].loc)), needle(query)),
    ensures
        shown(rows, query, None).contains(j),
{
    shown_rows_are_those_that_pass(rows, query, None);
    assert(shows(rows[j], query, None));
}

/// Behind a state filter stand the rows in that state and no others, and the
/// query has no say.
pub proof fn state_filters_are_exact(rows: Seq<Row>, query: Seq<char>, f: StateFilter, i: int)
    requires
        0 <= i < rows.len(),
    ensures
        shown(rows, query, Some(f)).contains(i) <==> rows[i].state == state_of(f),
        shown(rows, query, Some(f)) == shown(rows, Seq::empty(), Some(f)),
{
    shown_rows_are_those_that_pass(rows, query, Some(f));
    assert(shows(rows[i], query, Some(f)) <==> rows[i].state == state_of(f));
    assert(showing(rows, query, Some(f)) =~= showing(rows, Seq::empty(), Some(f)));
}

// ---------------------------------------------------------------------------
// The cursor

/// The first of the shown rows from the `k`-th on that stands for the pane.
pub open spec fn place_of(rows: Seq<Row>, visible: Seq<int>, pane: Seq<char>, k: int) -> Option<int>
    decreases visible.len() - k,
{
    if k >= visible.len() {
        None
    } else if rows[visible[k]].pane == pane {
        Some(k)
    } else {
        place_of(rows, visible, pane, k + 1)
    }
}

/// Do the indices all point at rows?
pub open spec fn in_range(visible: Seq<int>, n: nat) -> bool {
    forall|k: int| 0 <= k < visible.len() ==> 0 <= #[trigger] visible[k] < n
}

/// The first of the shown rows that stands for the pane.
pub fn place(rows: &Vec<PaneRow>, visible: &Vec<usize>, pane: &str) -> (r: Option<usize>)
    requires
        in_range(ints(visible@), rows@.len()),
    ensures
        match r {
            Some(k) => place_of(scan::rows_view(rows@), ints(visible@), pane@, 0) == Some(k as int),
            None => place_of(scan::rows_view(rows@), ints(visible@), pane@, 0) is None,
        },
{
    let ghost all = scan::rows_view(rows@);
    let mut k: usize = 0;
    while k < visible.len()
        invariant
            in_range(ints(visible@), rows@.len()),
            all == scan::rows_view(rows@),
            k <= visible@.len(),
            place_of(all, ints(visible@), pane@, 0) == place_of(
                all,
                ints(visible@),
                pane@,
                k as int,
            ),
        decreases visible@.len() - k,
    {
        assert(ints(visible@)[k as int] == visible@[k as int]);
        if text::same(rows[visible[k]].pane.as_str(), pane) {
            return Some(k);
        }
        k += 1;
    }
    None
}

/// What `place_of` finds.
pub proof fn lemma_place_of(rows: Seq<Row>, visible: Seq<int>, pane: Seq<char>, k: int)
    requires
        0 <= k,
    ensures
        match place_of(rows, visible, pane, k) {
            Some(p) => k <= p < visible.len() && rows[visible[p]].pane == pane,
            None => forall|i: int|
                k <= i < visible.len() ==> rows[#[trigger] visible[i]].pane != pane,
        },
    decreases visible.len() - k,
{
    if k < visible.len() && rows[visible[k]].pane != pane {
        lemma_place_of(rows, visible, pane, k + 1);
    }
}

/// The shown row that the cursor is on: while the user navigates the sidebar
/// the selected one, and else the one whose pane has the focus.
pub open spec fn cursor(
    rows: Seq<Row>,
    visible: Seq<int>,
    selected: int,
    plugin_selected: bool,
    active: Seq<char>,
) -> Option<int> {
    if plugin_selected {
        if 1 <= selected <= visible.len() {
            Some(selected - 1)
        } else {
            None
        }
    } else {
        place_of(rows, visible, active, 0)
    }
}

/// The shown row that the cursor is on. `selected` counts from one.
pub fn cursor_row(
    rows: &Vec<PaneRow>,
    visible: &Vec<usize>,
    selected: usize,
    plugin_selected: bool,
    active: &str,
) -> (r: Option<usize>)
    requires
        plugin_selected || in_range(ints(visible@), rows@.len()),
    ensures
        match r {
            Some(k) => cursor(
                scan::rows_view(rows@),
                ints(visible@),
                selected as int,
                plugin_selected,
                active@,
            ) == Some(k as int),
            None => cursor(
                scan::rows_view(rows@),
                ints(visible@),
                selected as int,
                plugin_selected,
                active@,
            ) is None,
        },
{
    if plugin_selected {
        if selected >= 1 && selected <= visible.len() {
            return Some(selected - 1);
        }
        return None;
    }
    place(rows, visible, active)
}

} // verus!
