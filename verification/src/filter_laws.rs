//! Which rows are shown, said of what was typed and of what the rows hold.

use crate::filter;
use crate::filter::StateFilter;
use crate::scan::Row;
use crate::text;
use crate::unicode;
use vstd::prelude::*;

verus! {

/// Without a state filter a row is shown exactly where the whole of what was
/// typed, trimmed and in lower case, stands in the name of its session or in
/// what it shows, in lower case.
pub proof fn a_row_is_shown_where_the_query_stands_in_it(rows: Seq<Row>, query: Seq<char>, i: int)
    requires
        0 <= i < rows.len(),
        text::trim(query).len() > 0,
        unicode::lowercase(text::trim(query)).len() > 0,
    ensures
        filter::shown(rows, query, None).contains(i) <==> {
            ||| text::occurs(
                unicode::lowercase(text::before(rows[i].loc, ':')),
                unicode::lowercase(text::trim(query)),
            )
            ||| text::occurs(
                unicode::lowercase(
                    rows[i].agent + seq![' '] + rows[i].loc + seq![' '] + rows[i].cwd + seq![' '] + rows[i].title
                        + seq![' '] + rows[i].state,
                ),
                unicode::lowercase(text::trim(query)),
            )
        },
{
    filter::shown_rows_are_those_that_pass(rows, query, None);
}

/// A query that comes to nothing hides nothing.
pub proof fn a_blank_query_shows_all(rows: Seq<Row>, query: Seq<char>, i: int)
    requires
        0 <= i < rows.len(),
        text::trim(query).len() == 0 || unicode::lowercase(text::trim(query)).len() == 0,
    ensures
        filter::shown(rows, query, None).contains(i),
{
    filter::shown_rows_are_those_that_pass(rows, query, None);
    assert(filter::shows(rows[i], query, None));
}

/// White space around a query changes nothing.
pub proof fn white_space_around_a_query_does_not_count(
    rows: Seq<Row>,
    a: Seq<char>,
    m: Seq<char>,
    b: Seq<char>,
    i: int,
)
    requires
        0 <= i < rows.len(),
        crate::text_laws::all_white(a),
        crate::text_laws::all_white(b),
        m.len() > 0 ==> !text::white(m[0]) && !text::white(m.last()),
    ensures
        filter::shown(rows, a + m + b, None).contains(i) <==> filter::shown(rows, m, None).contains(i),
{
    crate::text_laws::trimming_takes_the_ends_off(a, m, b);
    crate::text_laws::trimming_takes_the_ends_off(Seq::empty(), m, Seq::empty());
    assert(Seq::<char>::empty() + m + Seq::<char>::empty() =~= m);
    filter::shown_rows_are_those_that_pass(rows, a + m + b, None);
    filter::shown_rows_are_those_that_pass(rows, m, None);
    assert(filter::shows(rows[i], a + m + b, None) == filter::shows(rows[i], m, None));
}

/// A state filter shows the rows in that state, whatever was typed.
pub proof fn a_state_filter_shows_one_state(rows: Seq<Row>, query: Seq<char>, i: int)
    requires
        0 <= i < rows.len(),
    ensures
        filter::shown(rows, query, Some(StateFilter::Blocked)).contains(i) <==> rows[i].state == "blocked"@,
        filter::shown(rows, query, Some(StateFilter::Working)).contains(i) <==> rows[i].state == "working"@,
        filter::shown(rows, query, Some(StateFilter::Idle)).contains(i) <==> rows[i].state == "idle"@,
        filter::shown(rows, query, Some(StateFilter::Done)).contains(i) <==> rows[i].state == "done"@,
{
    filter::shown_rows_are_those_that_pass(rows, query, Some(StateFilter::Blocked));
    filter::shown_rows_are_those_that_pass(rows, query, Some(StateFilter::Working));
    filter::shown_rows_are_those_that_pass(rows, query, Some(StateFilter::Idle));
    filter::shown_rows_are_those_that_pass(rows, query, Some(StateFilter::Done));
}

/// The places that are shown rise, so no row is shown twice and rows keep their
/// order.
pub proof fn shown_rows_keep_their_order(rows: Seq<Row>, query: Seq<char>, f: Option<StateFilter>, j: int, k: int)
    requires
        0 <= j < k < filter::shown(rows, query, f).len(),
    ensures
        0 <= filter::shown(rows, query, f)[j] < filter::shown(rows, query, f)[k] < rows.len(),
{
    filter::shown_rows_are_those_that_pass(rows, query, f);
    assert(0 <= filter::shown(rows, query, f)[j]);
    assert(filter::shown(rows, query, f)[k] < rows.len());
}

/// The filters come one after the other: blocked, working, idle, done, and then
/// none.
pub proof fn filters_come_in_this_order()
    ensures
        filter::next_filter(None) == Some(StateFilter::Blocked),
        filter::next_filter(Some(StateFilter::Blocked)) == Some(StateFilter::Working),
        filter::next_filter(Some(StateFilter::Working)) == Some(StateFilter::Idle),
        filter::next_filter(Some(StateFilter::Idle)) == Some(StateFilter::Done),
        filter::next_filter(Some(StateFilter::Done)) is None,
{
}

/// A place is a session and a window with a colon between them: the session has
/// none, the window may.
pub proof fn a_place_is_a_session_and_a_window(session: Seq<char>, window: Seq<char>)
    requires
        !session.contains(':'),
    ensures
        filter::session(session + seq![':'] + window) == session,
        filter::window(session + seq![':'] + window) == window,
        filter::session(session) == session,
        filter::window(session).len() == 0,
{
    crate::text_laws::a_text_is_cut_at_the_first_separator(session, ':', window);
}

/// What a row is searched by holds all that it shows.
pub proof fn a_row_is_searched_by_all_it_shows(r: Row)
    ensures
        text::occurs(filter::searched(r), r.agent),
        text::occurs(filter::searched(r), r.loc),
        text::occurs(filter::searched(r), r.cwd),
        text::occurs(filter::searched(r), r.title),
        text::occurs(filter::searched(r), r.state),
{
    let s = filter::searched(r);
    let sp = seq![' '];
    crate::text_laws::a_text_stands_in_its_surroundings(
        Seq::empty(),
        r.agent,
        sp + r.loc + sp + r.cwd + sp + r.title + sp + r.state,
    );
    assert(s =~= Seq::<char>::empty() + r.agent + (sp + r.loc + sp + r.cwd + sp + r.title + sp + r.state));
    crate::text_laws::a_text_stands_in_its_surroundings(
        r.agent + sp,
        r.loc,
        sp + r.cwd + sp + r.title + sp + r.state,
    );
    assert(s =~= r.agent + sp + r.loc + (sp + r.cwd + sp + r.title + sp + r.state));
    crate::text_laws::a_text_stands_in_its_surroundings(
        r.agent + sp + r.loc + sp,
        r.cwd,
        sp + r.title + sp + r.state,
    );
    assert(s =~= r.agent + sp + r.loc + sp + r.cwd + (sp + r.title + sp + r.state));
    crate::text_laws::a_text_stands_in_its_surroundings(
        r.agent + sp + r.loc + sp + r.cwd + sp,
        r.title,
        sp + r.state,
    );
    assert(s =~= r.agent + sp + r.loc + sp + r.cwd + sp + r.title + (sp + r.state));
    crate::text_laws::a_text_stands_in_its_surroundings(
        r.agent + sp + r.loc + sp + r.cwd + sp + r.title + sp,
        r.state,
        Seq::empty(),
    );
    assert(s =~= r.agent + sp + r.loc + sp + r.cwd + sp + r.title + sp + r.state + Seq::<char>::empty());
}

/// The cursor is on the selected place while the plugin is focused, and on the
/// first row of the active pane else.
pub proof fn the_cursor_is_where_the_user_is(
    rows: Seq<Row>,
    visible: Seq<int>,
    selected: int,
    active: Seq<char>,
    k: int,
)
    requires
        0 <= k < visible.len(),
    ensures
        filter::cursor(rows, visible, k + 1, true, active) == Some(k),
        selected < 1 || selected > visible.len() ==> filter::cursor(rows, visible, selected, true, active) is None,
        rows[visible[k]].pane == active && (forall|j: int| 0 <= j < k ==> rows[#[trigger] visible[j]].pane != active)
            ==> filter::cursor(rows, visible, selected, false, active) == Some(k),
        (forall|j: int| 0 <= j < visible.len() ==> rows[#[trigger] visible[j]].pane != active) ==> filter::cursor(
            rows,
            visible,
            selected,
            false,
            active,
        ) is None,
{
    lemma_first_place(rows, visible, active, 0);
}

proof fn lemma_first_place(rows: Seq<Row>, visible: Seq<int>, pane: Seq<char>, k: int)
    requires
        0 <= k,
    ensures
        match filter::place_of(rows, visible, pane, k) {
            Some(p) => k <= p < visible.len() && rows[visible[p]].pane == pane && forall|i: int|
                k <= i < p ==> rows[#[trigger] visible[i]].pane != pane,
            None => forall|i: int| k <= i < visible.len() ==> rows[#[trigger] visible[i]].pane != pane,
        },
    decreases visible.len() - k,
{
    if k < visible.len() && rows[visible[k]].pane != pane {
        lemma_first_place(rows, visible, pane, k + 1);
    }
}

/// Of texts and their sessions those are kept in which the query stands.
pub proof fn texts_are_kept_by_the_query(query: Seq<char>, sessions: Seq<Seq<char>>, texts: Seq<Seq<char>>, i: int)
    requires
        0 <= i < sessions.len(),
        sessions.len() == texts.len(),
    ensures
        filter::places(filter::kept(query, sessions, texts)).contains(i) <==> text::occurs(sessions[i], query)
            || text::occurs(texts[i], query),
{
    let flags = filter::kept(query, sessions, texts);
    filter::lemma_places(flags);
    if filter::places(flags).contains(i) {
        let k = choose|k: int| 0 <= k < filter::places(flags).len() && filter::places(flags)[k] == i;
        assert(flags[filter::places(flags)[k]]);
    }
    assert(flags[i] == filter::keeps(query, sessions[i], texts[i]));
}

/// The text by which a row is searched, word for word.
pub proof fn the_searched_text_is_this(r: Row)
    ensures
        filter::searched(r) == r.agent + seq![' '] + r.loc + seq![' '] + r.cwd + seq![' '] + r.title + seq![' '] + r.state,
{
}

} // verus!
