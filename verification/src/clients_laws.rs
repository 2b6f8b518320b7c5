//! Which client is whose, which was used last, and what it looks at.

use crate::clients;
use crate::clients::Gaze;
use crate::scan_laws::tabbed;
use crate::text;
use vstd::prelude::*;

verus! {

/// A line of a pid and a name is about the client of that pid, where the name is
/// not empty; a line without a tab is about none.
pub proof fn a_client_is_named_behind_its_pid(a: Seq<char>, name: Seq<char>, pid: Seq<char>)
    requires
        !a.contains('\t'),
    ensures
        a == pid && name.len() > 0 ==> clients::named_on(tabbed(a, name), pid) == Some(name),
        a != pid || name.len() == 0 ==> clients::named_on(tabbed(a, name), pid) is None,
        clients::named_on(a, pid) is None,
{
    crate::text_laws::a_text_is_cut_at_the_first_separator(a, '\t', name);
}

/// The client of a pid is the first that is named behind it, and none where none
/// is.
pub proof fn the_first_line_of_the_pid_names_the_client(lines: Seq<Seq<char>>, pid: Seq<char>, k: int)
    ensures
        0 <= k < lines.len() && clients::named_on(lines[k], pid) is Some && (forall|j: int|
            0 <= j < k ==> clients::named_on(#[trigger] lines[j], pid) is None) ==> clients::client_with(lines, pid, 0)
            == clients::named_on(lines[k], pid),
        (forall|j: int| 0 <= j < lines.len() ==> clients::named_on(#[trigger] lines[j], pid) is None)
            ==> clients::client_with(lines, pid, 0) is None,
{
    lemma_client_with(lines, pid, 0);
}

proof fn lemma_client_with(lines: Seq<Seq<char>>, pid: Seq<char>, i: int)
    requires
        0 <= i,
    ensures
        clients::client_with(lines, pid, i) is None ==> forall|j: int|
            i <= j < lines.len() ==> clients::named_on(#[trigger] lines[j], pid) is None,
        clients::client_with(lines, pid, i) is Some ==> exists|k: int|
            i <= k < lines.len() && clients::named_on(#[trigger] lines[k], pid) == clients::client_with(lines, pid, i)
                && forall|j: int| i <= j < k ==> clients::named_on(#[trigger] lines[j], pid) is None,
    decreases lines.len() - i,
{
    if i < lines.len() {
        if clients::named_on(lines[i], pid) is Some {
            assert(clients::named_on(lines[i], pid) == clients::client_with(lines, pid, i));
        } else {
            lemma_client_with(lines, pid, i + 1);
            if clients::client_with(lines, pid, i) is Some {
                let k = choose|k: int|
                    i + 1 <= k < lines.len() && clients::named_on(#[trigger] lines[k], pid) == clients::client_with(
                        lines,
                        pid,
                        i + 1,
                    ) && forall|j: int| i + 1 <= j < k ==> clients::named_on(#[trigger] lines[j], pid) is None;
                assert(clients::named_on(lines[k], pid) == clients::client_with(lines, pid, i));
            }
        }
    }
}

/// A claim writes the client's name in quotes, with a quote in it escaped.
pub proof fn a_claim_quotes_the_name(client: Seq<char>)
    ensures
        !text::occurs(client, seq!['\'']) ==> clients::claim(client) == "set-option -g @agents-mon-control-client '"@
            + client + seq!['\''],
        clients::claim(client) == "set-option -g @agents-mon-control-client '"@ + text::replace(
            client,
            seq!['\''],
            seq!['\\', '\''],
        ) + seq!['\''],
{
    reveal_strlit("'");
    reveal_strlit("\\'");
    assert("'"@ =~= seq!['\'']);
    assert("\\'"@ =~= seq!['\\', '\'']);
    if !text::occurs(client, seq!['\'']) {
        let end = Seq::<char>::empty();
        assert forall|i: int| 0 <= i < client.len() implies !#[trigger] text::stands_at(
            client + seq!['\''] + end,
            seq!['\''],
            i,
        ) by {
            let s = client + seq!['\''] + end;
            if text::stands_at(s, seq!['\''], i) {
                assert(s.subrange(i, i + 1) =~= client.subrange(i, i + 1));
                assert(text::stands_at(client, seq!['\''], i));
            }
        }
        crate::text_laws::replacing_swaps_each_place(client, seq!['\''], seq!['\\', '\''], end);
    }
}

/// A daemon that knows its client was replaced where another is claimed; one that
/// knows none, or reads none, was not.
pub proof fn a_daemon_is_replaced_by_another_claim(mine: Seq<char>, current: Seq<char>)
    ensures
        clients::taken_over(mine, current) <==> mine.len() > 0 && text::trim(current).len() > 0 && text::trim(current)
            != mine,
        !clients::taken_over(Seq::empty(), current),
        mine.len() > 0 && !text::white(mine[0]) && !text::white(mine.last()) ==> !clients::taken_over(
            mine,
            mine + seq!['\n'],
        ),
{
    if mine.len() > 0 && !text::white(mine[0]) && !text::white(mine.last()) {
        crate::text_laws::trimming_takes_the_ends_off(Seq::empty(), mine, seq!['\n']);
        assert(Seq::<char>::empty() + mine + seq!['\n'] =~= mine + seq!['\n']);
    }
}

/// A line of a time and a name tells when the client of that name, spaces and
/// all, was used.
pub proof fn a_time_stands_before_the_name(t: nat, a: Seq<char>, name: Seq<char>)
    requires
        t <= u64::MAX,
        !a.contains(' '),
    ensures
        clients::activity_on(text::decimal(t) + seq![' '] + name) == Some((t, name)),
        text::number(a, u64::MAX as nat) is None ==> clients::activity_on(a + seq![' '] + name) is None,
        clients::activity_on(a) is None,
{
    let n = text::decimal(t);
    text::decimal_reads_back(t, u64::MAX as nat);
    lemma_numeral_holds(n, u64::MAX as nat, ' ');
    crate::text_laws::a_text_is_cut_at_the_first_separator(n, ' ', name);
    crate::text_laws::a_text_is_cut_at_the_first_separator(a, ' ', name);
}

proof fn lemma_numeral_holds(n: Seq<char>, max: nat, c: char)
    requires
        text::number(n, max) is Some,
        c < '+',
    ensures
        !n.contains(c),
{
    crate::text_laws::numbers_are_digits(n, max);
    if n.contains(c) {
        let i = choose|i: int| 0 <= i < n.len() && n[i] == c;
        assert('0' <= n[i] <= '9' || n[i] == '+');
    }
}

/// The client that was used last is that of the greatest time, and of several
/// with that time the last in the list.
pub proof fn the_greatest_time_is_the_latest(lines: Seq<Seq<char>>, k: int)
    ensures
        0 <= k < lines.len() && clients::activity_on(lines[k]) is Some && (forall|j: int|
            0 <= j < lines.len() && clients::activity_on(#[trigger] lines[j]) is Some ==> {
                &&& (clients::activity_on(lines[j])->0).0 <= (clients::activity_on(lines[k])->0).0
                &&& j > k ==> (clients::activity_on(lines[j])->0).0 < (clients::activity_on(lines[k])->0).0
            }) ==> clients::latest(lines) == clients::activity_on(lines[k]),
        (forall|j: int| 0 <= j < lines.len() ==> clients::activity_on(#[trigger] lines[j]) is None) ==> clients::latest(
            lines,
        ) is None,
{
    lemma_latest(lines);
}

proof fn lemma_latest(lines: Seq<Seq<char>>)
    ensures
        clients::latest(lines) is None ==> forall|j: int|
            0 <= j < lines.len() ==> clients::activity_on(#[trigger] lines[j]) is None,
        clients::latest(lines) is Some ==> exists|k: int|
            0 <= k < lines.len() && clients::activity_on(#[trigger] lines[k]) == clients::latest(lines) && forall|j: int|
                0 <= j < lines.len() && clients::activity_on(#[trigger] lines[j]) is Some ==> {
                    &&& (clients::activity_on(lines[j])->0).0 <= (clients::latest(lines)->0).0
                    &&& j > k ==> (clients::activity_on(lines[j])->0).0 < (clients::latest(lines)->0).0
                },
    decreases lines.len(),
{
    if lines.len() > 0 {
        let rest = lines.drop_last();
        let n = rest.len() as int;
        lemma_latest(rest);
        let best = clients::latest(rest);
        let all = clients::latest(lines);
        assert(lines[n] == lines.last());
        if all is None {
            assert forall|j: int| 0 <= j < lines.len() implies clients::activity_on(#[trigger] lines[j]) is None by {
                if j < n {
                    assert(rest[j] == lines[j]);
                }
            }
        } else if best is Some && all == best && !(clients::activity_on(lines[n]) is Some && (clients::activity_on(
            lines[n],
        )->0).0 >= (best->0).0) {
            let k = choose|k: int|
                0 <= k < rest.len() && clients::activity_on(#[trigger] rest[k]) == best && forall|j: int|
                    0 <= j < rest.len() && clients::activity_on(#[trigger] rest[j]) is Some ==> {
                        &&& (clients::activity_on(rest[j])->0).0 <= (best->0).0
                        &&& j > k ==> (clients::activity_on(rest[j])->0).0 < (best->0).0
                    };
            assert(lines[k] == rest[k]);
            assert forall|j: int| 0 <= j < lines.len() && clients::activity_on(#[trigger] lines[j]) is Some implies {
                &&& (clients::activity_on(lines[j])->0).0 <= (all->0).0
                &&& j > k ==> (clients::activity_on(lines[j])->0).0 < (all->0).0
            } by {
                if j < n {
                    assert(rest[j] == lines[j]);
                }
            }
        } else {
            assert(all == clients::activity_on(lines[n]));
            assert forall|j: int| 0 <= j < lines.len() && clients::activity_on(#[trigger] lines[j]) is Some implies {
                &&& (clients::activity_on(lines[j])->0).0 <= (all->0).0
                &&& j > n ==> (clients::activity_on(lines[j])->0).0 < (all->0).0
            } by {
                if j < n {
                    assert(rest[j] == lines[j]);
                }
            }
        }
    }
}

/// A line of six fields tells when a client was used and which pane of which
/// session it shows, and whether that is a sidebar. A control client is not
/// asked, and a line without a time or with another number of fields tells
/// nothing.
pub proof fn a_line_tells_what_a_client_looks_at(
    t: nat,
    client: Seq<char>,
    session: Seq<char>,
    pane: Seq<char>,
    title: Seq<char>,
    flags: Seq<char>,
)
    requires
        t <= u64::MAX,
        !client.contains('\t'),
        !session.contains('\t'),
        !pane.contains('\t'),
        !title.contains('\t'),
        !flags.contains('\t'),
    ensures
        !text::occurs(flags, "control-mode"@) ==> clients::gaze_on(
            tabbed(text::decimal(t), tabbed(client, tabbed(session, tabbed(pane, tabbed(title, flags))))),
        ) == Some((t, Gaze { pane, session, plugin_selected: title == "agents-mon"@ })),
        text::occurs(flags, "control-mode"@) ==> clients::gaze_on(
            tabbed(text::decimal(t), tabbed(client, tabbed(session, tabbed(pane, tabbed(title, flags))))),
        ) is None,
        clients::gaze_on(tabbed(text::decimal(t), tabbed(client, tabbed(session, tabbed(pane, title))))) is None,
{
    let n = text::decimal(t);
    text::decimal_reads_back(t, u64::MAX as nat);
    lemma_numeral_holds(n, u64::MAX as nat, '\t');
    lemma_cut(flags, flags);
    lemma_cut(title, flags);
    lemma_cut(pane, tabbed(title, flags));
    lemma_cut(session, tabbed(pane, tabbed(title, flags)));
    lemma_cut(client, tabbed(session, tabbed(pane, tabbed(title, flags))));
    lemma_cut(n, tabbed(client, tabbed(session, tabbed(pane, tabbed(title, flags)))));
    let f = text::split(tabbed(n, tabbed(client, tabbed(session, tabbed(pane, tabbed(title, flags))))), '\t');
    assert(f =~= seq![n, client, session, pane, title, flags]);
    assert(f[0] == n && f[2] == session && f[3] == pane && f[4] == title && f[5] == flags);
    lemma_cut(pane, title);
    lemma_cut(session, tabbed(pane, title));
    lemma_cut(client, tabbed(session, tabbed(pane, title)));
    lemma_cut(n, tabbed(client, tabbed(session, tabbed(pane, title))));
    assert(text::split(tabbed(n, tabbed(client, tabbed(session, tabbed(pane, title)))), '\t').len() == 5);
}

proof fn lemma_cut(a: Seq<char>, rest: Seq<char>)
    requires
        !a.contains('\t'),
    ensures
        text::split(a, '\t') == seq![a],
        text::split(tabbed(a, rest), '\t') == seq![a] + text::split(rest, '\t'),
{
    crate::text_laws::fields_lie_between_separators(a, '\t', rest, 1);
}

/// The user looks where the client that was used last does, and of several that
/// were used at one time the last in the list.
pub proof fn the_user_looks_where_the_latest_client_does(lines: Seq<Seq<char>>, k: int)
    ensures
        0 <= k < lines.len() && clients::gaze_on(lines[k]) is Some && (forall|j: int|
            0 <= j < lines.len() && clients::gaze_on(#[trigger] lines[j]) is Some ==> {
                &&& (clients::gaze_on(lines[j])->0).0 <= (clients::gaze_on(lines[k])->0).0
                &&& j > k ==> (clients::gaze_on(lines[j])->0).0 < (clients::gaze_on(lines[k])->0).0
            }) ==> clients::latest_gaze(lines) == clients::gaze_on(lines[k]),
        (forall|j: int| 0 <= j < lines.len() ==> clients::gaze_on(#[trigger] lines[j]) is None)
            ==> clients::latest_gaze(lines) is None,
{
    lemma_latest_gaze(lines);
}

proof fn lemma_latest_gaze(lines: Seq<Seq<char>>)
    ensures
        clients::latest_gaze(lines) is None ==> forall|j: int|
            0 <= j < lines.len() ==> clients::gaze_on(#[trigger] lines[j]) is None,
        clients::latest_gaze(lines) is Some ==> exists|k: int|
            0 <= k < lines.len() && clients::gaze_on(#[trigger] lines[k]) == clients::latest_gaze(lines) && forall|j: int|
                0 <= j < lines.len() && clients::gaze_on(#[trigger] lines[j]) is Some ==> {
                    &&& (clients::gaze_on(lines[j])->0).0 <= (clients::latest_gaze(lines)->0).0
                    &&& j > k ==> (clients::gaze_on(lines[j])->0).0 < (clients::latest_gaze(lines)->0).0
                },
    decreases lines.len(),
{
    if lines.len() > 0 {
        let rest = lines.drop_last();
        let n = rest.len() as int;
        lemma_latest_gaze(rest);
        let best = clients::latest_gaze(rest);
        let all = clients::latest_gaze(lines);
        assert(lines[n] == lines.last());
        if all is None {
            assert forall|j: int| 0 <= j < lines.len() implies clients::gaze_on(#[trigger] lines[j]) is None by {
                if j < n {
                    assert(rest[j] == lines[j]);
                }
            }
        } else if best is Some && all == best && !(clients::gaze_on(lines[n]) is Some && (clients::gaze_on(
            lines[n],
        )->0).0 >= (best->0).0) {
            let k = choose|k: int|
                0 <= k < rest.len() && clients::gaze_on(#[trigger] rest[k]) == best && forall|j: int|
                    0 <= j < rest.len() && clients::gaze_on(#[trigger] rest[j]) is Some ==> {
                        &&& (clients::gaze_on(rest[j])->0).0 <= (best->0).0
                        &&& j > k ==> (clients::gaze_on(rest[j])->0).0 < (best->0).0
                    };
            assert(lines[k] == rest[k]);
            assert forall|j: int| 0 <= j < lines.len() && clients::gaze_on(#[trigger] lines[j]) is Some implies {
                &&& (clients::gaze_on(lines[j])->0).0 <= (all->0).0
                &&& j > k ==> (clients::gaze_on(lines[j])->0).0 < (all->0).0
            } by {
                if j < n {
                    assert(rest[j] == lines[j]);
                }
            }
        } else {
            assert(all == clients::gaze_on(lines[n]));
            assert forall|j: int| 0 <= j < lines.len() && clients::gaze_on(#[trigger] lines[j]) is Some implies {
                &&& (clients::gaze_on(lines[j])->0).0 <= (all->0).0
                &&& j > n ==> (clients::gaze_on(lines[j])->0).0 < (all->0).0
            } by {
                if j < n {
                    assert(rest[j] == lines[j]);
                }
            }
        }
    }
}

/// The clients in a sidebar are those whose pane has the sidebar's title, in
/// order.
pub proof fn clients_in_a_sidebar_are_told_by_the_title(lines: Seq<Seq<char>>, name: Seq<char>, title: Seq<char>)
    requires
        !name.contains('\t'),
    ensures
        clients::in_sidebar(Seq::<Seq<char>>::empty()).len() == 0,
        title == "agents-mon"@ ==> clients::in_sidebar(lines.push(tabbed(name, title))) == clients::in_sidebar(
            lines,
        ).push(name),
        title != "agents-mon"@ ==> clients::in_sidebar(lines.push(tabbed(name, title))) == clients::in_sidebar(lines),
        clients::in_sidebar(lines.push(name)) == clients::in_sidebar(lines),
{
    crate::text_laws::a_text_is_cut_at_the_first_separator(name, '\t', title);
    assert(lines.push(tabbed(name, title)).drop_last() =~= lines);
    assert(lines.push(name).drop_last() =~= lines);
}

/// What tmux is asked for stands in the order in which it is read.
pub proof fn clients_are_asked_for_in_this_order()
    ensures
        clients::LIST_PIDS@ == "list-clients -F '#{client_pid}\t#{client_name}'"@,
        clients::LIST_ACTIVITY@
            == "list-clients -f '#{?#{m:*control-mode*,#{client_flags}},0,1}' -F '#{client_activity} #{client_name}'"@,
        clients::LIST_SESSIONS@
            == "list-clients -f '#{?#{m:*control-mode*,#{client_flags}},0,1}' -F '#{session_id}'"@,
        clients::LIST_TITLES@ == "list-clients -F '#{client_name}\t#{pane_title}'"@,
        clients::LIST_FOCUS@
            == "list-clients -F '#{client_activity}\t#{client_name}\t#{session_id}\t#{pane_id}\t#{pane_title}\t#{client_flags}'"@,
        clients::SHOW_CLAIM@ == "show-option -gqv @agents-mon-control-client"@,
{
}

/// A line without a time, or with more fields than six, tells nothing.
pub proof fn other_lines_tell_nothing(
    a: Seq<char>,
    client: Seq<char>,
    session: Seq<char>,
    pane: Seq<char>,
    title: Seq<char>,
    flags: Seq<char>,
    more: Seq<char>,
)
    requires
        !a.contains('\t'),
        !client.contains('\t'),
        !session.contains('\t'),
        !pane.contains('\t'),
        !title.contains('\t'),
        !flags.contains('\t'),
        !more.contains('\t'),
    ensures
        text::number(a, u64::MAX as nat) is None ==> clients::gaze_on(
            tabbed(a, tabbed(client, tabbed(session, tabbed(pane, tabbed(title, flags))))),
        ) is None,
        clients::gaze_on(
            tabbed(a, tabbed(client, tabbed(session, tabbed(pane, tabbed(title, tabbed(flags, more)))))),
        ) is None,
{
    lemma_cut(more, more);
    lemma_cut(flags, more);
    lemma_cut(title, tabbed(flags, more));
    lemma_cut(pane, tabbed(title, tabbed(flags, more)));
    lemma_cut(session, tabbed(pane, tabbed(title, tabbed(flags, more))));
    lemma_cut(client, tabbed(session, tabbed(pane, tabbed(title, tabbed(flags, more)))));
    lemma_cut(a, tabbed(client, tabbed(session, tabbed(pane, tabbed(title, tabbed(flags, more))))));
    let g = text::split(
        tabbed(a, tabbed(client, tabbed(session, tabbed(pane, tabbed(title, tabbed(flags, more)))))),
        '\t',
    );
    assert(g.len() == 7);
    lemma_cut(title, flags);
    lemma_cut(pane, tabbed(title, flags));
    lemma_cut(session, tabbed(pane, tabbed(title, flags)));
    lemma_cut(client, tabbed(session, tabbed(pane, tabbed(title, flags))));
    lemma_cut(a, tabbed(client, tabbed(session, tabbed(pane, tabbed(title, flags)))));
    let f = text::split(tabbed(a, tabbed(client, tabbed(session, tabbed(pane, tabbed(title, flags))))), '\t');
    assert(f =~= seq![a, client, session, pane, title, flags]);
    assert(f[0] == a);
}

} // verus!
