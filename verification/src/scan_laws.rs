//! What a line about a pane holds, what is looked at, and what the status line
//! says of it.

use crate::conf;
use crate::conf::AgentConf;
use crate::procs;
use crate::procs::Process;
use crate::scan;
use crate::scan::Aim;
use crate::scan::Known;
use crate::scan::Listed;
use crate::scan::Row;
use crate::text;
use vstd::prelude::*;

verus! {

/// Fields with a tab between them.
pub open spec fn tabbed(a: Seq<char>, rest: Seq<char>) -> Seq<char> {
    a + seq!['\t'] + rest
}

/// A row is written as its pane, its place, its agent, its state, its directory
/// and its title, in that order, with a tab between them.
pub proof fn a_row_is_written_field_by_field(r: Row)
    ensures
        scan::row_line(r) == tabbed(
            r.pane,
            tabbed(r.loc, tabbed(r.agent, tabbed(r.state, tabbed(r.cwd, r.title)))),
        ),
{
    assert(scan::row_line(r) =~= tabbed(
        r.pane,
        tabbed(r.loc, tabbed(r.agent, tabbed(r.state, tabbed(r.cwd, r.title)))),
    ));
}

/// Rows are written one to a line.
pub proof fn rows_are_written_one_to_a_line(rows: Seq<Row>, r: Row)
    ensures
        scan::tsv(Seq::<Row>::empty()).len() == 0,
        scan::tsv(rows.push(r)) == scan::tsv(rows) + scan::row_line(r) + seq!['\n'],
{
    assert(rows.push(r).drop_last() =~= rows);
    assert(scan::tsv(rows.push(r)) =~= scan::tsv(rows) + scan::row_line(r) + seq!['\n']);
}

/// A saved line is read field by field: the sixth field is the title, tabs and
/// all, and may be missing; with fewer than five there is no row.
pub proof fn a_saved_line_is_read_field_by_field(
    a: Seq<char>,
    b: Seq<char>,
    c: Seq<char>,
    d: Seq<char>,
    e: Seq<char>,
    title: Seq<char>,
)
    requires
        !a.contains('\t'),
        !b.contains('\t'),
        !c.contains('\t'),
        !d.contains('\t'),
        !e.contains('\t'),
    ensures
        scan::line_row(tabbed(a, tabbed(b, tabbed(c, tabbed(d, tabbed(e, title)))))) == Some(
            Row { pane: a, loc: b, agent: c, state: d, cwd: e, title },
        ),
        scan::line_row(tabbed(a, tabbed(b, tabbed(c, tabbed(d, e))))) == Some(
            Row { pane: a, loc: b, agent: c, state: d, cwd: e, title: Seq::empty() },
        ),
        scan::line_row(tabbed(a, tabbed(b, tabbed(c, d)))) is None,
        scan::line_row(tabbed(a, tabbed(b, c))) is None,
        scan::line_row(tabbed(a, b)) is None,
        scan::line_row(a) is None,
{
    lemma_fields(a, b, c, d, e, title);
}

/// The fields of lines of one to six, cut at most five times.
proof fn lemma_fields(
    a: Seq<char>,
    b: Seq<char>,
    c: Seq<char>,
    d: Seq<char>,
    e: Seq<char>,
    f: Seq<char>,
)
    requires
        !a.contains('\t'),
        !b.contains('\t'),
        !c.contains('\t'),
        !d.contains('\t'),
        !e.contains('\t'),
    ensures
        text::pieces(tabbed(a, tabbed(b, tabbed(c, tabbed(d, tabbed(e, f))))), '\t', 6) == seq![a, b, c, d, e, f],
        text::pieces(tabbed(a, tabbed(b, tabbed(c, tabbed(d, e)))), '\t', 6) == seq![a, b, c, d, e],
        text::pieces(tabbed(a, tabbed(b, tabbed(c, d))), '\t', 6) == seq![a, b, c, d],
        text::pieces(tabbed(a, tabbed(b, c)), '\t', 6) == seq![a, b, c],
        text::pieces(tabbed(a, b), '\t', 6) == seq![a, b],
        text::pieces(a, '\t', 6) == seq![a],
{
    lemma_cut(e, f, 1);
    lemma_cut(d, tabbed(e, f), 2);
    lemma_cut(c, tabbed(d, tabbed(e, f)), 3);
    lemma_cut(b, tabbed(c, tabbed(d, tabbed(e, f))), 4);
    lemma_cut(a, tabbed(b, tabbed(c, tabbed(d, tabbed(e, f)))), 5);
    assert(text::pieces(tabbed(a, tabbed(b, tabbed(c, tabbed(d, tabbed(e, f))))), '\t', 6) =~= seq![a, b, c, d, e, f]);
    lemma_cut(e, f, 2);
    lemma_cut(d, e, 2);
    lemma_cut(c, tabbed(d, e), 3);
    lemma_cut(b, tabbed(c, tabbed(d, e)), 4);
    lemma_cut(a, tabbed(b, tabbed(c, tabbed(d, e))), 5);
    assert(text::pieces(tabbed(a, tabbed(b, tabbed(c, tabbed(d, e)))), '\t', 6) =~= seq![a, b, c, d, e]);
    lemma_cut(d, e, 3);
    lemma_cut(c, d, 3);
    lemma_cut(b, tabbed(c, d), 4);
    lemma_cut(a, tabbed(b, tabbed(c, d)), 5);
    assert(text::pieces(tabbed(a, tabbed(b, tabbed(c, d))), '\t', 6) =~= seq![a, b, c, d]);
    lemma_cut(c, d, 4);
    lemma_cut(b, c, 4);
    lemma_cut(a, tabbed(b, c), 5);
    assert(text::pieces(tabbed(a, tabbed(b, c)), '\t', 6) =~= seq![a, b, c]);
    lemma_cut(b, c, 5);
    lemma_cut(a, b, 5);
    assert(text::pieces(tabbed(a, b), '\t', 6) =~= seq![a, b]);
    lemma_cut(a, b, 6);
}

proof fn lemma_cut(a: Seq<char>, rest: Seq<char>, n: int)
    requires
        !a.contains('\t'),
        n >= 1,
    ensures
        text::pieces(tabbed(a, rest), '\t', n + 1) == seq![a] + text::pieces(rest, '\t', n),
        text::pieces(a, '\t', n) == seq![a],
        text::pieces(rest, '\t', 1) == seq![rest],
{
    crate::text_laws::fields_lie_between_separators(a, '\t', rest, n);
}

/// Lines that are no rows are passed over; the others come out in order.
pub proof fn saved_lines_are_read_in_order(lines: Seq<Seq<char>>, line: Seq<char>)
    ensures
        scan::line_rows(Seq::<Seq<char>>::empty()).len() == 0,
        scan::line_row(line) is None ==> scan::line_rows(lines.push(line)) == scan::line_rows(lines),
        scan::line_row(line) matches Some(r) ==> scan::line_rows(lines.push(line)) == scan::line_rows(lines).push(r),
{
    assert(lines.push(line).drop_last() =~= lines);
}

/// A line that tmux prints about a pane is read field by field: its id, its pid,
/// its command, its directory, its place and its title, tabs and all. With fewer
/// fields it is passed over, and a pid that is no number is none.
pub proof fn a_pane_is_read_field_by_field(
    a: Seq<char>,
    pid: u32,
    b: Seq<char>,
    c: Seq<char>,
    d: Seq<char>,
    e: Seq<char>,
    title: Seq<char>,
)
    requires
        !a.contains('\t'),
        !b.contains('\t'),
        !c.contains('\t'),
        !d.contains('\t'),
        !e.contains('\t'),
    ensures
        scan::listed(tabbed(a, tabbed(text::decimal(pid as nat), tabbed(c, tabbed(d, tabbed(e, title)))))) == Some(
            Listed { pane: a, pid, cmd: c, path: d, loc: e, title },
        ),
        text::number(b, u32::MAX as nat) is None ==> scan::listed(
            tabbed(a, tabbed(b, tabbed(c, tabbed(d, tabbed(e, title))))),
        ) == Some(Listed { pane: a, pid: 0, cmd: c, path: d, loc: e, title }),
        scan::listed(tabbed(a, tabbed(b, tabbed(c, tabbed(d, e))))) is None,
        scan::listed(tabbed(a, tabbed(b, tabbed(c, d)))) is None,
        scan::listed(tabbed(a, tabbed(b, c))) is None,
        scan::listed(tabbed(a, b)) is None,
        scan::listed(a) is None,
{
    let n = text::decimal(pid as nat);
    text::decimal_reads_back(pid as nat, u32::MAX as nat);
    assert(!n.contains('\t')) by {
        crate::text_laws::numbers_are_digits(n, u32::MAX as nat);
        if n.contains('\t') {
            let i = choose|i: int| 0 <= i < n.len() && n[i] == '\t';
            assert('0' <= n[i] <= '9' || n[i] == '+');
        }
    }
    lemma_fields(a, n, c, d, e, title);
    lemma_fields(a, b, c, d, e, title);
}

/// The panes that are looked at are those that are listed, in order, without the
/// sidebar's own.
pub proof fn panes_are_looked_at_in_order(lines: Seq<Seq<char>>, line: Seq<char>, own: Option<Seq<char>>)
    ensures
        scan::panes_in(Seq::<Seq<char>>::empty(), own).len() == 0,
        scan::listed(line) is None ==> scan::panes_in(lines.push(line), own) == scan::panes_in(lines, own),
        scan::listed(line) matches Some(p) ==> (own == Some(p.pane) ==> scan::panes_in(lines.push(line), own)
            == scan::panes_in(lines, own)),
        scan::listed(line) matches Some(p) ==> (own != Some(p.pane) ==> scan::panes_in(lines.push(line), own)
            == scan::panes_in(lines, own).push(p)),
{
    assert(lines.push(line).drop_last() =~= lines);
}

/// What was found of a pane before holds as long as its id, its pid and its
/// command stay; else the pane runs the agent that its command or a process below
/// it is.
pub proof fn an_agent_is_known_or_looked_for(
    confs: Seq<AgentConf>,
    cache: Known,
    table: Seq<Process>,
    p: Listed,
)
    ensures
        cache.contains_key((p.pane, p.pid, p.cmd)) ==> scan::agent_in(confs, cache, table, p) == cache[(
            p.pane,
            p.pid,
            p.cmd,
        )],
        !cache.contains_key((p.pane, p.pid, p.cmd)) && procs::pane_owner(confs, table, p.pid, p.cmd) is None
            ==> scan::agent_in(confs, cache, table, p) is None,
        !cache.contains_key((p.pane, p.pid, p.cmd)) ==> (procs::pane_owner(confs, table, p.pid, p.cmd) matches Some(i)
            ==> 0 <= i < confs.len() ==> scan::agent_in(confs, cache, table, p) == Some(confs[i].name@)),
        scan::unknown(confs, cache, p) <==> (!cache.contains_key((p.pane, p.pid, p.cmd))
            && crate::procs_laws::unlisted(confs, procs::bare(p.cmd))),
{
    crate::procs_laws::a_program_belongs_to_the_first_that_lists_it(confs, procs::bare(p.cmd), 0, 0);
    if !crate::procs_laws::unlisted(confs, procs::bare(p.cmd)) {
        crate::procs_laws::a_known_command_needs_no_walk(confs, table, p.pid, p.cmd);
    }
}

/// The panes that run an agent with a conf are captured, each with the first conf
/// of that name, in order; no other pane is.
pub proof fn panes_with_an_agent_are_captured(
    confs: Seq<AgentConf>,
    cache: Known,
    table: Seq<Process>,
    panes: Seq<Listed>,
    p: Listed,
    k: int,
)
    ensures
        scan::aimed_at(confs, cache, table, Seq::<Listed>::empty()).len() == 0,
        scan::agent_in(confs, cache, table, p) is None ==> scan::aimed_at(confs, cache, table, panes.push(p))
            == scan::aimed_at(confs, cache, table, panes),
        0 <= k < confs.len() && scan::agent_in(confs, cache, table, p) == Some(confs[k].name@) && (forall|j: int|
            0 <= j < k ==> (#[trigger] confs[j]).name@ != confs[k].name@) ==> scan::aimed_at(
            confs,
            cache,
            table,
            panes.push(p),
        ) == scan::aimed_at(confs, cache, table, panes).push(Aim { line: p, conf: k }),
        scan::agent_in(confs, cache, table, p) matches Some(name) ==> ((forall|j: int|
            0 <= j < confs.len() ==> (#[trigger] confs[j]).name@ != name) ==> scan::aimed_at(
            confs,
            cache,
            table,
            panes.push(p),
        ) == scan::aimed_at(confs, cache, table, panes)),
{
    assert(panes.push(p).drop_last() =~= panes);
    let names = conf::names(confs);
    if let Some(name) = scan::agent_in(confs, cache, table, p) {
        text::lemma_position_of(names, name, 0);
        match text::position_of(names, name, 0) {
            Some(q) => {
                assert(names[q] == confs[q].name@);
                if 0 <= k < confs.len() && name == confs[k].name@ && (forall|j: int|
                    0 <= j < k ==> (#[trigger] confs[j]).name@ != confs[k].name@) {
                    assert(names[k] == name);
                    assert(q == k);
                }
            },
            None => {
                if 0 <= k < confs.len() {
                    assert(names[k] == confs[k].name@);
                }
            },
        }
    }
}

/// A row shows the pane's id and place, the agent, its state and subject, and the
/// last part of the pane's directory.
pub proof fn a_row_shows_the_pane(p: Listed, agent: Seq<char>, state: Seq<char>, subject: Seq<char>, a: Seq<char>, b: Seq<char>)
    requires
        !b.contains('/'),
        p.path == a + seq!['/'] + b,
    ensures
        ({
            let r = scan::row_of(p, agent, state, subject);
            r.pane == p.pane && r.loc == p.loc && r.agent == agent && r.state == state && r.title == subject && r.cwd == b
        }),
{
    crate::text_laws::a_tail_follows_the_last_separator(a, '/', b);
}

/// A row counts for its state and for no other.
pub proof fn a_row_counts_for_its_state(rows: Seq<Row>, r: Row, state: Seq<char>)
    ensures
        scan::count(Seq::<Row>::empty(), state) == 0,
        r.state == state ==> scan::count(rows.push(r), state) == scan::count(rows, state) + 1,
        r.state != state ==> scan::count(rows.push(r), state) == scan::count(rows, state),
{
    assert(rows.push(r).drop_last() =~= rows);
}

/// The status line tells how many agents are blocked, working and idle, in that
/// order, each number behind the sign of the state and a space between them; a
/// state that no agent is in is left out.
pub proof fn the_status_line_tells_how_many(rows: Seq<Row>)
    ensures
        ({
            let b = scan::count(rows, "blocked"@);
            let w = scan::count(rows, "working"@);
            let i = scan::count(rows, "idle"@);
            let red = "#[fg=red]⣿#[default]"@ + text::decimal(b);
            let yellow = "#[fg=yellow]⣾#[default]"@ + text::decimal(w);
            let green = "#[fg=green]⣿#[default]"@ + text::decimal(i);
            let gap = seq![' '];
            let s = scan::segment(rows);
            &&& b > 0 && w > 0 && i > 0 ==> s == red + gap + yellow + gap + green
            &&& b > 0 && w > 0 && i == 0 ==> s == red + gap + yellow
            &&& b > 0 && w == 0 && i > 0 ==> s == red + gap + green
            &&& b == 0 && w > 0 && i > 0 ==> s == yellow + gap + green
            &&& b > 0 && w == 0 && i == 0 ==> s == red
            &&& b == 0 && w > 0 && i == 0 ==> s == yellow
            &&& b == 0 && w == 0 && i > 0 ==> s == green
            &&& b == 0 && w == 0 && i == 0 ==> s.len() == 0
        }),
{
    reveal_strlit(" ");
    assert(" "@ =~= seq![' ']);
    let b = scan::count(rows, "blocked"@);
    let w = scan::count(rows, "working"@);
    let i = scan::count(rows, "idle"@);
    let red = "#[fg=red]⣿#[default]"@ + text::decimal(b);
    let yellow = "#[fg=yellow]⣾#[default]"@ + text::decimal(w);
    let green = "#[fg=green]⣿#[default]"@ + text::decimal(i);
    let list = scan::tally("#[fg=red]⣿#[default]"@, b) + scan::tally("#[fg=yellow]⣾#[default]"@, w) + scan::tally(
        "#[fg=green]⣿#[default]"@,
        i,
    );
    lemma_joined(red, yellow, green);
    if b > 0 && w > 0 && i > 0 {
        assert(list =~= seq![red, yellow, green]);
    } else if b > 0 && w > 0 {
        assert(list =~= seq![red, yellow]);
    } else if b > 0 && i > 0 {
        assert(list =~= seq![red, green]);
    } else if w > 0 && i > 0 {
        assert(list =~= seq![yellow, green]);
    } else if b > 0 {
        assert(list =~= seq![red]);
    } else if w > 0 {
        assert(list =~= seq![yellow]);
    } else if i > 0 {
        assert(list =~= seq![green]);
    } else {
        assert(list =~= Seq::<Seq<char>>::empty());
    }
}

proof fn lemma_joined(x: Seq<char>, y: Seq<char>, z: Seq<char>)
    ensures
        text::join(seq![x, y, z], seq![' ']) == x + seq![' '] + y + seq![' '] + z,
        text::join(seq![x, y], seq![' ']) == x + seq![' '] + y,
        text::join(seq![x, z], seq![' ']) == x + seq![' '] + z,
        text::join(seq![y, z], seq![' ']) == y + seq![' '] + z,
{
    crate::text_laws::joining_puts_the_separator_between(seq![x], y, seq![' ']);
    crate::text_laws::joining_puts_the_separator_between(seq![x], z, seq![' ']);
    crate::text_laws::joining_puts_the_separator_between(seq![y], z, seq![' ']);
    crate::text_laws::joining_puts_the_separator_between(seq![x, y], z, seq![' ']);
    assert(seq![x].push(y) =~= seq![x, y]);
    assert(seq![x].push(z) =~= seq![x, z]);
    assert(seq![y].push(z) =~= seq![y, z]);
    assert(seq![x, y].push(z) =~= seq![x, y, z]);
    crate::text_laws::joining_puts_the_separator_between(seq![x], x, seq![' ']);
    crate::text_laws::joining_puts_the_separator_between(seq![x], y, seq![' ']);
    assert(text::join(seq![x], seq![' ']) == x);
    assert(text::join(seq![y], seq![' ']) == y);
}

} // verus!
