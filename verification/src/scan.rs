//! The panes that hold an agent: from tmux's list of panes to rows, and from
//! rows to text and back.

use crate::conf;
use crate::conf::AgentConf;
use crate::detect;
use crate::detect::Subject;
use crate::procs;
use crate::procs::{Identity, IdentCache, Snapshot};
use crate::text;
use vstd::prelude::*;
use vstd::string::*;

verus! {

/// A pane with an agent in it.
pub struct PaneRow {
    pub pane: String,
    pub loc: String,
    pub agent: String,
    pub state: String,
    pub cwd: String,
    pub title: String,
}

/// What a row says.
#[verifier::ext_equal]
pub struct Row {
    pub pane: Seq<char>,
    pub loc: Seq<char>,
    pub agent: Seq<char>,
    pub state: Seq<char>,
    pub cwd: Seq<char>,
    pub title: Seq<char>,
}

impl View for PaneRow {
    type V = Row;

    open spec fn view(&self) -> Row {
        Row {
            pane: self.pane@,
            loc: self.loc@,
            agent: self.agent@,
            state: self.state@,
            cwd: self.cwd@,
            title: self.title@,
        }
    }
}

/// What a list of rows says.
pub open spec fn rows_view(rows: Seq<PaneRow>) -> Seq<Row> {
    rows.map_values(|r: PaneRow| r@)
}

impl PaneRow {
    /// A copy of the row.
    pub fn copy(&self) -> (r: PaneRow)
        ensures
            r@ == self@,
    {
        PaneRow {
            pane: self.pane.clone(),
            loc: self.loc.clone(),
            agent: self.agent.clone(),
            state: self.state.clone(),
            cwd: self.cwd.clone(),
            title: self.title.clone(),
        }
    }
}

// ---------------------------------------------------------------------------
// Rows as text

/// A row as a line, without its line end: six fields between tabs.
pub open spec fn row_line(r: Row) -> Seq<char> {
    r.pane + seq!['\t'] + r.loc + seq!['\t'] + r.agent + seq!['\t'] + r.state + seq!['\t'] + r.cwd
        + seq!['\t'] + r.title
}

/// Rows as text, a line for each.
pub open spec fn tsv(rows: Seq<Row>) -> Seq<char>
    decreases rows.len(),
{
    if rows.len() == 0 {
        Seq::empty()
    } else {
        tsv(rows.drop_last()) + (row_line(rows.last()) + seq!['\n'])
    }
}

/// The row that a line says: five fields at least, and the rest of the line is
/// the title.
pub open spec fn line_row(line: Seq<char>) -> Option<Row> {
    let f = text::pieces(line, '\t', 6);
    if f.len() < 5 {
        None
    } else {
        Some(
            Row {
                pane: f[0],
                loc: f[1],
                agent: f[2],
                state: f[3],
                cwd: f[4],
                title: if f.len() > 5 {
                    f[5]
                } else {
                    Seq::empty()
                },
            },
        )
    }
}

/// The rows that the lines say; a line that says none is passed over.
pub open spec fn line_rows(lines: Seq<Seq<char>>) -> Seq<Row>
    decreases lines.len(),
{
    if lines.len() == 0 {
        Seq::empty()
    } else {
        match line_row(lines.last()) {
            Some(r) => line_rows(lines.drop_last()).push(r),
            None => line_rows(lines.drop_last()),
        }
    }
}

/// The rows as tab-separated text.
pub fn to_tsv(rows: &Vec<PaneRow>) -> (r: String)
    ensures
        r@ == tsv(rows_view(rows@)),
{
    let ghost all = rows_view(rows@);
    let mut out = String::new();
    let mut i: usize = 0;
    while i < rows.len()
        invariant
            all == rows_view(rows@),
            i <= rows@.len(),
            out@ == tsv(all.take(i as int)),
        decreases rows@.len() - i,
    {
        let ghost was = out@;
        let row = &rows[i];
        proof {
            assert(all.take(i + 1).drop_last() =~= all.take(i as int));
            assert(all.take(i + 1).last() == row@);
        }
        out.append(row.pane.as_str());
        out.push('\t');
        out.append(row.loc.as_str());
        out.push('\t');
        out.append(row.agent.as_str());
        out.push('\t');
        out.append(row.state.as_str());
        out.push('\t');
        out.append(row.cwd.as_str());
        out.push('\t');
        out.append(row.title.as_str());
        out.push('\n');
        assert(out@ =~= was + (row_line(row@) + seq!['\n']));
        i += 1;
    }
    assert(all.take(i as int) =~= all);
    out
}

/// The rows that a tab-separated text holds.
pub fn from_tsv(tsv: &str) -> (r: Vec<PaneRow>)
    ensures
        rows_view(r@) == line_rows(text::lines(tsv@)),
{
    let lines = text::lines_of(tsv);
    let ghost all = text::lines(tsv@);
    let mut out: Vec<PaneRow> = Vec::new();
    let mut i: usize = 0;
    assert(rows_view(out@) =~= Seq::<Row>::empty());
    while i < lines.len()
        invariant
            all == text::views(lines@),
            i <= lines@.len(),
            rows_view(out@) == line_rows(all.take(i as int)),
        decreases lines@.len() - i,
    {
        let ghost was = out@;
        let f = text::pieces_of(lines[i].as_str(), '\t', 6);
        proof {
            assert(all.take(i + 1).drop_last() =~= all.take(i as int));
            assert(all.take(i + 1).last() == lines@[i as int]@);
            assert(text::pieces(lines@[i as int]@, '\t', 6) == text::views(f@));
        }
        if f.len() >= 5 {
            let title = if f.len() > 5 {
                f[5].clone()
            } else {
                String::new()
            };
            let row = PaneRow {
                pane: f[0].clone(),
                loc: f[1].clone(),
                agent: f[2].clone(),
                state: f[3].clone(),
                cwd: f[4].clone(),
                title,
            };
            out.push(row);
            proof {
                assert(row@ =~= line_row(lines@[i as int]@)->0);
                assert(rows_view(out@) =~= rows_view(was).push(row@));
            }
        }
        i += 1;
    }
    assert(all.take(i as int) =~= all);
    out
}

/// Can the row be written as a line and read back? No field but the title may
/// hold a tab, none a line end, and the title may not end with a carriage
/// return, which would be taken for part of the line end.
pub open spec fn writable(r: Row) -> bool {
    &&& plain(r.pane)
    &&& plain(r.loc)
    &&& plain(r.agent)
    &&& plain(r.state)
    &&& plain(r.cwd)
    &&& !r.title.contains('\n')
    &&& r.title.len() > 0 ==> r.title.last() != '\r'
}

/// Does the text hold neither tab nor line end?
pub open spec fn plain(s: Seq<char>) -> bool {
    !s.contains('\t') && !s.contains('\n')
}

proof fn lemma_index_past(a: Seq<char>, b: Seq<char>, c: char, i: int)
    requires
        0 <= i <= a.len(),
        !a.contains(c),
    ensures
        text::index_from(a + b, c, i) == a.len() + text::index_from(b, c, 0),
    decreases a.len() - i,
{
    if i < a.len() {
        assert((a + b)[i] == a[i]);
        lemma_index_past(a, b, c, i + 1);
    } else {
        text::lemma_index_shifts(a, b, c, 0);
    }
}

proof fn lemma_pieces_shift(a: Seq<char>, b: Seq<char>, c: char, i: int, n: int)
    requires
        0 <= i <= b.len(),
    ensures
        text::pieces_from(a + b, c, a.len() + i, n) == text::pieces_from(b, c, i, n),
    decreases n,
{
    if n > 0 {
        text::lemma_index_shifts(a, b, c, i);
        text::lemma_index_from(b, c, i);
        let e = text::index_from(b, c, i);
        let m = a.len() as int;
        assert((a + b).subrange(m + i, (a + b).len() as int) =~= b.subrange(i, b.len() as int));
        assert((a + b).subrange(m + i, m + e) =~= b.subrange(i, e));
        if n > 1 && e < b.len() {
            lemma_pieces_shift(a, b, c, e + 1, n - 1);
        }
    }
}

/// Cutting at a tab takes the first field off.
proof fn lemma_first_field(a: Seq<char>, b: Seq<char>, n: int)
    requires
        !a.contains('\t'),
        n > 1,
    ensures
        text::pieces(a + seq!['\t'] + b, '\t', n) == seq![a] + text::pieces(b, '\t', n - 1),
{
    let s = a + seq!['\t'] + b;
    let t = seq!['\t'] + b;
    assert(s =~= a + t);
    lemma_index_past(a, t, '\t', 0);
    assert(t[0] == '\t');
    assert(text::index_from(t, '\t', 0) == 0);
    assert(s.subrange(0, a.len() as int) =~= a);
    let h = a + seq!['\t'];
    assert(s =~= h + b);
    lemma_pieces_shift(h, b, '\t', 0, n - 1);
}

proof fn lemma_line_reads_back(r: Row)
    requires
        writable(r),
    ensures
        line_row(row_line(r)) == Some(r),
{
    let tab = seq!['\t'];
    let s5 = r.title;
    let s4 = r.cwd + tab + s5;
    let s3 = r.state + tab + s4;
    let s2 = r.agent + tab + s3;
    let s1 = r.loc + tab + s2;
    let s0 = r.pane + tab + s1;
    assert(row_line(r) =~= s0);
    lemma_first_field(r.pane, s1, 6);
    lemma_first_field(r.loc, s2, 5);
    lemma_first_field(r.agent, s3, 4);
    lemma_first_field(r.state, s4, 3);
    lemma_first_field(r.cwd, s5, 2);
    assert(text::pieces(s5, '\t', 1) =~= seq![s5]) by {
        assert(s5.subrange(0, s5.len() as int) =~= s5);
    }
    assert(text::pieces(s0, '\t', 6) =~= seq![r.pane, r.loc, r.agent, r.state, r.cwd, r.title]);
    assert(line_row(s0)->0 =~= r);
}

proof fn lemma_line_of(r: Row)
    requires
        writable(r),
    ensures
        text::lines(row_line(r) + seq!['\n']) == seq![row_line(r)],
{
    let l = row_line(r);
    let s = l + seq!['\n'];
    assert(!l.contains('\n')) by {
        if l.contains('\n') {
            let i = choose|i: int| 0 <= i < l.len() && l[i] == '\n';
            let a = r.pane.len() as int;
            let b = a + 1 + r.loc.len();
            let c = b + 1 + r.agent.len();
            let d = c + 1 + r.state.len();
            let e = d + 1 + r.cwd.len();
            if i < a {
                assert(r.pane[i] == '\n');
            } else if a < i < b {
                assert(r.loc[i - a - 1] == '\n');
            } else if b < i < c {
                assert(r.agent[i - b - 1] == '\n');
            } else if c < i < d {
                assert(r.state[i - c - 1] == '\n');
            } else if d < i < e {
                assert(r.cwd[i - d - 1] == '\n');
            } else if e < i {
                assert(r.title[i - e - 1] == '\n');
            }
        }
    }
    lemma_index_past(l, seq!['\n'], '\n', 0);
    assert(text::index_from(seq!['\n'], '\n', 0) == 0);
    assert(s.subrange(0, l.len() as int) =~= l);
    assert(text::uncarried(l) == l) by {
        if r.title.len() > 0 {
            assert(l.last() == r.title.last());
        } else {
            assert(l.last() == '\t');
        }
    }
    assert(text::lines_from(s, s.len() as int) =~= Seq::<Seq<char>>::empty());
    assert(text::lines(s) =~= seq![l]);
}

/// Rows that were written as text are read back as they were.
pub proof fn rows_read_back(rows: Seq<Row>)
    requires
        forall|i: int| 0 <= i < rows.len() ==> writable(#[trigger] rows[i]),
    ensures
        line_rows(text::lines(tsv(rows))) == rows,
    decreases rows.len(),
{
    lemma_lines_of_rows(rows);
    lemma_rows_of_lines(rows);
}

/// Two lists of rows are written one after the other.
pub proof fn rows_are_written_one_by_one(a: Seq<Row>, b: Seq<Row>)
    ensures
        tsv(a + b) == tsv(a) + tsv(b),
    decreases b.len(),
{
    if b.len() == 0 {
        assert(a + b =~= a);
        assert(tsv(a) + tsv(b) =~= tsv(a));
    } else {
        assert((a + b).drop_last() =~= a + b.drop_last());
        rows_are_written_one_by_one(a, b.drop_last());
        assert(tsv(a + b) =~= tsv(a) + tsv(b));
    }
}

proof fn lemma_lines_of_rows(rows: Seq<Row>)
    requires
        forall|i: int| 0 <= i < rows.len() ==> writable(#[trigger] rows[i]),
    ensures
        text::lines(tsv(rows)) == rows.map_values(|r: Row| row_line(r)),
    decreases rows.len(),
{
    let f = |r: Row| row_line(r);
    if rows.len() == 0 {
        assert(text::lines(tsv(rows)) =~= rows.map_values(f));
    } else {
        let head = rows.drop_last();
        let a = tsv(head);
        let b = row_line(rows.last()) + seq!['\n'];
        lemma_lines_of_rows(head);
        lemma_line_of(rows.last());
        if head.len() == 0 {
            assert(a + b =~= b);
        } else {
            assert(a.last() == '\n');
            text::lemma_lines_of_two(a, b, 0);
        }
        assert(text::lines(tsv(rows)) =~= head.map_values(f) + seq![row_line(rows.last())]);
        assert(rows.map_values(f) =~= head.map_values(f) + seq![row_line(rows.last())]);
    }
}

proof fn lemma_rows_of_lines(rows: Seq<Row>)
    requires
        forall|i: int| 0 <= i < rows.len() ==> writable(#[trigger] rows[i]),
    ensures
        line_rows(rows.map_values(|r: Row| row_line(r))) == rows,
    decreases rows.len(),
{
    let f = |r: Row| row_line(r);
    if rows.len() == 0 {
        assert(line_rows(rows.map_values(f)) =~= rows);
    } else {
        let head = rows.drop_last();
        lemma_rows_of_lines(head);
        lemma_line_reads_back(rows.last());
        assert(rows.map_values(f).drop_last() =~= head.map_values(f));
        assert(rows.map_values(f).last() == row_line(rows.last()));
        assert(head.push(rows.last()) =~= rows);
    }
}

// ---------------------------------------------------------------------------
// The status line

/// How many rows have the state.
pub open spec fn count(rows: Seq<Row>, state: Seq<char>) -> nat
    decreases rows.len(),
{
    if rows.len() == 0 {
        0
    } else if rows.last().state == state {
        count(rows.drop_last(), state) + 1
    } else {
        count(rows.drop_last(), state)
    }
}

/// A count behind its mark, where there is anything to count.
pub open spec fn tally(mark: Seq<char>, n: nat) -> Seq<Seq<char>> {
    if n > 0 {
        seq![mark + text::decimal(n)]
    } else {
        Seq::empty()
    }
}

/// The status line: how many agents are blocked, working and idle. A count of
/// zero is left out.
pub open spec fn segment(rows: Seq<Row>) -> Seq<char> {
    text::join(
        tally("#[fg=red]⣿#[default]"@, count(rows, "blocked"@)) + tally(
            "#[fg=yellow]⣾#[default]"@,
            count(rows, "working"@),
        ) + tally("#[fg=green]⣿#[default]"@, count(rows, "idle"@)),
        " "@,
    )
}

fn count_of(rows: &Vec<PaneRow>, state: &str) -> (r: usize)
    ensures
        r == count(rows_view(rows@), state@),
{
    let ghost all = rows_view(rows@);
    let mut n: usize = 0;
    let mut i: usize = 0;
    while i < rows.len()
        invariant
            all == rows_view(rows@),
            i <= rows.len(),
            n <= i,
            n == count(all.take(i as int), state@),
        decreases rows@.len() - i,
    {
        proof {
            assert(all.take(i + 1).drop_last() =~= all.take(i as int));
            assert(all.take(i + 1).last() == rows@[i as int]@);
        }
        if text::same(rows[i].state.as_str(), state) {
            n += 1;
        }
        i += 1;
    }
    assert(all.take(i as int) =~= all);
    n
}

fn push_tally(parts: &mut Vec<String>, mark: &str, n: usize)
    ensures
        text::views(final(parts)@) == text::views(old(parts)@) + tally(mark@, n as nat),
{
    let ghost was = text::views(parts@);
    if n > 0 {
        let mut s = String::new();
        s.append(mark);
        text::append_decimal(&mut s, n as u64);
        assert(s@ =~= mark@ + text::decimal(n as nat));
        parts.push(s);
        assert(text::views(parts@) =~= was.push(s@));
    }
    assert(text::views(parts@) =~= was + tally(mark@, n as nat));
}

/// The status line: how many agents are blocked, working and idle. A count of
/// zero is left out, and nothing stands where there are none.
pub fn status_segment(rows: &Vec<PaneRow>) -> (r: String)
    ensures
        r@ == segment(rows_view(rows@)),
{
    let b: usize = count_of(rows, "blocked");
    let w: usize = count_of(rows, "working");
    let i: usize = count_of(rows, "idle");
    let mut parts: Vec<String> = Vec::new();
    assert(text::views(parts@) =~= Seq::<Seq<char>>::empty());
    push_tally(&mut parts, "#[fg=red]⣿#[default]", b);
    push_tally(&mut parts, "#[fg=yellow]⣾#[default]", w);
    push_tally(&mut parts, "#[fg=green]⣿#[default]", i);
    proof {
        let t1 = tally("#[fg=red]⣿#[default]"@, b as nat);
        let t2 = tally("#[fg=yellow]⣾#[default]"@, w as nat);
        let t3 = tally("#[fg=green]⣿#[default]"@, i as nat);
        assert(text::views(parts@) =~= t1 + t2 + t3);
        assert(text::views(parts@).skip(0) =~= t1 + t2 + t3);
    }
    text::join_from(&parts, 0, " ")
}

/// The status line is empty just where no agent is blocked, working or idle.
pub proof fn no_agents_no_segment(rows: Seq<Row>)
    ensures
        segment(rows).len() == 0 <==> forall|i: int|
            0 <= i < rows.len() ==> (#[trigger] rows[i]).state != "blocked"@ && rows[i].state
                != "working"@ && rows[i].state != "idle"@,
{
    let b = count(rows, "blocked"@);
    let w = count(rows, "working"@);
    let i = count(rows, "idle"@);
    lemma_count(rows, "blocked"@);
    lemma_count(rows, "working"@);
    lemma_count(rows, "idle"@);
    let parts = tally("#[fg=red]⣿#[default]"@, b) + tally("#[fg=yellow]⣾#[default]"@, w) + tally(
        "#[fg=green]⣿#[default]"@,
        i,
    );
    reveal_strlit("#[fg=red]⣿#[default]");
    reveal_strlit("#[fg=yellow]⣾#[default]");
    reveal_strlit("#[fg=green]⣿#[default]");
    if b > 0 || w > 0 || i > 0 {
        assert(parts.len() > 0);
        assert(parts.last().len() > 0);
        assert(parts[parts.len() - 1].len() > 0);
    } else {
        assert(parts =~= Seq::empty());
    }
}

/// The agents of two lists count together.
pub proof fn counts_add_up(a: Seq<Row>, b: Seq<Row>, state: Seq<char>)
    ensures
        count(a + b, state) == count(a, state) + count(b, state),
    decreases b.len(),
{
    if b.len() == 0 {
        assert(a + b =~= a);
    } else {
        assert((a + b).drop_last() =~= a + b.drop_last());
        counts_add_up(a, b.drop_last(), state);
    }
}

proof fn lemma_count(rows: Seq<Row>, state: Seq<char>)
    ensures
        count(rows, state) == 0 <==> forall|i: int|
            0 <= i < rows.len() ==> (#[trigger] rows[i]).state != state,
    decreases rows.len(),
{
    if rows.len() > 0 {
        let head = rows.drop_last();
        lemma_count(head, state);
        assert(rows[rows.len() - 1] == rows.last());
        if forall|i: int| 0 <= i < head.len() ==> (#[trigger] head[i]).state != state {
            assert forall|i: int| 0 <= i < rows.len() - 1 implies (#[trigger] rows[i]).state
                != state by {
                assert(head[i] == rows[i]);
            }
        } else {
            let i = choose|i: int| 0 <= i < head.len() && (#[trigger] head[i]).state == state;
            assert(rows[i].state == state);
        }
    }
}

// ---------------------------------------------------------------------------
// The list of panes

/// The command that lists the panes.
pub const LIST_FMT: &'static str =
    "list-panes -a -F '#{pane_id}\t#{pane_pid}\t#{pane_current_command}\t#{pane_current_path}\t#{session_name}:#{window_index}.#{pane_index}\t#{pane_title}'";

/// A pane as tmux lists it.
pub struct PaneLine {
    pub pane: String,
    pub pid: u32,
    pub cmd: String,
    pub path: String,
    pub loc: String,
    pub title: String,
}

/// What tmux says of a pane.
#[verifier::ext_equal]
pub struct Listed {
    pub pane: Seq<char>,
    pub pid: u32,
    pub cmd: Seq<char>,
    pub path: Seq<char>,
    pub loc: Seq<char>,
    pub title: Seq<char>,
}

impl View for PaneLine {
    type V = Listed;

    open spec fn view(&self) -> Listed {
        Listed {
            pane: self.pane@,
            pid: self.pid,
            cmd: self.cmd@,
            path: self.path@,
            loc: self.loc@,
            title: self.title@,
        }
    }
}

impl Listed {
    /// What the cache knows the pane by.
    pub open spec fn key(self) -> (Seq<char>, u32, Seq<char>) {
        (self.pane, self.pid, self.cmd)
    }
}

/// The pid that a field says, or zero.
pub open spec fn pid_said(s: Seq<char>) -> u32 {
    match text::number(s, u32::MAX as nat) {
        Some(n) => n as u32,
        None => 0,
    }
}

/// The pane that a line of the list says: six fields, the title last.
pub open spec fn listed(line: Seq<char>) -> Option<Listed> {
    let f = text::pieces(line, '\t', 6);
    if f.len() < 6 {
        None
    } else {
        Some(
            Listed {
                pane: f[0],
                pid: pid_said(f[1]),
                cmd: f[2],
                path: f[3],
                loc: f[4],
                title: f[5],
            },
        )
    }
}

/// The pane that a line of the list says.
pub fn parse_pane_line(line: &str) -> (r: Option<PaneLine>)
    ensures
        match r {
            Some(p) => listed(line@) == Some(p@),
            None => listed(line@) is None,
        },
{
    let f = text::pieces_of(line, '\t', 6);
    assert(text::pieces(line@, '\t', 6) == text::views(f@));
    if f.len() < 6 {
        return None;
    }
    let pid: u32 = match text::parse_number(f[1].as_str(), u32::MAX as u64) {
        Some(n) => n as u32,
        None => 0,
    };
    let p = PaneLine {
        pane: f[0].clone(),
        pid,
        cmd: f[2].clone(),
        path: f[3].clone(),
        loc: f[4].clone(),
        title: f[5].clone(),
    };
    assert(p@ =~= listed(line@)->0);
    Some(p)
}

// ---------------------------------------------------------------------------
// Which panes hold an agent

/// A pane to be looked at, and the conf of its agent.
pub struct Target {
    pub line: PaneLine,
    pub conf: usize,
}

/// What a pane to be looked at is.
pub struct Aim {
    pub line: Listed,
    pub conf: int,
}

impl View for Target {
    type V = Aim;

    open spec fn view(&self) -> Aim {
        Aim { line: self.line@, conf: self.conf as int }
    }
}

/// What a list of panes to be looked at is.
pub open spec fn aims(targets: Seq<Target>) -> Seq<Aim> {
    targets.map_values(|t: Target| t@)
}

/// What the cache knows: agents by pane, pid and command.
pub type Known = Map<(Seq<char>, u32, Seq<char>), Option<Seq<char>>>;

/// Is the pane the one that the sidebar itself occupies?
pub open spec fn is_self(p: Listed, self_pane: Option<Seq<char>>) -> bool {
    self_pane == Some(p.pane)
}

/// Can the pane's agent be told only by the process table?
pub open spec fn unknown(confs: Seq<AgentConf>, cache: Known, p: Listed) -> bool {
    !cache.contains_key(p.key()) && procs::bin_owner(confs, procs::bare(p.cmd), 0) is None
}

/// The name of the agent in the pane: as it was found before, else as its
/// command and the process table tell.
pub open spec fn agent_in(
    confs: Seq<AgentConf>,
    cache: Known,
    table: Seq<procs::Process>,
    p: Listed,
) -> Option<Seq<char>> {
    if cache.contains_key(p.key()) {
        cache[p.key()]
    } else {
        match procs::pane_owner(confs, table, p.pid, p.cmd) {
            Some(i) => Some(conf::names(confs)[i]),
            None => None,
        }
    }
}

/// The lines that list a pane other than the sidebar's own.
pub open spec fn panes_in(lines: Seq<Seq<char>>, self_pane: Option<Seq<char>>) -> Seq<Listed>
    decreases lines.len(),
{
    if lines.len() == 0 {
        Seq::empty()
    } else {
        let rest = panes_in(lines.drop_last(), self_pane);
        match listed(lines.last()) {
            Some(p) => if is_self(p, self_pane) {
                rest
            } else {
                rest.push(p)
            },
            None => rest,
        }
    }
}

/// What is known after the panes were looked at: each of them, and no other.
pub open spec fn seen_after(
    confs: Seq<AgentConf>,
    cache: Known,
    table: Seq<procs::Process>,
    panes: Seq<Listed>,
) -> Known
    decreases panes.len(),
{
    if panes.len() == 0 {
        Map::empty()
    } else {
        seen_after(confs, cache, table, panes.drop_last()).insert(
            panes.last().key(),
            agent_in(confs, cache, table, panes.last()),
        )
    }
}

/// The panes with an agent that has a conf, and where that conf stands.
pub open spec fn aimed_at(
    confs: Seq<AgentConf>,
    cache: Known,
    table: Seq<procs::Process>,
    panes: Seq<Listed>,
) -> Seq<Aim>
    decreases panes.len(),
{
    if panes.len() == 0 {
        Seq::empty()
    } else {
        let rest = aimed_at(confs, cache, table, panes.drop_last());
        let p = panes.last();
        match agent_in(confs, cache, table, p) {
            Some(name) => match text::position_of(conf::names(confs), name, 0) {
                Some(k) => rest.push(Aim { line: p, conf: k }),
                None => rest,
            },
            None => rest,
        }
    }
}

/// The process table at hand, or an empty one.
pub open spec fn table_of(snap: Option<Snapshot>) -> Seq<procs::Process> {
    match snap {
        Some(s) => s.procs(),
        None => Seq::empty(),
    }
}

/// What a scan finds in the list of panes.
pub enum Found {
    /// The process table is needed first.
    NeedsSnapshot,
    /// The panes to be captured, and what is known of panes from now on: those
    /// that are gone are forgotten.
    Panes(Vec<Target>, IdentCache),
}

/// An optional string's characters.
pub open spec fn opt_view(s: Option<&str>) -> Option<Seq<char>> {
    match s {
        Some(t) => Some(t@),
        None => None,
    }
}

/// The panes in tmux's list that hold an agent with a conf.
pub fn scan(
    confs: &Vec<AgentConf>,
    cache: &IdentCache,
    snap: &Option<Snapshot>,
    self_pane: Option<&str>,
    panes: &str,
) -> (r: Found)
    ensures
        ({
            let here = panes_in(text::lines(panes@), opt_view(self_pane));
            match r {
                Found::NeedsSnapshot => snap is None && exists|i: int|
                    0 <= i < here.len() && unknown(confs@, cache@, #[trigger] here[i]),
                Found::Panes(targets, seen) => {
                    &&& snap is None ==> forall|i: int|
                        0 <= i < here.len() ==> !unknown(confs@, cache@, #[trigger] here[i])
                    &&& aims(targets@) == aimed_at(confs@, cache@, table_of(*snap), here)
                    &&& seen@ == seen_after(confs@, cache@, table_of(*snap), here)
                    &&& forall|i: int|
                        0 <= i < targets@.len() ==> (#[trigger] targets@[i]).conf < confs@.len()
                },
            }
        }),
{
    let lines = text::lines_of(panes);
    let ghost own = opt_view(self_pane);
    let ghost all = text::lines(panes@);
    let ghost here = panes_in(all, own);
    let ghost table = table_of(*snap);
    let mut targets: Vec<Target> = Vec::new();
    let mut seen = IdentCache::new();
    let mut i: usize = 0;
    assert(aims(targets@) =~= Seq::<Aim>::empty());
    while i < lines.len()
        invariant
            all == text::views(lines@),
            all == text::lines(panes@),
            own == opt_view(self_pane),
            here == panes_in(all, own),
            table == table_of(*snap),
            i <= lines@.len(),
            snap is None ==> forall|k: int|
                0 <= k < panes_in(all.take(i as int), own).len() ==> !unknown(
                    confs@,
                    cache@,
                    #[trigger] panes_in(all.take(i as int), own)[k],
                ),
            aims(targets@) == aimed_at(confs@, cache@, table, panes_in(all.take(i as int), own)),
            seen@ == seen_after(confs@, cache@, table, panes_in(all.take(i as int), own)),
            forall|k: int|
                0 <= k < targets@.len() ==> (#[trigger] targets@[k]).conf < confs@.len(),
        decreases lines@.len() - i,
    {
        let ghost was = panes_in(all.take(i as int), own);
        let ghost now = panes_in(all.take(i + 1), own);
        let line = lines[i].as_str();
        proof {
            assert(all.take(i + 1).drop_last() =~= all.take(i as int));
            assert(all.take(i + 1).last() == line@);
            assert(now.len() > was.len() ==> now.drop_last() =~= was);
        }
        i += 1;
        let p = match parse_pane_line(line) {
            Some(p) => p,
            None => {
                continue ;
            },
        };
        match self_pane {
            Some(mine) => {
                if text::same(mine, p.pane.as_str()) {
                    continue ;
                }
            },
            None => {},
        }
        assert(now == was.push(p@));
        let name: Option<String> = match cache.get(p.pane.as_str(), p.pid, p.cmd.as_str()) {
            Some(known) => known,
            None => match procs::identify(confs, snap, p.pid, p.cmd.as_str()) {
                Identity::Known(k) => match k {
                    Some(at) => Some(confs[at].name.clone()),
                    None => None,
                },
                Identity::NeedsSnapshot => {
                    proof {
                        lemma_panes_grow(all, own, i as int);
                        assert(here[was.len() as int] == p@);
                    }
                    return Found::NeedsSnapshot;
                },
            },
        };
        assert(procs::agent_view(name) == agent_in(confs@, cache@, table, p@));
        let at: Option<usize> = match &name {
            Some(s) => conf::conf_index(confs, s.as_str()),
            None => None,
        };
        seen.insert(p.pane.clone(), p.pid, p.cmd.clone(), name);
        match at {
            Some(k) => {
                let ghost before = targets@;
                let t = Target { line: p, conf: k };
                targets.push(t);
                assert(aims(targets@) =~= aims(before).push(t@));
            },
            None => {},
        }
    }
    assert(all.take(i as int) =~= all);
    Found::Panes(targets, seen)
}

proof fn lemma_panes_grow(lines: Seq<Seq<char>>, own: Option<Seq<char>>, n: int)
    requires
        0 <= n <= lines.len(),
    ensures
        panes_in(lines.take(n), own).len() <= panes_in(lines, own).len(),
        forall|k: int|
            0 <= k < panes_in(lines.take(n), own).len() ==> #[trigger] panes_in(lines, own)[k]
                == panes_in(lines.take(n), own)[k],
    decreases lines.len() - n,
{
    if n == lines.len() {
        assert(lines.take(n) =~= lines);
    } else {
        lemma_panes_grow(lines, own, n + 1);
        assert(lines.take(n + 1).drop_last() =~= lines.take(n));
        let a = panes_in(lines.take(n), own);
        let b = panes_in(lines.take(n + 1), own);
        assert forall|k: int| 0 <= k < a.len() implies #[trigger] panes_in(lines, own)[k]
            == a[k] by {
            assert(b[k] == a[k]);
        }
    }
}

/// The sidebar never lists the pane that it occupies itself.
pub proof fn the_sidebar_skips_itself(lines: Seq<Seq<char>>, own: Seq<char>)
    ensures
        forall|k: int|
            0 <= k < panes_in(lines, Some(own)).len() ==> (#[trigger] panes_in(
                lines,
                Some(own),
            )[k]).pane != own,
    decreases lines.len(),
{
    if lines.len() > 0 {
        the_sidebar_skips_itself(lines.drop_last(), own);
        let rest = panes_in(lines.drop_last(), Some(own));
        let all = panes_in(lines, Some(own));
        assert forall|k: int| 0 <= k < all.len() implies (#[trigger] all[k]).pane != own by {
            if k < rest.len() {
                assert(all[k] == rest[k]);
            }
        }
    }
}

/// After a scan the cache knows the panes that were listed and forgets the rest.
pub proof fn dead_panes_are_forgotten(
    confs: Seq<AgentConf>,
    cache: Known,
    table: Seq<procs::Process>,
    panes: Seq<Listed>,
    key: (Seq<char>, u32, Seq<char>),
)
    ensures
        seen_after(confs, cache, table, panes).contains_key(key) <==> exists|i: int|
            0 <= i < panes.len() && (#[trigger] panes[i]).key() == key,
    decreases panes.len(),
{
    if panes.len() > 0 {
        let head = panes.drop_last();
        dead_panes_are_forgotten(confs, cache, table, head, key);
        if seen_after(confs, cache, table, head).contains_key(key) {
            let i = choose|i: int| 0 <= i < head.len() && (#[trigger] head[i]).key() == key;
            assert(panes[i].key() == key);
        }
        if exists|i: int| 0 <= i < panes.len() && (#[trigger] panes[i]).key() == key {
            let i = choose|i: int| 0 <= i < panes.len() && (#[trigger] panes[i]).key() == key;
            if i < head.len() {
                assert(head[i].key() == key);
            }
        }
    }
}

/// A second scan of the same panes needs no process table and finds the same.
pub proof fn what_was_seen_is_not_looked_up_again(
    confs: Seq<AgentConf>,
    cache: Known,
    table: Seq<procs::Process>,
    other: Seq<procs::Process>,
    panes: Seq<Listed>,
)
    ensures
        forall|i: int|
            0 <= i < panes.len() ==> {
                let seen = seen_after(confs, cache, table, panes);
                &&& !unknown(confs, seen, #[trigger] panes[i])
                &&& agent_in(confs, seen, other, panes[i]) == agent_in(
                    confs,
                    cache,
                    table,
                    panes[i],
                )
            },
    decreases panes.len(),
{
    if panes.len() > 0 {
        let head = panes.drop_last();
        what_was_seen_is_not_looked_up_again(confs, cache, table, other, head);
        assert forall|i: int| 0 <= i < panes.len() implies ({
            let seen = seen_after(confs, cache, table, panes);
            &&& !unknown(confs, seen, #[trigger] panes[i])
            &&& agent_in(confs, seen, other, panes[i]) == agent_in(confs, cache, table, panes[i])
        }) by {
            dead_panes_are_forgotten(confs, cache, table, panes, panes[i].key());
            if i < head.len() {
                assert(head[i] == panes[i]);
                dead_panes_are_forgotten(confs, cache, table, head, panes[i].key());
            }
        }
    }
}

// ---------------------------------------------------------------------------
// From a captured screen to a row

/// The row of a pane whose state and subject are known.
pub open spec fn row_of(p: Listed, agent: Seq<char>, state: Seq<char>, subject: Seq<char>) -> Row {
    Row { pane: p.pane, loc: p.loc, agent, state, cwd: text::tail(p.path, '/'), title: subject }
}

/// The row of a pane whose state and subject are known.
pub fn make_row(line: &PaneLine, agent: &str, state: &str, subject: String) -> (r: PaneRow)
    ensures
        r@ == row_of(line@, agent@, state@, subject@),
{
    PaneRow {
        pane: line.pane.clone(),
        loc: line.loc.clone(),
        agent: text::owned(agent),
        state: text::owned(state),
        cwd: text::owned(text::tail_of(line.path.as_str(), '/')),
        title: subject,
    }
}

/// What a captured screen gives.
pub enum Seen {
    /// The pane's row.
    Row(PaneRow),
    /// The row but for its subject, which the command prints.
    Ask(PaneRow, String),
}

/// The row of a pane whose screen was captured: its state, and its subject or
/// the command that prints it.
pub fn look(conf: &AgentConf, line: &PaneLine, screen: &str) -> (r: Seen)
    ensures
        ({
            let state = detect::state_read(*conf, line.title@, screen@);
            let seen = detect::seen_subject(*conf, line.title@, screen@, line.path@);
            match r {
                Seen::Row(row) => {
                    &&& seen.len() > 0 || conf.subject_cmd is None
                    &&& row@ == row_of(
                        line@,
                        conf.name@,
                        state,
                        text::recolour(seen, '\t', ' '),
                    )
                },
                Seen::Ask(row, cmd) => {
                    &&& seen.len() == 0
                    &&& conf.subject_cmd is Some
                    &&& cmd@ == conf.subject_cmd->0@
                    &&& row@ == row_of(line@, conf.name@, state, Seq::empty())
                },
            }
        }),
{
    let state = detect::detect_state(conf, line.title.as_str(), screen);
    match detect::subject(conf, line.title.as_str(), screen, line.path.as_str()) {
        Subject::Text(t) => Seen::Row(make_row(line, conf.name.as_str(), state, t)),
        Subject::Ask(cmd) => Seen::Ask(
            make_row(line, conf.name.as_str(), state, String::new()),
            cmd,
        ),
    }
}

/// The row with the subject that its command printed.
pub fn answered(row: PaneRow, stdout: Option<Vec<u8>>) -> (r: PaneRow)
    ensures
        r@ == (Row {
            title: match stdout {
                Some(bytes) => detect::printed_subject(crate::unicode::lossy(bytes@)),
                None => Seq::empty(),
            },
            ..row@
        }),
{
    let title = detect::subject_from_command(stdout);
    PaneRow { title, ..row }
}

/// The command that captures the screen of a pane into a buffer. What a pane
/// shows never travels over the control pipe: it could look like the end of a
/// reply.
pub fn capture_command(buffer: &str, pane: &str) -> (r: String)
    ensures
        r@ == "capture-pane -b '"@ + buffer@ + "' -t '"@ + pane@ + "'"@,
{
    let mut s = text::owned("capture-pane -b '");
    s.append(buffer);
    s.append("' -t '");
    s.append(pane);
    s.append("'");
    s
}

/// The command that saves a buffer to a file.
pub fn save_command(buffer: &str, file: &str) -> (r: String)
    ensures
        r@ == "save-buffer -b '"@ + buffer@ + "' '"@ + file@ + "'"@,
{
    let mut s = text::owned("save-buffer -b '");
    s.append(buffer);
    s.append("' '");
    s.append(file);
    s.append("'");
    s
}

/// The command that drops a buffer.
pub fn drop_command(buffer: &str) -> (r: String)
    ensures
        r@ == "delete-buffer -b '"@ + buffer@ + "'"@,
{
    let mut s = text::owned("delete-buffer -b '");
    s.append(buffer);
    s.append("'");
    s
}

} // verus!
