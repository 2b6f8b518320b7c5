//! Which agent a pane runs, said of the programs, arguments and parents of its
//! processes.

use crate::conf::AgentConf;
use crate::procs;
use crate::procs::Process;
use crate::text;
use vstd::prelude::*;

verus! {

/// The arguments of a process that speaks, or nothing: one by one, this is what
/// the walk hands on.
pub open spec fn spoken(p: Process) -> Seq<Vec<String>> {
    if p.argv@.len() > 0 {
        seq![p.argv]
    } else {
        Seq::empty()
    }
}

/// Does no conf list this program?
pub open spec fn unlisted(confs: Seq<AgentConf>, bin: Seq<char>) -> bool {
    forall|c: int, b: int|
        0 <= c < confs.len() && 0 <= b < confs[c].bins@.len() ==> (#[trigger] confs[c].bins@[b])@ != bin
}

/// The name of a program is what follows the last slash, without one ending of a
/// script: directories have no say in it, and a name without such an ending is
/// itself.
pub proof fn a_program_is_its_bare_name(dir: Seq<char>, name: Seq<char>)
    requires
        !name.contains('/'),
    ensures
        procs::bare(dir + seq!['/'] + name) == procs::bare(name),
        procs::bare(name + ".js"@) == name,
        procs::bare(name + ".cmd"@) == name,
        procs::bare(name + ".exe"@) == name,
        !text::ends(name, ".js"@) && !text::ends(name, ".cmd"@) && !text::ends(name, ".exe"@) ==> procs::bare(name)
            == name,
{
    crate::text_laws::a_tail_follows_the_last_separator(dir, '/', name);
    reveal_strlit(".js");
    reveal_strlit(".cmd");
    reveal_strlit(".exe");
    lemma_ending(name, ".js"@);
    lemma_ending(name, ".cmd"@);
    lemma_ending(name, ".exe"@);
    let c = name + ".cmd"@;
    let e = name + ".exe"@;
    assert(c.last() == 'd' && e.last() == 'e');
    assert(!text::ends(c, ".js"@)) by {
        if text::ends(c, ".js"@) {
            assert(c.subrange(c.len() - 3, c.len() as int)[2] == 's');
        }
    }
    assert(!text::ends(e, ".js"@)) by {
        if text::ends(e, ".js"@) {
            assert(e.subrange(e.len() - 3, e.len() as int)[2] == 's');
        }
    }
    assert(!text::ends(e, ".cmd"@)) by {
        if text::ends(e, ".cmd"@) {
            assert(e.subrange(e.len() - 4, e.len() as int)[3] == 'd');
        }
    }
}

proof fn lemma_ending(name: Seq<char>, ending: Seq<char>)
    requires
        !name.contains('/'),
        !ending.contains('/'),
    ensures
        text::tail(name + ending, '/') == name + ending,
        text::ends(name + ending, ending),
        procs::less(name + ending, ending) == name,
{
    let s = name + ending;
    assert(!s.contains('/')) by {
        assert forall|i: int| 0 <= i < s.len() implies s[i] != '/' by {
            if i < name.len() {
                assert(name.contains(name[i]));
            } else {
                assert(ending.contains(ending[i - name.len()]));
            }
        }
    }
    crate::text_laws::a_tail_follows_the_last_separator(Seq::empty(), '/', s);
    crate::text_laws::a_text_stands_in_its_surroundings(name, ending, Seq::empty());
    assert(s.take(s.len() - ending.len()) =~= name);
}

/// A program belongs to the first conf that lists it, and to none where no conf
/// does.
pub proof fn a_program_belongs_to_the_first_that_lists_it(confs: Seq<AgentConf>, bin: Seq<char>, i: int, b: int)
    ensures
        unlisted(confs, bin) ==> procs::bin_owner(confs, bin, 0) is None,
        0 <= i < confs.len() && 0 <= b < confs[i].bins@.len() && confs[i].bins@[b]@ == bin && unlisted(
            confs.take(i),
            bin,
        ) ==> procs::bin_owner(confs, bin, 0) == Some(i),
{
    lemma_bin_owner(confs, bin, 0);
    match procs::bin_owner(confs, bin, 0) {
        Some(p) => {
            let all = text::views(confs[p].bins@);
            let c = choose|c: int| 0 <= c < all.len() && all[c] == bin;
            assert(confs[p].bins@[c]@ == bin);
            if 0 <= i < confs.len() && p < i {
                assert(confs.take(i)[p] == confs[p]);
                assert(confs.take(i)[p].bins@[c]@ == bin);
            }
            if 0 <= i < confs.len() && 0 <= b < confs[i].bins@.len() && confs[i].bins@[b]@ == bin {
                assert(text::views(confs[i].bins@)[b] == bin);
            }
        },
        None => {
            if 0 <= i < confs.len() && 0 <= b < confs[i].bins@.len() && confs[i].bins@[b]@ == bin {
                assert(text::views(confs[i].bins@)[b] == bin);
            }
        },
    }
}

proof fn lemma_bin_owner(confs: Seq<AgentConf>, bin: Seq<char>, i: int)
    requires
        0 <= i,
    ensures
        match procs::bin_owner(confs, bin, i) {
            Some(p) => i <= p < confs.len() && text::views(confs[p].bins@).contains(bin) && forall|j: int|
                i <= j < p ==> !text::views((#[trigger] confs[j]).bins@).contains(bin),
            None => forall|j: int| i <= j < confs.len() ==> !text::views((#[trigger] confs[j]).bins@).contains(bin),
        },
    decreases confs.len() - i,
{
    if i < confs.len() && !text::views(confs[i].bins@).contains(bin) {
        lemma_bin_owner(confs, bin, i + 1);
    }
}

/// Does no conf have a path hint that stands in this text?
pub open spec fn unhinted(confs: Seq<AgentConf>, t: Seq<char>) -> bool {
    forall|c: int, h: int|
        0 <= c < confs.len() && 0 <= h < confs[c].path_hints@.len() ==> !text::occurs(
            t,
            (#[trigger] confs[c].path_hints@[h])@,
        )
}

proof fn lemma_hint_owner(confs: Seq<AgentConf>, t: Seq<char>, i: int)
    requires
        0 <= i,
    ensures
        match procs::hint_owner(confs, t, i) {
            Some(p) => i <= p < confs.len() && procs::hinted(text::views(confs[p].path_hints@), t) && forall|j: int|
                i <= j < p ==> !procs::hinted(text::views((#[trigger] confs[j]).path_hints@), t),
            None => forall|j: int|
                i <= j < confs.len() ==> !procs::hinted(text::views((#[trigger] confs[j]).path_hints@), t),
        },
    decreases confs.len() - i,
{
    if i < confs.len() && !procs::hinted(text::views(confs[i].path_hints@), t) {
        lemma_hint_owner(confs, t, i + 1);
    }
}

/// A path belongs to the first conf with a hint that stands in it, and to none
/// where no hint does.
pub proof fn a_path_belongs_to_the_first_that_hints_at_it(confs: Seq<AgentConf>, t: Seq<char>, i: int, h: int)
    ensures
        unhinted(confs, t) ==> procs::hint_owner(confs, t, 0) is None,
        0 <= i < confs.len() && 0 <= h < confs[i].path_hints@.len() && text::occurs(t, confs[i].path_hints@[h]@)
            && unhinted(confs.take(i), t) ==> procs::hint_owner(confs, t, 0) == Some(i),
{
    lemma_hint_owner(confs, t, 0);
    match procs::hint_owner(confs, t, 0) {
        Some(p) => {
            let all = text::views(confs[p].path_hints@);
            let c = choose|c: int| 0 <= c < all.len() && text::occurs(t, #[trigger] all[c]);
            assert(text::occurs(t, confs[p].path_hints@[c]@));
            if 0 <= i < confs.len() && p < i {
                assert(confs.take(i)[p] == confs[p]);
                assert(text::occurs(t, confs.take(i)[p].path_hints@[c]@));
            }
            if 0 <= i < confs.len() && 0 <= h < confs[i].path_hints@.len() && text::occurs(t, confs[i].path_hints@[h]@) {
                assert(text::occurs(t, text::views(confs[i].path_hints@)[h]));
            }
        },
        None => {
            if 0 <= i < confs.len() && 0 <= h < confs[i].path_hints@.len() && text::occurs(t, confs[i].path_hints@[h]@) {
                assert(text::occurs(t, text::views(confs[i].path_hints@)[h]));
            }
        },
    }
}

/// Is this argument a flag that more arguments may follow: does it start with a
/// dash, without handing over code or a prompt?
pub open spec fn passing_flag(t: Seq<char>) -> bool {
    &&& t.len() > 0
    &&& t[0] == '-'
    &&& t != "-e"@
    &&& t != "--eval"@
    &&& t != "-c"@
    &&& t != "-p"@
    &&& t != "--print"@
}

/// The script that a process wraps is its first argument that is no flag. It is
/// an agent by its name where a conf lists that, else by a hint that stands in
/// its path. What comes after it has no say; neither has anything behind a flag
/// that hands over code or a prompt.
pub proof fn the_first_argument_that_is_no_flag_is_the_script(
    confs: Seq<AgentConf>,
    argv: Seq<Seq<char>>,
    k: int,
)
    requires
        1 <= k <= argv.len(),
        unlisted(confs, procs::bare(argv[0])),
        forall|j: int| 1 <= j < k ==> passing_flag(#[trigger] argv[j]),
        k < argv.len() ==> !passing_flag(argv[k]),
    ensures
        k == argv.len() ==> procs::process_owner(confs, argv) is None,
        k < argv.len() && argv[k].len() > 0 && argv[k][0] == '-' ==> procs::process_owner(confs, argv) is None,
        k < argv.len() && (argv[k].len() == 0 || argv[k][0] != '-') ==> {
            &&& !unlisted(confs, procs::bare(argv[k])) ==> procs::process_owner(confs, argv) == procs::bin_owner(
                confs,
                procs::bare(argv[k]),
                0,
            )
            &&& unlisted(confs, procs::bare(argv[k])) ==> procs::process_owner(confs, argv) == procs::hint_owner(
                confs,
                argv[k],
                0,
            )
        },
{
    reveal_strlit("-");
    reveal_strlit("-e");
    reveal_strlit("--eval");
    reveal_strlit("-c");
    reveal_strlit("-p");
    reveal_strlit("--print");
    a_program_belongs_to_the_first_that_lists_it(confs, procs::bare(argv[0]), 0, 0);
    lemma_flags(confs, argv, 1, k);
    if k < argv.len() {
        let t = argv[k];
        if t.len() > 0 {
            assert(t.subrange(0, 1) =~= seq![t[0]]);
            assert("-"@ =~= seq!['-']);
            assert(seq![t[0]][0] == t[0] && seq!['-'][0] == '-');
        }
        lemma_listed(confs, procs::bare(t));
    }
}

/// Where some conf lists the program, it has an owner.
proof fn lemma_listed(confs: Seq<AgentConf>, bin: Seq<char>)
    ensures
        !unlisted(confs, bin) <==> procs::bin_owner(confs, bin, 0) is Some,
{
    lemma_bin_owner(confs, bin, 0);
    if !unlisted(confs, bin) {
        let (c, b) = choose|c: int, b: int|
            0 <= c < confs.len() && 0 <= b < confs[c].bins@.len() && (#[trigger] confs[c].bins@[b])@ == bin;
        assert(text::views(confs[c].bins@)[b] == bin);
    }
    if procs::bin_owner(confs, bin, 0) is Some {
        let p = procs::bin_owner(confs, bin, 0)->0;
        let all = text::views(confs[p].bins@);
        let c = choose|c: int| 0 <= c < all.len() && all[c] == bin;
        assert(confs[p].bins@[c]@ == bin);
    }
}

proof fn lemma_flags(confs: Seq<AgentConf>, argv: Seq<Seq<char>>, i: int, k: int)
    requires
        0 <= i <= k <= argv.len(),
        forall|j: int| i <= j < k ==> passing_flag(#[trigger] argv[j]),
    ensures
        procs::argv_owner(confs, argv, i) == procs::argv_owner(confs, argv, k),
    decreases k - i,
{
    if i < k {
        let t = argv[i];
        reveal_strlit("-");
        assert(passing_flag(t));
        assert(t.subrange(0, 1) =~= seq![t[0]]);
        assert("-"@ =~= seq!['-']);
        lemma_flags(confs, argv, i + 1, k);
    }
}

/// A process is an agent by its own program first: the script it wraps is looked
/// at only where no conf lists the program.
pub proof fn a_program_comes_before_its_script(confs: Seq<AgentConf>, argv: Seq<Seq<char>>)
    requires
        argv.len() > 0,
        !unlisted(confs, procs::bare(argv[0])),
    ensures
        procs::process_owner(confs, argv) == procs::bin_owner(confs, procs::bare(argv[0]), 0),
        procs::process_owner(confs, argv) is Some,
{
    lemma_listed(confs, procs::bare(argv[0]));
}

/// A command that some conf lists is that conf's agent, whatever runs below it.
pub proof fn a_known_command_needs_no_walk(
    confs: Seq<AgentConf>,
    table: Seq<Process>,
    pid: u32,
    cmd: Seq<char>,
)
    requires
        !unlisted(confs, procs::bare(cmd)),
    ensures
        procs::pane_owner(confs, table, pid, cmd) == procs::bin_owner(confs, procs::bare(cmd), 0),
        procs::pane_owner(confs, table, pid, cmd) is Some,
{
    lemma_listed(confs, procs::bare(cmd));
}

/// Where the command is no agent by itself, the pane runs the agent of the first
/// process of the walk that is one.
pub proof fn the_first_agent_of_the_walk_is_the_panes(
    confs: Seq<AgentConf>,
    table: Seq<Process>,
    pid: u32,
    cmd: Seq<char>,
    k: int,
)
    requires
        unlisted(confs, procs::bare(cmd)),
        0 <= k < procs::argvs(table, procs::walk(table, pid)).len(),
        procs::process_owner(confs, text::views(procs::argvs(table, procs::walk(table, pid))[k]@)) is Some,
        forall|j: int|
            0 <= j < k ==> procs::process_owner(
                confs,
                text::views((#[trigger] procs::argvs(table, procs::walk(table, pid))[j])@),
            ) is None,
    ensures
        procs::pane_owner(confs, table, pid, cmd) == procs::process_owner(
            confs,
            text::views(procs::argvs(table, procs::walk(table, pid))[k]@),
        ),
{
    lemma_listed(confs, procs::bare(cmd));
    lemma_tree(confs, procs::argvs(table, procs::walk(table, pid)), 0, k);
}

proof fn lemma_tree(confs: Seq<AgentConf>, list: Seq<Vec<String>>, i: int, k: int)
    requires
        0 <= i <= k <= list.len(),
        forall|j: int| i <= j < k ==> procs::process_owner(confs, text::views((#[trigger] list[j])@)) is None,
    ensures
        procs::tree_owner(confs, list, i) == procs::tree_owner(confs, list, k),
    decreases k - i,
{
    if i < k {
        assert(procs::process_owner(confs, text::views(list[i]@)) is None);
        lemma_tree(confs, list, i + 1, k);
    }
}

/// A pane runs an agent exactly where its command is one, or some process of the
/// walk is.
pub proof fn an_agent_is_found_where_there_is_one(
    confs: Seq<AgentConf>,
    table: Seq<Process>,
    pid: u32,
    cmd: Seq<char>,
)
    ensures
        procs::pane_owner(confs, table, pid, cmd) is Some <==> (!unlisted(confs, procs::bare(cmd)) || exists|k: int|
            0 <= k < procs::argvs(table, procs::walk(table, pid)).len() && procs::process_owner(
                confs,
                text::views((#[trigger] procs::argvs(table, procs::walk(table, pid))[k])@),
            ) is Some),
{
    let list = procs::argvs(table, procs::walk(table, pid));
    lemma_listed(confs, procs::bare(cmd));
    lemma_some(confs, list, 0);
    if exists|k: int| 0 <= k < list.len() && procs::process_owner(confs, text::views((#[trigger] list[k])@)) is Some {
        if procs::tree_owner(confs, list, 0) is None {
            let k = choose|k: int|
                0 <= k < list.len() && procs::process_owner(confs, text::views((#[trigger] list[k])@)) is Some;
            assert(procs::process_owner(confs, text::views(list[k]@)) is None);
        }
    }
}

proof fn lemma_some(confs: Seq<AgentConf>, list: Seq<Vec<String>>, i: int)
    requires
        0 <= i,
    ensures
        procs::tree_owner(confs, list, i) is Some ==> exists|k: int|
            i <= k < list.len() && procs::process_owner(confs, text::views((#[trigger] list[k])@)) is Some,
        procs::tree_owner(confs, list, i) is None ==> forall|k: int|
            i <= k < list.len() ==> procs::process_owner(confs, text::views((#[trigger] list[k])@)) is None,
    decreases list.len() - i,
{
    if i < list.len() {
        lemma_some(confs, list, i + 1);
        if procs::process_owner(confs, text::views(list[i]@)) is None && procs::tree_owner(confs, list, i) is Some {
            let k = choose|k: int|
                i + 1 <= k < list.len() && procs::process_owner(confs, text::views((#[trigger] list[k])@)) is Some;
            assert(procs::process_owner(confs, text::views(list[k]@)) is Some);
        }
    }
}

/// The walk hands on the arguments of every process it meets, in the order in
/// which it meets them, and skips only a process without arguments or one that
/// is gone.
pub proof fn the_walk_hands_on_every_argument(table: Seq<Process>, some: Seq<u32>, p: int, gone: u32)
    requires
        procs::unique(table),
        0 <= p < table.len(),
        forall|i: int| 0 <= i < table.len() ==> (#[trigger] table[i]).pid != gone,
    ensures
        procs::argvs(table, Seq::<u32>::empty()) == Seq::<Vec<String>>::empty(),
        procs::argvs(table, some.push(table[p].pid)) == procs::argvs(table, some) + spoken(table[p]),
        procs::argvs(table, some.push(gone)) == procs::argvs(table, some),
{
    lemma_slot_of(table, p, 0);
    lemma_no_slot(table, gone, 0);
    assert(some.push(table[p].pid).drop_last() =~= some);
    assert(some.push(gone).drop_last() =~= some);
    assert(procs::argvs(table, some) + Seq::<Vec<String>>::empty() =~= procs::argvs(table, some));
    assert(procs::argvs(table, some.push(table[p].pid)) =~= procs::argvs(table, some) + spoken(table[p]));
}

proof fn lemma_slot_of(table: Seq<Process>, p: int, i: int)
    requires
        procs::unique(table),
        0 <= i <= p < table.len(),
    ensures
        procs::slot(table, table[p].pid, i) == Some(p),
    decreases p - i,
{
    if i < p {
        assert(table[i].pid != table[p].pid);
        lemma_slot_of(table, p, i + 1);
    }
}

proof fn lemma_no_slot(table: Seq<Process>, pid: u32, i: int)
    requires
        0 <= i,
        forall|k: int| 0 <= k < table.len() ==> (#[trigger] table[k]).pid != pid,
    ensures
        procs::slot(table, pid, i) is None,
    decreases table.len() - i,
{
    if i < table.len() {
        assert(table[i].pid != pid);
        lemma_no_slot(table, pid, i + 1);
    }
}

/// The pane's own process is looked at first.
pub proof fn the_panes_own_process_comes_first(table: Seq<Process>, p: int)
    requires
        procs::unique(table),
        0 <= p < table.len(),
        table[p].argv@.len() > 0,
    ensures
        procs::argvs(table, procs::walk(table, table[p].pid)).len() > 0,
        procs::argvs(table, procs::walk(table, table[p].pid))[0] == table[p].argv,
{
    let w = procs::walk(table, table[p].pid);
    procs::the_walk_goes_down(table, table[p].pid);
    lemma_walk_starts(table, table[p].pid);
    lemma_first(table, w, p);
}

proof fn lemma_walk_starts(table: Seq<Process>, root: u32)
    ensures
        procs::walk(table, root).len() > 0,
{
    lemma_queue_starts(table, root, (table.len() + 1) as nat);
}

proof fn lemma_queue_starts(table: Seq<Process>, root: u32, n: nat)
    ensures
        procs::queue(table, root, n).len() > 0,
    decreases n,
{
    if n > 0 {
        lemma_queue_starts(table, root, (n - 1) as nat);
    }
}

proof fn lemma_first(table: Seq<Process>, w: Seq<u32>, p: int)
    requires
        procs::unique(table),
        0 <= p < table.len(),
        table[p].argv@.len() > 0,
        w.len() > 0,
        w[0] == table[p].pid,
    ensures
        procs::argvs(table, w).len() > 0,
        procs::argvs(table, w)[0] == table[p].argv,
    decreases w.len(),
{
    lemma_slot_of(table, p, 0);
    if w.len() == 1 {
        assert(w.drop_last() =~= Seq::<u32>::empty());
        assert(procs::argvs(table, w.drop_last()) =~= Seq::<Vec<String>>::empty());
    } else {
        lemma_first(table, w.drop_last(), p);
    }
}

/// Each process of the walk has a say: its arguments are among those looked at.
pub proof fn every_process_of_the_walk_is_looked_at(table: Seq<Process>, root: u32, m: int, p: int)
    requires
        procs::unique(table),
        0 <= p < table.len(),
        0 <= m < procs::walk(table, root).len(),
        procs::walk(table, root)[m] == table[p].pid,
        table[p].argv@.len() > 0,
    ensures
        procs::argvs(table, procs::walk(table, root)).contains(table[p].argv),
{
    lemma_heard(table, procs::walk(table, root), m, p);
}

proof fn lemma_heard(table: Seq<Process>, w: Seq<u32>, m: int, p: int)
    requires
        procs::unique(table),
        0 <= p < table.len(),
        0 <= m < w.len(),
        w[m] == table[p].pid,
        table[p].argv@.len() > 0,
    ensures
        procs::argvs(table, w).contains(table[p].argv),
    decreases w.len(),
{
    let rest = procs::argvs(table, w.drop_last());
    let all = procs::argvs(table, w);
    if m == w.len() - 1 {
        lemma_slot_of(table, p, 0);
        assert(all[rest.len() as int] == table[p].argv);
    } else {
        lemma_heard(table, w.drop_last(), m, p);
        let k = choose|k: int| 0 <= k < rest.len() && rest[k] == table[p].argv;
        assert(all[k] == table[p].argv);
    }
}

/// Is the process at `p` the one whose pid stands at `k`, and is its parent's at
/// `m`?
pub open spec fn sits(table: Seq<Process>, w: Seq<u32>, k: int, p: int, m: int) -> bool {
    &&& 0 <= p < table.len()
    &&& 0 <= m < k
    &&& table[p].pid == w[k]
    &&& table[p].ppid == w[m]
}

/// The walk goes breadth first: of two processes the one whose parent was met
/// earlier comes earlier, and of two with one parent the one that stands earlier
/// in the table.
pub proof fn the_walk_goes_breadth_first(
    table: Seq<Process>,
    root: u32,
    j: int,
    k: int,
    p: int,
    q: int,
    m: int,
    n: int,
)
    requires
        procs::unique(table),
        0 < j < k < procs::walk(table, root).len(),
        sits(table, procs::walk(table, root), j, p, m),
        sits(table, procs::walk(table, root), k, q, n),
    ensures
        m < n || (m == n && p < q),
{
    let size = (table.len() + 1) as nat;
    lemma_breadth(table, root, size);
    let w = procs::walk(table, root);
    procs::the_walk_goes_down(table, root);
    assert(w[j] != root && w[k] != root);
    let (p2, m2) = choose|p2: int, m2: int| m2 < size && #[trigger] sits(table, w, j, p2, m2);
    let (q2, n2) = choose|q2: int, n2: int| n2 < size && #[trigger] sits(table, w, k, q2, n2);
    assert(p2 == p && q2 == q);
    assert(m2 == m && n2 == n);
}

proof fn lemma_kids_in_order(table: Seq<Process>, root: u32, pid: u32, i: int)
    requires
        procs::unique(table),
        0 <= i <= table.len(),
    ensures
        forall|k: int|
            0 <= k < procs::kids(table, root, pid, i).len() ==> exists|p: int|
                i <= p < table.len() && (#[trigger] table[p]).pid == #[trigger] procs::kids(table, root, pid, i)[k]
                    && table[p].ppid == pid,
        forall|a: int, b: int, p: int, q: int|
            0 <= a < b < procs::kids(table, root, pid, i).len() && 0 <= p < table.len() && 0 <= q < table.len()
                && (#[trigger] table[p]).pid == #[trigger] procs::kids(table, root, pid, i)[a] && (
            #[trigger] table[q]).pid == #[trigger] procs::kids(table, root, pid, i)[b] ==> p < q,
    decreases table.len() - i,
{
    if i < table.len() {
        lemma_kids_in_order(table, root, pid, i + 1);
        let rest = procs::kids(table, root, pid, i + 1);
        let all = procs::kids(table, root, pid, i);
        if table[i].ppid == pid && table[i].pid != root {
            assert forall|k: int| 0 <= k < all.len() implies exists|p: int|
                i <= p < table.len() && (#[trigger] table[p]).pid == #[trigger] all[k] && table[p].ppid == pid by {
                if k == 0 {
                    assert(table[i].pid == all[k]);
                } else {
                    assert(all[k] == rest[k - 1]);
                    let p = choose|p: int|
                        i + 1 <= p < table.len() && (#[trigger] table[p]).pid == rest[k - 1] && table[p].ppid == pid;
                    assert(table[p].pid == all[k]);
                }
            }
            assert forall|a: int, b: int, p: int, q: int|
                0 <= a < b < all.len() && 0 <= p < table.len() && 0 <= q < table.len() && (
                #[trigger] table[p]).pid == #[trigger] all[a] && (#[trigger] table[q]).pid
                    == #[trigger] all[b] implies p < q by {
                assert(all[b] == rest[b - 1]);
                if a == 0 {
                    let r = choose|r: int|
                        i + 1 <= r < table.len() && (#[trigger] table[r]).pid == rest[b - 1] && table[r].ppid == pid;
                    assert(r == q);
                    assert(p == i);
                } else {
                    assert(all[a] == rest[a - 1]);
                }
            }
        } else {
            assert(all == rest);
            assert forall|k: int| 0 <= k < all.len() implies exists|p: int|
                i <= p < table.len() && (#[trigger] table[p]).pid == #[trigger] all[k] && table[p].ppid == pid by {
                let p = choose|p: int|
                    i + 1 <= p < table.len() && (#[trigger] table[p]).pid == rest[k] && table[p].ppid == pid;
                assert(table[p].pid == all[k]);
            }
        }
    }
}

/// The places of the processes of the queue in the table and of their parents in
/// the queue, in order.
spec fn in_breadth(table: Seq<Process>, root: u32, n: nat) -> bool {
    let w = procs::queue(table, root, n);
    &&& forall|k: int|
        1 <= k < w.len() ==> (#[trigger] w[k]) != root && exists|p: int, m: int|
            m < n && #[trigger] sits(table, w, k, p, m)
    &&& forall|j: int, k: int, p: int, q: int, m: int, l: int|
        0 < j < k && k < w.len() && m < n && l < n && #[trigger] sits(table, w, j, p, m) && #[trigger] sits(
            table,
            w,
            k,
            q,
            l,
        ) ==> m < l || (m == l && p < q)
}

proof fn lemma_breadth(table: Seq<Process>, root: u32, n: nat)
    requires
        procs::unique(table),
    ensures
        in_breadth(table, root, n),
    decreases n,
{
    if n > 0 {
        let was = (n - 1) as nat;
        lemma_breadth(table, root, was);
        procs::lemma_queue(table, root, was);
        procs::lemma_queue(table, root, n);
        let v = procs::queue(table, root, was);
        let w = procs::queue(table, root, n);
        assert(v.no_duplicates() && w.no_duplicates());
        if was < v.len() {
            let x = v[was as int];
            let ks = procs::kids(table, root, x, 0);
            lemma_kids_in_order(table, root, x, 0);
            assert forall|k: int| 1 <= k < w.len() implies (#[trigger] w[k]) != root && exists|p: int, m: int|
                m < n && #[trigger] sits(table, w, k, p, m) by {
                if k < v.len() {
                    assert(v[k] != root);
                    let (p, m) = choose|p: int, m: int| m < was && #[trigger] sits(table, v, k, p, m);
                    assert(sits(table, w, k, p, m));
                } else {
                    assert(w[k] == ks[k - v.len()]);
                    let p = choose|p: int|
                        0 <= p < table.len() && (#[trigger] table[p]).pid == ks[k - v.len()] && table[p].ppid == x;
                    assert(sits(table, w, k, p, was as int));
                }
            }
            assert forall|j: int, k: int, p: int, q: int, m: int, l: int|
                0 < j < k && k < w.len() && m < n && l < n && #[trigger] sits(table, w, j, p, m) && #[trigger] sits(
                    table,
                    w,
                    k,
                    q,
                    l,
                ) implies m < l || (m == l && p < q) by {
                if k < v.len() {
                    assert(v[j] != root);
                    let (p2, m2) = choose|p2: int, m2: int| m2 < was && #[trigger] sits(table, v, j, p2, m2);
                    assert(v[k] != root);
                    let (q2, l2) = choose|q2: int, l2: int| l2 < was && #[trigger] sits(table, v, k, q2, l2);
                    assert(p2 == p && q2 == q);
                    assert(w[m2] == w[m] && w[l2] == w[l]);
                    assert(m2 == m && l2 == l);
                } else {
                    assert(w[k] == ks[k - v.len()]);
                    let q2 = choose|q2: int|
                        0 <= q2 < table.len() && (#[trigger] table[q2]).pid == ks[k - v.len()] && table[q2].ppid == x;
                    assert(q2 == q);
                    assert(w[l] == w[was as int]);
                    assert(l == was);
                    if j < v.len() {
                        assert(v[j] != root);
                    let (p2, m2) = choose|p2: int, m2: int| m2 < was && #[trigger] sits(table, v, j, p2, m2);
                        assert(p2 == p);
                        assert(w[m2] == w[m]);
                        assert(m2 == m);
                    } else {
                        assert(w[j] == ks[j - v.len()]);
                        let p2 = choose|p2: int|
                            0 <= p2 < table.len() && (#[trigger] table[p2]).pid == ks[j - v.len()] && table[p2].ppid
                                == x;
                        assert(p2 == p);
                        assert(w[m] == w[was as int]);
                        assert(m == was);
                    }
                }
            }
        } else {
            assert(w == v);
            assert forall|k: int| 1 <= k < w.len() implies (#[trigger] w[k]) != root && exists|p: int, m: int|
                m < n && #[trigger] sits(table, w, k, p, m) by {
                assert(v[k] != root);
                    let (p, m) = choose|p: int, m: int| m < was && #[trigger] sits(table, v, k, p, m);
                assert(sits(table, w, k, p, m));
            }
            assert forall|j: int, k: int, p: int, q: int, m: int, l: int|
                0 < j < k && k < w.len() && m < n && l < n && #[trigger] sits(table, w, j, p, m) && #[trigger] sits(
                    table,
                    w,
                    k,
                    q,
                    l,
                ) implies m < l || (m == l && p < q) by {
                assert(m < j < v.len() && l < k < v.len());
            }
        }
    }
}

/// The table holds one process for each pid, the last that was listed.
pub proof fn the_table_keeps_the_last_of_each_pid(list: Seq<Process>, k: int)
    requires
        0 <= k < list.len(),
        forall|j: int| k < j < list.len() ==> (#[trigger] list[j]).pid != list[k].pid,
    ensures
        procs::unique(procs::table(list)),
        procs::table(list).contains(list[k]),
        forall|i: int| 0 <= i < procs::table(list).len() ==> list.contains(#[trigger] procs::table(list)[i]),
{
    lemma_table(list);
    lemma_kept(list, k);
}

proof fn lemma_table(list: Seq<Process>)
    ensures
        procs::unique(procs::table(list)),
        forall|i: int| 0 <= i < procs::table(list).len() ==> list.contains(#[trigger] procs::table(list)[i]),
    decreases list.len(),
{
    if list.len() > 0 {
        let was = procs::table(list.drop_last());
        let now = procs::table(list);
        lemma_table(list.drop_last());
        procs::lemma_entered(was, list.last());
        procs::lemma_slot(was, list.last().pid, 0);
        assert forall|i: int| 0 <= i < now.len() implies list.contains(#[trigger] now[i]) by {
            if now[i] == list.last() {
                assert(list[list.len() - 1] == now[i]);
            } else {
                assert(i < was.len() && now[i] == was[i]);
                assert(list.drop_last().contains(was[i]));
                let j = choose|j: int| 0 <= j < list.drop_last().len() && list.drop_last()[j] == was[i];
                assert(list[j] == now[i]);
            }
        }
    }
}

proof fn lemma_kept(list: Seq<Process>, k: int)
    requires
        0 <= k < list.len(),
        forall|j: int| k < j < list.len() ==> (#[trigger] list[j]).pid != list[k].pid,
    ensures
        procs::table(list).contains(list[k]),
    decreases list.len(),
{
    let was = procs::table(list.drop_last());
    let now = procs::table(list);
    procs::lemma_slot(was, list.last().pid, 0);
    if k == list.len() - 1 {
        match procs::slot(was, list.last().pid, 0) {
            Some(s) => {
                assert(now[s] == list[k]);
            },
            None => {
                assert(now[was.len() as int] == list[k]);
            },
        }
    } else {
        let rest = list.drop_last();
        assert forall|j: int| k < j < rest.len() implies (#[trigger] rest[j]).pid != rest[k].pid by {
            assert(list[j].pid != list[k].pid);
        }
        lemma_kept(rest, k);
        let i = choose|i: int| 0 <= i < was.len() && was[i] == list[k];
        assert(list[list.len() - 1].pid != list[k].pid);
        assert(now[i] == list[k]);
    }
}

/// The arguments behind a program speak for an agent by the first that is no
/// flag: what the program is has no say in it.
pub proof fn arguments_speak_for_themselves(confs: Seq<AgentConf>, argv: Seq<Seq<char>>, k: int)
    requires
        1 <= k <= argv.len(),
        forall|j: int| 1 <= j < k ==> passing_flag(#[trigger] argv[j]),
        k < argv.len() ==> !passing_flag(argv[k]),
    ensures
        k == argv.len() ==> procs::argv_owner(confs, argv, 1) is None,
        k < argv.len() && argv[k].len() > 0 && argv[k][0] == '-' ==> procs::argv_owner(confs, argv, 1) is None,
        k < argv.len() && (argv[k].len() == 0 || argv[k][0] != '-') ==> {
            &&& !unlisted(confs, procs::bare(argv[k])) ==> procs::argv_owner(confs, argv, 1) == procs::bin_owner(
                confs,
                procs::bare(argv[k]),
                0,
            )
            &&& unlisted(confs, procs::bare(argv[k])) ==> procs::argv_owner(confs, argv, 1) == procs::hint_owner(
                confs,
                argv[k],
                0,
            )
        },
{
    reveal_strlit("-");
    reveal_strlit("-e");
    reveal_strlit("--eval");
    reveal_strlit("-c");
    reveal_strlit("-p");
    reveal_strlit("--print");
    lemma_flags(confs, argv, 1, k);
    if k < argv.len() {
        let t = argv[k];
        if t.len() > 0 {
            assert(t.subrange(0, 1) =~= seq![t[0]]);
            assert("-"@ =~= seq!['-']);
            assert(seq![t[0]][0] == t[0] && seq!['-'][0] == '-');
        }
        lemma_listed(confs, procs::bare(t));
    }
}

/// A process that is listed again takes the place of the one with its pid; a new
/// pid comes last.
pub proof fn a_process_listed_again_keeps_its_place(list: Seq<Process>, p: Process, k: int)
    ensures
        procs::table(Seq::<Process>::empty()).len() == 0,
        0 <= k < procs::table(list).len() && procs::table(list)[k].pid == p.pid ==> procs::table(list.push(p))
            == procs::table(list).update(k, p),
        (forall|i: int| 0 <= i < procs::table(list).len() ==> (#[trigger] procs::table(list)[i]).pid != p.pid)
            ==> procs::table(list.push(p)) == procs::table(list).push(p),
{
    let t = procs::table(list);
    lemma_table(list);
    procs::lemma_slot(t, p.pid, 0);
    assert(list.push(p).drop_last() =~= list);
    if 0 <= k < t.len() && t[k].pid == p.pid {
        lemma_slot_of(t, k, 0);
    }
    if forall|i: int| 0 <= i < t.len() ==> (#[trigger] t[i]).pid != p.pid {
        lemma_no_slot(t, p.pid, 0);
    }
}

/// A conf is found by its place, and by nothing else.
pub proof fn a_place_is_a_place(i: usize, p: Option<int>)
    ensures
        procs::is_at(Some(i), p) <==> p == Some(i as int),
        procs::is_at(None, p) <==> p is None,
{
}

} // verus!
