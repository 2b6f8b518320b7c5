//! Which agent runs in a pane: by the pane's command, else by the process tree
//! below the pane.

use crate::conf::AgentConf;
use crate::text;
use vstd::prelude::*;
use vstd::string::*;

verus! {

// ---------------------------------------------------------------------------
// Names of programs

/// `s` without the suffix `t`, or `s` where it does not end so.
pub open spec fn less(s: Seq<char>, t: Seq<char>) -> Seq<char> {
    if text::ends(s, t) {
        s.take(s.len() - t.len())
    } else {
        s
    }
}

/// The bare name of a program: without its directory, and without one `.js`,
/// `.cmd` or `.exe`.
pub open spec fn bare(tok: Seq<char>) -> Seq<char> {
    let b = text::tail(tok, '/');
    if text::ends(b, ".js"@) {
        less(b, ".js"@)
    } else if text::ends(b, ".cmd"@) {
        less(b, ".cmd"@)
    } else {
        less(b, ".exe"@)
    }
}

/// The bare name of a program: without its directory, and without one `.js`,
/// `.cmd` or `.exe`.
pub fn normalize_bin<'a>(tok: &'a str) -> (r: &'a str)
    ensures
        r@ == bare(tok@),
{
    let b = text::tail_of(tok, '/');
    match text::strip_suffix(b, ".js") {
        Some(p) => p,
        None => match text::strip_suffix(b, ".cmd") {
            Some(p) => p,
            None => match text::strip_suffix(b, ".exe") {
                Some(p) => p,
                None => b,
            },
        },
    }
}

/// The first conf from `i` on that lists the program `bin`.
pub open spec fn bin_owner(confs: Seq<AgentConf>, bin: Seq<char>, i: int) -> Option<int>
    decreases confs.len() - i,
{
    if i >= confs.len() {
        None
    } else if text::views(confs[i].bins@).contains(bin) {
        Some(i)
    } else {
        bin_owner(confs, bin, i + 1)
    }
}

/// Does `t` hold one of the hints?
pub open spec fn hinted(hints: Seq<Seq<char>>, t: Seq<char>) -> bool {
    exists|h: int| 0 <= h < hints.len() && text::occurs(t, #[trigger] hints[h])
}

/// The first conf from `i` on with a hint that stands in the path `t`.
pub open spec fn hint_owner(confs: Seq<AgentConf>, t: Seq<char>, i: int) -> Option<int>
    decreases confs.len() - i,
{
    if i >= confs.len() {
        None
    } else if hinted(text::views(confs[i].path_hints@), t) {
        Some(i)
    } else {
        hint_owner(confs, t, i + 1)
    }
}

/// Is `r` the position `p`?
pub open spec fn is_at(r: Option<usize>, p: Option<int>) -> bool {
    match r {
        Some(i) => p == Some(i as int),
        None => p is None,
    }
}

/// The first conf that lists the program `bin`.
pub fn agent_for_bin(confs: &Vec<AgentConf>, bin: &str) -> (r: Option<usize>)
    ensures
        is_at(r, bin_owner(confs@, bin@, 0)),
        r is Some ==> r->0 < confs@.len(),
{
    let mut i: usize = 0;
    while i < confs.len()
        invariant
            i <= confs@.len(),
            bin_owner(confs@, bin@, 0) == bin_owner(confs@, bin@, i as int),
        decreases confs@.len() - i,
    {
        let ghost bins = text::views(confs@[i as int].bins@);
        proof {
            text::lemma_position_of(bins, bin@, 0);
        }
        match text::position(&confs[i].bins, bin) {
            Some(k) => {
                assert(bins[k as int] == bin@);
                return Some(i);
            },
            None => {},
        }
        i += 1;
    }
    None
}

/// The first conf with a hint that stands in the path `t`.
fn agent_for_path(confs: &Vec<AgentConf>, t: &str) -> (r: Option<usize>)
    ensures
        is_at(r, hint_owner(confs@, t@, 0)),
        r is Some ==> r->0 < confs@.len(),
{
    let mut i: usize = 0;
    while i < confs.len()
        invariant
            i <= confs@.len(),
            hint_owner(confs@, t@, 0) == hint_owner(confs@, t@, i as int),
        decreases confs@.len() - i,
    {
        let ghost hints = text::views(confs@[i as int].path_hints@);
        let mut k: usize = 0;
        while k < confs[i].path_hints.len()
            invariant
                i < confs@.len(),
                hints == text::views(confs@[i as int].path_hints@),
                hint_owner(confs@, t@, 0) == hint_owner(confs@, t@, i as int),
                k <= confs@[i as int].path_hints@.len(),
                forall|h: int| 0 <= h < k ==> !text::occurs(t@, #[trigger] hints[h]),
            decreases confs@[i as int].path_hints@.len() - k,
        {
            assert(hints[k as int] == confs@[i as int].path_hints@[k as int]@);
            if text::contains(t, confs[i].path_hints[k].as_str()) {
                return Some(i);
            }
            k += 1;
        }
        i += 1;
    }
    None
}

/// Does the flag take a program text, so that what follows is no script?
pub open spec fn payload_flag(t: Seq<char>) -> bool {
    t == "-e"@ || t == "--eval"@ || t == "-c"@ || t == "-p"@ || t == "--print"@
}

/// Does the flag take a program text, so that what follows is no script?
fn is_payload_flag(t: &str) -> (r: bool)
    ensures
        r == payload_flag(t@),
{
    text::same(t, "-e") || text::same(t, "--eval") || text::same(t, "-c") || text::same(t, "-p")
        || text::same(t, "--print")
}

/// The agent that the script path `t` belongs to: by its name, else by a hint.
pub open spec fn script_owner(confs: Seq<AgentConf>, t: Seq<char>) -> Option<int> {
    match bin_owner(confs, bare(t), 0) {
        Some(i) => Some(i),
        None => hint_owner(confs, t, 0),
    }
}

/// The agent behind the arguments from `i` on: the first that is no flag
/// decides, and an inline program is no agent.
pub open spec fn argv_owner(confs: Seq<AgentConf>, argv: Seq<Seq<char>>, i: int) -> Option<int>
    decreases argv.len() - i,
{
    if i >= argv.len() {
        None
    } else if payload_flag(argv[i]) {
        None
    } else if text::stands_at(argv[i], "-"@, 0) {
        argv_owner(confs, argv, i + 1)
    } else {
        script_owner(confs, argv[i])
    }
}

/// The agent that a wrapper runs: the first argument that is no flag decides.
pub fn agent_for_argv(confs: &Vec<AgentConf>, argv: &Vec<String>) -> (r: Option<usize>)
    ensures
        is_at(r, argv_owner(confs@, text::views(argv@), 1)),
        r is Some ==> r->0 < confs@.len(),
{
    let ghost all = text::views(argv@);
    let mut i: usize = 1;
    while i < argv.len()
        invariant
            all == text::views(argv@),
            1 <= i,
            argv_owner(confs@, all, 1) == argv_owner(confs@, all, i as int),
        decreases argv@.len() - i,
    {
        let t = argv[i].as_str();
        assert(all[i as int] == t@);
        if is_payload_flag(t) {
            return None;
        }
        if !text::starts_with(t, "-") {
            match agent_for_bin(confs, normalize_bin(t)) {
                Some(k) => {
                    return Some(k);
                },
                None => {
                    return agent_for_path(confs, t);
                },
            }
        }
        i += 1;
    }
    None
}

// ---------------------------------------------------------------------------
// The process table

/// A process as the table lists it.
pub struct Process {
    pub pid: u32,
    pub ppid: u32,
    pub argv: Vec<String>,
}

/// A process table: each pid stands in it once.
pub struct Snapshot {
    procs: Vec<Process>,
}

/// Where the process `pid` stands, from `i` on.
pub open spec fn slot(procs: Seq<Process>, pid: u32, i: int) -> Option<int>
    decreases procs.len() - i,
{
    if i >= procs.len() {
        None
    } else if procs[i].pid == pid {
        Some(i)
    } else {
        slot(procs, pid, i + 1)
    }
}

pub proof fn lemma_slot(procs: Seq<Process>, pid: u32, i: int)
    requires
        0 <= i,
    ensures
        match slot(procs, pid, i) {
            Some(p) => i <= p < procs.len() && procs[p].pid == pid,
            None => forall|k: int| i <= k < procs.len() ==> (#[trigger] procs[k]).pid != pid,
        },
    decreases procs.len() - i,
{
    if i < procs.len() && procs[i].pid != pid {
        lemma_slot(procs, pid, i + 1);
    }
}

/// Does each pid stand in the table once?
pub open spec fn unique(procs: Seq<Process>) -> bool {
    forall|i: int, j: int| 0 <= i < j < procs.len() ==> procs[i].pid != procs[j].pid
}

/// The table with the process `p` in it: it takes the place of the one with its
/// pid, or comes last.
pub open spec fn entered(procs: Seq<Process>, p: Process) -> Seq<Process> {
    match slot(procs, p.pid, 0) {
        Some(k) => procs.update(k, p),
        None => procs.push(p),
    }
}

/// The table made of a list of processes, the last of each pid.
pub open spec fn table(list: Seq<Process>) -> Seq<Process>
    decreases list.len(),
{
    if list.len() == 0 {
        Seq::empty()
    } else {
        entered(table(list.drop_last()), list.last())
    }
}

/// The pids of the processes from `i` on whose parent is `pid`, but for the root
/// of the walk.
pub open spec fn kids(procs: Seq<Process>, root: u32, pid: u32, i: int) -> Seq<u32>
    decreases procs.len() - i,
{
    if i >= procs.len() {
        Seq::empty()
    } else if procs[i].ppid == pid && procs[i].pid != root {
        seq![procs[i].pid] + kids(procs, root, pid, i + 1)
    } else {
        kids(procs, root, pid, i + 1)
    }
}

/// The queue of a breadth-first walk from `root` after `n` pids were taken from
/// its front: each brought its children to the back.
pub open spec fn queue(procs: Seq<Process>, root: u32, n: nat) -> Seq<u32>
    decreases n,
{
    if n == 0 {
        seq![root]
    } else {
        let q = queue(procs, root, (n - 1) as nat);
        if n - 1 < q.len() {
            q + kids(procs, root, q[n - 1], 0)
        } else {
            q
        }
    }
}

/// The pids of the process tree below `root`, itself included, breadth first.
pub open spec fn walk(procs: Seq<Process>, root: u32) -> Seq<u32> {
    queue(procs, root, (procs.len() + 1) as nat)
}

/// The arguments of the processes with the pids, where there are any.
pub open spec fn argvs(procs: Seq<Process>, pids: Seq<u32>) -> Seq<Vec<String>>
    decreases pids.len(),
{
    if pids.len() == 0 {
        Seq::empty()
    } else {
        let rest = argvs(procs, pids.drop_last());
        match slot(procs, pids.last(), 0) {
            Some(k) => if procs[k].argv@.len() > 0 {
                rest.push(procs[k].argv)
            } else {
                rest
            },
            None => rest,
        }
    }
}

proof fn lemma_kids(procs: Seq<Process>, root: u32, pid: u32, i: int)
    requires
        unique(procs),
        0 <= i <= procs.len(),
    ensures
        forall|k: int|
            0 <= k < kids(procs, root, pid, i).len() ==> exists|p: int|
                i <= p < procs.len() && procs[p].pid == #[trigger] kids(procs, root, pid, i)[k]
                    && procs[p].ppid == pid && procs[p].pid != root,
        forall|p: int|
            i <= p < procs.len() && procs[p].ppid == pid && procs[p].pid != root ==> kids(
                procs,
                root,
                pid,
                i,
            ).contains(#[trigger] procs[p].pid),
        kids(procs, root, pid, i).no_duplicates(),
    decreases procs.len() - i,
{
    if i < procs.len() {
        lemma_kids(procs, root, pid, i + 1);
        let rest = kids(procs, root, pid, i + 1);
        let all = kids(procs, root, pid, i);
        if procs[i].ppid == pid && procs[i].pid != root {
            assert forall|k: int| 0 <= k < all.len() implies exists|p: int|
                i <= p < procs.len() && procs[p].pid == #[trigger] all[k] && procs[p].ppid == pid
                    && procs[p].pid != root by {
                if k == 0 {
                    assert(procs[i].pid == all[k]);
                } else {
                    assert(all[k] == rest[k - 1]);
                    let p = choose|p: int|
                        i + 1 <= p < procs.len() && procs[p].pid == rest[k - 1] && procs[p].ppid
                            == pid && procs[p].pid != root;
                    assert(procs[p].pid == all[k]);
                }
            }
            assert forall|p: int|
                i <= p < procs.len() && procs[p].ppid == pid && procs[p].pid
                    != root implies all.contains(#[trigger] procs[p].pid) by {
                if p == i {
                    assert(all[0] == procs[p].pid);
                } else {
                    let k = choose|k: int| 0 <= k < rest.len() && rest[k] == procs[p].pid;
                    assert(all[k + 1] == procs[p].pid);
                }
            }
            assert(all.no_duplicates()) by {
                assert forall|a: int, b: int| 0 <= a < b < all.len() implies all[a] != all[b] by {
                    if a == 0 {
                        assert(all[b] == rest[b - 1]);
                        let p = choose|p: int|
                            i + 1 <= p < procs.len() && procs[p].pid == rest[b - 1]
                                && procs[p].ppid == pid && procs[p].pid != root;
                        assert(procs[i].pid != procs[p].pid);
                    } else {
                        assert(all[a] == rest[a - 1] && all[b] == rest[b - 1]);
                    }
                }
            }
        } else {
            assert forall|k: int| 0 <= k < all.len() implies exists|p: int|
                i <= p < procs.len() && procs[p].pid == #[trigger] all[k] && procs[p].ppid == pid
                    && procs[p].pid != root by {
                let p = choose|p: int|
                    i + 1 <= p < procs.len() && procs[p].pid == rest[k] && procs[p].ppid == pid
                        && procs[p].pid != root;
                assert(procs[p].pid == all[k]);
            }
        }
    }
}

/// Is `q[k]` the pid of the process at `p`, whose parent `q[m]` stands before it?
pub open spec fn child_of(procs: Seq<Process>, q: Seq<u32>, k: int, p: int, m: int) -> bool {
    &&& 0 <= p < procs.len()
    &&& 0 <= m < k
    &&& procs[p].pid == q[k]
    &&& procs[p].ppid == q[m]
}

/// What holds of the queue at every step: no pid stands in it twice, and each
/// but the root is that of a process whose parent was taken before.
pub open spec fn queue_inv(procs: Seq<Process>, root: u32, n: nat) -> bool {
    let q = queue(procs, root, n);
    &&& q.len() > 0
    &&& q[0] == root
    &&& q.no_duplicates()
    &&& forall|k: int|
        1 <= k < q.len() ==> (#[trigger] q[k]) != root && exists|p: int, m: int|
            m < n && #[trigger] child_of(procs, q, k, p, m)
}

pub proof fn lemma_queue(procs: Seq<Process>, root: u32, n: nat)
    requires
        unique(procs),
    ensures
        queue_inv(procs, root, n),
    decreases n,
{
    if n > 0 {
        let m = (n - 1) as nat;
        lemma_queue(procs, root, m);
        let q = queue(procs, root, m);
        let r = queue(procs, root, n);
        if m < q.len() {
            let ks = kids(procs, root, q[m as int], 0);
            lemma_kids(procs, root, q[m as int], 0);
            assert forall|k: int| 1 <= k < r.len() implies (#[trigger] r[k]) != root && exists|
                p: int,
                j: int,
            |
                j < n && #[trigger] child_of(procs, r, k, p, j) by {
                if k < q.len() {
                    assert(r[k] == q[k]);
                    let (p, j) = choose|p: int, j: int|
                        j < m && #[trigger] child_of(procs, q, k, p, j);
                    assert(child_of(procs, r, k, p, j));
                } else {
                    assert(r[k] == ks[k - q.len()]);
                    let p = choose|p: int|
                        0 <= p < procs.len() && procs[p].pid == ks[k - q.len()] && procs[p].ppid
                            == q[m as int] && procs[p].pid != root;
                    assert(child_of(procs, r, k, p, m as int));
                }
            }
            assert forall|a: int, b: int| 0 <= a < b < r.len() implies r[a] != r[b] by {
                if b < q.len() {
                    assert(q[a] != q[b]);
                } else {
                    assert(r[b] == ks[b - q.len()]);
                    let p = choose|p: int|
                        0 <= p < procs.len() && procs[p].pid == ks[b - q.len()] && procs[p].ppid
                            == q[m as int] && procs[p].pid != root;
                    if a >= q.len() {
                        assert(r[a] == ks[a - q.len()]);
                    } else if a >= 1 && r[a] == r[b] {
                        assert(r[a] == q[a]);
                        let (p2, j) = choose|p2: int, j: int|
                            j < m && #[trigger] child_of(procs, q, a, p2, j);
                        assert(p2 == p);
                        assert(q[j] == q[m as int]);
                    }
                }
            }
        } else {
            assert forall|k: int| 1 <= k < r.len() implies (#[trigger] r[k]) != root && exists|
                p: int,
                j: int,
            |
                j < n && #[trigger] child_of(procs, r, k, p, j) by {
                assert(q[k] != root);
                let (p, j) = choose|p: int, j: int|
                    j < m && #[trigger] child_of(procs, q, k, p, j);
                assert(child_of(procs, r, k, p, j));
            }
        }
    }
}

proof fn lemma_queue_length(procs: Seq<Process>, root: u32, n: nat)
    requires
        unique(procs),
    ensures
        queue(procs, root, n).len() <= procs.len() + 1,
{
    lemma_queue(procs, root, n);
    let q = queue(procs, root, n);
    let below = q.skip(1);
    let pids = procs.map_values(|p: Process| p.pid);
    assert forall|x: u32| below.to_set().contains(x) implies pids.to_set().contains(x) by {
        let k = choose|k: int| 0 <= k < below.len() && below[k] == x;
        assert(q[k + 1] == x);
        let (p, j) = choose|p: int, j: int|
            j < n && #[trigger] child_of(procs, q, k + 1, p, j);
        assert(pids[p] == x);
    }
    assert forall|a: int, b: int| 0 <= a < b < below.len() implies below[a] != below[b] by {
        assert(q[a + 1] != q[b + 1]);
    }
    below.unique_seq_to_set();
    pids.lemma_cardinality_of_set();
    vstd::set_lib::lemma_len_subset(below.to_set(), pids.to_set());
}

proof fn lemma_queue_rests(procs: Seq<Process>, root: u32, n: nat, m: nat)
    requires
        n <= m,
        queue(procs, root, n).len() <= n,
    ensures
        queue(procs, root, m) == queue(procs, root, n),
    decreases m - n,
{
    if n < m {
        lemma_queue_rests(procs, root, n, (m - 1) as nat);
    }
}

/// The walk meets no pid twice, and meets each but the root after its parent.
pub proof fn the_walk_goes_down(procs: Seq<Process>, root: u32)
    requires
        unique(procs),
    ensures
        walk(procs, root)[0] == root,
        walk(procs, root).no_duplicates(),
        forall|k: int|
            1 <= k < walk(procs, root).len() ==> (#[trigger] walk(procs, root)[k]) != root
                && exists|p: int, m: int| child_of(procs, walk(procs, root), k, p, m),
{
    let n = (procs.len() + 1) as nat;
    lemma_queue(procs, root, n);
    let q = walk(procs, root);
    assert forall|k: int|
        1 <= k < q.len() implies (#[trigger] q[k]) != root && exists|p: int, m: int|
            child_of(procs, q, k, p, m) by {
        assert(queue(procs, root, n)[k] != root);
    }
}

proof fn lemma_queue_closed(procs: Seq<Process>, root: u32, n: nat, p: int, m: int)
    requires
        unique(procs),
        0 <= p < procs.len(),
        0 <= m < n,
        m < queue(procs, root, n).len(),
        queue(procs, root, n)[m] == procs[p].ppid,
    ensures
        queue(procs, root, n).contains(procs[p].pid),
    decreases n,
{
    lemma_queue(procs, root, n);
    let q = queue(procs, root, n);
    if procs[p].pid == root {
        assert(q[0] == root);
    } else {
        let o = queue(procs, root, (n - 1) as nat);
        lemma_queue(procs, root, (n - 1) as nat);
        if m == n - 1 && m < o.len() {
            let ks = kids(procs, root, o[m], 0);
            lemma_kids(procs, root, o[m], 0);
            assert(ks.contains(procs[p].pid));
            let k = choose|k: int| 0 <= k < ks.len() && ks[k] == procs[p].pid;
            assert(q[o.len() + k] == procs[p].pid);
        } else if m < n - 1 && m < o.len() {
            lemma_queue_closed(procs, root, (n - 1) as nat, p, m);
            let k = choose|k: int| 0 <= k < o.len() && o[k] == procs[p].pid;
            assert(q[k] == procs[p].pid);
        } else {
            // the queue grew past what was taken from it
            lemma_queue_grown(procs, root, n, m);
        }
    }
}

proof fn lemma_queue_grown(procs: Seq<Process>, root: u32, n: nat, m: int)
    requires
        0 <= m < n,
        m >= queue(procs, root, (n - 1) as nat).len(),
    ensures
        m >= queue(procs, root, n).len(),
{
}

/// Every process whose parent the walk meets is met too.
pub proof fn the_walk_leaves_none_out(procs: Seq<Process>, root: u32, p: int, m: int)
    requires
        unique(procs),
        0 <= p < procs.len(),
        0 <= m < walk(procs, root).len(),
        walk(procs, root)[m] == procs[p].ppid,
    ensures
        walk(procs, root).contains(procs[p].pid),
{
    let n = (procs.len() + 1) as nat;
    lemma_queue_length(procs, root, n);
    lemma_queue_closed(procs, root, n, p, m);
}

pub proof fn lemma_entered(procs: Seq<Process>, p: Process)
    requires
        unique(procs),
    ensures
        unique(entered(procs, p)),
{
    lemma_slot(procs, p.pid, 0);
}

impl Snapshot {
    /// The processes of the table.
    pub closed spec fn procs(&self) -> Seq<Process> {
        self.procs@
    }

    #[verifier::type_invariant]
    spec fn inv(&self) -> bool {
        unique(self.procs@)
    }

    /// The table made of a list of processes, the last of each pid.
    pub fn new(list: Vec<Process>) -> (r: Snapshot)
        ensures
            unique(r.procs()),
            r.procs() == table(list@),
    {
        let mut left = list;
        let mut turned: Vec<Process> = Vec::new();
        let ghost all = list@;
        // taken from the back, to be entered from the front
        while left.len() > 0
            invariant
                left@.len() + turned@.len() == all.len(),
                left@ =~= all.take(left@.len() as int),
                turned@ =~= all.skip(left@.len() as int).reverse(),
            decreases left@.len(),
        {
            match left.pop() {
                Some(p) => {
                    turned.push(p);
                },
                None => {},
            }
        }
        let mut procs: Vec<Process> = Vec::new();
        assert(all.take(0) =~= Seq::<Process>::empty());
        while turned.len() > 0
            invariant
                turned@.len() <= all.len(),
                turned@ =~= all.skip(all.len() - turned@.len()).reverse(),
                unique(procs@),
                procs@ == table(all.take(all.len() - turned@.len())),
            decreases turned@.len(),
        {
            let ghost done = all.len() - turned@.len();
            match turned.pop() {
                Some(p) => {
                    proof {
                        assert(p == all[done]);
                        assert(all.take(done + 1).drop_last() =~= all.take(done));
                        assert(all.take(done + 1).last() == p);
                        lemma_entered(procs@, p);
                    }
                    match find_slot(&procs, p.pid) {
                        Some(k) => {
                            procs[k] = p;
                        },
                        None => {
                            procs.push(p);
                        },
                    }
                },
                None => {},
            }
        }
        assert(all.take(all.len() as int) =~= all);
        Snapshot { procs }
    }

    /// The arguments of the processes below `root`, itself included, breadth
    /// first; a process without arguments is left out. (One that would be its
    /// own ancestor is met once.)
    pub fn descendant_argvs(&self, root: u32) -> (r: Vec<&Vec<String>>)
        ensures
            r@.len() == argvs(self.procs(), walk(self.procs(), root)).len(),
            forall|i: int|
                0 <= i < r@.len() ==> *(#[trigger] r@[i]) == argvs(
                    self.procs(),
                    walk(self.procs(), root),
                )[i],
    {
        proof {
            use_type_invariant(self);
        }
        let ghost procs = self.procs@;
        let mut out: Vec<&Vec<String>> = Vec::new();
        let mut line: Vec<u32> = Vec::new();
        line.push(root);
        let mut i: usize = 0;
        while i < line.len()
            invariant
                procs == self.procs@,
                unique(procs),
                i <= line@.len(),
                line@ == queue(procs, root, i as nat),
                out@.len() == argvs(procs, line@.take(i as int)).len(),
                forall|k: int|
                    0 <= k < out@.len() ==> *(#[trigger] out@[k]) == argvs(
                        procs,
                        line@.take(i as int),
                    )[k],
            decreases procs.len() + 1 - i,
        {
            proof {
                lemma_queue_length(procs, root, i as nat);
            }
            let pid: u32 = line[i];
            let ghost was = line@;
            match find_slot(&self.procs, pid) {
                Some(k) => {
                    if self.procs[k].argv.len() > 0 {
                        out.push(&self.procs[k].argv);
                    }
                },
                None => {},
            }
            let mut j: usize = 0;
            assert(line@ + kids(procs, root, pid, 0) =~= was + kids(procs, root, pid, 0));
            while j < self.procs.len()
                invariant
                    procs == self.procs@,
                    j <= procs.len(),
                    line@ + kids(procs, root, pid, j as int) == was + kids(procs, root, pid, 0),
                decreases procs.len() - j,
            {
                let ghost now = line@;
                if self.procs[j].ppid == pid && self.procs[j].pid != root {
                    line.push(self.procs[j].pid);
                    assert(line@ + kids(procs, root, pid, j + 1) =~= now + (seq![
                        procs[j as int].pid,
                    ] + kids(procs, root, pid, j + 1)));
                }
                j += 1;
            }
            assert(line@ + kids(procs, root, pid, j as int) =~= line@);
            i += 1;
            proof {
                assert(line@.take(i as int).drop_last() =~= was.take(i - 1));
                assert(line@.take(i as int).last() == pid);
            }
        }
        proof {
            lemma_queue_length(procs, root, i as nat);
            lemma_queue_rests(procs, root, i as nat, (procs.len() + 1) as nat);
            assert(line@.take(i as int) =~= line@);
        }
        out
    }
}

/// Where the process `pid` stands.
fn find_slot(procs: &Vec<Process>, pid: u32) -> (r: Option<usize>)
    ensures
        is_at(r, slot(procs@, pid, 0)),
        r is Some ==> r->0 < procs@.len(),
{
    let mut i: usize = 0;
    while i < procs.len()
        invariant
            i <= procs@.len(),
            slot(procs@, pid, 0) == slot(procs@, pid, i as int),
        decreases procs@.len() - i,
    {
        if procs[i].pid == pid {
            return Some(i);
        }
        i += 1;
    }
    None
}

// ---------------------------------------------------------------------------
// Identification

/// The agent that a process is: by its program, else by what it wraps.
pub open spec fn process_owner(confs: Seq<AgentConf>, argv: Seq<Seq<char>>) -> Option<int> {
    match bin_owner(confs, bare(argv[0]), 0) {
        Some(i) => Some(i),
        None => argv_owner(confs, argv, 1),
    }
}

/// The agent of the first process from `i` on that is one.
pub open spec fn tree_owner(confs: Seq<AgentConf>, list: Seq<Vec<String>>, i: int) -> Option<int>
    decreases list.len() - i,
{
    if i >= list.len() {
        None
    } else {
        match process_owner(confs, text::views(list[i]@)) {
            Some(k) => Some(k),
            None => tree_owner(confs, list, i + 1),
        }
    }
}

/// What is known of the agent in a pane.
pub enum Identity {
    /// The agent's conf, or none.
    Known(Option<usize>),
    /// The process table is needed.
    NeedsSnapshot,
}

/// The agent in a pane, by its foreground command and, where that is no agent,
/// by the process tree below it.
pub open spec fn pane_owner(
    confs: Seq<AgentConf>,
    procs: Seq<Process>,
    pane_pid: u32,
    cmd: Seq<char>,
) -> Option<int> {
    match bin_owner(confs, bare(cmd), 0) {
        Some(i) => Some(i),
        None => tree_owner(confs, argvs(procs, walk(procs, pane_pid)), 0),
    }
}

/// The agent running in a pane. The process table is asked for only where the
/// pane's command is no agent by itself.
pub fn identify(
    confs: &Vec<AgentConf>,
    snap: &Option<Snapshot>,
    pane_pid: u32,
    cmd: &str,
) -> (r: Identity)
    ensures
        match r {
            Identity::Known(k) => {
                &&& k is Some ==> k->0 < confs@.len()
                &&& bin_owner(confs@, bare(cmd@), 0) is Some ==> is_at(
                    k,
                    bin_owner(confs@, bare(cmd@), 0),
                )
                &&& bin_owner(confs@, bare(cmd@), 0) is None ==> snap is Some && is_at(
                    k,
                    pane_owner(confs@, snap->0.procs(), pane_pid, cmd@),
                )
            },
            Identity::NeedsSnapshot => bin_owner(confs@, bare(cmd@), 0) is None && snap is None,
        },
{
    match agent_for_bin(confs, normalize_bin(cmd)) {
        Some(i) => {
            return Identity::Known(Some(i));
        },
        None => {},
    }
    match snap {
        Some(s) => Identity::Known(agent_in_tree(confs, s, pane_pid)),
        None => Identity::NeedsSnapshot,
    }
}

/// The agent in the process tree below `pane_pid`.
fn agent_in_tree(confs: &Vec<AgentConf>, snap: &Snapshot, pane_pid: u32) -> (r: Option<usize>)
    ensures
        is_at(r, tree_owner(confs@, argvs(snap.procs(), walk(snap.procs(), pane_pid)), 0)),
        r is Some ==> r->0 < confs@.len(),
{
    let list = snap.descendant_argvs(pane_pid);
    let ghost all = argvs(snap.procs(), walk(snap.procs(), pane_pid));
    proof {
        lemma_argvs_speak(snap.procs(), walk(snap.procs(), pane_pid));
    }
    let mut i: usize = 0;
    while i < list.len()
        invariant
            all == argvs(snap.procs(), walk(snap.procs(), pane_pid)),
            i <= list@.len(),
            list@.len() == all.len(),
            forall|k: int| 0 <= k < list@.len() ==> *(#[trigger] list@[k]) == all[k],
            forall|k: int| 0 <= k < all.len() ==> (#[trigger] all[k])@.len() > 0,
            tree_owner(confs@, all, 0) == tree_owner(confs@, all, i as int),
        decreases list@.len() - i,
    {
        let argv: &Vec<String> = list[i];
        assert(*argv == all[i as int]);
        match agent_for_bin(confs, normalize_bin(argv[0].as_str())) {
            Some(k) => {
                return Some(k);
            },
            None => {},
        }
        match agent_for_argv(confs, argv) {
            Some(k) => {
                return Some(k);
            },
            None => {},
        }
        i += 1;
    }
    None
}

proof fn lemma_argvs_speak(procs: Seq<Process>, pids: Seq<u32>)
    ensures
        forall|k: int| 0 <= k < argvs(procs, pids).len() ==> (#[trigger] argvs(procs, pids)[k])@.len() > 0,
    decreases pids.len(),
{
    if pids.len() > 0 {
        lemma_argvs_speak(procs, pids.drop_last());
        let rest = argvs(procs, pids.drop_last());
        let all = argvs(procs, pids);
        assert forall|k: int| 0 <= k < all.len() implies (#[trigger] all[k])@.len() > 0 by {
            if k < rest.len() {
                assert(all[k] == rest[k]);
            }
        }
    }
}

// ---------------------------------------------------------------------------
// What was found before

/// The agent that was found for a pane with this pid and command.
pub struct Ident {
    pub pane: String,
    pub pid: u32,
    pub cmd: String,
    pub agent: Option<String>,
}

/// What is known of panes, by pane, pid and command: a pane whose foreground
/// command changed is looked at again.
pub struct IdentCache {
    entries: Vec<Ident>,
}

/// An agent's name as the cache holds it.
pub open spec fn agent_view(a: Option<String>) -> Option<Seq<char>> {
    match a {
        Some(s) => Some(s@),
        None => None,
    }
}

/// The map that a list of findings stands for: a later one replaces an earlier.
pub open spec fn findings(entries: Seq<Ident>) -> Map<
    (Seq<char>, u32, Seq<char>),
    Option<Seq<char>>,
>
    decreases entries.len(),
{
    if entries.len() == 0 {
        Map::empty()
    } else {
        let e = entries.last();
        findings(entries.drop_last()).insert((e.pane@, e.pid, e.cmd@), agent_view(e.agent))
    }
}

impl View for IdentCache {
    type V = Map<(Seq<char>, u32, Seq<char>), Option<Seq<char>>>;

    closed spec fn view(&self) -> Map<(Seq<char>, u32, Seq<char>), Option<Seq<char>>> {
        findings(self.entries@)
    }
}

impl IdentCache {
    /// A cache that knows nothing.
    pub fn new() -> (r: IdentCache)
        ensures
            r@ == Map::<(Seq<char>, u32, Seq<char>), Option<Seq<char>>>::empty(),
    {
        IdentCache { entries: Vec::new() }
    }

    /// What was found for the pane: `None` where it was not looked at yet.
    pub fn get(&self, pane: &str, pid: u32, cmd: &str) -> (r: Option<Option<String>>)
        ensures
            match r {
                Some(a) => self@.contains_key((pane@, pid, cmd@)) && self@[(pane@, pid, cmd@)]
                    == agent_view(a),
                None => !self@.contains_key((pane@, pid, cmd@)),
            },
    {
        let ghost key = (pane@, pid, cmd@);
        let mut i: usize = self.entries.len();
        assert(self.entries@.take(i as int) =~= self.entries@);
        while i > 0
            invariant
                key == (pane@, pid, cmd@),
                i <= self.entries@.len(),
                self@.contains_key(key) == findings(self.entries@.take(i as int)).contains_key(key),
                self@.contains_key(key) ==> self@[key] == findings(
                    self.entries@.take(i as int),
                )[key],
            decreases i,
        {
            let ghost head = self.entries@.take(i as int);
            assert(head.drop_last() =~= self.entries@.take(i - 1));
            assert(head.last() == self.entries@[i - 1]);
            let e = &self.entries[i - 1];
            if e.pid == pid && text::same(e.pane.as_str(), pane) && text::same(e.cmd.as_str(), cmd) {
                let a: Option<String> = match &e.agent {
                    Some(s) => Some(s.clone()),
                    None => None,
                };
                return Some(a);
            }
            i -= 1;
        }
        None
    }

    /// Remembers what was found for a pane.
    pub fn insert(&mut self, pane: String, pid: u32, cmd: String, agent: Option<String>)
        ensures
            final(self)@ == old(self)@.insert((pane@, pid, cmd@), agent_view(agent)),
    {
        let e = Ident { pane, pid, cmd, agent };
        self.entries.push(e);
        assert(self.entries@.drop_last() =~= old(self).entries@);
    }
}

} // verus!
