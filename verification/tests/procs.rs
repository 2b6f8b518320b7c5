use agents_mon::conf::{load_conf, AgentConf};
use agents_mon::procs::{
    agent_for_argv, agent_for_bin, identify, normalize_bin, IdentCache, Identity, Process, Snapshot,
};

fn confs() -> Vec<AgentConf> {
    vec![load_conf("pi", "AGENT_BINS=\"pi\"\nAGENT_PATH_HINTS=\"pi-coding-agent\"\n").0]
}

fn process(pid: u32, ppid: u32, argv: &[&str]) -> Process {
    Process { pid, ppid, argv: argv.iter().map(|s| s.to_string()).collect() }
}

#[test]
fn normalize() {
    assert_eq!(normalize_bin("/usr/local/bin/codex"), "codex");
    assert_eq!(normalize_bin("cli.js"), "cli");
    assert_eq!(normalize_bin("codex.exe"), "codex");
}

#[test]
fn argv_first_nonflag_and_payload_bail() {
    let cs = confs();
    let hit = vec!["node".into(), "--max-old-space".into(), "/x/pi-coding-agent/cli.js".into()];
    assert_eq!(agent_for_argv(&cs, &hit), Some(0));
    let payload = vec!["node".into(), "-e".into(), "pi".into()];
    assert_eq!(agent_for_argv(&cs, &payload), None);
    let direct = vec!["sh".into(), "/usr/bin/pi".into()];
    assert_eq!(agent_for_argv(&cs, &direct), Some(0));
}

#[test]
fn one_ending_is_stripped() {
    assert_eq!(normalize_bin("a.js.cmd"), "a.js");
    assert_eq!(normalize_bin("a.exe.js"), "a.exe");
    assert_eq!(normalize_bin("/bin/"), "");
    assert_eq!(normalize_bin("plain"), "plain");
}

#[test]
fn only_the_first_script_counts() {
    let cs = confs();
    let later = vec!["node".into(), "other.js".into(), "/usr/bin/pi".into()];
    assert_eq!(agent_for_argv(&cs, &later), None);
    assert_eq!(agent_for_argv(&cs, &vec![]), None);
    assert_eq!(agent_for_bin(&cs, "pi"), Some(0));
    assert_eq!(agent_for_bin(&cs, "pie"), None);
}

#[test]
fn the_tree_is_walked_breadth_first() {
    let s = Snapshot::new(vec![
        process(1, 0, &["init"]),
        process(10, 1, &["sh"]),
        process(11, 10, &["a"]),
        process(12, 10, &["b"]),
        process(13, 11, &["c"]),
        process(14, 12, &[]),
        process(99, 2, &["elsewhere"]),
    ]);
    let names: Vec<&str> = s.descendant_argvs(10).iter().map(|v| v[0].as_str()).collect();
    assert_eq!(names, vec!["sh", "a", "b", "c"]);
    assert!(s.descendant_argvs(14).is_empty());
}

#[test]
fn a_ring_of_parents_is_walked_once() {
    let s = Snapshot::new(vec![process(5, 7, &["x"]), process(7, 5, &["y"])]);
    assert_eq!(s.descendant_argvs(5).len(), 2);
}

#[test]
fn the_last_entry_of_a_pid_counts() {
    let s = Snapshot::new(vec![process(5, 0, &["old"]), process(6, 5, &["kid"]), process(5, 0, &["new"])]);
    let names: Vec<&str> = s.descendant_argvs(5).iter().map(|v| v[0].as_str()).collect();
    assert_eq!(names, vec!["new", "kid"]);
}

#[test]
fn the_table_is_asked_for_only_where_it_is_needed() {
    let cs = confs();
    assert!(matches!(identify(&cs, &None, 10, "/usr/bin/pi"), Identity::Known(Some(0))));
    assert!(matches!(identify(&cs, &None, 10, "bash"), Identity::NeedsSnapshot));
    let s = Some(Snapshot::new(vec![process(10, 1, &["bash"]), process(11, 10, &["node", "pi.js"])]));
    assert!(matches!(identify(&cs, &s, 10, "bash"), Identity::Known(Some(0))));
    assert!(matches!(identify(&cs, &s, 12, "bash"), Identity::Known(None)));
}

#[test]
fn the_cache_tells_found_from_not_looked_at() {
    let mut c = IdentCache::new();
    assert!(c.get("%1", 5, "node").is_none());
    c.insert("%1".to_string(), 5, "node".to_string(), None);
    assert_eq!(c.get("%1", 5, "node"), Some(None));
    c.insert("%1".to_string(), 5, "node".to_string(), Some("pi".to_string()));
    assert_eq!(c.get("%1", 5, "node"), Some(Some("pi".to_string())));
    assert!(c.get("%1", 5, "zsh").is_none());
}
