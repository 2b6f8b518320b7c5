use agents_mon::conf::load_conf;
use agents_mon::procs::{IdentCache, Process, Snapshot};
use agents_mon::scan::{
    answered, capture_command, drop_command, from_tsv, look, make_row, parse_pane_line,
    save_command, scan, status_segment, to_tsv, Found, PaneRow, Seen,
};

fn row(state: &str) -> PaneRow {
    PaneRow {
        pane: "%1".into(),
        loc: "s:1.1".into(),
        agent: "codex".into(),
        state: state.into(),
        cwd: "x".into(),
        title: String::new(),
    }
}

#[test]
fn segment_counts_and_omits_zeros() {
    assert_eq!(status_segment(&vec![]), "");
    assert_eq!(
        status_segment(&vec![row("working"), row("idle"), row("idle")]),
        "#[fg=yellow]⣾#[default]1 #[fg=green]⣿#[default]2"
    );
    assert_eq!(status_segment(&vec![row("blocked")]), "#[fg=red]⣿#[default]1");
}

#[test]
fn tsv_roundtrip() {
    let rows = vec![row("idle")];
    let parsed = from_tsv(&to_tsv(&rows));
    assert_eq!(parsed.len(), 1);
    assert_eq!(parsed[0].state, "idle");
}

#[test]
fn rows_are_written_field_by_field() {
    let mut r = row("working");
    r.title = "a\tb".into();
    assert_eq!(to_tsv(&vec![r.copy()]), "%1\ts:1.1\tcodex\tworking\tx\ta\tb\n");
    let back = from_tsv(&to_tsv(&vec![r, row("idle")]));
    assert_eq!(back.len(), 2);
    assert_eq!(back[0].title, "a\tb");
    assert_eq!(back[1].title, "");
}

#[test]
fn short_lines_are_passed_over() {
    let back = from_tsv("%1\ts:1\tpi\tidle\trepo\n%2\ts:1\tpi\tidle\n\n%3\ts:2\tpi\tdone\tr\tt\r\n");
    assert_eq!(back.len(), 2);
    assert_eq!(back[0].pane, "%1");
    assert_eq!(back[0].title, "");
    assert_eq!(back[1].title, "t");
}

#[test]
fn done_has_no_place_in_the_status_line() {
    assert_eq!(status_segment(&vec![row("done"), row("blocked"), row("blocked")]), "#[fg=red]⣿#[default]2");
}

#[test]
fn a_pane_line_has_six_fields() {
    let p = parse_pane_line("%3\t42\tnode\t/a/repo\tmain:1.2\ttitle\twith tab").unwrap();
    assert_eq!(p.pane, "%3");
    assert_eq!(p.pid, 42);
    assert_eq!(p.loc, "main:1.2");
    assert_eq!(p.title, "title\twith tab");
    assert_eq!(parse_pane_line("%3\tx\tnode\t/a\tmain:1\t").unwrap().pid, 0);
    assert!(parse_pane_line("%3\t42\tnode\t/a\tmain:1").is_none());
}

fn list() -> String {
    "%1\t10\tpi\t/a/one\ts:1.0\tt1\n%2\t20\tbash\t/a/two\ts:1.1\tt2\nbroken\n%3\t30\tvim\t/a/three\ts:1.2\tt3\n"
        .to_string()
}

#[test]
fn panes_with_an_agent_are_found() {
    let confs = vec![load_conf("pi", "AGENT_BINS=pi\n").0];
    let cache = IdentCache::new();
    assert!(matches!(scan(&confs, &cache, &None, None, &list()), Found::NeedsSnapshot));
    let table = vec![
        Process { pid: 20, ppid: 1, argv: vec!["bash".to_string()] },
        Process { pid: 21, ppid: 20, argv: vec!["node".to_string(), "/x/pi.js".to_string()] },
    ];
    let snap = Some(Snapshot::new(table));
    let (targets, seen) = match scan(&confs, &cache, &snap, None, &list()) {
        Found::Panes(t, s) => (t, s),
        Found::NeedsSnapshot => panic!("the table is there"),
    };
    let panes: Vec<&str> = targets.iter().map(|t| t.line.pane.as_str()).collect();
    assert_eq!(panes, vec!["%1", "%2"]);
    assert_eq!(targets[1].conf, 0);
    assert_eq!(seen.get("%3", 30, "vim"), Some(None));
    // what was seen needs no table the next time
    match scan(&confs, &seen, &None, Some("%1"), &list()) {
        Found::Panes(t, s) => {
            assert_eq!(t.len(), 1);
            assert_eq!(t[0].line.pane, "%2");
            // the sidebar's own pane is neither listed nor remembered
            assert!(s.get("%1", 10, "pi").is_none());
        }
        Found::NeedsSnapshot => panic!("all is known"),
    }
}

#[test]
fn an_agent_whose_conf_is_gone_is_not_listed() {
    let confs = vec![load_conf("pi", "AGENT_BINS=pi\n").0];
    let mut cache = IdentCache::new();
    cache.insert("%9".to_string(), 1, "x".to_string(), Some("old".to_string()));
    match scan(&confs, &cache, &None, None, "%9\t1\tx\t/p\ts:1.0\tt") {
        Found::Panes(t, s) => {
            assert!(t.is_empty());
            assert_eq!(s.get("%9", 1, "x"), Some(Some("old".to_string())));
        }
        Found::NeedsSnapshot => panic!("it is known"),
    }
}

#[test]
fn a_screen_becomes_a_row() {
    let conf = load_conf("pi", "WORKING_SCREEN='spin'\nTITLE_STRIP='^pi: '\n").0;
    let line = parse_pane_line("%1\t10\tpi\t/a/one\ts:1.0\tpi: fix\tit").unwrap();
    match look(&conf, &line, "spinning") {
        Seen::Row(r) => {
            assert_eq!(r.state, "working");
            assert_eq!(r.agent, "pi");
            assert_eq!(r.cwd, "one");
            assert_eq!(r.title, "fix it");
        }
        Seen::Ask(_, cmd) => panic!("asks {cmd}"),
    }
    let asking = load_conf("pi", "SUBJECT_CMD='date'\n").0;
    let bare = parse_pane_line("%1\t10\tpi\t/a/one\ts:1.0\tone").unwrap();
    match look(&asking, &bare, "") {
        Seen::Ask(r, cmd) => {
            assert_eq!(cmd, "date");
            assert_eq!(r.title, "");
            assert_eq!(answered(r, Some(b"now\n".to_vec())).title, "now");
        }
        Seen::Row(r) => panic!("says {}", r.title),
    }
}

#[test]
fn the_directory_is_the_last_part_of_the_path() {
    let line = parse_pane_line("%1\t10\tpi\t/a/b/\ts:1.0\t").unwrap();
    assert_eq!(make_row(&line, "pi", "idle", String::new()).cwd, "");
    let flat = parse_pane_line("%1\t10\tpi\trepo\ts:1.0\t").unwrap();
    assert_eq!(make_row(&flat, "pi", "idle", String::new()).cwd, "repo");
}

#[test]
fn screens_go_through_a_buffer() {
    assert_eq!(capture_command("b", "%1"), "capture-pane -b 'b' -t '%1'");
    assert_eq!(save_command("b", "/tmp/b"), "save-buffer -b 'b' '/tmp/b'");
    assert_eq!(drop_command("b"), "delete-buffer -b 'b'");
}

#[test]
fn lists_of_rows_add_up() {
    let a = || vec![row("idle"), row("blocked")];
    let b = || vec![row("idle")];
    let mut both = a();
    both.append(&mut b());
    assert_eq!(to_tsv(&both), format!("{}{}", to_tsv(&a()), to_tsv(&b())));
    assert_eq!(status_segment(&both), "#[fg=red]⣿#[default]1 #[fg=green]⣿#[default]2");
}
