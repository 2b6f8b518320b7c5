use agents_mon::conf::{bad_regex, conf_index, load_all, load_conf, parse_assignments, parse_value, Check};
use agents_mon::conf_files::{conf_stem, in_order, reading_order};
use agents_mon::text::chars_of;

#[test]
fn single_quoted_multiline_verbatim() {
    let src = "SUBJECT_CMD='line one\n  line \"two\" $x\n'\n";
    let a = parse_assignments(src);
    assert_eq!(a[0].0, "SUBJECT_CMD");
    assert_eq!(a[0].1, "line one\n  line \"two\" $x\n");
}

#[test]
fn double_quoted_escapes_and_comments() {
    let src = "AGENT_BINS=\"a \\\"b\\\" c\" # comment\n# full comment\nX='v'#tail\n";
    let a = parse_assignments(src);
    assert_eq!(a[0].1, "a \"b\" c");
    assert_eq!(a[1], ("X".into(), "v".into()));
}

#[test]
fn hash_inside_quotes_kept() {
    let a = parse_assignments("K='a#b'\n");
    assert_eq!(a[0].1, "a#b");
}

#[test]
fn a_value_may_be_made_of_several_parts() {
    let a = parse_assignments("K=a'b c'\"d\\$e\"f g\n  L=1\nM=2");
    assert_eq!(a.len(), 2);
    assert_eq!(a[0], ("K".to_string(), "ab cd$ef".to_string()));
    // a line that does not begin with a name is passed over
    assert_eq!(a[1], ("M".to_string(), "2".to_string()));
}

#[test]
fn a_quote_that_is_never_closed_runs_to_the_end() {
    let a = parse_assignments("K='abc\nL=1\n");
    assert_eq!(a.len(), 1);
    assert_eq!(a[0].1, "abc\nL=1\n");
    let b = parse_assignments("K=\"x\\q\\\"y");
    assert_eq!(b[0].1, "x\\q\"y");
}

#[test]
fn a_value_stops_where_its_line_does() {
    let src = chars_of("'é' rest\nnext");
    let (v, next) = parse_value(&src, 0);
    assert_eq!(v, "é");
    assert_eq!(next, 9);
    // the last line may have no line end
    assert_eq!(parse_value(&chars_of("abc # x"), 0), ("abc".to_string(), 7));
    // a quote that is never closed ends one past the text
    assert_eq!(parse_value(&chars_of("'abc"), 0), ("abc".to_string(), 5));
    assert_eq!(parse_value(&chars_of("\"abc"), 0), ("abc".to_string(), 5));
    assert_eq!(parse_value(&chars_of("abc"), 9), (String::new(), 9));
}

#[test]
fn rules_have_their_defaults() {
    let (c, notes) = load_conf("aider", "AGENT_BINS=\"aider  aider2\"\nBLOCKED_TITLE=''\n");
    assert_eq!(c.name, "aider");
    assert_eq!(c.bins, vec!["aider".to_string(), "aider2".to_string()]);
    assert!(c.path_hints.is_empty());
    assert!(c.blocked_title.is_none());
    assert!(c.check_order == vec![Check::Bt, Check::Wt, Check::Bs, Check::Ws]);
    assert!(c.subject_cmd.is_none());
    assert!(notes.is_empty());
}

#[test]
fn a_bad_expression_counts_as_unset_and_is_told() {
    let (c, notes) = load_conf("x", "BLOCKED_SCREEN='('\nWORKING_SCREEN='ok'\nCHECK_ORDER='is zz ws'\n");
    assert!(c.blocked_screen.is_none());
    assert!(c.working_screen.is_some());
    assert!(c.check_order == vec![Check::Is, Check::Ws]);
    assert_eq!(notes.len(), 1);
    assert!(notes[0].starts_with("agents-mon: x.conf BLOCKED_SCREEN: bad regex: regex parse error:"));
}

#[test]
fn a_later_file_takes_the_place_of_its_name() {
    let files = vec![
        ("codex".to_string(), "AGENT_BINS=codex\n".to_string()),
        ("pi".to_string(), "AGENT_BINS=pi\n".to_string()),
        ("codex".to_string(), "AGENT_BINS=mine\n".to_string()),
        ("aider".to_string(), "TITLE_STRIP='['\n".to_string()),
    ];
    let (confs, notes) = load_all(&files);
    let names: Vec<&str> = confs.iter().map(|c| c.name.as_str()).collect();
    assert_eq!(names, vec!["codex", "pi", "aider"]);
    assert_eq!(confs[0].bins, vec!["mine".to_string()]);
    assert_eq!(notes.len(), 1);
    assert_eq!(conf_index(&confs, "aider"), Some(2));
    assert_eq!(conf_index(&confs, "opencode"), None);
}

#[test]
fn a_bad_expression_is_told_of_by_conf_and_key() {
    assert_eq!(bad_regex("x", "K", "no"), "agents-mon: x.conf K: bad regex: no");
}

#[test]
fn confs_are_read_by_name() {
    let names: Vec<String> = ["pi.conf", "b", "Zed.conf", "codex.conf", ".conf", "a.b.conf", "x.conf~", "é.conf"]
        .iter()
        .map(|s| s.to_string())
        .collect();
    assert_eq!(reading_order(&names), vec![2, 5, 3, 0, 7]);
    assert_eq!(conf_stem("a.b.conf").as_deref(), Some("a.b"));
    assert_eq!(conf_stem(".conf"), None);
    assert_eq!(conf_stem("conf"), None);
    assert!(in_order("", "a"));
    assert!(in_order("a", "a"));
    assert!(in_order("a", "ab"));
    assert!(!in_order("ab", "a"));
    assert!(!in_order("b", "ab"));
}

#[test]
fn two_texts_are_read_one_after_the_other() {
    let a = "A='x\ny' # c\n";
    let b = "B=2\n";
    let mut both = parse_assignments(a);
    both.append(&mut parse_assignments(b));
    assert_eq!(parse_assignments(&format!("{a}{b}")), both);
    // an open quote swallows what follows
    assert_eq!(parse_assignments("A='x\nB=2\n").len(), 1);
}
