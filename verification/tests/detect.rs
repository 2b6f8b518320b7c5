use agents_mon::conf::{load_conf, AgentConf, Check};
use agents_mon::detect::{
    detect_state, drop_echo, screen_tail, splice_last, spliced, subject, subject_from_command,
    subject_from_text, verdict, Hits, Subject,
};
use agents_mon::pattern::Hit;

fn conf(body: &str) -> AgentConf {
    load_conf("agents-mon-test", body).0
}

fn said(s: Subject) -> String {
    match s {
        Subject::Text(t) => t,
        Subject::Ask(cmd) => panic!("asks {cmd}"),
    }
}

#[test]
fn order_first_hit_wins() {
    let c = conf("WORKING_SCREEN='spin'\nBLOCKED_SCREEN='spin'\nCHECK_ORDER=\"ws bs\"\n");
    assert_eq!(detect_state(&c, "", "spin"), "working");
}

#[test]
fn case_insensitive_like_grep_ei() {
    let c = conf("BLOCKED_SCREEN='Do You Want'\nCHECK_ORDER=\"bs\"\n");
    assert_eq!(detect_state(&c, "", "do you want to proceed?"), "blocked");
}

#[test]
fn only_last_20_lines_matter() {
    let c = conf("WORKING_SCREEN='needle'\nCHECK_ORDER=\"ws\"\n");
    let screen = format!("needle\n{}", "x\n".repeat(25));
    assert_eq!(detect_state(&c, "", &screen), "idle");
}

#[test]
fn subject_screen_last_match_capture() {
    let c = conf("SUBJECT_SCREEN='^› (.+)$'\n");
    assert_eq!(
        said(subject(&c, "", "› first\nnoise\n› second one\n", "/tmp/x")),
        "second one"
    );
}

#[test]
fn title_strip_and_dir_echo() {
    let c = conf("TITLE_STRIP='^π - '\n");
    assert_eq!(said(subject(&c, "π - myproj", "", "/a/myproj")), "");
    assert_eq!(said(subject(&c, "π - fix bug", "", "/a/myproj")), "fix bug");
}

#[test]
fn the_twentieth_line_from_the_bottom_still_counts() {
    let c = conf("WORKING_SCREEN='needle'\nCHECK_ORDER=\"ws\"\n");
    let screen = format!("needle\n{}", "x\n".repeat(19));
    assert_eq!(detect_state(&c, "", &screen), "working");
    let above = format!("noise\n{}", screen);
    assert_eq!(detect_state(&c, "", &above), "working");
}

#[test]
fn titles_are_looked_at_too() {
    let c = conf("BLOCKED_TITLE='wait'\nWORKING_TITLE='^run'\nIDLE_SCREEN='prompt'\nCHECK_ORDER='is bt wt'\n");
    assert_eq!(detect_state(&c, "Waiting", ""), "blocked");
    assert_eq!(detect_state(&c, "run wait", "> prompt"), "idle");
    assert_eq!(detect_state(&c, "RUNning", ""), "working");
    assert_eq!(detect_state(&c, "a run", ""), "idle");
}

#[test]
fn lines_are_anchored_one_by_one() {
    let c = conf("WORKING_SCREEN='^b$'\nCHECK_ORDER='ws'\n");
    assert_eq!(detect_state(&c, "", "a\nb\nc"), "working");
    assert_eq!(detect_state(&c, "", "ab\nbc"), "idle");
}

#[test]
fn no_break_spaces_count_as_spaces() {
    assert_eq!(screen_tail("a\u{a0}b\r\nc\n"), "a b\nc");
    let c = conf("WORKING_SCREEN='a b'\nCHECK_ORDER='ws'\n");
    assert_eq!(detect_state(&c, "", "a\u{a0}b"), "working");
}

#[test]
fn the_verdict_is_that_of_the_first_hit() {
    let hits = Hits {
        blocked_title: false,
        blocked_screen: true,
        working_title: false,
        working_screen: true,
        idle_screen: true,
    };
    assert_eq!(verdict(&vec![Check::Bt, Check::Wt, Check::Ws, Check::Bs], &hits), "working");
    assert_eq!(verdict(&vec![Check::Bt, Check::Bs, Check::Ws], &hits), "blocked");
    assert_eq!(verdict(&vec![Check::Is, Check::Bs], &hits), "idle");
    assert_eq!(verdict(&vec![Check::Bt, Check::Wt], &hits), "idle");
    assert_eq!(verdict(&vec![], &hits), "idle");
}

#[test]
fn a_match_is_replaced_by_its_first_group() {
    let h = Hit { start: 2, end: 9, group: Some("é".to_string()) };
    assert_eq!(spliced("é: match!", &h), "éé!");
    let none = Hit { start: 0, end: 2, group: None };
    assert_eq!(spliced("éx", &none), "x");
    let lines = vec!["ab".to_string(), "cd".to_string(), "ef".to_string()];
    let hits = vec![
        Some(Hit { start: 0, end: 1, group: None }),
        Some(Hit { start: 1, end: 1, group: Some("-".to_string()) }),
        None,
    ];
    assert_eq!(splice_last(&lines, &hits), "c-d");
    assert_eq!(splice_last(&vec![], &vec![]), "");
}

#[test]
fn a_directory_echo_goes() {
    assert_eq!(drop_echo("fix bug - proj", "/a/proj", "pi"), "fix bug");
    assert_eq!(drop_echo("proj", "/a/proj", "pi"), "");
    assert_eq!(drop_echo("pi", "/a/proj", "pi"), "");
    assert_eq!(drop_echo("pi - proj", "/a/proj", "pi"), "");
    assert_eq!(drop_echo("other - b", "/a/proj", "pi"), "other - b");
}

#[test]
fn a_command_is_asked_last() {
    let c = conf("SUBJECT_SCREEN='^> (.*)$'\nSUBJECT_CMD='echo $path'\n");
    assert_eq!(said(subject(&c, "a\ttitle", "", "/x")), "a title");
    assert_eq!(said(subject(&c, "", "> from screen", "/x")), "from screen");
    match subject(&c, "", "nothing", "/x") {
        Subject::Ask(cmd) => assert_eq!(cmd, "echo $path"),
        Subject::Text(t) => panic!("says {t}"),
    }
}

#[test]
fn what_a_command_prints_is_cleaned() {
    assert_eq!(subject_from_text("a\tb\n\n"), "a b");
    assert_eq!(subject_from_command(Some(b"x\ty\n".to_vec())), "x y");
    assert_eq!(subject_from_command(Some(vec![b'a', 0xff, b'\n'])), "a\u{fffd}");
    assert_eq!(subject_from_command(None), "");
}
