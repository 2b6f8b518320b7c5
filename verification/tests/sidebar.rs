use agents_mon::clock::{is_fresh, Clock};
use agents_mon::filter::{cursor_row, filtered_indices, kept_indices, StateFilter};
use agents_mon::keys::Key;
use agents_mon::mirrors::Daemon;
use agents_mon::overlay::Overlay;
use agents_mon::paint::{bar, cursor_mark, dot, next_tick, state_bg, BAR_BG, E};
use agents_mon::rounds::{Event, Rounds, Step};
use agents_mon::scan::{to_tsv, PaneRow};
use agents_mon::sidebar::{follow_command, row_map_name, switch_arguments, Act, Sidebar};
use agents_mon::tmux::TmuxError;

fn row(pane: &str) -> PaneRow {
    PaneRow {
        pane: pane.into(),
        loc: "s:1.1".into(),
        agent: "pi".into(),
        state: "idle".into(),
        cwd: "repo".into(),
        title: String::new(),
    }
}

fn filter_row(pane: &str, loc: &str, state: &str, title: &str) -> PaneRow {
    PaneRow {
        pane: pane.into(),
        loc: loc.into(),
        agent: "codex".into(),
        state: state.into(),
        cwd: "auth-service".into(),
        title: title.into(),
    }
}

#[test]
fn cursor_uses_state_hue_and_focus_bold() {
    assert_eq!(cursor_mark(true, true, "idle"), format!("{E}[1;32m❯{E}[0m "));
    assert_eq!(cursor_mark(true, false, "idle"), format!("{E}[32m❯{E}[0m "));
    assert_eq!(cursor_mark(true, true, "working"), format!("{E}[1;33m❯{E}[0m "));
    assert_eq!(cursor_mark(false, true, "blocked"), "  ");
}

#[test]
fn cursor_follows_focus_outside_navigation() {
    let rows = vec![row("%1"), row("%2")];
    let visible = vec![0, 1];
    assert_eq!(cursor_row(&rows, &visible, 1, false, "%2"), Some(1));
    assert_eq!(cursor_row(&rows, &visible, 2, false, "%9"), None);
    assert_eq!(cursor_row(&rows, &visible, 2, true, "%1"), Some(1));
    assert_eq!(cursor_row(&rows, &vec![1], 1, false, "%2"), Some(0));
}

#[test]
fn bar_reasserts_the_background_after_every_reset() {
    let line = format!("{E}[1mcodex{E}[0m {E}[2mwork{E}[0m");
    let painted = bar(&line, BAR_BG, 14, 10);
    assert!(!painted.split(&format!("{E}[0m")).any(|part| {
        !part.is_empty() && !part.starts_with(BAR_BG)
    }));
    assert!(painted.ends_with(&format!("    {E}[0m")));
    assert_eq!(bar(&line, "", 14, 10), line);
    assert_eq!(state_bg("blocked", true), "\x1b[48;2;42;16;16m");
    assert_eq!(state_bg("blocked", false), "\x1b[48;2;32;12;12m");
}

#[test]
fn text_search_matches_visible_fields_case_insensitively() {
    let rows = vec![filter_row("%1", "work:1.0", "idle", "Fix Login Race")];
    for query in ["CODEX", "work:1", "AUTH", "login", "idle"] {
        assert_eq!(filtered_indices(&rows, query, None), vec![0], "{query}");
    }
    assert!(filtered_indices(&rows, "payments", None).is_empty());
}

#[test]
fn matching_session_keeps_its_agent_subtree() {
    let rows = vec![
        filter_row("%1", "api:1.0", "idle", "unrelated"),
        filter_row("%2", "api:2.0", "working", "also unrelated"),
        filter_row("%3", "web:1.0", "idle", "unrelated"),
    ];
    assert_eq!(filtered_indices(&rows, "api", None), vec![0, 1]);
}

#[test]
fn state_filter_cycles_in_display_order() {
    let mut filter = None;
    for expected in [
        Some(StateFilter::Blocked),
        Some(StateFilter::Working),
        Some(StateFilter::Idle),
        Some(StateFilter::Done),
        None,
    ] {
        filter = StateFilter::cycle(filter);
        assert_eq!(filter, expected);
    }
}

#[test]
fn state_filters_are_exact_and_separate_from_text() {
    let rows = vec![
        filter_row("%1", "s:1.0", "blocked", "working notes"),
        filter_row("%2", "s:2.0", "working", "blocked notes"),
        filter_row("%3", "s:3.0", "done", "done"),
    ];
    assert_eq!(
        filtered_indices(&rows, "ignored", Some(StateFilter::Blocked)),
        vec![0]
    );
    assert_eq!(
        filtered_indices(&rows, "", Some(StateFilter::Working)),
        vec![1]
    );
    assert_eq!(
        filtered_indices(&rows, "", Some(StateFilter::Done)),
        vec![2]
    );
}

#[test]
fn blanks_around_a_query_do_not_count() {
    let rows = vec![filter_row("%1", "s:1.0", "idle", "x"), filter_row("%2", "t:1.0", "idle", "ÄPFEL")];
    assert_eq!(filtered_indices(&rows, "  ", None), vec![0, 1]);
    assert_eq!(filtered_indices(&rows, " äpfel ", None), vec![1]);
    let words = |v: &[&str]| -> Vec<String> { v.iter().map(|s| s.to_string()).collect() };
    assert_eq!(kept_indices("b", &words(&["a", "b", "c"]), &words(&["xb", "y", "z"])), vec![0, 1]);
}

#[test]
fn signs_blink_and_spin() {
    assert_eq!(dot("blocked", 0), "\x1b[31m⣿\x1b[0m");
    assert_eq!(dot("blocked", 2), " ");
    assert_eq!(dot("done", 1), "\x1b[32m⣿\x1b[0m");
    assert_eq!(dot("done", 3), " ");
    assert_eq!(dot("idle", 2), "\x1b[32m⣿\x1b[0m");
    let spin: Vec<String> = (0..8).map(|t| dot("working", t)).collect();
    assert_eq!(spin.join(""), "⠹⢸⣰⣤⣆⡇⠏⠛".chars().map(|c| format!("\x1b[33m{c}\x1b[0m")).collect::<String>());
    assert_eq!(dot("working", 39), dot("working", 7));
    assert_eq!(next_tick(39), 0);
    assert_eq!(next_tick(7), 8);
    assert_eq!(state_bg("working", true), "\x1b[48;2;38;32;16m");
    assert_eq!(state_bg("working", false), "\x1b[48;2;29;24;12m");
    assert_eq!(state_bg("done", true), "\x1b[48;2;15;36;16m");
    assert_eq!(state_bg("idle", false), "\x1b[48;2;11;27;12m");
    assert_eq!(cursor_mark(true, false, "blocked"), "\x1b[31m❯\x1b[0m ");
}

fn rows() -> Vec<PaneRow> {
    vec![
        filter_row("%1", "api:1.0", "idle", "one"),
        filter_row("%2", "api:2.0", "working", "two"),
        filter_row("%3", "web:1.0", "blocked", ""),
    ]
}

fn sidebar(daemon: bool) -> Sidebar {
    let d = if daemon { Some(Daemon::new("client-7".to_string())) } else { None };
    Sidebar::new(Some(&to_tsv(&rows())), String::new(), None, None, d)
}

fn key(sb: &mut Sidebar, k: Key) -> Act {
    sb.press(k, &vec!["v2".to_string()], "v1")
}

fn text(s: &str) -> Key {
    Key::Text(s.to_string())
}

#[test]
fn a_new_sidebar_starts_from_the_last_scan() {
    let sb = Sidebar::new(Some(&to_tsv(&rows())), "%2".to_string(), None, None, None);
    let panes: Vec<&str> = sb.rows.iter().map(|r| r.pane.as_str()).collect();
    assert_eq!(panes, vec!["%1", "%3"]);
    assert_eq!(sb.visible, vec![0, 1]);
    assert_eq!((sb.sel, sb.sel_pane.as_str()), (1, "%1"));
    assert!(sb.plugin_selected);
    assert!(!sidebar(true).plugin_selected);
    let none = Sidebar::new(None, String::new(), None, None, None);
    assert!(none.rows.is_empty());
    assert_eq!((none.sel, none.sel_pane.as_str()), (1, ""));
}

#[test]
fn the_selection_stays_in_the_list() {
    let mut sb = sidebar(false);
    sb.move_sel(-1);
    assert_eq!(sb.sel, 1);
    sb.move_sel(1);
    assert_eq!((sb.sel, sb.sel_pane.as_str()), (2, "%2"));
    sb.move_sel(9);
    assert_eq!((sb.sel, sb.sel_pane.as_str()), (3, "%3"));
    sb.move_sel(i64::MIN);
    assert_eq!((sb.sel, sb.sel_pane.as_str()), (1, "%1"));
    sb.move_sel(1);
    sb.move_sel(1);
    sb.move_sel(-1);
    assert_eq!((sb.sel, sb.sel_pane.as_str()), (2, "%2"));
}

#[test]
fn a_search_filters_as_it_is_typed() {
    let mut sb = sidebar(false);
    assert!(matches!(key(&mut sb, Key::Search), Act::Draw));
    assert!(sb.reads_text());
    key(&mut sb, text("w"));
    key(&mut sb, text("e\u{7}b"));
    assert_eq!(sb.query, "web");
    assert_eq!(sb.visible, vec![2]);
    assert_eq!(sb.sel_pane, "%3");
    key(&mut sb, Key::Backspace);
    assert_eq!(sb.query, "we");
    // the first Enter accepts, and the keys have their meaning back
    assert!(matches!(key(&mut sb, Key::Jump), Act::Draw));
    assert!(!sb.search_focused);
    assert_eq!(sb.query, "we");
    assert!(matches!(key(&mut sb, Key::Jump), Act::Go(p) if p == "%3"));
    // a jump leaves no filter behind
    assert_eq!(sb.query, "");
    assert_eq!(sb.visible, vec![0, 1, 2]);
}

#[test]
fn a_search_has_its_own_keys() {
    let mut sb = sidebar(true);
    key(&mut sb, Key::Search);
    assert!(!sb.reads_text());
    key(&mut sb, text("a"));
    key(&mut sb, Key::Down);
    assert_eq!(sb.sel, 2);
    key(&mut sb, Key::Up);
    key(&mut sb, Key::ClearSearch);
    assert!(sb.search_focused);
    assert_eq!(sb.query, "");
    assert_eq!(sb.visible.len(), 3);
    key(&mut sb, Key::Other);
    key(&mut sb, Key::Help);
    assert!(sb.overlay.is_none());
    key(&mut sb, text("zzz"));
    assert!(sb.visible.is_empty());
    assert_eq!((sb.sel, sb.sel_pane.as_str()), (1, ""));
    assert!(matches!(key(&mut sb, Key::Close), Act::Draw));
    assert!(!sb.search_focused);
    assert_eq!(sb.visible.len(), 3);
}

#[test]
fn a_query_has_room_for_256_characters() {
    let mut sb = sidebar(false);
    key(&mut sb, Key::Search);
    key(&mut sb, text(&"é".repeat(250)));
    key(&mut sb, text(&"x".repeat(10)));
    assert_eq!(sb.query.chars().count(), 256);
    key(&mut sb, text("y"));
    assert!(sb.query.ends_with("xxxxxx"));
}

#[test]
fn filters_exclude_each_other() {
    let mut sb = sidebar(false);
    key(&mut sb, Key::Search);
    key(&mut sb, text("api"));
    key(&mut sb, Key::Jump);
    key(&mut sb, Key::CycleState);
    assert_eq!(sb.query, "");
    assert_eq!(sb.state_filter, Some(StateFilter::Blocked));
    assert_eq!(sb.visible, vec![2]);
    key(&mut sb, Key::CycleState);
    assert_eq!(sb.visible, vec![1]);
    key(&mut sb, Key::Search);
    assert_eq!(sb.state_filter, None);
    assert_eq!(sb.visible.len(), 3);
    // the remembered pane is still selected
    assert_eq!(sb.sel_pane, "%2");
}

#[test]
fn escape_shows_all() {
    let mut sb = sidebar(false);
    key(&mut sb, Key::CycleState);
    assert!(matches!(key(&mut sb, Key::AllStates), Act::Draw));
    assert_eq!(sb.state_filter, None);
    assert_eq!(sb.visible, vec![0, 1, 2]);
    key(&mut sb, Key::Search);
    key(&mut sb, text("web"));
    key(&mut sb, Key::AllStates);
    assert!(!sb.search_focused);
    assert_eq!(sb.query, "");
    assert_eq!(sb.visible, vec![0, 1, 2]);
}

#[test]
fn the_selection_follows_its_pane_and_the_focus() {
    let mut sb = sidebar(true);
    sb.move_sel(1);
    let turned: Vec<PaneRow> = rows().into_iter().rev().collect();
    sb.scan_tick(turned, String::new(), "$1".to_string(), false);
    assert_eq!((sb.sel, sb.sel_pane.as_str()), (2, "%2"));
    sb.scan_tick(rows(), "%3".to_string(), "$1".to_string(), true);
    assert_eq!((sb.sel, sb.sel_pane.as_str()), (3, "%3"));
    assert!(sb.plugin_selected);
    // the focus is where it was: the selection may be elsewhere
    sb.move_sel(-1);
    sb.scan_tick(rows(), "%3".to_string(), "$1".to_string(), false);
    assert_eq!(sb.sel_pane, "%2");
    // a hidden row is never selected
    key(&mut sb, Key::CycleState);
    assert_eq!(sb.visible, vec![2]);
    sb.scan_tick(rows(), "%1".to_string(), "$1".to_string(), false);
    assert_eq!((sb.sel, sb.sel_pane.as_str()), (1, "%3"));
    assert_eq!(sb.last_active, "%1");
}

#[test]
fn a_popup_has_the_input_whatever_tmux_says() {
    let mut sb = sidebar(false);
    sb.scan_tick(rows(), "%1".to_string(), "$1".to_string(), false);
    assert!(sb.plugin_selected);
    assert_eq!(sb.session_to_follow(), None);
}

#[test]
fn the_control_client_follows_the_session() {
    let mut sb = sidebar(true);
    assert_eq!(sb.session_to_follow(), None);
    sb.scan_tick(rows(), "%1".to_string(), "$4".to_string(), false);
    assert_eq!(sb.session_to_follow(), Some("$4".to_string()));
    sb.daemon.as_mut().unwrap().switched("$4".to_string());
    assert_eq!(sb.session_to_follow(), None);
    assert_eq!(follow_command("$4"), "switch-client -t '$4'");
    assert_eq!(row_map_name("%12"), "agents-mon-rows-12");
}

#[test]
fn signs_move_only_where_something_is_up() {
    let mut sb = sidebar(false);
    assert!(sb.animating());
    sb.scan_tick(vec![row("%1")], String::new(), String::new(), false);
    assert!(!sb.animating());
    sb.tick = 39;
    sb.advance();
    assert_eq!(sb.tick, 0);
}

#[test]
fn a_pin_hands_the_jump_off() {
    let mut sb = Sidebar::new(Some(&to_tsv(&rows())), String::new(), None, Some("/tmp/pin".to_string()), None);
    assert!(matches!(key(&mut sb, Key::Jump), Act::HandOff(f, p) if f == "/tmp/pin.jump" && p == "%1"));
    assert!(matches!(key(&mut sb, Key::Quit), Act::Quit(Some(p)) if p == "/tmp/pin"));
    let mut odd = Sidebar::new(Some("1\ts:1\tpi\tidle\tr\n"), String::new(), None, None, None);
    assert!(matches!(odd.jump(), Act::Draw));
    let mut none = Sidebar::new(None, String::new(), None, None, None);
    assert!(matches!(none.jump(), Act::Draw));
}

#[test]
fn a_daemon_ends_when_it_is_told() {
    let mut sb = sidebar(true);
    assert!(matches!(key(&mut sb, Key::Quit), Act::Draw));
    assert!(matches!(key(&mut sb, Key::Close), Act::Close));
    let mut tty = sidebar(false);
    assert!(matches!(key(&mut tty, Key::Quit), Act::Quit(None)));
}

#[test]
fn overlays_come_first() {
    let mut sb = sidebar(false);
    assert!(sb.emit("frame", false));
    assert!(!sb.emit("frame", false));
    assert!(sb.emit("frame", true));
    assert!(matches!(key(&mut sb, Key::Help), Act::Draw));
    assert!(matches!(sb.overlay, Some(Overlay::Help)));
    assert_eq!(sb.last_frame, "");
    assert!(sb.render_overlay(&vec![], "v1").unwrap().contains("agents — help"));
    assert!(matches!(key(&mut sb, Key::Down), Act::Leave));
    assert_eq!(sb.sel, 1);
    assert!(sb.render_overlay(&vec![], "v1").is_none());
    assert!(matches!(key(&mut sb, Key::Versions), Act::Refresh));
    assert!(sb.render_overlay(&vec!["v2".to_string()], "v1").unwrap().contains("❯"));
    assert!(matches!(key(&mut sb, Key::Up), Act::Draw));
    assert!(matches!(key(&mut sb, Key::Jump), Act::Switch(t) if t == "v2"));
    assert!(sb.overlay.is_none());
}

#[test]
fn a_jump_takes_the_client_along() {
    assert_eq!(
        switch_arguments(Some("/dev/pts/1"), "%3").join(" "),
        "switch-client -c /dev/pts/1 -t %3 ; switch-client -c /dev/pts/1 -T root ; select-window -t %3 ; select-pane -t %3"
    );
    assert_eq!(switch_arguments(None, "%3").join(" "), "select-window -t %3 ; select-pane -t %3");
}

#[test]
fn the_clock_wakes_for_what_is_next() {
    let mut c = Clock::new(5);
    assert!(c.scan_due(5));
    c.scanned(1_000_000_000);
    assert!(!c.scan_due(2_999_999_999));
    assert!(c.scan_due(3_000_000_000));
    assert_eq!(c.wait(false, 1_000_000_000), 2000);
    assert!(!c.tick(false, 1_000_000_000));
    assert!(c.tick(true, 1_000_000_000));
    assert!(!c.tick(true, 1_249_999_999));
    assert_eq!(c.wait(true, 1_000_500_000), 249);
    assert_eq!(c.wait(true, 9_000_000_000), 0);
    c.hurry(7);
    assert!(c.scan_due(7));
    c.scanned(u64::MAX);
    assert_eq!(c.wait(false, 0), i32::MAX);
}

#[test]
fn a_saved_scan_is_fresh_for_six_seconds() {
    assert!(is_fresh(Some(5)));
    assert!(!is_fresh(Some(6)));
    assert!(!is_fresh(None));
}

const SECOND: u64 = 1_000_000_000;

fn round(now: u64, animating: bool) -> Event {
    Event::Round { quit: false, now, animating }
}

#[test]
fn a_popup_goes_its_rounds() {
    let mut r = Rounds::new(false, 0);
    assert_eq!(r.next(round(0, false)), Step::Scan);
    assert_eq!(r.next(Event::Scanned { failure: None }), Step::Draw);
    assert_eq!(r.next(Event::Drawn { now: SECOND, animating: true }), Step::Tick);
    assert_eq!(r.next(Event::Drawn { now: SECOND, animating: true }), Step::Poll(250));
    assert_eq!(r.next(Event::Ready { key: false, pipe: false }), Step::AskSize);
    assert_eq!(r.next(Event::Size { changed: true }), Step::Redraw);
    assert_eq!(r.next(Event::Drawn { now: SECOND, animating: true }), Step::Round);
    assert_eq!(r.next(round(SECOND, false)), Step::Poll(2000));
    assert_eq!(r.next(Event::Ready { key: true, pipe: true }), Step::Drain);
    assert_eq!(r.next(Event::Drained { result: Ok(true), now: SECOND + 1 }), Step::ReadKey);
    assert_eq!(r.next(Event::Acted { end: false, quick: true }), Step::Draw);
    assert_eq!(r.next(Event::Drawn { now: SECOND, animating: false }), Step::Round);
    // the focus changed: the scan is not put off
    assert_eq!(r.next(round(SECOND + 1, false)), Step::Scan);
    // a pane that died meanwhile is no reason to end
    assert_eq!(r.next(Event::Scanned { failure: Some(TmuxError::Error("gone".to_string())) }), Step::Draw);
    assert_eq!(r.next(Event::Drawn { now: 2 * SECOND, animating: false }), Step::Poll(2000));
    assert_eq!(r.next(Event::Ready { key: true, pipe: false }), Step::ReadKey);
    assert_eq!(r.next(Event::Acted { end: false, quick: false }), Step::Draw);
    assert_eq!(r.next(Event::Drawn { now: 2 * SECOND, animating: false }), Step::AskSize);
    assert_eq!(r.next(Event::Size { changed: false }), Step::Round);
    assert_eq!(r.next(Event::Round { quit: true, now: 2 * SECOND, animating: false }), Step::End { replaced: false });
    assert_eq!(r.next(round(0, true)), Step::End { replaced: false });
}

#[test]
fn a_daemon_asks_about_its_panes() {
    let mut r = Rounds::new(true, 0);
    assert_eq!(r.next(round(0, false)), Step::Scan);
    assert_eq!(r.next(Event::Scanned { failure: None }), Step::AskOwner);
    assert_eq!(r.next(Event::Owner { replaced: false }), Step::Measure);
    assert_eq!(r.next(Event::Panes { left: true }), Step::Draw);
    assert_eq!(r.next(Event::Drawn { now: 0, animating: false }), Step::Poll(2000));
    assert_eq!(r.next(Event::Ready { key: false, pipe: true }), Step::Drain);
    assert_eq!(r.next(Event::Drained { result: Ok(false), now: 0 }), Step::Round);
    assert_eq!(r.next(round(2 * SECOND, false)), Step::Scan);
    assert_eq!(r.next(Event::Scanned { failure: None }), Step::AskOwner);
    assert_eq!(r.next(Event::Owner { replaced: true }), Step::End { replaced: true });
}

#[test]
fn a_daemon_ends_with_its_panes_or_its_pipe() {
    let asked = || {
        let mut r = Rounds::new(true, 0);
        r.next(round(0, false));
        r
    };
    let mut panes = asked();
    panes.next(Event::Scanned { failure: None });
    panes.next(Event::Owner { replaced: false });
    assert_eq!(panes.next(Event::Panes { left: false }), Step::End { replaced: false });
    assert_eq!(asked().next(Event::Scanned { failure: Some(TmuxError::Exited) }), Step::End { replaced: false });
    assert_eq!(asked().next(Event::Scanned { failure: Some(TmuxError::Io("x".to_string())) }), Step::End { replaced: false });
    let mut pipe = asked();
    pipe.next(Event::Scanned { failure: None });
    pipe.next(Event::Owner { replaced: false });
    pipe.next(Event::Panes { left: true });
    pipe.next(Event::Drawn { now: 0, animating: false });
    pipe.next(Event::Ready { key: true, pipe: true });
    assert_eq!(pipe.next(Event::Drained { result: Err(TmuxError::Exited), now: 0 }), Step::End { replaced: false });
}

#[test]
fn acts_that_end_are_told() {
    assert!(Act::Close.ends());
    assert!(Act::Quit(None).ends());
    assert!(Act::HandOff(String::new(), String::new()).ends());
    assert!(!Act::Go(String::new()).ends());
    assert!(!Act::Draw.ends());
    let mut sb = sidebar(false);
    assert!(!sb.diverts_keys());
    key(&mut sb, Key::Search);
    assert!(sb.diverts_keys());
    key(&mut sb, Key::AllStates);
    key(&mut sb, Key::Help);
    assert!(sb.diverts_keys());
}
