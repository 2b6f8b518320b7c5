use agents_mon::keys::Key;
use agents_mon::mirrors::Daemon;
use agents_mon::scan::{to_tsv, PaneRow};
use agents_mon::sidebar::Sidebar;

fn agent(pane: &str, loc: &str, state: &str, title: &str) -> PaneRow {
    PaneRow {
        pane: pane.into(),
        loc: loc.into(),
        agent: "pi".into(),
        state: state.into(),
        cwd: "repo".into(),
        title: title.into(),
    }
}

fn daemon(rows: &Vec<PaneRow>, update: Option<&str>) -> Sidebar {
    Sidebar::new(
        Some(&to_tsv(rows)),
        String::new(),
        update.map(|s| s.to_string()),
        None,
        Some(Daemon::new(String::new())),
    )
}

fn press(sb: &mut Sidebar, k: Key) {
    sb.press(k, &vec![], "v1");
}

#[test]
fn an_empty_sidebar_says_so() {
    let mut sb = daemon(&vec![], None);
    let r = sb.render(30, 24);
    assert_eq!(
        r.frame,
        "\x1b[H\x1b[1magents\x1b[22m\x1b[2m\x1b[22m\x1b[0m\x1b[K\n\x1b[2mno agents\x1b[0m\x1b[K\n\x1b[J"
    );
    assert_eq!(r.row_map, "");
}

#[test]
fn a_list_has_its_sessions_and_titles() {
    let rows = vec![
        agent("%1", "main:1.0", "idle", "fix it"),
        agent("%2", "main:2.1", "blocked", ""),
        agent("%3", "work:1.0", "working", ""),
    ];
    let mut sb = daemon(&rows, None);
    let r = sb.render(30, 24);
    assert_eq!(
        r.frame,
        "\x1b[H\x1b[1magents\x1b[22m\x1b[2m\x1b[22m\x1b[0m\x1b[K\n\
         \x1b[1;34mmain\x1b[0m\x1b[K\n\
         \u{20}  \x1b[32m⣿\x1b[0m \x1b[1mpi\x1b[0m \x1b[2m1.0 repo\x1b[0m\x1b[K\n\
         \u{20}    \x1b[2mfix it\x1b[0m\x1b[K\n\
         \u{20}  \x1b[31m⣿\x1b[0m \x1b[1mpi\x1b[0m \x1b[2m2.1 repo\x1b[0m\x1b[K\n\
         \x1b[1;34mwork\x1b[0m\x1b[K\n\
         \u{20}  \x1b[33m⠹\x1b[0m \x1b[1mpi\x1b[0m \x1b[2m1.0 repo\x1b[0m\x1b[K\n\
         \x1b[J"
    );
    assert_eq!(r.row_map, "-\n%1\n%1\n%2\n-\n%3\n");
}

#[test]
fn the_cursor_is_painted_to_the_edge() {
    let rows = vec![agent("%1", "m:1.0", "idle", "t")];
    let mut sb = Sidebar::new(Some(&to_tsv(&rows)), String::new(), None, None, None);
    let r = sb.render(20, 24);
    let bg = "\x1b[48;2;15;36;16m";
    assert_eq!(
        r.frame,
        format!(
            "\x1b[H\x1b[48;5;236m\x1b[1magents\x1b[22m\x1b[2m\x1b[22m{}\x1b[0m\x1b[K\n\
             \x1b[1;34mm\x1b[0m\x1b[K\n\
             {bg} \x1b[1;32m❯\x1b[0m{bg} \x1b[32m⣿\x1b[0m{bg} \x1b[1mpi\x1b[0m{bg} \x1b[2m1.0 repo\x1b[0m{bg}    \x1b[0m\x1b[K\n\
             {bg}     \x1b[2mt\x1b[0m{bg}{}\x1b[0m\x1b[K\n\x1b[J",
            " ".repeat(14),
            " ".repeat(14)
        )
    );
}

#[test]
fn the_header_tells_of_an_update() {
    let mut sb = daemon(&vec![], Some("v0.1.8"));
    let r = sb.render(30, 24);
    assert!(r.frame.starts_with(
        "\x1b[H\x1b[1magents\x1b[22m\x1b[2m\x1b[22m \x1b[2m↑0.1.8\x1b[0m\x1b[0m\x1b[K\n\x1b[2mu update · / search\x1b[0m\x1b[K\n"
    ));
    assert_eq!(r.row_map, "-\n");
}

#[test]
fn the_header_tells_of_the_filters() {
    let rows = vec![agent("%1", "m:1.0", "idle", ""), agent("%2", "m:2.0", "blocked", "")];
    let mut sb = daemon(&rows, None);
    press(&mut sb, Key::CycleState);
    let r = sb.render(30, 24);
    assert!(r.frame.contains("\x1b[2m [blocked] 1/2\x1b[22m"));
    assert!(r.frame.contains("\x1b[2mf status · j/k · esc clear\x1b[0m"));
    assert_eq!(r.row_map, "-\n-\n%2\n");
    press(&mut sb, Key::Search);
    let r = sb.render(30, 24);
    assert!(r.frame.contains("\x1b[2m /\x1b[22m"));
    assert!(r.frame.contains("↵ nav · ^u clear · esc clear"));
    press(&mut sb, Key::Text("zz".to_string()));
    let r = sb.render(30, 24);
    assert!(r.frame.contains("\x1b[2m /zz 0/2\x1b[22m"));
    assert!(r.frame.contains("no matches · Esc shows all"));
    assert_eq!(r.row_map, "-\n");
    press(&mut sb, Key::Jump);
    assert!(sb.render(30, 24).frame.contains("j/k · ↵ open · esc clear"));
    // what does not fit is cut
    assert!(sb.render(9, 24).frame.contains("\x1b[2m /z\x1b[22m"));
    assert!(sb.render(9, 24).frame.contains("\x1b[2mj/k · ↵ o\x1b[0m"));
}

fn many() -> Vec<PaneRow> {
    (0..20).map(|i| agent(&format!("%{i}"), &format!("m:{i}.0"), "idle", "")).collect()
}

#[test]
fn the_list_scrolls_with_the_selection() {
    let mut sb = Sidebar::new(Some(&to_tsv(&many())), String::new(), None, None, None);
    let r = sb.render(30, 7);
    assert_eq!(r.row_map, "-\n%0\n%1\n%2\n%3\n");
    sb.move_sel(9);
    let r = sb.render(30, 7);
    assert_eq!(r.row_map, "%5\n%6\n%7\n%8\n%9\n");
    assert_eq!(sb.scroll, 6);
    sb.move_sel(-2);
    assert_eq!(sb.render(30, 7).row_map, "%5\n%6\n%7\n%8\n%9\n");
    sb.move_sel(-7);
    // the session's name comes into sight with its first row
    assert_eq!(sb.render(30, 7).row_map, "-\n%0\n%1\n%2\n%3\n");
    // the end of the list is the end of the scrolling
    sb.move_sel(99);
    assert_eq!(sb.render(30, 7).row_map, "%15\n%16\n%17\n%18\n%19\n");
    assert_eq!(sb.render(30, 50).row_map.lines().count(), 21);
    assert_eq!(sb.scroll, 0);
}

#[test]
fn every_line_under_the_header_has_its_pane() {
    let mut rows = many();
    rows[3].title = "a title".into();
    rows[7].loc = "other:1.0".into();
    let mut sb = daemon(&rows, Some("v9.9.9"));
    for height in 3..40 {
        let r = sb.render(30, height);
        assert_eq!(r.frame.lines().count(), r.row_map.lines().count() + 2, "{height}");
        assert!(r.frame.lines().count() <= height, "{height}");
    }
}

#[test]
fn nothing_is_listed_where_nothing_fits() {
    let mut sb = Sidebar::new(Some(&to_tsv(&many())), String::new(), None, None, None);
    sb.move_sel(9);
    for height in 0..3 {
        assert_eq!(sb.render(30, height).row_map, "");
        assert_eq!(sb.scroll, 0);
    }
}

#[test]
fn a_narrow_pane_leaves_the_name() {
    let mut sb = daemon(&vec![agent("%1", "session:1.0", "idle", "title")], None);
    let r = sb.render(9, 24);
    assert!(r.frame.contains("\x1b[1;34msession\x1b[0m"));
    assert!(r.frame.contains("\x1b[1mpi\x1b[0m \x1b[2m1\x1b[0m"));
    assert!(r.frame.contains("     \x1b[2mtitl\x1b[0m"));
    // no room at all for the whereabouts: they are not cut
    assert!(sb.render(8, 24).frame.contains("\x1b[2m1.0 repo\x1b[0m"));
}

/// The columns that a line takes: what is not part of an escape sequence.
fn columns(line: &str) -> usize {
    let mut inside = false;
    let mut n = 0;
    for c in line.chars() {
        if inside {
            inside = !c.is_ascii_alphabetic();
        } else if c == '\x1b' {
            inside = true;
        } else {
            n += 1;
        }
    }
    n
}

#[test]
fn no_line_is_wider_than_the_terminal() {
    let mut rows = many();
    rows[2].title = "a title that is longer than any of these terminals is wide, by far".into();
    rows[5].loc = "a session with a name that does not fit either, as long as it is:1.0".into();
    rows[6].cwd = "a-directory-with-a-name-that-is-much-too-long-for-a-sidebar".into();
    let mut sb = Sidebar::new(Some(&to_tsv(&rows)), String::new(), Some("v9.9.9".to_string()), None, None);
    press(&mut sb, Key::Search);
    press(&mut sb, Key::Text("pi".to_string()));
    for width in 14..60 {
        for line in sb.render(width, 80).frame.lines() {
            assert!(columns(line) <= width, "{width}: {line:?}");
        }
    }
    // the title bar and the cursor's row go to the edge
    let r = sb.render(40, 80);
    let wide: Vec<usize> = r.frame.lines().map(columns).filter(|n| *n == 40).collect();
    assert!(wide.len() >= 2);
}

#[test]
fn drawing_again_changes_nothing() {
    let mut sb = Sidebar::new(Some(&to_tsv(&many())), String::new(), None, None, None);
    sb.move_sel(12);
    let first = sb.render(30, 7);
    let scroll = sb.scroll;
    let second = sb.render(30, 7);
    assert_eq!(first.frame, second.frame);
    assert_eq!(first.row_map, second.row_map);
    assert_eq!(sb.scroll, scroll);
}
