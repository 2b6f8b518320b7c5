use agents_mon::mirror::{fit, key_wait, waits_for_fifo, watch, Mirror, Watch};
use agents_mon::rounds::{tries_again, waits_for_panes};
use agents_mon::mirrors::{
    adopt_command, asked_width, dragged, least_width, parse_mirrors, settle, spread, suicide,
    visible_panes, watched_height, Daemon, Measured, WinSize, M,
};

fn m(sess: &str, h: usize, active: bool) -> M {
    M {
        pane: "%1".into(),
        win: "@1".into(),
        sess: sess.into(),
        w: 30,
        h,
        win_size: (200, h),
        panes: 2,
        active,
    }
}

fn at(pane: &str, win: &str, w: usize) -> M {
    M {
        pane: pane.into(),
        win: win.into(),
        sess: "$0".into(),
        w,
        h: 40,
        win_size: (200, 40),
        panes: 2,
        active: true,
    }
}

#[test]
fn one_garbage_measurement_does_not_kill_the_daemon() {
    // the regression: a hook block desyncs the pipe for one command, the
    // mirror list reads back empty, and every mirror pane got torn down
    assert!(!suicide(true, 60, 1));
    assert!(suicide(true, 60, 2)); // user really did close them all
    // startup grace: no mirror has ever appeared yet
    assert!(!suicide(false, 5, 9));
    assert!(suicide(false, 30, 2)); // none ever came — give up
}

#[test]
fn watched_height_ignores_short_unwatched_windows() {
    // the regression: a 23-row window in a session nobody is looking at
    // used to clip the list in the 82-row window the user is watching
    let ms = vec![m("$0", 82, true), m("$1", 23, true), m("$0", 47, false)];
    assert_eq!(watched_height(&ms, "$0"), 82);
}

#[test]
fn watched_height_falls_back_to_tallest_visible_then_tallest() {
    // no client measured yet: tallest among the active windows
    let ms = vec![m("$0", 40, true), m("$1", 23, true), m("$0", 99, false)];
    assert_eq!(watched_height(&ms, ""), 40);
    // nothing active at all: tallest overall
    let ms = vec![m("$0", 23, false), m("$1", 60, false)];
    assert_eq!(watched_height(&ms, "$0"), 60);
    assert_eq!(watched_height(&vec![], "$0"), 24);
}

const LIST: &str = "%1\t@1\t30\t40\t200 40\t2\t1\t$0\n%2\t@2\t28\t50\t180 50\t3\t0\t$1\nshort\n%3\t@3\tx\t40\t200 40\t2\t1\t$0\n%4\t@4\t30\t40\t20040\t2\t1\t$0\n";

#[test]
fn measurements_are_read_line_by_line() {
    let ms = parse_mirrors(LIST);
    assert_eq!(ms.len(), 2);
    assert_eq!(ms[0].pane, "%1");
    assert_eq!(ms[0].win_size, (200, 40));
    assert!(ms[0].active);
    assert_eq!(ms[1].sess, "$1");
    assert_eq!((ms[1].w, ms[1].h, ms[1].panes), (28, 50, 3));
    assert!(!ms[1].active);
    assert_eq!(least_width(&ms), 28);
}

#[test]
fn the_width_is_thirty_unless_it_is_said() {
    assert_eq!(asked_width(Some("44\n")), 44);
    assert_eq!(asked_width(Some("wide")), 30);
    assert_eq!(asked_width(Some("")), 30);
    assert_eq!(asked_width(None), 30);
}

#[test]
fn one_sidebar_stays_in_a_window() {
    let (stay, argv) = settle(vec![at("%1", "@1", 12), at("%2", "@2", 30), at("%3", "@1", 8), at("%4", "@1", 9)], 30);
    let panes: Vec<(&str, usize)> = stay.iter().map(|m| (m.pane.as_str(), m.w)).collect();
    assert_eq!(panes, vec![("%1", 30), ("%2", 30)]);
    assert_eq!(
        argv.join(" "),
        "kill-pane -t %3 ; kill-pane -t %4 ; resize-pane -t %1 -x 30"
    );
    let (same, none) = settle(vec![at("%1", "@1", 12), at("%2", "@2", 30)], 30);
    assert_eq!(same[0].w, 12);
    assert!(none.is_empty());
}

fn known(win: &str, size: (usize, usize), panes: usize) -> WinSize {
    WinSize { win: win.into(), size, panes }
}

#[test]
fn a_drag_changes_the_width_alone() {
    let ms = vec![at("%1", "@1", 30), at("%2", "@2", 41)];
    assert_eq!(dragged(&ms, 30, &vec![known("@1", (200, 40), 2), known("@2", (200, 40), 2)]), Some(1));
    // the window changed its size, or a pane in it closed
    assert_eq!(dragged(&ms, 30, &vec![known("@2", (199, 40), 2)]), None);
    assert_eq!(dragged(&ms, 30, &vec![known("@2", (200, 40), 3)]), None);
    // it was not there before
    assert_eq!(dragged(&ms, 30, &vec![]), None);
    // nobody sees it
    let mut hidden = at("%2", "@2", 41);
    hidden.active = false;
    assert_eq!(dragged(&vec![hidden], 30, &vec![known("@2", (200, 40), 2)]), None);
}

#[test]
fn the_other_sidebars_follow_a_drag() {
    let ms = vec![at("%1", "@1", 30), at("%2", "@2", 41), at("%3", "@3", 41), at("%4", "@4", 20)];
    assert_eq!(
        spread(&ms, "%2", 41).join(" "),
        "resize-pane -t %1 -x 41 ; resize-pane -t %4 -x 41"
    );
    assert!(spread(&vec![at("%2", "@2", 41)], "%2", 41).is_empty());
    assert_eq!(adopt_command(41), "set-option -g @agents-mon-width 41");
}

#[test]
fn panes_in_sight_of_a_client_are_drawn_in() {
    let mut far = at("%3", "@3", 30);
    far.sess = "$9".into();
    let mut hidden = at("%1", "@1", 30);
    hidden.active = false;
    let ms = vec![hidden, at("%2", "@2", 30), far];
    assert_eq!(visible_panes(&ms, "$0\n$1\n"), vec!["%2".to_string()]);
    assert_eq!(visible_panes(&ms, "$5\n"), Vec::<String>::new());
    // with no client one pane is kept warm
    assert_eq!(visible_panes(&ms, ""), vec!["%2".to_string()]);
}

#[test]
fn the_daemon_waits_before_it_gives_up() {
    let mut d = Daemon::new("client-7".to_string());
    assert_eq!(d.size, (30, 24));
    assert!(matches!(d.measure("", 1), Measured::Nothing));
    assert!(matches!(d.measure("", 2), Measured::Nothing));
    assert!(matches!(d.measure("", 30), Measured::Gone));
    let ms = match d.measure(LIST, 31) {
        Measured::Panes(ms) => ms,
        _ => panic!("there are panes"),
    };
    let a = d.arrange(ms, Some("30\n"), "$1");
    assert!(a.settle.is_empty());
    assert!(a.adopt.is_none());
    assert_eq!(d.size, (28, 40));
    assert!(d.seen_mirror);
    assert!(matches!(d.measure("", 32), Measured::Nothing));
    assert!(matches!(d.measure("", 33), Measured::Gone));
}

#[test]
fn the_daemon_adopts_a_dragged_width() {
    let mut d = Daemon::new(String::new());
    let first = d.arrange(vec![at("%1", "@1", 30), at("%2", "@2", 30)], None, "$0");
    assert!(first.adopt.is_none());
    let next = d.arrange(vec![at("%1", "@1", 50), at("%2", "@2", 30)], None, "$0");
    assert_eq!(next.adopt.as_deref(), Some("set-option -g @agents-mon-width 50"));
    assert_eq!(next.spread.join(" "), "resize-pane -t %2 -x 50");
    assert_eq!(next.panes.len(), 2);
    assert_eq!(d.size, (50, 40));
    d.switched("$0".to_string());
    assert_eq!(d.attached, "$0");
}

#[test]
fn a_frame_is_cut_to_its_pane() {
    assert_eq!(fit("a\nb\nc\nd", 3), "a\nb\n\x1b[J");
    assert_eq!(fit("a\nb", 9), "a\nb\x1b[J");
    assert_eq!(fit("a\nb", 1), "\x1b[J");
    assert_eq!(fit("a\nb", 0), "\x1b[J");
}

#[test]
fn a_mirror_draws_what_is_new() {
    let mut v = Mirror::new();
    assert_eq!(v.show("a\n", 5).as_deref(), Some("a\n\x1b[J"));
    assert_eq!(v.show("a\n", 5), None);
    assert_eq!(v.show("b\n", 1).as_deref(), Some("\x1b[J"));
    assert_eq!(v.last_frame, "b\n");
}

#[test]
fn a_mirror_leaves_when_the_frames_stop() {
    assert!(watch(None, None) == Watch::Quit);
    assert!(watch(Some(true), Some(99_000_000_000)) == Watch::Read);
    assert!(watch(Some(false), Some(10_000_000_000)) == Watch::Wait);
    assert!(watch(Some(false), Some(10_000_000_001)) == Watch::Quit);
    assert!(watch(Some(false), None) == Watch::Wait);
    assert_eq!((key_wait(true), key_wait(false)), (10, 100));
}

#[test]
fn a_squeezed_sidebar_is_not_taken_for_a_dragged_one() {
    let mut d = Daemon::new(String::new());
    d.arrange(vec![at("%1", "@1", 30)], None, "$0");
    let a = d.arrange(vec![at("%1", "@1", 14), at("%2", "@1", 14)], None, "$0");
    assert_eq!(a.settle.join(" "), "kill-pane -t %2 ; resize-pane -t %1 -x 30");
    assert!(a.adopt.is_none());
    assert_eq!(d.size, (30, 40));
    assert_eq!(d.win_sizes.len(), 1);
}

#[test]
fn nothing_is_waited_for_without_end() {
    assert!(waits_for_panes(2_999_999_999, true, false));
    assert!(!waits_for_panes(3_000_000_000, true, false));
    assert!(!waits_for_panes(0, true, true));
    assert!(!waits_for_panes(0, false, false));
    assert!(tries_again(99, false));
    assert!(!tries_again(100, false));
    assert!(!tries_again(0, true));
    assert!(waits_for_fifo(9_999_999_999, false, false));
    assert!(!waits_for_fifo(10_000_000_000, false, false));
    assert!(!waits_for_fifo(0, true, false));
    assert!(!waits_for_fifo(0, false, true));
}
