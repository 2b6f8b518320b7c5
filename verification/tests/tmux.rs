use agents_mon::clients::{
    claim_command, client_focus, control_client, latest_client, sidebar_clients, superseded,
};
use agents_mon::tmux::{block_tag, is_sync_echo, notice, socket, BlockReader, Notice, TmuxError};

fn read(lines: &[&str]) -> Option<Result<String, TmuxError>> {
    let mut r = BlockReader::new();
    for l in lines {
        if let Some(end) = r.feed(l) {
            return Some(end);
        }
    }
    None
}

#[test]
fn a_replaced_daemon_stops_owning_the_panes() {
    assert!(!superseded("client-7", "client-7"));
    assert!(!superseded("client-7", "client-7\n")); // show-option keeps the newline
    assert!(superseded("client-7", "client-9"));
    assert!(!superseded("client-7", "")); // unset is not a claim
    assert!(!superseded("", "client-9")); // we never published a name
    assert!(!superseded("", ""));
}

#[test]
fn a_reply_is_what_stands_in_its_block() {
    let r = read(&["%session-changed $1 main\n", "%begin 1 7 1\n", "a\r\n", "%end 1 8 1\n", "b\n", "%end 1 7 1\n"]);
    match r {
        Some(Ok(body)) => assert_eq!(body, "a\n%end 1 8 1\nb\n"),
        _ => panic!("a block came"),
    }
}

#[test]
fn a_refusal_is_told_without_its_line_end() {
    match read(&["%begin 1 7 1\n", "no such pane\n", "%error 1 7 1\n"]) {
        Some(Err(TmuxError::Error(e))) => assert_eq!(e, "no such pane"),
        _ => panic!("an error came"),
    }
    match read(&["%begin 1 7 1\n", "%error 1 6 1\n", "%error 1 7 1\n"]) {
        Some(Err(TmuxError::Error(e))) => assert_eq!(e, "%error 1 6 1"),
        _ => panic!("an error came"),
    }
}

#[test]
fn the_client_may_end_before_a_block() {
    assert!(matches!(read(&["%exit\n"]), Some(Err(TmuxError::Exited))));
    assert!(matches!(BlockReader::new().eof(), Err(TmuxError::Exited)));
    // within a block it is what the command printed
    assert!(read(&["%begin 1 7 1\n", "%exit\n"]).is_none());
}

#[test]
fn errors_have_words() {
    assert_eq!(TmuxError::Exited.message(), "tmux exited");
    assert_eq!(TmuxError::Error("bad".to_string()).message(), "tmux: bad");
    assert_eq!(TmuxError::Io("broken".to_string()).message(), "tmux pipe: broken");
}

#[test]
fn blocks_are_numbered_by_their_second_word() {
    assert_eq!(block_tag("1700000000 42 1"), "42");
    assert_eq!(block_tag("1700000000"), "");
}

#[test]
fn the_barrier_has_its_own_echo() {
    assert!(is_sync_echo("am-sync\n"));
    assert!(!is_sync_echo("am-sync"));
    assert!(!is_sync_echo("x\nam-sync\n"));
}

#[test]
fn focus_changes_are_told_from_the_rest() {
    assert!(notice("%window-pane-changed @1 %2\n") == Notice::Focus);
    assert!(notice("%session-window-changed $1 @2\r\n") == Notice::Focus);
    assert!(notice("%session-changed $1 x\n") == Notice::Focus);
    assert!(notice("%client-session-changed c $1 x\n") == Notice::Focus);
    assert!(notice("%layout-change @1\n") == Notice::Other);
    assert!(notice("%exit server exited\n") == Notice::Exit);
}

#[test]
fn the_socket_stands_before_the_comma() {
    assert_eq!(socket("/tmp/tmux-1/default,12,0"), Some("/tmp/tmux-1/default".to_string()));
    assert_eq!(socket(",12,0"), None);
    assert_eq!(socket(""), None);
}

#[test]
fn the_control_client_is_known_by_its_pid() {
    let list = "12\tclient-12\n7\t\nx\n7\tclient-7\n7\tclient-8\n";
    assert_eq!(control_client(list, "7"), Some("client-7".to_string()));
    assert_eq!(control_client(list, "9"), None);
    assert_eq!(claim_command("it's"), "set-option -g @agents-mon-control-client 'it\\'s'");
}

#[test]
fn the_latest_client_is_the_users() {
    assert_eq!(latest_client("10 a\nbad\n30 b c\n20 d\n"), Some("b c".to_string()));
    assert_eq!(latest_client("10 a\n10 b\n"), Some("b".to_string()));
    assert_eq!(latest_client("x y\n"), None);
}

#[test]
fn the_focus_is_that_of_the_latest_client() {
    let list = "10\ta\t$1\t%1\ttitle\tattached,focused\n30\tb\t$2\t%5\tagents-mon\tattached\n40\tc\t$3\t%9\tx\tattached,control-mode\n";
    let f = client_focus(list).unwrap();
    assert_eq!(f.pane, "%5");
    assert_eq!(f.session, "$2");
    assert!(f.plugin_selected);
    assert!(client_focus("40\tc\t$3\t%9\tx\tcontrol-mode\n").is_none());
}

#[test]
fn clients_in_a_sidebar_are_listed() {
    assert_eq!(
        sidebar_clients("a\tagents-mon\nb\tother\nc\nd\tagents-mon\n"),
        vec!["a".to_string(), "d".to_string()]
    );
}
