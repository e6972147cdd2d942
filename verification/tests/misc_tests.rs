use remoteio::message::{read_message, Field, Message};
use remoteio::process::{command_line, rss_kilobytes};
use remoteio::server::{greeting, handle_message, status_report, ServerAction, ServerState};
use remoteio::session::{dispatch, session_step, Service, SessionEvent, SessionStep};
use remoteio::text::{join_texts, split_lines};
use remoteio::timestamp::{current_timestamp, format_timestamp};

fn msg(t: &str) -> Message {
    let mut m = Message::empty();
    m.fields.push(("type".to_string(), Field::Text(t.to_string())));
    m
}

#[test]
fn test_api_returns_status() {
    let report = status_report(ServerState::Disconnected, 1);
    assert!(report.contains("todo items: 1"));
    assert!(report.contains("Disconnected"));
    assert_eq!(report, "state: Disconnected \n todo items: 1");
}

#[test]
fn status_counts_large_numbers() {
    assert_eq!(status_report(ServerState::Connected, 1203), "state: Connected \n todo items: 1203");
    assert_eq!(status_report(ServerState::Connected, 0), "state: Connected \n todo items: 0");
}

#[test]
fn timestamps_are_exact() {
    assert_eq!(format_timestamp(0), "1970-01-01 00:00:00");
    assert_eq!(format_timestamp(1725029869), "2024-08-30 14:57:49");
    assert_eq!(format_timestamp(951782400), "2000-02-29 00:00:00");
    assert_eq!(format_timestamp(4102444799), "2099-12-31 23:59:59");
    assert_eq!(format_timestamp(253402300800), "10000-01-01 00:00:00");
    assert_eq!(format_timestamp(u64::MAX), "1970-01-01 07:00:15");
    assert_eq!(format_timestamp(1u64 << 63), "1970-01--106751991167299 15:30:08");
}

#[test]
fn timestamps_sort_as_times() {
    let times = [0u64, 59, 60, 3599, 3600, 86399, 86400, 951782399, 951782400, 1725029869, 253402300799];
    for w in times.windows(2) {
        let a = format_timestamp(w[0]);
        let b = format_timestamp(w[1]);
        assert_eq!(a.len(), 19);
        assert_eq!(b.len(), 19);
        assert!(a < b, "{} < {}", a, b);
    }
    assert_eq!(format_timestamp(253402300799), "9999-12-31 23:59:59");
}

#[test]
fn current_timestamp_has_the_layout() {
    let t = current_timestamp().expect("clock after the epoch");
    assert_eq!(t.len(), 19);
    assert_eq!(&t[4..5], "-");
    assert_eq!(&t[10..11], " ");
    assert_eq!(&t[13..14], ":");
}

#[test]
fn shutdown_command() {
    match handle_message(&msg("shutdown")) {
        ServerAction::Shutdown { notice, grace_ms } => {
            assert_eq!(notice, "Server shutting down...");
            assert_eq!(grace_ms, 500);
        }
        ServerAction::Nothing => panic!("shutdown expected"),
    }
    assert!(matches!(handle_message(&msg("todo_list")), ServerAction::Nothing));
}

#[test]
fn greeting_names_timer() {
    assert_eq!(
        greeting("first"),
        "Server broadcast: Hello from server to all WebSocket clients (first)!"
    );
}

#[test]
fn dispatch_routes_types() {
    assert_eq!(dispatch("shutdown"), Some(Service::Server));
    assert_eq!(dispatch("todo_move"), Some(Service::Todo));
    assert_eq!(dispatch("todo_list_rename"), Some(Service::Todo));
    assert_eq!(dispatch("sync_pull_preview"), Some(Service::Sync));
    assert_eq!(dispatch("unknown"), None);
}

#[test]
fn test_unknown_type_ignored() {
    let mut state = ServerState::Connected;
    let mut unknown = msg("unknown");
    unknown.fields.push(("foo".to_string(), Field::Text("bar".to_string())));
    assert!(matches!(session_step(&mut state, &SessionEvent::Text(Some(unknown))), SessionStep::Continue));
    assert!(matches!(
        session_step(&mut state, &SessionEvent::Text(Some(msg("todo_list")))),
        SessionStep::Handle(Service::Todo)
    ));
    assert_eq!(state, ServerState::Connected);
}

#[test]
fn session_tracks_connection() {
    let mut state = ServerState::Disconnected;
    assert!(matches!(session_step(&mut state, &SessionEvent::Opened), SessionStep::Continue));
    assert_eq!(state, ServerState::Connected);
    assert!(matches!(session_step(&mut state, &SessionEvent::Text(None)), SessionStep::Continue));
    assert!(matches!(session_step(&mut state, &SessionEvent::Other), SessionStep::Continue));
    assert!(matches!(session_step(&mut state, &SessionEvent::Closed), SessionStep::End));
    assert_eq!(state, ServerState::Disconnected);
}

#[test]
fn process_figures() {
    assert_eq!(rss_kilobytes(300, 4096), 1200);
    assert_eq!(rss_kilobytes(1, 1000), 0);
    let args = vec!["/bin/sh".to_string(), "-c".to_string(), "echo hi".to_string()];
    assert_eq!(command_line(&args), "/bin/sh -c echo hi");
    assert_eq!(command_line(&vec![]), "");
}

#[test]
fn lines_follow_std() {
    for text in ["", "a", "a\n", "a\r\nb", "a\n\nb\n", "x\r", "\n", "a\rb\n"] {
        let expected: Vec<String> = text.lines().map(|l| l.to_string()).collect();
        assert_eq!(split_lines(text), expected, "text {:?}", text);
    }
    assert_eq!(join_texts(&vec!["a".to_string(), "b".to_string()], ", "), "a, b");
}

#[test]
fn read_message_reads_members() {
    let m = read_message(r#"{"type":"todo_move","id":3,"to":"done","neg":-1,"flag":true}"#, None).unwrap();
    assert_eq!(m.text("type"), Some("todo_move".to_string()));
    assert_eq!(m.unsigned("id"), Some(3));
    assert_eq!(m.text("to"), Some("done".to_string()));
    assert_eq!(m.unsigned("neg"), None);
    assert_eq!(m.text("flag"), None);
    assert_eq!(m.text("id"), None);
    assert!(m.target.is_none());
    assert!(read_message("not json", None).is_none());
    let arr = read_message("[1, 2]", None).unwrap();
    assert!(arr.fields.is_empty());
    assert_eq!(arr.text("type"), None);
}
