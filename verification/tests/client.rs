use mistv::client::app::trigger_phase2_actions;
use mistv::client::handshake::{
    check_session_key, choose_session, is_invitation, random_session_id, random_session_key,
    read_invitation, split_server_password, HandshakeError, JoinAction, SessionChoice, KEY_CHARS,
};
use mistv::client::initialization::{
    choose_advertised_host, choose_server, chosen_name, host_and_port, manual_host,
    password_or_default, port_or_default, server_target, HostChoice, ServerChoice,
};
use mistv::client::input::{candidate_path, classify_outgoing_input, InputError, OutgoingPayload};
use mistv::client::keyboard::{
    handle_key, handle_paste, ControlFlow, EditState, KeyAction, KeyCode, KeyCtx, KeyEvent, OpKind,
    PasteAction, UndoMgr, QUIT_LINE,
};
use mistv::client::network::{
    incoming_line, outgoing_line, InviteFailure, InviteRegistry, Outgoing,
    finish_invite_request,
};
use mistv::client::receiver::{push_message, ChatMessage};
use mistv::client::utils::{inviation_clear, packet_id_for_text, parse_name_body};
use mistv::config::{client_server_preset, default_client_server};
use mistv::crypto::group::GroupCryptoState;
use mistv::crypto::transport::{TransportCrypto, TransportSide};
use mistv::protocol::attachment::AttachmentKind;
use mistv::protocol::line::{parse_key_announce_line, parse_rmsg_line};
use mistv::protocol::local_event::{
    build_local_notice_line, parse_local_invite_request_line, parse_local_ui_event, LocalUiEvent,
};
use mistv::transport::packet::AckRegistry;
use mistv::ui::clipboard::ClipData;
use mistv::ui::help::{HELP_TEXT, HELP_TEXT_EN};
use mistv::ui::tui::build_chat_rows;

fn is_file(msg: &str) -> bool {
    candidate_path(msg).is_some_and(|p| std::path::Path::new(&p).is_file())
}

#[test]
fn plain_text_stays_text() {
    assert!(matches!(
        classify_outgoing_input("hello", is_file("hello")).expect("classification should succeed"),
        OutgoingPayload::Text(body) if body == "hello"
    ));
}

#[test]
fn missing_path_in_send_command_is_rejected() {
    assert!(classify_outgoing_input("/send ", is_file("/send ")).is_err());
}

#[test]
fn explicit_send_path_becomes_attachment() {
    let dir = tempfile::tempdir().expect("tempdir should build");
    let file = tempfile::Builder::new()
        .prefix("demo")
        .suffix(".txt")
        .rand_bytes(0)
        .tempfile_in(dir.path())
        .expect("file should be created");
    let path = file.path().to_path_buf();
    let command = format!("/send {}", path.display());

    assert!(matches!(
        classify_outgoing_input(&command, is_file(&command)).expect("classification should succeed"),
        OutgoingPayload::AttachmentPath(parsed) if std::path::PathBuf::from(&parsed) == path
    ));
}

#[test]
fn direct_existing_path_becomes_attachment() {
    let dir = tempfile::tempdir().expect("tempdir should build");
    let file = tempfile::Builder::new()
        .prefix("direct")
        .suffix(".bin")
        .rand_bytes(0)
        .tempfile_in(dir.path())
        .expect("file should be created");
    let path = file.path().to_path_buf();
    let text = path.to_string_lossy().to_string();

    assert!(matches!(
        classify_outgoing_input(&text, is_file(&text)).expect("classification should succeed"),
        OutgoingPayload::AttachmentPath(parsed) if std::path::PathBuf::from(&parsed) == path
    ));
}

#[test]
fn missing_path_falls_back_to_text() {
    let dir = tempfile::tempdir().expect("tempdir should build");
    let missing = dir.path().join("rust_chat_missing_path_for_test.txt");
    let text = missing.to_string_lossy().to_string();

    assert!(matches!(
        classify_outgoing_input(&text, is_file(&text)).expect("classification should succeed"),
        OutgoingPayload::Text(body) if body == text
    ));
}

#[test]
fn refused_input_is_explained() {
    assert_eq!(
        classify_outgoing_input("/send ", false).unwrap_err().message(),
        "Usage: /send <path>"
    );
    let err = classify_outgoing_input("/send \"a b.txt\"", false).unwrap_err();
    assert!(matches!(&err, InputError::NotFound(path) if path == "a b.txt"));
    assert_eq!(err.message(), "Attachment not found: a b.txt");
}

#[test]
fn servers_are_chosen_by_number_address_or_invitation() {
    assert!(matches!(choose_server(" \n"), ServerChoice::Default(t) if t == "8.153.67.166:6655&Vrepol"));
    assert!(matches!(choose_server("HOST"), ServerChoice::Host));
    assert!(matches!(choose_server("2"), ServerChoice::Address(a) if a == "100.123.171.94:6655"));
    assert!(matches!(choose_server("chat.example-1.org:80"), ServerChoice::Address(a) if a == "chat.example-1.org:80"));
    assert!(matches!(choose_server("/INVITE:a.b.c"), ServerChoice::Invitation(t) if t == "/INVITE:a.b.c"));
    assert!(matches!(choose_server("3"), ServerChoice::Unknown));
    assert!(matches!(choose_server("0"), ServerChoice::Unknown));
    assert!(matches!(choose_server("a b:80"), ServerChoice::Unknown));
    assert!(matches!(choose_server("host:"), ServerChoice::Unknown));
    assert_eq!(default_client_server().name, "Public server");
    assert!(client_server_preset(2).is_none());
}

#[test]
fn ports_and_hosts_are_checked() {
    assert_eq!(port_or_default(""), Ok(6655));
    assert_eq!(port_or_default(" 80 "), Ok(80));
    assert_eq!(port_or_default("0"), Err("端口必须是 1-65535 的数字"));
    assert_eq!(port_or_default("65536"), Err("端口必须是 1-65535 的数字"));
    assert_eq!(password_or_default(" \n"), "Vrepol");
    assert_eq!(password_or_default(" x "), "x");
    assert_eq!(server_target("a:1", "p"), "a:1&p");
    assert_eq!(host_and_port("a", 80), "a:80");
    let list = vec!["10.0.0.1".to_string(), "10.0.0.2".to_string()];
    let host = |input: &str, list: &Vec<String>| match choose_advertised_host(input, list) {
        HostChoice::Host(host) => host,
        HostChoice::Manual => "manual".to_string(),
        HostChoice::Unknown => "unknown".to_string(),
    };
    assert_eq!(host("", &list), "10.0.0.1");
    assert_eq!(host("", &Vec::new()), "127.0.0.1");
    assert_eq!(host("2", &list), "10.0.0.2");
    assert_eq!(host("3", &list), "unknown");
    assert_eq!(host("Manual", &list), "manual");
    assert_eq!(host("example.org", &list), "example.org");
    assert_eq!(manual_host(" "), None);
    assert_eq!(manual_host(" h ").as_deref(), Some("h"));
}

#[test]
fn names_are_typed_or_invented() {
    assert_eq!(chosen_name(" alice \n"), "alice");
    assert!(!chosen_name("").is_empty());
}

#[test]
fn sessions_are_chosen_by_name_or_number() {
    let rooms = vec!["den".to_string(), "Public".to_string()];
    assert!(matches!(choose_session("/Q", &rooms), SessionChoice::Leave));
    assert!(matches!(choose_session("New", &rooms), SessionChoice::Random));
    assert!(matches!(choose_session("'", &rooms), SessionChoice::Random));
    assert!(matches!(choose_session("", &rooms), SessionChoice::Public(JoinAction::Join)));
    assert!(matches!(choose_session("", &Vec::new()), SessionChoice::Public(JoinAction::Create)));
    assert!(matches!(
        choose_session("1", &rooms),
        SessionChoice::Private { session_id, action: JoinAction::Join } if session_id == "den"
    ));
    assert!(matches!(
        choose_session("cave", &rooms),
        SessionChoice::Private { session_id, action: JoinAction::Create } if session_id == "cave"
    ));
    assert!(matches!(
        choose_session("3", &rooms),
        SessionChoice::Again("Unknown session number.")
    ));
    assert!(matches!(
        choose_session(" ", &rooms),
        SessionChoice::Again("Session ID cannot be empty.")
    ));
    assert_eq!(check_session_key(" "), Some("Private sessions need a key."));
    assert_eq!(check_session_key("k"), None);
    assert_eq!(random_session_id().len(), 9);
    let key = random_session_key();
    assert_eq!(key.len(), 32);
    assert!(key.chars().all(|c| KEY_CHARS.contains(c)));
}

#[test]
fn targets_are_split_at_the_first_ampersand() {
    assert_eq!(
        split_server_password("a:1&p&q"),
        ("a:1".to_string(), "p&q".to_string())
    );
    assert_eq!(split_server_password("a:1"), ("a:1".to_string(), String::new()));
    assert!(is_invitation("/INVITE:x"));
    assert!(!is_invitation("a:1&p"));
    assert_eq!(inviation_clear("/INVITE:x"), "");
    assert_eq!(inviation_clear("a:1&p"), "a:1&p");
    assert!(matches!(read_invitation("hello"), Err(HandshakeError::InvalidInvitation)));
    let err = read_invitation("/INVITE:YQ.!!.key").unwrap_err();
    assert_eq!(err.message(), "Invalid invitation token");
}

fn edit() -> EditState {
    EditState {
        input: String::new(),
        cursor: 0,
        selected: None,
        undo_mgr: UndoMgr::new(0),
    }
}

fn press(state: &mut EditState, code: KeyCode, control: bool, now_ms: u64) -> KeyAction {
    let messages = vec![
        ChatMessage::Text("[bob][12:00] hi".to_string()),
        ChatMessage::Attachment {
            attachment_id: "att-1".to_string(),
            sender: "bob".to_string(),
            ts: "12:01".to_string(),
            name: "demo.txt".to_string(),
            size: 4,
            kind: AttachmentKind::File,
        },
    ];
    let chat_rows = build_chat_rows(&messages, 40, "me");
    let ctx = KeyCtx {
        chat_rows: &chat_rows,
        messages: &messages,
        server_addr: "127.0.0.1:6655",
        room_id: "room-a",
        pwd: "cred",
        owner_capability: Some("cap"),
        request_id: "req-1",
        now_ms,
    };
    handle_key(state, KeyEvent { code, control, alt: false }, &ctx)
}

#[test]
fn keys_edit_the_input() {
    let mut state = edit();
    for c in "ab中".chars() {
        press(&mut state, KeyCode::Char(c), false, 10);
    }
    assert_eq!((state.input.as_str(), state.cursor), ("ab中", 3));
    press(&mut state, KeyCode::Left, false, 10);
    press(&mut state, KeyCode::Backspace, false, 10);
    assert_eq!((state.input.as_str(), state.cursor), ("a中", 1));
    press(&mut state, KeyCode::Right, true, 10);
    assert_eq!(state.cursor, 2);
    press(&mut state, KeyCode::Left, true, 10);
    assert_eq!(state.cursor, 0);
    assert!(matches!(press(&mut state, KeyCode::Enter, false, 10), KeyAction::Send(m) if m == "a中"));
    assert_eq!((state.input.as_str(), state.cursor), ("", 0));
    assert!(matches!(press(&mut state, KeyCode::Enter, false, 10), KeyAction::Nothing));
    let action = press(&mut state, KeyCode::Esc, false, 10);
    assert_eq!(action.control_flow(), ControlFlow::Quit);
    assert!(matches!(action, KeyAction::Quit(line) if line == QUIT_LINE));
}

#[test]
fn edits_can_be_undone() {
    let mut state = edit();
    press(&mut state, KeyCode::Char('a'), false, 10);
    press(&mut state, KeyCode::Char('b'), false, 20);
    press(&mut state, KeyCode::Char('c'), false, 1000);
    assert_eq!(state.input, "abc");
    press(&mut state, KeyCode::Char('z'), true, 1001);
    assert_eq!((state.input.as_str(), state.cursor), ("ab", 2));
    press(&mut state, KeyCode::Char('z'), true, 1002);
    assert_eq!((state.input.as_str(), state.cursor), ("", 0));
    press(&mut state, KeyCode::Char('z'), true, 1003);
    assert_eq!(state.input, "");
}

#[test]
fn only_so_many_edits_are_kept() {
    let mut undo = UndoMgr::new(0);
    for n in 0..300u64 {
        undo.maybe_push(&n.to_string(), 0, OpKind::Insert, (n + 1) * 1000);
    }
    assert_eq!(undo.stack.len(), 200);
    assert_eq!(undo.stack[0].0, "100");
}

#[test]
fn keys_ask_for_what_lies_beyond_the_input() {
    let mut state = edit();
    assert!(matches!(press(&mut state, KeyCode::Char('x'), true, 0), KeyAction::Paste));
    assert!(matches!(press(&mut state, KeyCode::Char('h'), true, 0), KeyAction::Send(m) if m == HELP_TEXT));
    assert!(matches!(press(&mut state, KeyCode::Char('j'), true, 0), KeyAction::Send(m) if m == HELP_TEXT_EN));
    match press(&mut state, KeyCode::Char('i'), true, 0) {
        KeyAction::Send(line) => {
            let request = parse_local_invite_request_line(&line).expect("request should parse");
            assert_eq!(request.request_id, "req-1");
            assert_eq!(request.room_credential, "cred");
        }
        other => panic!("unexpected action: {other:?}"),
    }
    assert!(matches!(press(&mut state, KeyCode::Char('c'), true, 0), KeyAction::Nothing));
    state.selected = Some(0);
    assert!(matches!(press(&mut state, KeyCode::Char('c'), true, 0), KeyAction::Copy(b) if b == "hi"));
    assert!(matches!(press(&mut state, KeyCode::Tab, false, 0), KeyAction::Nothing));
    press(&mut state, KeyCode::Down, true, 0);
    assert_eq!(state.selected, Some(3));
    assert!(matches!(press(&mut state, KeyCode::Tab, false, 0), KeyAction::Open(id) if id == "att-1"));
    press(&mut state, KeyCode::Down, false, 0);
    assert_eq!(state.selected, Some(3));
    press(&mut state, KeyCode::Up, false, 0);
    assert_eq!(state.selected, Some(2));
    press(&mut state, KeyCode::Up, true, 0);
    assert_eq!(state.selected, Some(0));
}

#[test]
fn pasting_inserts_sends_or_writes() {
    let mut state = edit();
    press(&mut state, KeyCode::Char('a'), false, 0);
    press(&mut state, KeyCode::Char('b'), false, 0);
    press(&mut state, KeyCode::Left, false, 0);
    let action = handle_paste(
        &mut state,
        ClipData::Text("中文".to_string()),
        &vec![false],
        "id",
        10,
    );
    assert!(matches!(action, PasteAction::Nothing));
    assert_eq!((state.input.as_str(), state.cursor), ("a中文b", 3));
    let action = handle_paste(
        &mut state,
        ClipData::Text("/a\n/b".to_string()),
        &vec![true, true],
        "id",
        10,
    );
    assert!(matches!(action, PasteAction::Send(p) if p == ["/a", "/b"]));
    let image = |bytes: Vec<u8>| ClipData::Image { width: 1, height: 1, bytes };
    let action = handle_paste(&mut state, image(vec![1, 2, 3, 4]), &Vec::new(), "id", 10);
    assert!(matches!(
        action,
        PasteAction::Write { file_name, bytes } if file_name == "clipboard_id.png" && bytes.len() > 8
    ));
    let action = handle_paste(&mut state, image(vec![1]), &Vec::new(), "id", 10);
    match action {
        PasteAction::Send(lines) => assert!(matches!(
            parse_local_ui_event(&lines[0]),
            Some(LocalUiEvent::Notice(text)) if text
                == "剪贴板图片格式异常: Clipboard image buffer size mismatch: expected 4, got 1"
        )),
        other => panic!("unexpected action: {other:?}"),
    }
}

fn solo() -> GroupCryptoState {
    GroupCryptoState::new_single_epoch("room-a", "alice-id", "alice", 0, [8u8; 32], [4u8; 32]).unwrap()
}

#[test]
fn outgoing_lines_are_told_apart() {
    let mut group = solo();
    assert!(matches!(outgoing_line(&mut group, QUIT_LINE, false, "x", 0), Outgoing::Quit));
    let notice = build_local_notice_line("hi");
    assert!(matches!(outgoing_line(&mut group, &notice, false, "x", 0), Outgoing::Show(l) if l == notice));
    match outgoing_line(&mut group, "hello", false, "x", 0) {
        Outgoing::Send { packet_id, payload, echo } => {
            assert_eq!(packet_id, "msg-x");
            assert!(parse_rmsg_line(&payload).is_some());
            assert!(matches!(
                parse_local_ui_event(&echo.unwrap()),
                Some(LocalUiEvent::EchoText { body }) if body == "hello"
            ));
        }
        other => panic!("unexpected: {other:?}"),
    }
    assert!(matches!(
        outgoing_line(&mut group, "/KEY_ANNOUNCE abc", false, "x", 0),
        Outgoing::Send { payload, echo: None, .. } if payload == "/KEY_ANNOUNCE abc"
    ));
    assert!(matches!(
        outgoing_line(&mut group, "/tmp/a.txt", true, "x", 0),
        Outgoing::Queue { path, .. } if path == "/tmp/a.txt"
    ));
    match outgoing_line(&mut group, "/send ", false, "x", 0) {
        Outgoing::Show(line) => assert!(matches!(
            parse_local_ui_event(&line),
            Some(LocalUiEvent::Notice(text)) if text == "发送失败: Usage: /send <path>"
        )),
        other => panic!("unexpected: {other:?}"),
    }
}

#[test]
fn incoming_lines_are_routed() {
    let mut client = TransportCrypto::new([5u8; 32], TransportSide::Client);
    let mut server = TransportCrypto::new([5u8; 32], TransportSide::Server);
    let mut acks = AckRegistry::new();
    let mut invites = InviteRegistry::new();
    invites.register("req-1".to_string(), "a:1".to_string(), "key".to_string());
    let mut receive = |plain: &str, twice: bool| {
        let line = server.seal(plain);
        let shown = incoming_line(&mut client, &mut acks, &mut invites, &line);
        if twice {
            assert_eq!(incoming_line(&mut client, &mut acks, &mut invites, &line), None);
        }
        shown
    };
    assert_eq!(receive("/ping_ack", false), None);
    assert_eq!(receive("/ACK msg-1", false), None);
    assert_eq!(receive("[bob] hi", true).as_deref(), Some("[bob] hi"));
    assert_eq!(receive("/INVITE_TOKEN req-1 tok 77", false), None);
    assert!(acks.is_acked("msg-1"));
    assert!(invites.has_response("req-1"));
    let line = finish_invite_request(&mut invites, "req-1", true).unwrap();
    assert!(matches!(
        parse_local_ui_event(&line),
        Some(LocalUiEvent::Notice(text)) if text == "/INVITE:YTox.tok.key"
    ));
    assert!(matches!(
        finish_invite_request(&mut invites, "req-1", true),
        Err(InviteFailure::Missing)
    ));
    invites.register("req-2".to_string(), "a:1".to_string(), "key".to_string());
    invites.resolve_error("req-2", "OwnerOffline".to_string());
    let err = finish_invite_request(&mut invites, "req-2", true).unwrap_err();
    assert_eq!(err.message(), "Invite request rejected: OwnerOffline");
    let err = finish_invite_request(&mut invites, "req-2", false).unwrap_err();
    assert_eq!(err.message(), "Invite token timeout");
}

#[test]
fn keys_are_announced_first() {
    let mut group = solo();
    let lines = trigger_phase2_actions(&mut group);
    assert_eq!(lines.len(), 1);
    let announce = parse_key_announce_line(&lines[0]).unwrap();
    assert_eq!(announce.member_id, "alice-id");
    assert_eq!(announce.x25519_public, group.current_x25519_public());
}

#[test]
fn conversations_are_cut_at_their_start() {
    let mut messages = Vec::new();
    for n in 0..501 {
        push_message(&mut messages, ChatMessage::Text(n.to_string()));
    }
    assert_eq!(messages.len(), 401);
    assert!(matches!(&messages[0], ChatMessage::Text(t) if t == "100"));
    assert_eq!(
        parse_name_body(&ChatMessage::Text("[bob][12:00] hi".to_string())),
        ("bob".to_string(), "12:00".to_string(), "hi".to_string())
    );
    let id = packet_id_for_text();
    assert!(id.starts_with("msg-"));
    assert_eq!(id.len(), 36);
}
