use mistv::client::receiver::ChatMessage;
use mistv::client::ui::{draw_chat as draw_plain_chat, members_title as plain_members_title};
use mistv::crypto::safety::SafetyCode;
use mistv::protocol::member::MemberIdentity;
use mistv::ui::clipboard::{
    clipboard_paths, encode_rgba_as_png, normalize_clipboard_rgba, parse_clipboard_file_paths,
    ClipboardError,
};
use mistv::ui::help::{format_file_size, render_transfer_line, TransferDirection, TransferStage};
use mistv::ui::layout::{align_right, cluster_count, input_cursor_position, split_at_cluster, wrap_graphemes};
use mistv::ui::screen::ScreenAreas;
use mistv::ui::tui::{
    build_chat_rows, draw_chat, flash_notice_area, follow_selection, is_at_bottom, keep_selection,
    members_title, selected_message_index, Color, Rect, RenderedChatRow,
};
use mistv::util::path::{file_name_or_default, sanitize_attachment_name, sanitize_attachment_name_with};
use unicode_width::UnicodeWidthStr;

#[test]
fn ui_cursor_advances_for_trailing_space() {
    assert_eq!(input_cursor_position("a ", 2, 10), (2, 0));
}

#[test]
fn ui_cursor_wraps_graphemewise_after_space_boundary() {
    assert_eq!(input_cursor_position("foo bar", 7, 4), (3, 1));
}

#[test]
fn ui_cursor_counts_cjk_width_correctly() {
    assert_eq!(input_cursor_position("中a文", 3, 10), (5, 0));
}

#[test]
fn ui_grapheme_wrap_does_not_move_whole_word_after_space() {
    assert_eq!(
        wrap_graphemes("很多都是 咔哒蚀刻换手机", 10),
        vec!["很多都是 ", "咔哒蚀刻换", "手机"]
    );
}

#[test]
fn ui_members_title_shows_verify_code() {
    let code = SafetyCode {
        hash: [
            0, 1, 2, 3, 0, 0, 0, 0, 0, 0, 0, 0, 0, 0, 0, 0, 0, 0, 0, 0, 0, 0, 0, 0, 0, 0, 0, 0, 0,
            0, 0, 0,
        ],
    };

    assert_eq!(
        plain_members_title(Some(&code)),
        "Members | Verify Code: 🦊 🌙 🧊 🍀"
    );
}

#[test]
fn tui_cursor_advances_for_trailing_space() {
    assert_eq!(input_cursor_position("a ", 2, 10), (2, 0));
}

#[test]
fn tui_cursor_wraps_graphemewise_after_space_boundary() {
    assert_eq!(input_cursor_position("foo bar", 7, 4), (3, 1));
}

#[test]
fn tui_cursor_counts_cjk_width_correctly() {
    assert_eq!(input_cursor_position("中a文", 3, 10), (5, 0));
}

#[test]
fn tui_grapheme_wrap_does_not_move_whole_word_after_space() {
    assert_eq!(
        wrap_graphemes("很多都是 咔哒蚀刻换手机", 10),
        vec!["很多都是 ", "咔哒蚀刻换", "手机"]
    );
}

#[test]
fn tui_members_title_shows_verify_code() {
    assert_eq!(
        members_title(Some("🦊 🌙 🧊 🍀")),
        " Members · Verify 🦊 🌙 🧊 🍀 "
    );
}

#[test]
fn selected_message_index_maps_rows_back_to_source_message() {
    let rows = vec![
        RenderedChatRow {
            message_index: 3,
            text: "header".to_string(),
            color: Color::Blue,
        },
        RenderedChatRow {
            message_index: 3,
            text: "body".to_string(),
            color: Color::Blue,
        },
        RenderedChatRow {
            message_index: 4,
            text: "other".to_string(),
            color: Color::Red,
        },
    ];

    assert_eq!(selected_message_index(&rows, Some(1)), Some(3));
    assert_eq!(selected_message_index(&rows, Some(2)), Some(4));
    assert_eq!(selected_message_index(&rows, Some(9)), None);
}

#[test]
fn flash_notice_area_centers_near_bottom_of_chat_panel() {
    let area = flash_notice_area(
        Rect {
            x: 0,
            y: 0,
            width: 40,
            height: 12,
        },
        "Copied",
    )
    .expect("toast area should exist");

    assert_eq!(area.y, 10);
    assert!(area.x > 0);
    assert!(area.width >= 10);
}

#[test]
fn own_message_uses_right_edge_corners_without_extra_tail_row() {
    let rows = build_chat_rows(&[ChatMessage::Text("[me][12:00] hi".to_string())], 24, "me");

    assert_eq!(rows.len(), 2);
    assert!(rows[0].text.ends_with("You · 12:00 ─╮"));
    assert!(rows[1].text.ends_with("hi ─╯"));
    assert!(rows.iter().all(|row| row.text.width() <= 24));
}

#[test]
fn other_message_uses_left_edge_corners_on_last_body_line() {
    let rows = build_chat_rows(
        &[ChatMessage::Text("[bob][12:00] hi".to_string())],
        24,
        "me",
    );

    assert_eq!(rows.len(), 2);
    assert_eq!(rows[0].text, "╭─ bob · 12:00");
    assert_eq!(rows[1].text, "╰─ hi");
}

#[test]
fn test_normalize_clipboard_rgba_fills_missing_alpha() {
    let raw = vec![10, 20, 30, 0, 40, 50, 60, 0];

    let normalized = normalize_clipboard_rgba(&raw, 2, 1).expect("clipboard rgba should normalize");
    assert_eq!(normalized, vec![10, 20, 30, 255, 40, 50, 60, 255,]);
}

#[test]
fn pasted_images_keep_what_alpha_they_have() {
    let raw = vec![10, 20, 30, 0, 40, 50, 60, 7];
    assert_eq!(normalize_clipboard_rgba(&raw, 2, 1), Ok(raw.clone()));
    assert_eq!(
        normalize_clipboard_rgba(&raw, 3, 1),
        Err(ClipboardError::SizeMismatch { expected: 12, got: 8 })
    );
    assert_eq!(
        ClipboardError::SizeMismatch { expected: 12, got: 8 }.message(),
        "Clipboard image buffer size mismatch: expected 12, got 8"
    );
    assert_eq!(
        normalize_clipboard_rgba(&raw, u32::MAX, u32::MAX),
        Err(ClipboardError::TooLarge)
    );
}

#[test]
fn images_are_encoded_as_png() {
    let png = encode_rgba_as_png(&[1, 2, 3, 255, 4, 5, 6, 255], 2, 1).expect("image should encode");
    assert_eq!(&png[..8], b"\x89PNG\r\n\x1a\n");
    let back = image::load_from_memory(&png).expect("image should decode").to_rgba8();
    assert_eq!(back.into_raw(), vec![1, 2, 3, 255, 4, 5, 6, 255]);
}

fn files(text: &str) -> Vec<bool> {
    clipboard_paths(text).iter().map(|p| std::path::Path::new(p).is_file()).collect()
}

#[test]
fn test_parse_clipboard_file_paths_rejects_mixed_lines() {
    let file = tempfile::NamedTempFile::new().expect("temp file should be created");

    let mixed = format!("{}\nnot-a-real-path", file.path().display());
    assert!(parse_clipboard_file_paths(&mixed, &files(&mixed)).is_none());
}

#[test]
fn test_parse_clipboard_file_paths_accepts_all_valid_absolute_paths() {
    let file_a = tempfile::NamedTempFile::new().expect("temp file A should be created");
    let file_b = tempfile::NamedTempFile::new().expect("temp file B should be created");

    let joined = format!("\"{}\"\n{}", file_a.path().display(), file_b.path().display());
    let parsed = parse_clipboard_file_paths(&joined, &files(&joined))
        .expect("all valid paths should parse");
    assert_eq!(
        parsed,
        vec![
            file_a.path().display().to_string(),
            file_b.path().display().to_string()
        ]
    );
    assert!(parse_clipboard_file_paths("relative.txt", &vec![true]).is_none());
    assert!(parse_clipboard_file_paths(" \n\r\n", &files(" \n\r\n")).is_none());
}

#[test]
fn file_name_defaults_when_missing() {
    assert_eq!(file_name_or_default(""), "attachment.bin");
}

#[test]
fn sanitize_attachment_name_strips_path_traversal() {
    assert_eq!(sanitize_attachment_name("../../evil.txt"), "evil.txt");
}

#[test]
fn names_that_mean_places_are_replaced() {
    assert_eq!(sanitize_attachment_name_with("..", "id"), "attachment.bin");
    assert_eq!(sanitize_attachment_name_with("  ", "id"), "attachment-id.bin");
    assert_eq!(sanitize_attachment_name_with("a:b?.txt", "id"), "a_b_.txt");
    assert_eq!(sanitize_attachment_name_with("a/b/c.txt", "id"), "c.txt");
    assert_eq!(file_name_or_default("/tmp/x/photo.png"), "photo.png");
}

#[test]
fn sizes_are_shown_as_binary_multiples() {
    let shown = |size: u64| match size {
        0..=1023 => format!("{size} B"),
        1024..=1_048_575 => format!("{:.1} KB", size as f64 / 1024.0),
        1_048_576..=1_073_741_823 => format!("{:.1} MB", size as f64 / 1_048_576.0),
        _ => format!("{:.1} GB", size as f64 / 1_073_741_824.0),
    };
    let mut size = 1u64;
    for step in 0..20_000u64 {
        for near in [size.wrapping_sub(1), size, size.wrapping_add(1)] {
            assert_eq!(format_file_size(near), shown(near), "{near}");
        }
        size = size.wrapping_mul(6364136223846793005).wrapping_add(step) >> (step % 40);
    }
    assert_eq!(format_file_size(0), "0 B");
    assert_eq!(format_file_size(1023), "1023 B");
    assert_eq!(format_file_size(1536), "1.5 KB");
    assert_eq!(format_file_size(u64::MAX), shown(u64::MAX));
}

#[test]
fn transfers_are_shown_with_their_progress() {
    let line = render_transfer_line(
        "demo.txt",
        2048,
        TransferDirection::Sending,
        TransferStage::Active,
        1,
        2,
        None,
    );
    assert_eq!(line, "sending 50% | demo.txt | 2.0 KB");
}

#[test]
fn clusters_are_counted_and_split() {
    assert_eq!(cluster_count("e\u{301}a"), 2);
    assert_eq!(
        split_at_cluster("e\u{301}a", 1),
        ("e\u{301}".to_string(), "a".to_string(), 2)
    );
    assert_eq!(align_right("ab", 5), "   ab");
}

#[test]
fn the_selection_follows_the_last_row() {
    assert_eq!(keep_selection(None, 3), Some(2));
    assert_eq!(keep_selection(Some(7), 3), Some(2));
    assert_eq!(keep_selection(Some(1), 3), Some(1));
    assert_eq!(keep_selection(None, 0), None);
    assert!(is_at_bottom(None, 3));
    assert!(is_at_bottom(Some(2), 3));
    assert!(!is_at_bottom(Some(1), 3));
    assert_eq!(follow_selection(Some(0), true, 5), Some(4));
    assert_eq!(follow_selection(Some(0), false, 5), Some(0));
}

#[test]
fn wrapped_lines_fit_and_keep_the_text() {
    let text = "中文 and some words 很多都是";
    for width in 2..12u16 {
        let lines = wrap_graphemes(text, width);
        assert!(lines.iter().all(|l| l.width() <= width as usize));
        assert_eq!(lines.concat(), text);
    }
}

fn areas() -> ScreenAreas {
    ScreenAreas {
        chat: Rect { x: 1, y: 1, width: 40, height: 10 },
        members: Rect { x: 1, y: 11, width: 40, height: 3 },
        transfers: Rect { x: 1, y: 14, width: 40, height: 4 },
        input: Rect { x: 1, y: 18, width: 6, height: 5 },
    }
}

fn two_rows(title: &str) -> Vec<RenderedChatRow> {
    vec![
        RenderedChatRow { message_index: 0, text: title.to_string(), color: Color::Blue },
        RenderedChatRow { message_index: 0, text: "body".to_string(), color: Color::Blue },
    ]
}

#[test]
fn screen_shows_the_conversation_and_its_panels() {
    let members = [
        MemberIdentity { member_id: "1".to_string(), nickname: "alice".to_string() },
        MemberIdentity { member_id: "2".to_string(), nickname: "bob".to_string() },
    ];
    let transfers = vec!["one".to_string(), "two".to_string()];
    let screen = draw_chat(
        areas(),
        &two_rows(" ╭─ alice"),
        &members,
        &transfers,
        "foo bar",
        7,
        "alice",
        "room-a",
        Some("🦊"),
        Some("hello"),
    );
    assert_eq!(screen.title, " Session room-a ");
    assert!(screen.rows[0].bold && !screen.rows[1].bold);
    assert_eq!(screen.rows[1].text, "body");
    let (place, notice) = screen.notice.expect("there is room for the notice");
    assert_eq!(notice, " hello ");
    assert_eq!(place, Rect { x: 16, y: 9, width: 9, height: 1 });
    assert_eq!(screen.members.title, " Members · Verify 🦊 ");
    assert_eq!(screen.members.text, "alice, bob");
    assert_eq!(screen.transfers.title, " Transfers ");
    assert_eq!(screen.transfers.text, "one\ntwo");
    assert_eq!(screen.input.title, " alice · Enter to send · Esc to leave ");
    assert_eq!(screen.input.text, "foo \nbar");
    assert_eq!(screen.cursor, (1 + 1 + 3, 18 + 1 + 1));
}

#[test]
fn empty_screen_shows_stand_ins() {
    let none: Vec<String> = Vec::new();
    let screen = draw_chat(areas(), &[], &[], &none, "", 0, "alice", "room-a", None, Some("  "));
    assert!(screen.rows.is_empty());
    assert!(screen.notice.is_none());
    assert_eq!(screen.members.text, "Waiting for members");
    assert_eq!(screen.members.title, " Members · Verify ... ");
    assert_eq!(screen.transfers.text, "Idle");
    assert_eq!(screen.input.text, "");
    assert_eq!(screen.cursor, (2, 19));
}

#[test]
fn plain_screen_has_texts_of_its_own() {
    let none: Vec<String> = Vec::new();
    let screen = draw_plain_chat(areas(), &two_rows("┌-[alice]"), &[], &none, "ab", 1, "alice", "room-a", None);
    assert_eq!(screen.title, "<Room: room-a>");
    assert!(screen.rows[0].bold && !screen.rows[1].bold);
    assert!(screen.notice.is_none());
    assert_eq!(screen.members.title, "Members | Verify Code: ...");
    assert_eq!(screen.members.text, "<空>");
    assert_eq!(screen.transfers.title, "Transfers");
    assert_eq!(screen.transfers.text, "No active transfers");
    assert_eq!(screen.input.title, "alice >");
    assert_eq!(screen.cursor, (3, 19));
}
