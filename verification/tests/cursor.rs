use maleme::cursor::{
    join_path, resolve_cursor_root_dir, user_messages, CursorBubble, CursorChatData, CursorChatTab,
    CursorText, Platform,
};
use maleme::{AdapterKind, CursorAdapter};

fn bubble(kind: &str, text: Option<&str>) -> CursorBubble {
    CursorBubble {
        bubble_type: kind.to_owned(),
        text: match text {
            Some(t) => CursorText::Text(t.to_owned()),
            None => CursorText::Null(()),
        },
    }
}

#[test]
fn extracts_user_bubbles_from_chat_data() {
    let chat = CursorChatData {
        tabs: vec![CursorChatTab {
            last_send_time: 1736258828015,
            bubbles: vec![
                bubble("user", Some(" first ")),
                bubble("assistant", Some("skip")),
                bubble("user", None),
                bubble("user", Some("second")),
            ],
        }],
    };
    let messages = user_messages(chat);
    assert_eq!(messages.len(), 2);
    assert_eq!(messages[0].text, "first");
    assert_eq!(messages[0].time, 1736258828015);
    assert_eq!(format!("{:?}", messages[0].adapter), "Cursor");
    assert_eq!(messages[1].text, "second");
    assert_eq!(messages[1].adapter, AdapterKind::Cursor);
}

#[test]
fn messages_keep_tab_order_and_skip_blank_text() {
    let chat = CursorChatData {
        tabs: vec![
            CursorChatTab { last_send_time: 5, bubbles: vec![bubble("user", Some("  ")), bubble("user", Some("a"))] },
            CursorChatTab { last_send_time: 0, bubbles: vec![] },
            CursorChatTab { last_send_time: 3, bubbles: vec![bubble("User", Some("no")), bubble("user", Some("b\n"))] },
        ],
    };
    let messages = user_messages(chat);
    assert_eq!(messages.len(), 2);
    assert_eq!((messages[0].text.as_str(), messages[0].time), ("a", 5));
    assert_eq!((messages[1].text.as_str(), messages[1].time), ("b", 3));
}

#[test]
fn cursor_text_defaults_to_null() {
    assert_eq!(CursorText::default().into_string(), "");
    assert_eq!(CursorText::Text("x".to_owned()).into_string(), "x");
}

#[test]
fn storage_paths_under_the_root() {
    let adapter = CursorAdapter::from_path("/tmp/cursor", Platform::Other);
    assert_eq!(adapter.root_dir(), "/tmp/cursor");
    assert_eq!(adapter.workspace_storage_dir(), "/tmp/cursor/User/workspaceStorage");
    assert_eq!(adapter.global_storage_db_path(), "/tmp/cursor/User/globalStorage/state.vscdb");
    let adapter = CursorAdapter::from_path("C:\\data\\", Platform::Windows);
    assert_eq!(adapter.workspace_storage_dir(), "C:\\data\\User\\workspaceStorage");
}

#[test]
fn root_dir_per_platform() {
    assert_eq!(
        CursorAdapter::new("/Users/me", Platform::MacOs, None, None).root_dir(),
        "/Users/me/Library/Application Support/Cursor"
    );
    assert_eq!(CursorAdapter::new("/home/me", Platform::Other, None, None).root_dir(), "/home/me/.config/Cursor");
    assert_eq!(
        CursorAdapter::new("/home/me", Platform::Other, Some("ignored"), Some("/xdg")).root_dir(),
        "/xdg/Cursor"
    );
    assert_eq!(
        resolve_cursor_root_dir("C:\\Users\\me", Platform::Windows, None, None),
        "C:\\Users\\me\\AppData\\Roaming\\Cursor"
    );
    assert_eq!(
        resolve_cursor_root_dir("C:\\Users\\me", Platform::Windows, Some("D:\\AppData"), Some("/xdg")),
        "D:\\AppData\\Cursor"
    );
    assert_eq!(join_path("", "Cursor", Platform::Other), "Cursor");
    assert_eq!(join_path("a/", "b", Platform::Other), "a/b");
    assert_eq!(join_path("a\\", "b", Platform::Other), "a\\/b");
    assert_eq!(join_path("C:", "x", Platform::Windows), "C:x");
    assert_eq!(join_path("C:", "x", Platform::Other), "C:/x");
    assert_eq!(join_path("1:", "x", Platform::Windows), "1:\\x");
    assert_eq!(join_path("a/", "b", Platform::Windows), "a/b");
}
