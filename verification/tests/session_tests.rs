use chat_core::bus::EventBus;
use chat_core::session::{is_media, Chat, Msg};

const USERS_FRAME: &str = "{\"messageType\":\"users\",\"dataArray\":[\"alice\",\"bob\"],\"data\":null}";
const MESSAGE_FRAME: &str = "{\"messageType\":\"message\",\"dataArray\":null,\"data\":\"{\\\"from\\\":\\\"alice\\\",\\\"message\\\":\\\"hi\\\"}\"}";

fn fresh() -> Chat {
    let (chat, _frame) = Chat::create("carol");
    chat
}

#[test]
fn create_starts_empty_and_registers() {
    let (chat, frame) = Chat::create("alice");
    assert_eq!(chat.users.len(), 0);
    assert_eq!(chat.messages.len(), 0);
    assert!(!chat.dark_mode);
    assert_eq!(frame, "{\"messageType\":\"register\",\"dataArray\":null,\"data\":\"alice\"}");
}

#[test]
fn scenario_users_snapshot() {
    let mut chat = fresh();
    let (redraw, out) = chat.update(Msg::HandleMsg(USERS_FRAME.to_string()));
    assert!(redraw);
    assert!(out.is_none());
    assert_eq!(chat.users.len(), 2);
    assert_eq!(chat.users[0].name, "alice");
    assert_eq!(chat.users[1].name, "bob");
    assert_eq!(chat.users[0].avatar, "https://api.dicebear.com/9.x/notionists-neutral/svg");
    assert_eq!(chat.users[1].avatar, chat.users[0].avatar);
}

#[test]
fn scenario_message_appended() {
    let mut chat = fresh();
    chat.update(Msg::HandleMsg(USERS_FRAME.to_string()));
    let (redraw, out) = chat.update(Msg::HandleMsg(MESSAGE_FRAME.to_string()));
    assert!(redraw);
    assert!(out.is_none());
    assert_eq!(chat.messages.len(), 1);
    assert_eq!(chat.messages[0].from, "alice");
    assert_eq!(chat.messages[0].message, "hi");
}

#[test]
fn scenario_submit_outbound() {
    let mut chat = fresh();
    let (redraw, out) = chat.update(Msg::SubmitMessage("yo".to_string()));
    assert!(!redraw);
    assert_eq!(
        out.unwrap_or_else(|| panic!("submit must hand a frame to the channel")),
        "{\"messageType\":\"message\",\"dataArray\":null,\"data\":\"yo\"}"
    );
    assert_eq!(chat.users.len(), 0);
    assert_eq!(chat.messages.len(), 0);
}

#[test]
fn inbound_register_is_noop() {
    let mut chat = fresh();
    chat.update(Msg::HandleMsg(USERS_FRAME.to_string()));
    let frame = "{\"messageType\":\"register\",\"dataArray\":null,\"data\":\"mallory\"}";
    let (redraw, out) = chat.update(Msg::HandleMsg(frame.to_string()));
    assert!(!redraw);
    assert!(out.is_none());
    assert_eq!(chat.users.len(), 2);
    assert_eq!(chat.messages.len(), 0);
}

#[test]
fn unrecognized_kind_is_noop() {
    let mut chat = fresh();
    chat.update(Msg::HandleMsg(USERS_FRAME.to_string()));
    let frame = "{\"messageType\":\"typing\",\"dataArray\":null,\"data\":\"alice\"}";
    let (redraw, out) = chat.update(Msg::HandleMsg(frame.to_string()));
    assert!(!redraw);
    assert!(out.is_none());
    assert_eq!(chat.users.len(), 2);
    assert_eq!(chat.messages.len(), 0);
}

#[test]
fn malformed_frame_between_valid_frames() {
    let mut chat = fresh();
    let (r1, _) = chat.update(Msg::HandleMsg(MESSAGE_FRAME.to_string()));
    let (r2, out2) = chat.update(Msg::HandleMsg("{{{ not a frame".to_string()));
    let (r3, _) = chat.update(Msg::HandleMsg(
        "{\"messageType\":\"message\",\"dataArray\":null,\"data\":\"{\\\"from\\\":\\\"bob\\\",\\\"message\\\":\\\"still here\\\"}\"}"
            .to_string(),
    ));
    assert!(r1 && !r2 && r3);
    assert!(out2.is_none());
    assert_eq!(chat.messages.len(), 2);
    assert_eq!(chat.messages[0].from, "alice");
    assert_eq!(chat.messages[0].message, "hi");
    assert_eq!(chat.messages[1].from, "bob");
    assert_eq!(chat.messages[1].message, "still here");
}

#[test]
fn roster_is_replaced_not_merged() {
    let mut chat = fresh();
    chat.update(Msg::HandleMsg(USERS_FRAME.to_string()));
    chat.update(Msg::HandleMsg(
        "{\"messageType\":\"users\",\"dataArray\":[\"dave\"],\"data\":null}".to_string(),
    ));
    assert_eq!(chat.users.len(), 1);
    assert_eq!(chat.users[0].name, "dave");
}

#[test]
fn users_null_array_empties_roster() {
    let mut chat = fresh();
    chat.update(Msg::HandleMsg(USERS_FRAME.to_string()));
    let (redraw, _) = chat.update(Msg::HandleMsg(
        "{\"messageType\":\"users\",\"dataArray\":null,\"data\":null}".to_string(),
    ));
    assert!(redraw);
    assert_eq!(chat.users.len(), 0);
}

#[test]
fn message_without_payload_is_skipped() {
    let mut chat = fresh();
    let (redraw, out) = chat.update(Msg::HandleMsg(
        "{\"messageType\":\"message\",\"dataArray\":null,\"data\":null}".to_string(),
    ));
    assert!(!redraw);
    assert!(out.is_none());
    assert_eq!(chat.messages.len(), 0);
}

#[test]
fn message_with_malformed_entry_is_skipped() {
    let mut chat = fresh();
    let (redraw, out) = chat.update(Msg::HandleMsg(
        "{\"messageType\":\"message\",\"dataArray\":null,\"data\":\"oops\"}".to_string(),
    ));
    assert!(!redraw);
    assert!(out.is_none());
    assert_eq!(chat.messages.len(), 0);
}

#[test]
fn media_classification() {
    assert!(is_media("party.gif"));
    assert!(!is_media("hello"));
    assert!(is_media(".gif"));
    assert!(!is_media("gif"));
    assert!(!is_media("party.gift"));
}

#[test]
fn toggle_dark_mode_flips_theme_only() {
    let mut chat = fresh();
    let (r1, o1) = chat.update(Msg::ToggleDarkMode);
    assert!(r1 && o1.is_none() && chat.dark_mode);
    let (r2, o2) = chat.update(Msg::ToggleDarkMode);
    assert!(r2 && o2.is_none() && !chat.dark_mode);
    assert_eq!(chat.users.len(), 0);
    assert_eq!(chat.messages.len(), 0);
}

#[test]
fn bus_delivers_in_order_at_most_once() {
    let mut bus = EventBus::new();
    bus.publish("first".to_string());
    bus.publish("second".to_string());
    assert_eq!(bus.take(), Some("first".to_string()));
    bus.publish("third".to_string());
    assert_eq!(bus.take(), Some("second".to_string()));
    assert_eq!(bus.take(), Some("third".to_string()));
    assert_eq!(bus.take(), None);
}

#[test]
fn history_keeps_arrival_order() {
    let mut chat = fresh();
    for name in ["a", "b", "c"] {
        let frame = format!(
            "{{\"messageType\":\"message\",\"dataArray\":null,\"data\":\"{{\\\"from\\\":\\\"{}\\\",\\\"message\\\":\\\"m-{}\\\"}}\"}}",
            name, name
        );
        chat.update(Msg::HandleMsg(frame));
    }
    assert_eq!(chat.messages.len(), 3);
    assert_eq!(chat.messages[0].from, "a");
    assert_eq!(chat.messages[1].from, "b");
    assert_eq!(chat.messages[2].from, "c");
    assert_eq!(chat.messages[2].message, "m-c");
}
