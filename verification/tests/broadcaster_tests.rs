use rsgo::message_broadcaster::MessageBroadcaster;
use rsgo::messages::ServerMessage;

fn connected(ids: &[&str]) -> MessageBroadcaster {
    let mut b = MessageBroadcaster::new();
    for id in ids {
        b.add_connection(id.to_string());
    }
    b
}

#[test]
fn a_lobby_message_reaches_its_connected_members() {
    let mut b = connected(&["a", "b", "c"]);
    b.add_player_to_lobby("l", "a");
    b.add_player_to_lobby("l", "b");
    b.add_player_to_lobby("l", "z");
    b.add_player_to_lobby("other", "c");
    let d = b.broadcast_to_lobby("l", ServerMessage::MapReset, None);
    assert_eq!(d.recipients, vec!["a".to_string(), "b".to_string()]);
    let d = b.broadcast_to_lobby("l", ServerMessage::MapReset, Some("a"));
    assert_eq!(d.recipients, vec!["b".to_string()]);
    let d = b.broadcast_to_lobby("nowhere", ServerMessage::MapReset, None);
    assert!(d.recipients.is_empty());
}

#[test]
fn a_member_is_listed_once() {
    let mut b = connected(&["a"]);
    b.add_player_to_lobby("l", "a");
    b.add_player_to_lobby("l", "a");
    let d = b.broadcast_to_lobby("l", ServerMessage::MapReset, None);
    assert_eq!(d.recipients.len(), 1);
}

#[test]
fn a_member_who_left_no_longer_receives() {
    let mut b = connected(&["a", "b"]);
    b.add_player_to_lobby("l", "a");
    b.add_player_to_lobby("l", "b");
    b.remove_player_from_lobby("l", "a");
    let d = b.broadcast_to_lobby("l", ServerMessage::MapReset, None);
    assert_eq!(d.recipients, vec!["b".to_string()]);
    b.remove_player_from_lobby("l", "b");
    b.add_player_to_lobby("l", "a");
    let d = b.broadcast_to_lobby("l", ServerMessage::MapReset, None);
    assert_eq!(d.recipients, vec!["a".to_string()]);
}

#[test]
fn a_broadcast_reaches_every_connection_but_the_excluded() {
    let mut b = connected(&["a", "b", "a"]);
    let d = b.broadcast_message(ServerMessage::BombExploded, Some("b"));
    assert_eq!(d.recipients, vec!["a".to_string()]);
    b.remove_connection("a");
    let d = b.broadcast_message(ServerMessage::BombExploded, None);
    assert_eq!(d.recipients, vec!["b".to_string()]);
}

#[test]
fn a_direct_message_reaches_only_a_connected_player() {
    let b = connected(&["a"]);
    let d = b.send_to_player("a", ServerMessage::MapReset);
    assert_eq!(d.recipients, vec!["a".to_string()]);
    let d = b.send_to_player("b", ServerMessage::MapReset);
    assert!(d.recipients.is_empty());
}

#[test]
fn a_disconnected_member_is_skipped() {
    let mut b = connected(&["a", "b"]);
    b.add_player_to_lobby("l", "a");
    b.add_player_to_lobby("l", "b");
    b.remove_connection("b");
    let d = b.broadcast_to_lobby("l", ServerMessage::MapReset, None);
    assert_eq!(d.recipients, vec!["a".to_string()]);
}
