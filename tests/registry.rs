use structure::event::{Event, Identity};
use structure::outbound::Outbox;
use structure::registry::Registry;
use tokio::sync::mpsc::{unbounded_channel, UnboundedReceiver};

const R1: u128 = 0x1111;
const R2: u128 = 0x2222;

fn who(id: u128, name: &str) -> Identity {
    Identity { id, username: name.to_string() }
}

fn queue() -> (Outbox, UnboundedReceiver<String>) {
    let (tx, rx) = unbounded_channel::<String>();
    (Outbox::new(tx), rx)
}

fn drain(rx: &mut UnboundedReceiver<String>) -> Vec<String> {
    let mut got = Vec::new();
    while let Ok(m) = rx.try_recv() {
        got.push(m);
    }
    got
}

fn names(users: &[Identity]) -> Vec<String> {
    users.iter().map(|u| u.username.clone()).collect()
}

fn uuid_of(id: u128) -> String {
    uuid::Uuid::from_u128(id).to_string()
}

fn ident(id: u128, name: &str) -> String {
    format!(r#"{{"id":"{}","username":"{}"}}"#, uuid_of(id), name)
}

fn room_state(users: &[(u128, &str)]) -> String {
    let items: Vec<String> = users.iter().map(|(id, n)| ident(*id, n)).collect();
    format!(r#"{{"type":"room_state","users":[{}]}}"#, items.join(","))
}

fn joined(id: u128, name: &str) -> String {
    format!(r#"{{"type":"user_joined","user":{}}}"#, ident(id, name))
}

fn left(id: u128, name: &str) -> String {
    format!(r#"{{"type":"user_left","user":{}}}"#, ident(id, name))
}

#[test]
fn two_users_join_then_one_disconnects() {
    let mut reg = Registry::new();
    let (o1, mut rx1) = queue();
    let (o2, mut rx2) = queue();

    reg.join(R1, who(1, "u1"), o1);
    assert_eq!(drain(&mut rx1), vec![room_state(&[])]);

    reg.join(R1, who(2, "u2"), o2);
    assert_eq!(drain(&mut rx2), vec![room_state(&[(1, "u1")])]);
    assert_eq!(drain(&mut rx1), vec![joined(2, "u2")]);

    let gone = reg.disconnect(1);
    assert_eq!(gone.map(|u| u.id), Some(1));
    assert_eq!(drain(&mut rx2), vec![left(1, "u1")]);
    assert!(drain(&mut rx1).is_empty());
    assert_eq!(names(&reg.occupants(R1)), vec!["u2"]);
}

#[test]
fn move_notifies_both_rooms() {
    let mut reg = Registry::new();
    let (o1, mut rx1) = queue();
    let (o3, mut rx3) = queue();
    let (o4, mut rx4) = queue();
    reg.join(R1, who(1, "u1"), o1);
    reg.join(R1, who(3, "u3"), o3);
    reg.join(R2, who(4, "u4"), o4);
    drain(&mut rx1);
    drain(&mut rx3);
    drain(&mut rx4);

    let report = reg.change_room(1, Some(R1), R2);
    assert_eq!(report.from, Some(R1));
    assert!(report.as_expected);
    assert_eq!(drain(&mut rx3), vec![left(1, "u1")]);
    assert_eq!(drain(&mut rx4), vec![joined(1, "u1")]);
    assert_eq!(drain(&mut rx1), vec![room_state(&[(4, "u4")])]);
    assert_eq!(reg.room_of(1), Some(R2));
    assert_eq!(names(&reg.occupants(R1)), vec!["u3"]);
    assert_eq!(names(&reg.occupants(R2)), vec!["u4", "u1"]);

    // The mover's own queue still reaches them after the move.
    let (o5, _rx5) = queue();
    reg.join(R2, who(5, "u5"), o5);
    assert_eq!(drain(&mut rx1), vec![joined(5, "u5")]);
}

#[test]
fn move_of_offline_user_changes_nothing() {
    let mut reg = Registry::new();
    let (o2, mut rx2) = queue();
    reg.join(R2, who(2, "u2"), o2);
    drain(&mut rx2);
    let report = reg.change_room(9, Some(R1), R2);
    assert_eq!(report.from, None);
    assert!(!report.as_expected);
    assert!(drain(&mut rx2).is_empty());
    assert_eq!(reg.room_of(9), None);
    assert!(reg.disconnect(9).is_none());
    assert!(drain(&mut rx2).is_empty());
}

#[test]
fn move_with_stale_old_room_still_moves() {
    let mut reg = Registry::new();
    let (o1, _rx1) = queue();
    reg.join(R1, who(1, "u1"), o1);
    let report = reg.change_room(1, None, R2);
    assert_eq!(report.from, Some(R1));
    assert!(!report.as_expected);
    assert_eq!(reg.room_of(1), Some(R2));
    assert!(reg.occupants(R1).is_empty());
}

#[test]
fn leave_of_absent_user_is_no_op() {
    let mut reg = Registry::new();
    let (o1, mut rx1) = queue();
    let (o2, mut rx2) = queue();
    reg.join(R1, who(1, "u1"), o1);
    reg.join(R1, who(2, "u2"), o2);
    drain(&mut rx1);
    drain(&mut rx2);
    assert!(reg.leave(R1, 5).is_none());
    assert!(reg.leave(R2, 1).is_none());
    assert!(drain(&mut rx1).is_empty());
    assert!(drain(&mut rx2).is_empty());
    assert_eq!(reg.room_of(1), Some(R1));
    let gone = reg.leave(R1, 1);
    assert_eq!(gone.map(|u| u.username), Some("u1".to_string()));
    assert_eq!(drain(&mut rx2), vec![left(1, "u1")]);
    assert!(drain(&mut rx1).is_empty());
    assert_eq!(reg.room_of(1), None);
}

#[test]
fn rejoin_keeps_one_record() {
    let mut reg = Registry::new();
    let (o1, mut rx1) = queue();
    let (o2, mut rx2) = queue();
    let (o1b, mut rx1b) = queue();
    reg.join(R1, who(1, "u1"), o1);
    reg.join(R1, who(2, "u2"), o2);
    drain(&mut rx1);
    drain(&mut rx2);
    reg.join(R2, who(1, "u1"), o1b);
    assert_eq!(drain(&mut rx2), vec![left(1, "u1")]);
    assert_eq!(drain(&mut rx1b), vec![room_state(&[])]);
    assert!(drain(&mut rx1).is_empty());
    assert_eq!(reg.room_of(1), Some(R2));
    assert_eq!(names(&reg.occupants(R1)), vec!["u2"]);
}

#[test]
fn closed_queue_does_not_stop_broadcast() {
    let mut reg = Registry::new();
    let (o1, mut rx1) = queue();
    let (o2, rx2) = queue();
    let (o3, mut rx3) = queue();
    reg.join(R1, who(1, "u1"), o1);
    reg.join(R1, who(2, "u2"), o2);
    reg.join(R1, who(3, "u3"), o3);
    drain(&mut rx1);
    drain(&mut rx3);
    drop(rx2);
    let (o4, mut rx4) = queue();
    reg.join(R1, who(4, "u4"), o4);
    assert_eq!(drain(&mut rx4), vec![room_state(&[(1, "u1"), (2, "u2"), (3, "u3")])]);
    assert_eq!(drain(&mut rx1), vec![joined(4, "u4")]);
    assert_eq!(drain(&mut rx3), vec![joined(4, "u4")]);
}

#[test]
fn nobody_hears_about_themselves() {
    let mut reg = Registry::new();
    let mut rxs = Vec::new();
    for id in 1..=4u128 {
        let (o, rx) = queue();
        reg.join(R1, who(id, &format!("u{}", id)), o);
        rxs.push(rx);
    }
    reg.change_room(2, Some(R1), R2);
    reg.disconnect(3);
    for (k, rx) in rxs.iter_mut().enumerate() {
        let id = k as u128 + 1;
        let mine = uuid_of(id);
        for m in drain(rx) {
            if m.contains("user_joined") || m.contains("user_left") {
                assert!(!m.contains(&mine), "user {} told about themselves: {}", id, m);
            }
        }
    }
}

#[test]
fn each_user_in_at_most_one_room() {
    let mut reg = Registry::new();
    for id in 1..=3u128 {
        let (o, _rx) = queue();
        reg.join(R1, who(id, "x"), o);
    }
    reg.change_room(1, Some(R1), R2);
    let (o, _rx) = queue();
    reg.join(R2, who(2, "x"), o);
    reg.leave(R1, 3);
    let mut ids: Vec<u128> = reg.occupants(R1).iter().chain(reg.occupants(R2).iter()).map(|u| u.id).collect();
    ids.sort();
    assert_eq!(ids, vec![1, 2]);
    assert_eq!(reg.room_of(2), Some(R2));
}

#[test]
fn broadcast_message_skips_one_occupant() {
    let mut reg = Registry::new();
    let (o1, mut rx1) = queue();
    let (o2, mut rx2) = queue();
    let (o3, mut rx3) = queue();
    reg.join(R1, who(1, "u1"), o1);
    reg.join(R1, who(2, "u2"), o2);
    reg.join(R2, who(3, "u3"), o3);
    drain(&mut rx1);
    drain(&mut rx2);
    drain(&mut rx3);
    reg.broadcast_message(R1, 2, &Event::UserLeft(who(9, "nine")));
    assert_eq!(drain(&mut rx1), vec![left(9, "nine")]);
    assert!(drain(&mut rx2).is_empty());
    assert!(drain(&mut rx3).is_empty());
}
