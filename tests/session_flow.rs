use game_server::registry::Registry;
use game_server::session::{Action, ClientMessage, Event, Phase, Session};
use game_server::world::GameState;

fn mv(d: &str) -> Event {
    Event::Received(ClientMessage::Move { direction: d.to_string() })
}

fn pos(w: &GameState, id: &str) -> Option<(u32, u32)> {
    w.get(&id.to_string()).map(|p| (p.x, p.y))
}

#[test]
fn join_creates_player_and_entry() {
    let mut w = GameState::new();
    let mut r: Registry<u32> = Registry::new();
    let s = Session::join(&mut w, &mut r, 9, 1200, 77);
    assert_eq!(s.phase, Phase::Connecting);
    assert_eq!(s.conn, 9);
    assert_eq!(s.player_id, "player_1200");
    let p = w.get(&"player_1200".to_string()).unwrap();
    assert_eq!((p.x, p.y), (100, 100));
    assert_eq!(p.color, "#FF0000");
    assert!(r.contains(9));
    assert_eq!(r.entry_at(0), (9, &77));
}

#[test]
fn join_then_five_right_moves_and_second_join_sees_both() {
    let mut w = GameState::new();
    let mut r: Registry<u32> = Registry::new();
    let mut a = Session::join(&mut w, &mut r, 1, 1200, 0);
    assert_eq!(a.on_event(&mut w, &mut r, Event::InitialSent), Action::Broadcast);
    assert_eq!(a.phase, Phase::Active);
    for _ in 0..5 {
        assert_eq!(a.on_event(&mut w, &mut r, mv("d")), Action::Broadcast);
    }
    assert_eq!(pos(&w, "player_1200"), Some((125, 100)));
    let _b = Session::join(&mut w, &mut r, 2, 1201, 0);
    let initial = w.snapshot();
    assert_eq!(initial.len(), 2);
    assert_eq!(pos(&initial, "player_1200"), Some((125, 100)));
    assert_eq!(pos(&initial, "player_1201"), Some((101, 101)));
    assert_eq!(initial.get(&"player_1201".to_string()).unwrap().color, "#00FF00");
}

#[test]
fn departure_leaves_only_the_other_player() {
    let mut w = GameState::new();
    let mut r: Registry<u32> = Registry::new();
    let mut a = Session::join(&mut w, &mut r, 1, 1200, 10);
    a.on_event(&mut w, &mut r, Event::InitialSent);
    let mut b = Session::join(&mut w, &mut r, 2, 1201, 20);
    b.on_event(&mut w, &mut r, Event::InitialSent);
    assert_eq!(a.on_event(&mut w, &mut r, Event::InboundClosed), Action::BroadcastAndStop);
    assert_eq!(a.phase, Phase::Closed);
    let snap = w.snapshot();
    assert_eq!(snap.len(), 1);
    assert!(snap.contains(&"player_1201".to_string()));
    assert!(!snap.contains(&"player_1200".to_string()));
    assert_eq!(r.len(), 1);
    assert!(!r.contains(1));
    assert_eq!(r.entry_at(0), (2, &20));
}

#[test]
fn closed_session_ignores_later_events() {
    let mut w = GameState::new();
    let mut r: Registry<u32> = Registry::new();
    let mut a = Session::join(&mut w, &mut r, 1, 1200, 10);
    a.on_event(&mut w, &mut r, Event::InitialSent);
    assert_eq!(a.on_event(&mut w, &mut r, Event::OutboundFailed), Action::BroadcastAndStop);
    let mut b = Session::join(&mut w, &mut r, 2, 1201, 20);
    b.on_event(&mut w, &mut r, Event::InitialSent);
    assert_eq!(a.on_event(&mut w, &mut r, mv("d")), Action::Idle);
    assert_eq!(a.on_event(&mut w, &mut r, Event::InboundClosed), Action::Idle);
    assert!(!w.contains(&"player_1200".to_string()));
    assert_eq!(pos(&w, "player_1201"), Some((101, 101)));
    assert!(r.contains(2));
}

#[test]
fn join_message_and_bad_frames_are_ignored() {
    let mut w = GameState::new();
    let mut r: Registry<u32> = Registry::new();
    let mut a = Session::join(&mut w, &mut r, 1, 1200, 0);
    a.on_event(&mut w, &mut r, Event::InitialSent);
    assert_eq!(a.on_event(&mut w, &mut r, Event::Received(ClientMessage::Join)), Action::Idle);
    assert_eq!(a.on_event(&mut w, &mut r, Event::DecodeFailed), Action::Idle);
    assert_eq!(a.on_event(&mut w, &mut r, mv("q")), Action::Broadcast);
    assert_eq!(a.phase, Phase::Active);
    assert_eq!(pos(&w, "player_1200"), Some((100, 100)));
}

#[test]
fn moves_before_initial_snapshot_are_ignored() {
    let mut w = GameState::new();
    let mut r: Registry<u32> = Registry::new();
    let mut a = Session::join(&mut w, &mut r, 1, 1200, 0);
    assert_eq!(a.on_event(&mut w, &mut r, mv("d")), Action::Idle);
    assert_eq!(pos(&w, "player_1200"), Some((100, 100)));
    assert_eq!(a.on_event(&mut w, &mut r, Event::InboundClosed), Action::BroadcastAndStop);
    assert_eq!(w.len(), 0);
    assert_eq!(r.len(), 0);
}

#[test]
fn moves_from_two_sessions_are_both_kept() {
    let mut w = GameState::new();
    let mut r: Registry<u32> = Registry::new();
    let mut a = Session::join(&mut w, &mut r, 1, 1200, 0);
    let mut b = Session::join(&mut w, &mut r, 2, 2401, 0);
    a.on_event(&mut w, &mut r, Event::InitialSent);
    b.on_event(&mut w, &mut r, Event::InitialSent);
    for _ in 0..3 {
        a.on_event(&mut w, &mut r, mv("s"));
        b.on_event(&mut w, &mut r, mv("a"));
    }
    assert_eq!(pos(&w, "player_1200"), Some((100, 115)));
    assert_eq!(pos(&w, "player_2401"), Some((100 + 2401 % 400 - 15, 100 + 2401 % 300)));
}

#[test]
fn same_port_joins_get_distinct_ids() {
    let mut w = GameState::new();
    let mut r: Registry<u32> = Registry::new();
    let a = Session::join(&mut w, &mut r, 1, 1200, 10);
    let b = Session::join(&mut w, &mut r, 2, 1200, 20);
    assert_eq!(a.player_id, "player_1200");
    assert_eq!(b.player_id, "player_1200_2");
    assert_eq!(w.len(), 2);
    let c = Session::join(&mut w, &mut r, 2, 1200, 30);
    assert_eq!(c.player_id, "player_1200_2_");
    assert_eq!(w.len(), 3);
}

#[test]
fn departure_of_one_same_port_connection_keeps_the_other() {
    let mut w = GameState::new();
    let mut r: Registry<u32> = Registry::new();
    let mut a = Session::join(&mut w, &mut r, 1, 1200, 10);
    a.on_event(&mut w, &mut r, Event::InitialSent);
    let mut b = Session::join(&mut w, &mut r, 2, 1200, 20);
    b.on_event(&mut w, &mut r, Event::InitialSent);
    a.on_event(&mut w, &mut r, Event::InboundClosed);
    assert_eq!(w.len(), 1);
    assert!(w.contains(&b.player_id));
    assert!(r.contains(2) && !r.contains(1));
    b.on_event(&mut w, &mut r, mv("d"));
    assert_eq!(pos(&w, "player_1200_2"), Some((105, 100)));
}
