use digsite::error::GameError;
use digsite::geometry::Point;
use digsite::lifecycle::{direction_offset, init_user, move_player, new_game, BONE_COUNT};
use digsite::state::{Connection, ConnectionQueryString, DiscordUser, Parties, Party};
use rand::rngs::StdRng;
use rand::SeedableRng;

fn sorted(mut v: Vec<String>) -> Vec<String> {
    v.sort();
    v
}

#[test]
fn last_player_leaving_removes_the_room() {
    let mut parties = Parties::new();
    parties.ensure_party("R".to_string(), "A".to_string());
    assert!(parties.on_player_left("R".to_string(), "A".to_string()));
    assert!(parties.get("R".to_string()).is_none());
}

#[test]
fn other_players_keep_the_room() {
    let mut parties = Parties::new();
    parties.ensure_party("R".to_string(), "A".to_string());
    parties.ensure_party("R".to_string(), "B".to_string());
    assert!(!parties.on_player_left("R".to_string(), "A".to_string()));
    let party = parties.get("R".to_string()).unwrap();
    assert_eq!(party.players(), vec!["B".to_string()]);
    assert_eq!(party.id(), "R");
}

#[test]
fn two_players_join_then_leave() {
    let mut parties = Parties::new();
    parties.ensure_party("abc".to_string(), "ana".to_string());
    parties.ensure_party("abc".to_string(), "ben".to_string());
    let party = parties.get("abc".to_string()).unwrap();
    assert_eq!(sorted(party.players()), vec!["ana".to_string(), "ben".to_string()]);
    assert!(!parties.on_player_left("abc".to_string(), "ana".to_string()));
    assert_eq!(parties.get("abc".to_string()).unwrap().players(), vec!["ben".to_string()]);
    assert!(parties.on_player_left("abc".to_string(), "ben".to_string()));
    assert!(parties.get("abc".to_string()).is_none());
}

#[test]
fn ensure_party_is_idempotent() {
    let mut parties = Parties::new();
    parties.ensure_party("R".to_string(), "A".to_string());
    parties.ensure_party("R".to_string(), "A".to_string());
    let party = parties.get("R".to_string()).unwrap();
    assert_eq!(party.players(), vec!["A".to_string()]);
    assert!(party.has_player(&"A".to_string()));
    assert!(!party.has_player(&"B".to_string()));
}

#[test]
fn leaving_an_unknown_room_changes_nothing() {
    let mut parties = Parties::new();
    parties.ensure_party("R".to_string(), "A".to_string());
    assert!(!parties.on_player_left("S".to_string(), "A".to_string()));
    assert!(!parties.on_player_left("R".to_string(), "B".to_string()));
    assert_eq!(parties.get("R".to_string()).unwrap().players(), vec!["A".to_string()]);
}

#[test]
fn add_party_replaces_a_room() {
    let mut parties = Parties::new();
    parties.ensure_party("R".to_string(), "A".to_string());
    parties.add_party(Party::new("R".to_string()));
    assert!(parties.get("R".to_string()).unwrap().players().is_empty());
}

#[test]
fn rooms_share_their_board() {
    let mut parties = Parties::new();
    parties.ensure_party("R".to_string(), "A".to_string());
    let mut rng = StdRng::seed_from_u64(8);
    {
        let first = parties.get("R".to_string()).unwrap();
        let guard = first.game();
        let mut slot = guard.lock().unwrap();
        init_user(&mut slot, &mut rng, "A".to_string()).unwrap();
    }
    let again = parties.get("R".to_string()).unwrap();
    let guard = again.game();
    let slot = guard.lock().unwrap();
    assert_eq!(slot.as_ref().unwrap().output()[5][5], "A");
}

#[test]
fn direction_tokens() {
    assert_eq!(direction_offset(&"up".to_string()), Some(Point { x: 0, y: -1 }));
    assert_eq!(direction_offset(&"down".to_string()), Some(Point { x: 0, y: 1 }));
    assert_eq!(direction_offset(&"left".to_string()), Some(Point { x: -1, y: 0 }));
    assert_eq!(direction_offset(&"right".to_string()), Some(Point { x: 1, y: 0 }));
    assert_eq!(direction_offset(&"Up".to_string()), None);
    assert_eq!(direction_offset(&"".to_string()), None);
}

#[test]
fn moving_without_a_board_fails() {
    let mut slot = None;
    assert_eq!(move_player(&mut slot, "A".to_string(), Point { x: 1, y: 0 }), Err(GameError::MissingBoard));
    assert!(slot.is_none());
}

#[test]
fn first_join_generates_and_later_joins_add() {
    let mut rng = StdRng::seed_from_u64(11);
    let mut slot = None;
    init_user(&mut slot, &mut rng, "A".to_string()).unwrap();
    let before = slot.as_ref().unwrap().output();
    init_user(&mut slot, &mut rng, "B".to_string()).unwrap();
    let ds = slot.as_ref().unwrap();
    assert_eq!(ds.player_positions().len(), 2);
    assert_eq!(ds.output()[5][5], "B");
    assert_eq!(before[5][5], "A");
    move_player(&mut slot, "A".to_string(), Point { x: 1, y: 0 }).unwrap();
    let moved = slot.as_ref().unwrap().player_positions();
    assert_eq!(moved[0].1, Point { x: 6, y: 5 });
}

#[test]
fn new_game_places_the_roster_at_spawn() {
    let mut rng = StdRng::seed_from_u64(12);
    let mut slot = None;
    init_user(&mut slot, &mut rng, "A".to_string()).unwrap();
    move_player(&mut slot, "A".to_string(), Point { x: 0, y: 1 }).unwrap();
    new_game(&mut slot, &mut rng, &vec!["A".to_string(), "B".to_string()]).unwrap();
    let ds = slot.as_ref().unwrap();
    let ps = ds.player_positions();
    assert_eq!(ps.len(), 2);
    assert!(ps.iter().all(|(_, p)| *p == Point { x: 5, y: 5 }));
    let mut hazards = 0;
    for y in 0..10 {
        for x in 0..10 {
            if ds.get(Point { x, y }) == Some(digsite::digsites::Cell::Bone) {
                hazards += 1;
            }
        }
    }
    assert_eq!(hazards, BONE_COUNT);
}

#[test]
fn connection_values() {
    let qs = ConnectionQueryString::new("room-1".to_string(), "tok".to_string());
    assert_eq!(qs.bearer_token(), "Bearer tok");
    let user = DiscordUser {
        id: "42".to_string(),
        username: "digger".to_string(),
        global_name: None,
        avatar: None,
    };
    assert_eq!(user.name(), "digger");
    let named = DiscordUser { global_name: Some("Dig".to_string()), ..user.clone() };
    assert_eq!(named.name(), "Dig");
    let conn = Connection::new(qs, user);
    assert_eq!(conn.room(), "room-1");
    assert_eq!(conn.user.id, "42");
}

#[test]
fn joining_an_existing_room_keeps_its_board() {
    let mut parties = Parties::new();
    parties.ensure_party("R".to_string(), "A".to_string());
    let mut rng = StdRng::seed_from_u64(21);
    let before = {
        let party = parties.get("R".to_string()).unwrap();
        let guard = party.game();
        let mut slot = guard.lock().unwrap();
        init_user(&mut slot, &mut rng, "A".to_string()).unwrap();
        slot.as_ref().unwrap().output()
    };
    parties.ensure_party("R".to_string(), "B".to_string());
    assert!(!parties.on_player_left("R".to_string(), "B".to_string()));
    let party = parties.get("R".to_string()).unwrap();
    let guard = party.game();
    let slot = guard.lock().unwrap();
    assert_eq!(slot.as_ref().unwrap().output(), before);
}
