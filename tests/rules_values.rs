use game_server::rules::{
    color_for, direction_from_key, player_id_for, spawn_position, step, Direction, MAX_X, MAX_Y,
};

#[test]
fn keys_map_to_directions() {
    assert_eq!(direction_from_key("w"), Some(Direction::Up));
    assert_eq!(direction_from_key("a"), Some(Direction::Left));
    assert_eq!(direction_from_key("s"), Some(Direction::Down));
    assert_eq!(direction_from_key("d"), Some(Direction::Right));
    assert_eq!(direction_from_key("x"), None);
    assert_eq!(direction_from_key(""), None);
    assert_eq!(direction_from_key("dd"), None);
    assert_eq!(direction_from_key("D"), None);
}

#[test]
fn step_moves_by_speed() {
    assert_eq!(step(100, 100, Direction::Right), (105, 100));
    assert_eq!(step(100, 100, Direction::Left), (95, 100));
    assert_eq!(step(100, 100, Direction::Up), (100, 95));
    assert_eq!(step(100, 100, Direction::Down), (100, 105));
}

#[test]
fn step_right_near_edge_is_clamped() {
    let x = MAX_X - 5 + 1;
    let (nx, ny) = step(x, 10, Direction::Right);
    assert!(nx <= MAX_X);
    assert_eq!(nx, MAX_X);
    assert_eq!(ny, 10);
    assert_eq!(step(MAX_X, 10, Direction::Right), (MAX_X, 10));
}

#[test]
fn step_left_and_up_stop_at_zero() {
    assert_eq!(step(3, 10, Direction::Left), (0, 10));
    assert_eq!(step(0, 10, Direction::Left), (0, 10));
    assert_eq!(step(10, 4, Direction::Up), (10, 0));
    assert_eq!(step(10, 0, Direction::Up), (10, 0));
}

#[test]
fn step_down_near_edge_is_clamped() {
    let y = MAX_Y - 5 + 1;
    assert_eq!(step(10, y, Direction::Down), (10, MAX_Y));
    assert_eq!(step(10, MAX_Y, Direction::Down), (10, MAX_Y));
}

#[test]
fn canvas_limits() {
    assert_eq!(MAX_X, 750);
    assert_eq!(MAX_Y, 550);
}

#[test]
fn spawn_is_derived_from_port() {
    assert_eq!(spawn_position(1200), (100, 100));
    assert_eq!(spawn_position(54321), (100 + 54321 % 400, 100 + 54321 % 300));
    assert_eq!(spawn_position(399), (499, 199));
    assert_eq!(spawn_position(299), (399, 399));
}

#[test]
fn color_comes_from_palette() {
    assert_eq!(color_for(1200), "#FF0000");
    assert_eq!(color_for(1), "#00FF00");
    assert_eq!(color_for(2), "#0000FF");
    assert_eq!(color_for(3), "#FFFF00");
    assert_eq!(color_for(4), "#FF00FF");
    assert_eq!(color_for(5), "#00FFFF");
    assert_eq!(color_for(6), "#FF0000");
}

#[test]
fn player_id_names_the_port() {
    assert_eq!(player_id_for(8080), "player_8080");
    assert_eq!(player_id_for(0), "player_0");
    assert_eq!(player_id_for(7), "player_7");
    assert_eq!(player_id_for(65535), "player_65535");
    assert_eq!(player_id_for(1200), "player_1200");
}
