use rscast::clock::{elapsed, tick};
use rscast::fixed::{rotate, Turn, Vec2, UNIT};
use rscast::map::{MapError, Rgb, Space, TileMap};
use rscast::player::{Action, Direction, Player};
use rscast::settings::Settings;
use rscast::world::{shade, strip, Side, Strip, World};

const MAP_STR: &str = "111111111111111111111111
100000000000000000000001
100000000000000000000001
100000000000000000000001
100000020000000000000001
100000020000000000000001
100000020000000000000001
122222220000000000000001
100000000000000000000001
100000000000000000000001
100000000000000000000001
100000000000000000000001
100000000000000330000001
100000000000000000000001
100000000000000000000001
100000000000000000000001
100000000000000000000001
100000000000000000000001
100000000000000000000001
100000000000000000000001
100000000000000000000001
100000000000000000000001
111111111111111111111111";

const RED: Rgb = Rgb { r: 255, g: 0, b: 0 };

fn player_at(x: i64, y: i64, dir: Vec2, camera: Vec2) -> Player {
    Player { pos: Vec2 { x, y }, speed: 7, dir, camera, actions: Vec::new() }
}

fn world_of(map: &str, player: Player) -> World {
    World { map: TileMap::new(map).unwrap(), player }
}

fn facing_west() -> (Vec2, Vec2) {
    (Vec2 { x: -UNIT, y: 0 }, Vec2 { x: 0, y: 43253 })
}

#[test]
fn settings_default_size() {
    let s = Settings::new();
    assert_eq!((s.width, s.height), (1200, 800));
}

#[test]
fn map_palette_and_size() {
    let m = TileMap::new("1111\n1034\n1201\n1111").unwrap();
    assert_eq!((m.height, m.width), (4, 4));
    assert_eq!(m.cell_at(0, 0), Space::Wall(RED));
    assert_eq!(m.cell_at(1, 1), Space::Empty);
    assert_eq!(m.cell_at(1, 2), Space::Wall(Rgb { r: 0, g: 0, b: 255 }));
    assert_eq!(m.cell_at(1, 3), Space::Wall(Rgb { r: 255, g: 0, b: 212 }));
    assert_eq!(m.cell_at(2, 1), Space::Wall(Rgb { r: 0, g: 255, b: 0 }));
    assert!(m.is_empty_at(2, 2));
    assert!(!m.is_empty_at(2, 3));
}

#[test]
fn map_unknown_characters_are_empty() {
    let m = TileMap::new("111\n1x1\n111").unwrap();
    assert_eq!(m.cell_at(1, 1), Space::Empty);
    let m = TileMap::new("111\n1 1\n111").unwrap();
    assert_eq!(m.cell_at(1, 1), Space::Empty);
}

#[test]
fn map_crlf_and_trailing_newline() {
    let a = TileMap::new("111\r\n101\r\n111\r\n").unwrap();
    let b = TileMap::new("111\n101\n111").unwrap();
    assert_eq!((a.height, a.width), (3, 3));
    assert_eq!(a.walls, b.walls);
}

#[test]
fn map_errors() {
    assert!(matches!(TileMap::new(""), Err(MapError::Empty)));
    assert!(matches!(TileMap::new("\n111"), Err(MapError::Empty)));
    assert!(matches!(TileMap::new("111\n11\n111"), Err(MapError::Ragged)));
    assert!(matches!(TileMap::new("111\n100\n111"), Err(MapError::Open)));
    assert!(matches!(TileMap::new("111\n101\n101"), Err(MapError::Open)));
    assert!(TileMap::new("1").is_ok());
}

#[test]
fn map_too_large() {
    let line = "1".repeat(1048577);
    assert!(matches!(TileMap::new(&line), Err(MapError::TooLarge)));
    let lines = "1\n".repeat(1048577);
    assert!(matches!(TileMap::new(&lines), Err(MapError::TooLarge)));
}

#[test]
fn world_new_from_original_map() {
    let w = World::new(MAP_STR).unwrap();
    assert_eq!((w.map.height, w.map.width), (23, 24));
    assert_eq!(w.player.pos, Vec2 { x: 12 * UNIT, y: 9 * UNIT });
    assert_eq!(w.player.dir, Vec2 { x: -UNIT, y: 0 });
    assert_eq!(w.player.camera, Vec2 { x: 0, y: 43253 });
    assert_eq!(w.player.speed, 7);
    assert!(w.player.actions.is_empty());
}

#[test]
fn world_new_start_blocked() {
    assert!(matches!(World::new("111\n101\n111"), Err(MapError::Blocked)));
    assert!(matches!(World::new("11\n1"), Err(MapError::Ragged)));
}

#[test]
fn shading_law() {
    let c = Rgb { r: 255, g: 7, b: 212 };
    assert_eq!(shade(c, Side::NS), Rgb { r: 127, g: 3, b: 106 });
    assert_eq!(shade(c, Side::EW), c);
}

#[test]
fn end_to_end_three_by_three() {
    let (dir, cam) = facing_west();
    let w = world_of("111\n101\n111", player_at(UNIT + UNIT / 2, UNIT, dir, cam));
    let hit = w.cast(400, 800, 600);
    assert_eq!((hit.cell_x, hit.cell_y), (0, 1));
    assert_eq!(hit.side, Side::EW);
    assert_eq!(hit.dist_num as f64 / hit.dist_den as f64, 0.5);
    assert_eq!(hit.dist_num, 32768 * 800);
    assert_eq!(hit.dist_den, 65536 * 800);
    assert_eq!(hit.color, RED);
    assert_eq!(hit.strip, Strip { top: 0, len: 1200 });
}

#[test]
fn ns_hit_is_shaded() {
    let w = world_of(
        "111\n101\n111",
        player_at(UNIT + UNIT / 2, UNIT + UNIT / 2, Vec2 { x: 0, y: UNIT }, Vec2 { x: 43253, y: 0 }),
    );
    let hit = w.cast(400, 800, 600);
    assert_eq!((hit.cell_x, hit.cell_y), (1, 2));
    assert_eq!(hit.side, Side::NS);
    assert_eq!(hit.color, Rgb { r: 127, g: 0, b: 0 });
    assert_eq!(hit.dist_num as f64 / hit.dist_den as f64, 0.5);
}

#[test]
fn every_column_hits_a_wall_at_positive_distance() {
    let w = World::new(MAP_STR).unwrap();
    for x in 0..800usize {
        let hit = w.cast(x, 800, 600);
        assert!(!w.map.is_empty_at(hit.cell_x, hit.cell_y));
        assert!(hit.dist_den > 0);
        assert!(hit.dist_num > 0);
    }
}

#[test]
fn distance_to_far_wall() {
    // From (12, 9) facing -x, the centre ray passes the green walls and
    // meets the outer wall on line 0.
    let w = World::new(MAP_STR).unwrap();
    let hit = w.cast(400, 800, 600);
    assert_eq!((hit.cell_x, hit.cell_y), (0, 9));
    assert_eq!(hit.side, Side::EW);
    assert_eq!(hit.color, RED);
    assert_eq!(hit.dist_num as f64 / hit.dist_den as f64, 11.0);
    assert_eq!(hit.strip, Strip { top: 273, len: 54 });
}

#[test]
fn edge_columns_are_symmetric() {
    let room = "1111111\n1000001\n1000001\n1000001\n1000001\n1000001\n1111111";
    let (dir, cam) = facing_west();
    let w = world_of(room, player_at(3 * UNIT + UNIT / 2, 3 * UNIT + UNIT / 2, dir, cam));
    let width = 800u32;
    for c in [1usize, 100, 250, 399] {
        let a = w.cast(c, width, 600);
        let b = w.cast(width as usize - c, width, 600);
        assert_eq!(a.cell_x, b.cell_x);
        assert_eq!(a.cell_y + b.cell_y, 6);
        assert_eq!(a.dist_num * b.dist_den, b.dist_num * a.dist_den);
    }
    let left = w.cast(0, width, 600);
    let right = w.cast(width as usize - 1, width, 600);
    assert!(left.cell_y < 3 && right.cell_y > 3);
}

#[test]
fn wall_sliding_keeps_open_axis() {
    let room = "11111\n10001\n10001\n10001\n11111";
    let mut p = player_at(UNIT + UNIT / 2, 2 * UNIT + UNIT / 2, Vec2 { x: -UNIT, y: UNIT }, Vec2 { x: 0, y: 0 });
    p.speed = 1;
    p.new_action(Action::Move(Direction::Up));
    let mut w = world_of(room, p);
    w.update_player(1_000_000_000, Turn { cos: UNIT, sin: 0 });
    assert_eq!(w.player.pos, Vec2 { x: UNIT + UNIT / 2, y: 3 * UNIT + UNIT / 2 });
}

#[test]
fn moving_forward_and_backward() {
    let mut w = World::new(MAP_STR).unwrap();
    w.player.speed = 1;
    w.player.new_action(Action::Move(Direction::Up));
    w.update_player(500_000_000, Turn { cos: UNIT, sin: 0 });
    assert_eq!(w.player.pos, Vec2 { x: 12 * UNIT - UNIT / 2, y: 9 * UNIT });
    w.player.remove_action(Action::Move(Direction::Up));
    w.player.new_action(Action::Move(Direction::Down));
    w.update_player(1_000_000_000, Turn { cos: UNIT, sin: 0 });
    assert_eq!(w.player.pos, Vec2 { x: 12 * UNIT + UNIT / 2, y: 9 * UNIT });
}

#[test]
fn blocked_move_keeps_position() {
    let (dir, cam) = facing_west();
    let mut p = player_at(UNIT + UNIT / 2, UNIT + UNIT / 2, dir, cam);
    p.new_action(Action::Move(Direction::Up));
    let mut w = world_of("111\n101\n111", p);
    w.update_player(1_000_000_000, Turn { cos: UNIT, sin: 0 });
    assert_eq!(w.player.pos, Vec2 { x: UNIT + UNIT / 2, y: UNIT + UNIT / 2 });
}

#[test]
fn zero_frame_changes_nothing() {
    let mut w = World::new(MAP_STR).unwrap();
    w.player.new_action(Action::Move(Direction::Up));
    w.player.new_action(Action::Rotate(Direction::Left));
    w.player.new_action(Action::Rotate(Direction::Right));
    w.update_player(0, Turn { cos: UNIT, sin: 0 });
    assert_eq!(w.player.pos, Vec2 { x: 12 * UNIT, y: 9 * UNIT });
    assert_eq!(w.player.dir, Vec2 { x: -UNIT, y: 0 });
    assert_eq!(w.player.camera, Vec2 { x: 0, y: 43253 });
    assert_eq!(w.player.actions.len(), 3);
}

#[test]
fn quarter_turns() {
    let mut w = World::new(MAP_STR).unwrap();
    w.player.new_action(Action::Rotate(Direction::Left));
    w.update_player(1, Turn { cos: 0, sin: UNIT });
    assert_eq!(w.player.dir, Vec2 { x: 0, y: -UNIT });
    assert_eq!(w.player.camera, Vec2 { x: -43253, y: 0 });
    w.player.remove_action(Action::Rotate(Direction::Left));
    w.player.new_action(Action::Rotate(Direction::Right));
    w.update_player(1, Turn { cos: 0, sin: UNIT });
    assert_eq!(w.player.dir, Vec2 { x: -UNIT, y: 0 });
    assert_eq!(w.player.camera, Vec2 { x: 0, y: 43253 });
}

#[test]
fn rotation_keeps_length() {
    let a: f64 = 0.05;
    let t = Turn { cos: (a.cos() * UNIT as f64) as i64, sin: (a.sin() * UNIT as f64) as i64 };
    let mut v = Vec2 { x: -UNIT, y: 0 };
    let n0 = (v.x as f64).hypot(v.y as f64);
    for _ in 0..100 {
        v = rotate(v, t);
        let n = (v.x as f64).hypot(v.y as f64);
        assert!(n <= n0);
        assert!(n >= n0 * 0.995);
    }
    let mut c = Vec2 { x: 0, y: 43253 };
    for _ in 0..100 {
        c = rotate(c, t);
    }
    let n = (c.x as f64).hypot(c.y as f64);
    assert!(n <= 43253.0 && n >= 43253.0 * 0.99);
}

#[test]
fn action_list_insert_remove() {
    let mut p = Player::new();
    p.new_action(Action::Move(Direction::Up));
    p.new_action(Action::Move(Direction::Down));
    p.remove_action(Action::Move(Direction::Up));
    assert_eq!(p.actions, vec![Action::Move(Direction::Down)]);
}

#[test]
fn removing_absent_action_is_noop() {
    let mut p = Player::new();
    p.new_action(Action::Rotate(Direction::Left));
    p.remove_action(Action::Rotate(Direction::Right));
    assert_eq!(p.actions, vec![Action::Rotate(Direction::Left)]);
    p.remove_action(Action::Rotate(Direction::Left));
    assert!(p.actions.is_empty());
}

#[test]
fn strip_edges() {
    assert_eq!(strip(0, 5, 600), Strip { top: 0, len: u32::MAX });
    assert_eq!(strip(7, 0, 600), Strip { top: 300, len: 0 });
    assert_eq!(strip(2, 1, 600), Strip { top: 150, len: 300 });
    assert_eq!(strip(1, 4, 600), Strip { top: 0, len: 2400 });
}

#[test]
fn elapsed_time() {
    assert_eq!(elapsed(10, 5), 0);
    assert_eq!(elapsed(5, 10), 5);
    assert_eq!(elapsed(0, u128::MAX), u64::MAX);
}

#[test]
fn clock_reads_after_epoch() {
    let (now, dt) = tick(0);
    assert!(now > 1_500_000_000_000_000_000);
    assert_eq!(dt as u128, now);
    let (_, back) = tick(u128::MAX);
    assert_eq!(back, 0);
}
