//! Player input: key state, the encoded direction, and the player move.

use wanderers::collision::{CircleBounds, Point};
use wanderers::controls::{ControlsState, Key};
use wanderers::fixed::SCALE;
use wanderers::world_gen::World;
use wanderers::world_update::{GameObj, GameObjBlueprint, Task};

fn pt(x: i64, y: i64) -> Point {
    Point::new(x, y)
}

#[test]
fn keys_encode_a_direction() {
    let mut c = ControlsState::init();
    assert_eq!(c.direction(), pt(0, 0));
    c.upd_key(Key::Right, true);
    assert_eq!(c.direction(), pt(SCALE, 0));
    c.upd_key(Key::Up, true);
    assert_eq!(c.direction(), pt(SCALE, -SCALE));
    // opposite keys cancel
    c.upd_key(Key::Left, true);
    assert_eq!(c.direction(), pt(0, -SCALE));
    c.upd_key(Key::Up, false);
    c.upd_key(Key::Left, false);
    assert_eq!(c.direction(), pt(SCALE, 0));
    // an unmapped key changes nothing
    c.upd_key(Key::Other, true);
    assert_eq!(c.direction(), pt(SCALE, 0));
}

#[test]
fn space_toggles_run_only_while_moving() {
    let mut c = ControlsState::init();
    assert!(c.superhot);
    c.upd_key(Key::Space, true);
    assert!(!c.superhot);
    // releasing the key does not toggle back
    c.upd_key(Key::Space, false);
    assert!(!c.superhot);
    c.upd_key(Key::Space, true);
    assert!(c.superhot);
}

#[test]
fn world_advances_only_while_moving_unless_toggled() {
    let mut c = ControlsState::init();
    assert!(!c.should_advance());
    c.upd_key(Key::Down, true);
    assert!(c.should_advance());
    c.upd_key(Key::Down, false);
    c.upd_key(Key::Space, true);
    assert!(c.should_advance());
}

#[test]
fn controls_move_the_player_and_nobody_else() {
    let player_bp = GameObjBlueprint::player();
    let player = GameObj {
        durability: player_bp.durability,
        bounds: CircleBounds { coords: pt(0, 0), r: 4 * SCALE },
        tasks: vec![Task::ListenControls],
        tmp_effects: Vec::new(),
        blueprint: player_bp,
    };
    let grass_bp = GameObjBlueprint::grass();
    let grass = GameObj {
        durability: grass_bp.durability,
        bounds: CircleBounds { coords: pt(10 * SCALE, 0), r: 2 * SCALE },
        tasks: vec![Task::Reproduce],
        tmp_effects: Vec::new(),
        blueprint: grass_bp,
    };
    let mut w = World { size: pt(200 * SCALE, 200 * SCALE), objects: vec![player, grass], time: 0 };
    let mut c = ControlsState::init();
    c.upd_key(Key::Right, true);
    let d = c.direction();
    w.apply_controls(&d);
    // the player walks at 0.33 units per tick
    assert_eq!(w.objects[0].bounds.coords, pt(330_000, 0));
    assert_eq!(w.objects[1].bounds.coords, pt(10 * SCALE, 0));
}
