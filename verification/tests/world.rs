//! Whole-tick behavior: spawning, swallowing, timed effects, placement,
//! world generation and the scene projection.

use wanderers::collision::{CircleBounds, Point};
use wanderers::colors::ColorTone;
use wanderers::fixed::SCALE;
use wanderers::rng::rng_range;
use wanderers::world_gen::{gen_circle_bounds, generate_world, World};
use wanderers::world_update::{
    Action, EffectType, FoodPreference, GameObj, GameObjBlueprint, Genus, PeriodicEffectType,
    PlanInputs, Size, Task, TaskUpd, TemporalEffect, FRAME_DAY,
};

fn pt(x: i64, y: i64) -> Point {
    Point::new(x, y)
}

fn bare(blueprint: GameObjBlueprint, x: i64, y: i64, r: i64, tasks: Vec<Task>) -> GameObj {
    let durability = blueprint.durability;
    GameObj {
        blueprint,
        bounds: CircleBounds { coords: pt(x, y), r },
        durability,
        tasks,
        tmp_effects: Vec::new(),
    }
}

fn world_of(objects: Vec<GameObj>) -> World {
    World { size: pt(200 * SCALE, 200 * SCALE), objects, time: 0 }
}

#[test]
fn reproduction_adds_a_child_after_one_tick() {
    // a plant with a lucky roll and a valid spot spawns a child of the
    // same blueprint, visible in the world after the transition applies
    let mut w = world_of(vec![bare(GameObjBlueprint::grass(), 50 * SCALE, 50 * SCALE, 2 * SCALE, vec![
        Task::Reproduce,
    ])]);
    let spot = CircleBounds { coords: pt(60 * SCALE, 50 * SCALE), r: 2 * SCALE };
    let ins = PlanInputs { roll: 0, placement: Some(spot), lifetime_factor: 700_000 };
    let planned = w.objects[0].plan(&w, &ins);
    assert!(matches!(planned, TaskUpd::TaskAct(Action::Spawn(_))));
    let mut removed: Vec<usize> = Vec::new();
    w.apply_transition(&mut removed, 0, planned);
    assert_eq!(w.objects.len(), 2);
    assert_eq!(w.objects[1].blueprint.genus, Genus::Plant(Size::Small));
    assert_eq!(w.objects[1].bounds, spot);
    // the child's scheduled death lies between 0.7 and 1.0 lifetimes out
    assert_eq!(w.objects[1].tmp_effects.len(), 1);
    let eff = w.objects[1].tmp_effects[0];
    assert_eq!(eff.effect, EffectType::DelayedDeath);
    assert_eq!(eff.start, FRAME_DAY * 700_000 / SCALE as u64);
}

#[test]
fn spawned_child_has_the_exact_scheduled_death() {
    let grass = GameObjBlueprint::grass();
    let bounds = CircleBounds { coords: pt(0, 0), r: 2 * SCALE };
    let o = GameObj::from_parts(&grass, bounds, 100, 700_000);
    assert_eq!(o.tmp_effects.len(), 1);
    // a day is 1440 frames; 0.7 of it is 1008 frames
    assert_eq!(o.tmp_effects[0], TemporalEffect::new(1108, 1, EffectType::DelayedDeath));
    assert_eq!(o.durability, grass.durability);
    assert_eq!(o.tasks, vec![Task::Reproduce]);
}

#[test]
fn double_swallow_removes_the_target_once() {
    // two wolves in contact with the same hare both swallow it; the hare
    // leaves the world exactly once and both wolves remain
    let hunt = Task::Hunt(Genus::Animal(Size::Small, FoodPreference::Herbivore));
    let hare = bare(GameObjBlueprint::hare(), 0, 0, 3 * SCALE, vec![]);
    let wolf_a = bare(GameObjBlueprint::wolf(), 4 * SCALE, 0, 6 * SCALE, vec![hunt.clone()]);
    let wolf_b = bare(GameObjBlueprint::wolf(), -4 * SCALE, 0, 6 * SCALE, vec![hunt]);
    let mut w = world_of(vec![hare, wolf_a, wolf_b]);
    // both wolves indeed choose to swallow entity 0
    let inert = PlanInputs { roll: SCALE - 1, placement: None, lifetime_factor: 700_000 };
    assert!(matches!(w.objects[1].plan(&w, &inert), TaskUpd::TaskAct(Action::Swallow(0))));
    assert!(matches!(w.objects[2].plan(&w, &inert), TaskUpd::TaskAct(Action::Swallow(0))));
    w.upd();
    assert_eq!(w.objects.len(), 2);
    for o in w.objects.iter() {
        assert_eq!(o.blueprint.genus, Genus::Animal(Size::Average, FoodPreference::Carnivore));
    }
}

#[test]
fn duplicate_swallow_records_one_removal() {
    let mut w = world_of(vec![bare(GameObjBlueprint::hare(), 0, 0, 3 * SCALE, vec![])]);
    let mut removed: Vec<usize> = Vec::new();
    w.apply_transition(&mut removed, 1, TaskUpd::TaskAct(Action::Swallow(0)));
    w.apply_transition(&mut removed, 2, TaskUpd::TaskAct(Action::Swallow(0)));
    assert_eq!(removed, vec![0]);
}

#[test]
fn delayed_death_removes_the_entity_this_tick() {
    // an entity whose scheduled death starts at the current tick is
    // present before the update and gone after it
    let mut doomed = bare(GameObjBlueprint::wanderer(), 10 * SCALE, 10 * SCALE, 4 * SCALE, vec![]);
    doomed.tmp_effects.push(TemporalEffect::new(5, 1, EffectType::DelayedDeath));
    let mut w = World { size: pt(200 * SCALE, 200 * SCALE), objects: vec![doomed], time: 5 };
    assert_eq!(w.objects.len(), 1);
    w.upd();
    assert_eq!(w.objects.len(), 0);
    assert_eq!(w.time, 6);
}

#[test]
fn future_death_leaves_the_entity_alive() {
    let mut doomed = bare(GameObjBlueprint::wanderer(), 10 * SCALE, 10 * SCALE, 4 * SCALE, vec![]);
    doomed.tmp_effects.push(TemporalEffect::new(6, 1, EffectType::DelayedDeath));
    let mut w = World { size: pt(200 * SCALE, 200 * SCALE), objects: vec![doomed], time: 5 };
    w.upd();
    assert_eq!(w.objects.len(), 1);
}

#[test]
fn expired_effects_are_dropped_and_active_ones_kept() {
    let mut o = bare(GameObjBlueprint::wanderer(), 10 * SCALE, 10 * SCALE, 4 * SCALE, vec![]);
    o.tmp_effects.push(TemporalEffect::new(0, 3, EffectType::Stun));
    o.tmp_effects.push(TemporalEffect::new(8, 5, EffectType::Slow(500_000)));
    o.tmp_effects.push(
        TemporalEffect::new(
            2,
            100,
            EffectType::PeriodicEffect { period: 7, effect: PeriodicEffectType::Hunger(SCALE) },
        ),
    );
    let durability = o.durability;
    let mut w = World { size: pt(200 * SCALE, 200 * SCALE), objects: vec![o], time: 10 };
    w.upd();
    assert_eq!(w.objects.len(), 1);
    // the stun window 0..3 lies before tick 10 and is dropped
    assert_eq!(w.objects[0].tmp_effects.len(), 2);
    assert_eq!(w.objects[0].tmp_effects[0].effect, EffectType::Slow(500_000));
    // periodic hunger and damage are declared but apply nothing yet
    assert_eq!(w.objects[0].durability, durability);
}

#[test]
fn tick_moves_travelers_against_one_snapshot() {
    // two distant travelers advance simultaneously, each one step toward
    // its own target, planned against the same unmodified world
    let target_a = CircleBounds { coords: pt(100 * SCALE, 0), r: SCALE };
    let target_b = CircleBounds { coords: pt(50 * SCALE, -90 * SCALE), r: SCALE };
    let a = bare(GameObjBlueprint::wanderer(), 0, 0, 4 * SCALE, vec![Task::GetTo(target_a)]);
    let b = bare(GameObjBlueprint::wanderer(), 50 * SCALE, 10 * SCALE, 4 * SCALE, vec![
        Task::GetTo(target_b),
    ]);
    let mut w = world_of(vec![a, b]);
    w.upd();
    assert_eq!(w.objects[0].bounds.coords, pt(330_000, 0));
    assert_eq!(w.objects[1].bounds.coords, pt(50 * SCALE, 10 * SCALE - 330_000));
}

#[test]
fn eaten_grass_leaves_the_world_after_the_tick() {
    let grass = bare(GameObjBlueprint::grass(), 0, 0, 2 * SCALE, vec![]);
    let hare = bare(
        GameObjBlueprint::hare(),
        4 * SCALE,
        0,
        3 * SCALE,
        vec![Task::Eat(Genus::Plant(Size::Small))],
    );
    let mut w = world_of(vec![grass, hare]);
    w.upd();
    assert_eq!(w.objects.len(), 1);
    assert_eq!(w.objects[0].blueprint.genus, Genus::Animal(Size::Small, FoodPreference::Herbivore));
    // the eating goal stays active, ready to look for the next meal
    assert_eq!(w.objects[0].tasks, vec![Task::Eat(Genus::Plant(Size::Small))]);
}

#[test]
fn update_advances_time_by_one() {
    let mut w = world_of(vec![]);
    w.upd();
    w.upd();
    assert_eq!(w.time, 2);
    assert_eq!(w.objects.len(), 0);
}

#[test]
fn sampler_honors_range_and_degenerate_bounds() {
    for _ in 0..50 {
        let x = rng_range(3, 17);
        assert!((3..17).contains(&x));
    }
    assert_eq!(rng_range(5, 5), 5);
    assert_eq!(rng_range(10, 3), 10);
    assert_eq!(rng_range(-4, -4), -4);
}

#[test]
fn placement_finds_a_free_spot_in_an_empty_world() {
    let size = pt(200 * SCALE, 200 * SCALE);
    let grass = GameObjBlueprint::grass();
    let objects: Vec<GameObj> = Vec::new();
    let b = gen_circle_bounds(&size, None, &objects, &grass).expect("an empty world has room");
    assert_eq!(b.r, 2 * SCALE);
    assert!(b.coords.x >= b.r && b.coords.x <= size.x - b.r);
    assert!(b.coords.y >= b.r && b.coords.y <= size.y - b.r);
}

#[test]
fn placement_gives_up_in_a_blocked_world() {
    // one giant entity covers the whole map, so every trial is rejected
    let size = pt(20 * SCALE, 20 * SCALE);
    let blocker = bare(GameObjBlueprint::tree(), 10 * SCALE, 10 * SCALE, 100 * SCALE, vec![]);
    let grass = GameObjBlueprint::grass();
    let objects = vec![blocker];
    assert!(gen_circle_bounds(&size, None, &objects, &grass).is_none());
}

#[test]
fn generated_world_starts_at_tick_zero() {
    let w = generate_world(pt(300 * SCALE, 300 * SCALE), 3);
    assert_eq!(w.time, 0);
    assert_eq!(w.size, pt(300 * SCALE, 300 * SCALE));
    assert!(w.objects.len() <= 10_000);
    // at least the first tree always finds room
    assert!(!w.objects.is_empty());
    // everything placed lies within the map rectangle and bears one of
    // the six catalog species, within its population bound
    let mut hares = 0;
    let mut wolves = 0;
    let mut grass = 0;
    let mut wanderers = 0;
    let mut players = 0;
    for o in w.objects.iter() {
        assert!(o.bounds.coords.x >= 0 && o.bounds.coords.x <= w.size.x);
        assert!(o.bounds.coords.y >= 0 && o.bounds.coords.y <= w.size.y);
        match o.blueprint.name {
            "Tree" => {},
            "Hare" => hares += 1,
            "Wolf" => wolves += 1,
            "Grass" => grass += 1,
            "Wanderer" => wanderers += 1,
            "Player" => players += 1,
            other => panic!("unknown species {other}"),
        }
    }
    assert!(hares <= 100 && wolves <= 10 && grass <= 1000 && wanderers <= 3 && players <= 1);
    // pairwise conflict-free at creation: centers at least the radii
    // plus the later entity's separation apart
    for j in 1..w.objects.len() {
        for i in 0..j {
            let a = &w.objects[i];
            let b = &w.objects[j];
            let dx = (a.bounds.coords.x - b.bounds.coords.x) as i128;
            let dy = (a.bounds.coords.y - b.bounds.coords.y) as i128;
            let s = (a.bounds.r + b.bounds.r + b.blueprint.min_dist) as i128;
            assert!(dx * dx + dy * dy >= s * s);
        }
    }
}

#[test]
fn hover_picks_the_first_entity_under_the_pointer() {
    let grass_a = bare(GameObjBlueprint::grass(), 20 * SCALE, 20 * SCALE, 2 * SCALE, vec![]);
    let grass_b = bare(GameObjBlueprint::grass(), 21 * SCALE, 20 * SCALE, 2 * SCALE, vec![]);
    let w = world_of(vec![grass_a, grass_b]);
    // both disks cover this point; the earlier entity wins
    assert_eq!(w.hovered(&pt(20 * SCALE, 20 * SCALE)), Some(0));
    assert_eq!(w.hovered(&pt(23 * SCALE, 20 * SCALE)), Some(1));
    assert_eq!(w.hovered(&pt(100 * SCALE, 100 * SCALE)), None);
}

#[test]
fn scene_draws_background_first_and_slow_species_early() {
    let wolf = bare(GameObjBlueprint::wolf(), 10 * SCALE, 10 * SCALE, 6 * SCALE, vec![]);
    let grass = bare(GameObjBlueprint::grass(), 20 * SCALE, 20 * SCALE, 2 * SCALE, vec![]);
    let mut w = world_of(vec![wolf, grass]);
    let scene = w.to_scene();
    assert_eq!(scene.len(), 3);
    assert_eq!(scene[0].color, ColorTone::LimeGreen);
    // grass (speed 0) now draws before the wolf (speed 0.6)
    assert_eq!(scene[1].color, ColorTone::DarkGreen);
    assert_eq!(scene[2].color, ColorTone::Red);
    assert_eq!(w.objects[0].blueprint.genus, Genus::Plant(Size::Small));
}
