//! The task planner: goal-stack discipline, food search, reproduction.

use wanderers::collision::{CircleBounds, Point};
use wanderers::fixed::SCALE;
use wanderers::world_gen::World;
use wanderers::world_update::{
    Action, FoodPreference, GameObj, GameObjBlueprint, Genus, PlanInputs, Size, Task, TaskUpd,
};

fn pt(x: i64, y: i64) -> Point {
    Point::new(x, y)
}

fn inert_inputs() -> PlanInputs {
    PlanInputs { roll: SCALE - 1, placement: None, lifetime_factor: 700_000 }
}

fn bare(blueprint: GameObjBlueprint, x: i64, y: i64, r: i64, tasks: Vec<Task>) -> GameObj {
    let durability = blueprint.durability;
    GameObj {
        blueprint,
        bounds: CircleBounds { coords: pt(x, y), r },
        durability,
        tasks,
        tmp_effects: Vec::new(),
    }
}

fn world_of(objects: Vec<GameObj>) -> World {
    World { size: pt(200 * SCALE, 200 * SCALE), objects, time: 0 }
}

#[test]
fn empty_stack_waits() {
    let w = world_of(vec![]);
    let o = bare(GameObjBlueprint::wanderer(), 0, 0, 4 * SCALE, vec![]);
    assert!(matches!(o.plan(&w, &inert_inputs()), TaskUpd::TaskWait));
}

#[test]
fn wander_pushes_the_sampled_spot() {
    let w = world_of(vec![]);
    let o = bare(GameObjBlueprint::wanderer(), 0, 0, 4 * SCALE, vec![Task::Wander]);
    let spot = CircleBounds { coords: pt(50 * SCALE, 50 * SCALE), r: 4 * SCALE };
    let ins = PlanInputs { roll: 0, placement: Some(spot), lifetime_factor: 700_000 };
    match o.plan(&w, &ins) {
        TaskUpd::TaskPush(Task::GetTo(b)) => assert_eq!(b, spot),
        _ => panic!("expected a pushed travel goal"),
    }
}

#[test]
fn wander_without_a_spot_waits() {
    let w = world_of(vec![]);
    let o = bare(GameObjBlueprint::wanderer(), 0, 0, 4 * SCALE, vec![Task::Wander]);
    assert!(matches!(o.plan(&w, &inert_inputs()), TaskUpd::TaskWait));
}

#[test]
fn get_to_pops_when_arrived() {
    let w = world_of(vec![]);
    let target = CircleBounds { coords: pt(SCALE, 0), r: SCALE };
    let o = bare(GameObjBlueprint::wanderer(), 0, 0, 4 * SCALE, vec![Task::GetTo(target)]);
    assert!(matches!(o.plan(&w, &inert_inputs()), TaskUpd::TaskPop));
}

#[test]
fn get_to_moves_toward_a_distant_target() {
    let target = CircleBounds { coords: pt(100 * SCALE, 0), r: SCALE };
    let mover = bare(GameObjBlueprint::wanderer(), 0, 0, 4 * SCALE, vec![Task::GetTo(target)]);
    let w = world_of(vec![]);
    match mover.plan(&w, &inert_inputs()) {
        TaskUpd::TaskAct(Action::MoveTo(p)) => {
            // wanderer speed is 0.33 units per tick, straight east
            assert_eq!(p, pt(330_000, 0));
        },
        _ => panic!("expected a movement action"),
    }
}

#[test]
fn eat_pops_when_no_food_exists() {
    let w = world_of(vec![]);
    let o = bare(
        GameObjBlueprint::hare(),
        0,
        0,
        3 * SCALE,
        vec![Task::Eat(Genus::Plant(Size::Small))],
    );
    assert!(matches!(o.plan(&w, &inert_inputs()), TaskUpd::TaskPop));
}

#[test]
fn eat_prefers_the_nearest_food_and_swallows_on_contact() {
    let far = bare(GameObjBlueprint::grass(), 100 * SCALE, 0, 2 * SCALE, vec![]);
    let near = bare(GameObjBlueprint::grass(), 3 * SCALE, 0, 2 * SCALE, vec![]);
    let w = world_of(vec![far, near]);
    let hare = bare(
        GameObjBlueprint::hare(),
        0,
        0,
        3 * SCALE,
        vec![Task::Eat(Genus::Plant(Size::Small))],
    );
    // the near grass (index 1) is in contact: 3 units apart, radii 3 + 2
    match hare.plan(&w, &inert_inputs()) {
        TaskUpd::TaskAct(Action::Swallow(i)) => assert_eq!(i, 1),
        _ => panic!("expected a swallow"),
    }
}

#[test]
fn eat_pushes_travel_toward_distant_food() {
    let far = bare(GameObjBlueprint::grass(), 100 * SCALE, 0, 2 * SCALE, vec![]);
    let w = world_of(vec![far]);
    let hare = bare(
        GameObjBlueprint::hare(),
        0,
        0,
        3 * SCALE,
        vec![Task::Eat(Genus::Plant(Size::Small))],
    );
    match hare.plan(&w, &inert_inputs()) {
        TaskUpd::TaskPush(Task::GetTo(b)) => {
            assert_eq!(b.coords, pt(100 * SCALE, 0));
            assert_eq!(b.r, 2 * SCALE);
        },
        _ => panic!("expected a pushed travel goal"),
    }
}

#[test]
fn hunt_chases_distant_prey_without_committing() {
    let hare = bare(GameObjBlueprint::hare(), 100 * SCALE, 0, 3 * SCALE, vec![]);
    let w = world_of(vec![hare]);
    let wolf = bare(
        GameObjBlueprint::wolf(),
        0,
        0,
        6 * SCALE,
        vec![Task::Hunt(Genus::Animal(Size::Small, FoodPreference::Herbivore))],
    );
    match wolf.plan(&w, &inert_inputs()) {
        TaskUpd::TaskAct(Action::MoveTo(p)) => {
            // wolf speed is 0.6 units per tick, straight toward the hare
            assert_eq!(p, pt(600_000, 0));
        },
        _ => panic!("expected a chasing move"),
    }
}

#[test]
fn hunt_pops_when_no_prey_exists() {
    let w = world_of(vec![]);
    let wolf = bare(
        GameObjBlueprint::wolf(),
        0,
        0,
        6 * SCALE,
        vec![Task::Hunt(Genus::Animal(Size::Small, FoodPreference::Herbivore))],
    );
    assert!(matches!(wolf.plan(&w, &inert_inputs()), TaskUpd::TaskPop));
}

#[test]
fn reproduce_spawns_with_a_lucky_roll_and_a_spot() {
    let w = world_of(vec![]);
    let grass = bare(GameObjBlueprint::grass(), 50 * SCALE, 50 * SCALE, 2 * SCALE, vec![
        Task::Reproduce,
    ]);
    let spot = CircleBounds { coords: pt(55 * SCALE, 50 * SCALE), r: 2 * SCALE };
    let ins = PlanInputs { roll: 0, placement: Some(spot), lifetime_factor: 700_000 };
    match grass.plan(&w, &ins) {
        TaskUpd::TaskAct(Action::Spawn(child)) => {
            assert_eq!(child.bounds, spot);
            assert_eq!(child.blueprint.genus, Genus::Plant(Size::Small));
            assert_eq!(child.durability, 20 * SCALE);
            assert_eq!(child.tasks, vec![Task::Reproduce]);
        },
        _ => panic!("expected a spawn"),
    }
}

#[test]
fn reproduce_waits_on_an_unlucky_roll() {
    let w = world_of(vec![]);
    let grass = bare(GameObjBlueprint::grass(), 50 * SCALE, 50 * SCALE, 2 * SCALE, vec![
        Task::Reproduce,
    ]);
    let spot = CircleBounds { coords: pt(55 * SCALE, 50 * SCALE), r: 2 * SCALE };
    // the roll threshold is one in a thousand: 1000 out of SCALE misses
    let ins = PlanInputs { roll: 1_000, placement: Some(spot), lifetime_factor: 700_000 };
    assert!(matches!(grass.plan(&w, &ins), TaskUpd::TaskWait));
}

#[test]
fn animal_reproduction_is_not_implemented_and_waits() {
    let w = world_of(vec![]);
    let o = bare(GameObjBlueprint::wanderer(), 0, 0, 4 * SCALE, vec![Task::Reproduce]);
    let spot = CircleBounds { coords: pt(5 * SCALE, 0), r: 4 * SCALE };
    let ins = PlanInputs { roll: 0, placement: Some(spot), lifetime_factor: 700_000 };
    assert!(matches!(o.plan(&w, &ins), TaskUpd::TaskWait));
}

#[test]
fn player_controls_are_not_planned() {
    let w = world_of(vec![]);
    let o = bare(GameObjBlueprint::player(), 0, 0, 4 * SCALE, vec![Task::ListenControls]);
    assert!(matches!(o.plan(&w, &inert_inputs()), TaskUpd::TaskWait));
}

#[test]
fn push_then_replan_evaluates_the_new_goal_first() {
    // goal-stack discipline: after a push is applied, the next planning
    // step works on the pushed goal, not the one below it
    let spot = CircleBounds { coords: pt(50 * SCALE, 0), r: 4 * SCALE };
    let mut w = world_of(vec![bare(GameObjBlueprint::wanderer(), 0, 0, 4 * SCALE, vec![
        Task::Wander,
    ])]);
    let ins = PlanInputs { roll: 0, placement: Some(spot), lifetime_factor: 700_000 };
    let planned = w.objects[0].plan(&w, &ins);
    assert!(matches!(planned, TaskUpd::TaskPush(Task::GetTo(_))));
    let mut removed: Vec<usize> = Vec::new();
    w.apply_transition(&mut removed, 0, planned);
    assert_eq!(w.objects[0].tasks.len(), 2);
    assert_eq!(*w.objects[0].tasks.last().unwrap(), Task::GetTo(spot));
    // replanning now moves toward the pushed spot instead of wandering
    match w.objects[0].plan(&w, &inert_inputs()) {
        TaskUpd::TaskAct(Action::MoveTo(p)) => assert_eq!(p, pt(330_000, 0)),
        _ => panic!("expected movement toward the pushed goal"),
    }
}

#[test]
fn pop_is_never_planned_for_an_empty_stack() {
    // the planner answers an empty stack with a wait, and applying a pop
    // transition to an empty stack leaves it empty
    let mut w = world_of(vec![bare(GameObjBlueprint::wanderer(), 0, 0, 4 * SCALE, vec![])]);
    assert!(matches!(w.objects[0].plan(&w, &inert_inputs()), TaskUpd::TaskWait));
    let mut removed: Vec<usize> = Vec::new();
    w.apply_transition(&mut removed, 0, TaskUpd::TaskPop);
    assert_eq!(w.objects[0].tasks.len(), 0);
    assert_eq!(w.objects.len(), 1);
}
