//! Entities, the species catalog, the per-tick planner and the world
//! update loop.
//!
//! Each tick runs in three phases. Planning reads the unmodified world and
//! yields one transition per entity; applying mutates goal stacks, moves
//! entities, records swallowed targets and appends spawned ones; the
//! effects pass drops expired timed effects, marks scheduled deaths, and
//! finally the swallowed and dead entities leave the world together.

use vstd::prelude::*;
use crate::collision::{
    circle_ok, circles_collide, obstacles_ok, pt_ok, steer_spec, vadd, vlen_sq, vsub, CircleBounds,
    Point, Vec2,
};
use crate::collision::move_to_target;
use crate::colors::ColorTone;
use crate::fixed::{MAX_OBS, PT_LIMIT, R_LIMIT, SCALE, SPEED_LIMIT};
use crate::rng::rng_range;
use crate::world_gen::{gen_circle_bounds, in_spawn_circle, in_spawn_rect, placement_free, world_ok, World, WorldV};

verus! {

/// Simulation time, counted in frames.
pub type FrameCount = u64;

/// Frames in one moment of simulated time.
pub const FRAME_MOMENT: FrameCount = 60;

/// Frames in one simulated day.
pub const FRAME_DAY: FrameCount = FRAME_MOMENT * 24;

/// Frames in one simulated year.
pub const FRAME_YEAR: FrameCount = FRAME_DAY * 365;

/// Largest tick counter the update loop accepts.
pub const TIME_LIMIT: u64 = 1_152_921_504_606_846_976;

/// Largest lifetime a blueprint may schedule.
pub const LIFETIME_LIMIT: u64 = 4_294_967_296;

/// A reproduction roll below this threshold (out of `SCALE`) succeeds:
/// about one tick in a thousand.
pub const REPRO_EPS: i64 = 1_000;

/// Smallest lifetime spread factor (0.7 of the nominal lifetime).
pub const FACTOR_LO: i64 = 700_000;

/// Largest lifetime spread factor (the full nominal lifetime).
pub const FACTOR_HI: i64 = 1_000_000;

/// Coarse size class of a species.
#[derive(Clone, Copy, Debug, PartialEq, Eq, Structural)]
pub enum Size {
    Small,
    Average,
    Big,
}

/// What an animal eats.
#[derive(Clone, Copy, Debug, PartialEq, Eq, Structural)]
pub enum FoodPreference {
    Herbivore,
    Carnivore,
}

/// Coarse species classification used for food and prey matching.
#[derive(Clone, Copy, Debug, PartialEq, Eq, Structural)]
pub enum Genus {
    Plant(Size),
    Animal(Size, FoodPreference),
}

/// One goal on an entity's goal stack; the top of the stack is active.
#[derive(Clone, Copy, Debug, PartialEq, Eq, Structural)]
pub enum Task {
    Wander,
    GetTo(CircleBounds),
    Eat(Genus),
    Hunt(Genus),
    Reproduce,
    ListenControls,
}

/// What a periodic effect does on each firing tick.
#[derive(Clone, Copy, Debug, PartialEq, Eq, Structural)]
pub enum PeriodicEffectType {
    Hunger(i64),
    Damage(i64),
}

/// The kind of a timed effect. A periodic effect fires on the ticks
/// where `now - start` is a multiple of its period, but what a firing
/// applies — hunger, damage — is declared and deliberately left unwired,
/// like `Slow` and `Stun`; only the scheduled death acts today.
#[derive(Clone, Copy, Debug, PartialEq, Eq, Structural)]
pub enum EffectType {
    PeriodicEffect { period: FrameCount, effect: PeriodicEffectType },
    Slow(i64),
    Stun,
    DelayedDeath,
}

/// A time-windowed modifier attached to an entity: active while
/// `start <= now < start + duration`.
#[derive(Clone, Copy, Debug, PartialEq, Eq, Structural)]
pub struct TemporalEffect {
    pub start: FrameCount,
    pub duration: FrameCount,
    pub effect: EffectType,
}

impl TemporalEffect {
    pub fn new(start: FrameCount, duration: FrameCount, effect: EffectType) -> (r: TemporalEffect)
        ensures
            r == (TemporalEffect { start, duration, effect }),
    {
        TemporalEffect { start, duration, effect }
    }
}

/// The mathematical value of a blueprint.
#[verifier::ext_equal]
pub ghost struct BlueprintV {
    pub name: Seq<char>,
    pub genus: Genus,
    pub min_dist: i64,
    pub radius_lo: i64,
    pub radius_hi: i64,
    pub color: ColorTone,
    pub durability: i64,
    pub speed: i64,
    pub tasks: Seq<Task>,
    pub max_lifetime: Option<FrameCount>,
}

/// An immutable species definition; entities of the species share it.
#[derive(Clone, Debug)]
pub struct GameObjBlueprint {
    pub name: &'static str,
    pub genus: Genus,
    pub min_dist: i64,
    pub radius_lo: i64,
    pub radius_hi: i64,
    pub color: ColorTone,
    pub durability: i64,
    pub speed: i64,
    pub tasks: Vec<Task>,
    pub max_lifetime: Option<FrameCount>,
}

impl View for GameObjBlueprint {
    type V = BlueprintV;

    open spec fn view(&self) -> BlueprintV {
        BlueprintV {
            name: self.name@,
            genus: self.genus,
            min_dist: self.min_dist,
            radius_lo: self.radius_lo,
            radius_hi: self.radius_hi,
            color: self.color,
            durability: self.durability,
            speed: self.speed,
            tasks: self.tasks@,
            max_lifetime: self.max_lifetime,
        }
    }
}

/// The mathematical value of a live entity.
#[verifier::ext_equal]
pub ghost struct ObjV {
    pub blueprint: BlueprintV,
    pub bounds: CircleBounds,
    pub durability: i64,
    pub tasks: Seq<Task>,
    pub tmp_effects: Seq<TemporalEffect>,
}

/// One live entity: its species, its occupied disk, its remaining
/// durability, its goal stack and its active timed effects.
#[derive(Debug)]
pub struct GameObj {
    pub blueprint: GameObjBlueprint,
    pub bounds: CircleBounds,
    pub durability: i64,
    pub tasks: Vec<Task>,
    pub tmp_effects: Vec<TemporalEffect>,
}

impl View for GameObj {
    type V = ObjV;

    open spec fn view(&self) -> ObjV {
        ObjV {
            blueprint: self.blueprint@,
            bounds: self.bounds,
            durability: self.durability,
            tasks: self.tasks@,
            tmp_effects: self.tmp_effects@,
        }
    }
}

/// A goal is well formed when any stored target is a valid circle.
pub open spec fn task_ok(t: Task) -> bool {
    match t {
        Task::GetTo(c) => circle_ok(c),
        _ => true,
    }
}

pub open spec fn tasks_ok(ts: Seq<Task>) -> bool {
    forall|k: int| 0 <= k < ts.len() ==> task_ok(#[trigger] ts[k])
}

/// A timed effect is well formed: its window does not overflow and a
/// periodic effect has a positive period.
pub open spec fn effect_ok(e: TemporalEffect) -> bool {
    &&& e.start + e.duration <= u64::MAX
    &&& match e.effect {
        EffectType::PeriodicEffect { period, effect } => period >= 1,
        _ => true,
    }
}

pub open spec fn effects_ok(es: Seq<TemporalEffect>) -> bool {
    forall|k: int| 0 <= k < es.len() ==> effect_ok(#[trigger] es[k])
}

/// A well-formed blueprint: ranges and rates within the world's limits.
pub open spec fn blueprint_ok(bp: BlueprintV) -> bool {
    &&& 0 <= bp.min_dist <= R_LIMIT
    &&& 0 <= bp.radius_lo <= bp.radius_hi <= R_LIMIT
    &&& 0 <= bp.durability
    &&& 0 <= bp.speed <= SPEED_LIMIT
    &&& tasks_ok(bp.tasks)
    &&& match bp.max_lifetime {
        Option::Some(l) => l <= LIFETIME_LIMIT,
        Option::None => true,
    }
}

/// A well-formed entity.
pub open spec fn obj_ok(o: ObjV) -> bool {
    &&& circle_ok(o.bounds)
    &&& blueprint_ok(o.blueprint)
    &&& tasks_ok(o.tasks)
    &&& effects_ok(o.tmp_effects)
}

/// The tree blueprint, as a mathematical value.
pub open spec fn tree_spec() -> BlueprintV {
    BlueprintV {
        name: "Tree"@,
        genus: Genus::Plant(Size::Big),
        min_dist: 10_000_000i64,
        radius_lo: 8_000_000i64,
        radius_hi: 18_000_000i64,
        color: ColorTone::Brown,
        durability: 100_000_000i64,
        speed: 0i64,
        tasks: Seq::empty(),
        max_lifetime: Option::None,
    }
}

/// The wanderer blueprint, as a mathematical value.
pub open spec fn wanderer_spec() -> BlueprintV {
    BlueprintV {
        name: "Wanderer"@,
        genus: Genus::Animal(Size::Average, FoodPreference::Herbivore),
        min_dist: 2_000_000i64,
        radius_lo: 4_000_000i64,
        radius_hi: 4_000_000i64,
        color: ColorTone::Black,
        durability: 20_000_000i64,
        speed: 330_000i64,
        tasks: seq![Task::Wander],
        max_lifetime: Option::Some((2 * FRAME_YEAR) as u64),
    }
}

/// The player blueprint, as a mathematical value.
pub open spec fn player_spec() -> BlueprintV {
    BlueprintV {
        name: "Player"@,
        genus: Genus::Animal(Size::Average, FoodPreference::Herbivore),
        min_dist: 2_000_000i64,
        radius_lo: 4_000_000i64,
        radius_hi: 4_000_000i64,
        color: ColorTone::Black,
        durability: 20_000_000i64,
        speed: 330_000i64,
        tasks: seq![Task::ListenControls],
        max_lifetime: Option::Some((2 * FRAME_YEAR) as u64),
    }
}

/// The hare blueprint, as a mathematical value.
pub open spec fn hare_spec() -> BlueprintV {
    BlueprintV {
        name: "Hare"@,
        genus: Genus::Animal(Size::Small, FoodPreference::Herbivore),
        min_dist: 2_000_000i64,
        radius_lo: 3_000_000i64,
        radius_hi: 3_000_000i64,
        color: ColorTone::White,
        durability: 15_000_000i64,
        speed: 900_000i64,
        tasks: seq![Task::Eat(Genus::Plant(Size::Small))],
        max_lifetime: Option::Some(FRAME_YEAR),
    }
}

/// The grass blueprint, as a mathematical value.
pub open spec fn grass_spec() -> BlueprintV {
    BlueprintV {
        name: "Grass"@,
        genus: Genus::Plant(Size::Small),
        min_dist: 0i64,
        radius_lo: 2_000_000i64,
        radius_hi: 2_000_000i64,
        color: ColorTone::DarkGreen,
        durability: 20_000_000i64,
        speed: 0i64,
        tasks: seq![Task::Reproduce],
        max_lifetime: Option::Some(FRAME_DAY),
    }
}

/// The wolf blueprint, as a mathematical value.
pub open spec fn wolf_spec() -> BlueprintV {
    BlueprintV {
        name: "Wolf"@,
        genus: Genus::Animal(Size::Average, FoodPreference::Carnivore),
        min_dist: 10_000_000i64,
        radius_lo: 6_000_000i64,
        radius_hi: 6_000_000i64,
        color: ColorTone::Red,
        durability: 100_000_000i64,
        speed: 600_000i64,
        tasks: seq![Task::Hunt(Genus::Animal(Size::Small, FoodPreference::Herbivore))],
        max_lifetime: Option::Some(FRAME_YEAR),
    }
}

/// The blueprint is one of the six species of the catalog.
pub open spec fn catalog_blueprint(bp: BlueprintV) -> bool {
    ||| bp == tree_spec()
    ||| bp == wanderer_spec()
    ||| bp == player_spec()
    ||| bp == hare_spec()
    ||| bp == grass_spec()
    ||| bp == wolf_spec()
}

/// The six catalog blueprints are pairwise distinct: most pairs differ
/// in genus, and the wanderer and the player differ in their goals.
pub proof fn lemma_catalog_distinct()
    ensures
        tree_spec() != wanderer_spec(),
        tree_spec() != player_spec(),
        tree_spec() != hare_spec(),
        tree_spec() != grass_spec(),
        tree_spec() != wolf_spec(),
        wanderer_spec() != player_spec(),
        wanderer_spec() != hare_spec(),
        wanderer_spec() != grass_spec(),
        wanderer_spec() != wolf_spec(),
        player_spec() != hare_spec(),
        player_spec() != grass_spec(),
        player_spec() != wolf_spec(),
        hare_spec() != grass_spec(),
        hare_spec() != wolf_spec(),
        grass_spec() != wolf_spec(),
{
    assert(wanderer_spec().tasks[0] == Task::Wander);
    assert(player_spec().tasks[0] == Task::ListenControls);
    if wanderer_spec() == player_spec() {
        assert(wanderer_spec().tasks[0] == player_spec().tasks[0]);
    }
}

impl GameObjBlueprint {
    /// A tree: a big plant that fills the map at generation time.
    pub fn tree() -> (r: GameObjBlueprint)
        ensures
            blueprint_ok(r@),
            r@ == tree_spec(),
            r.genus == Genus::Plant(Size::Big),
            r.min_dist == 10_000_000,
            r.radius_lo == 8_000_000,
            r.radius_hi == 18_000_000,
            r.color == ColorTone::Brown,
            r.durability == 100_000_000,
            r.speed == 0,
            r@.tasks == Seq::<Task>::empty(),
            r.max_lifetime == Option::<FrameCount>::None,
    {
        GameObjBlueprint {
            name: "Tree",
            genus: Genus::Plant(Size::Big),
            min_dist: 10_000_000,
            radius_lo: 8_000_000,
            radius_hi: 18_000_000,
            color: ColorTone::Brown,
            durability: 100_000_000,
            speed: 0,
            tasks: Vec::new(),
            max_lifetime: Option::None,
        }
    }

    /// A wanderer: an aimless average herbivore.
    pub fn wanderer() -> (r: GameObjBlueprint)
        ensures
            blueprint_ok(r@),
            r@ == wanderer_spec(),
            r.genus == Genus::Animal(Size::Average, FoodPreference::Herbivore),
            r.min_dist == 2_000_000,
            r.radius_lo == 4_000_000,
            r.radius_hi == 4_000_000,
            r.color == ColorTone::Black,
            r.durability == 20_000_000,
            r.speed == 330_000,
            r@.tasks == seq![Task::Wander],
            r.max_lifetime == Option::Some((2 * FRAME_YEAR) as u64),
    {
        let mut tasks: Vec<Task> = Vec::new();
        tasks.push(Task::Wander);
        proof {
            assert(tasks@ =~= seq![Task::Wander]);
        }
        GameObjBlueprint {
            name: "Wanderer",
            genus: Genus::Animal(Size::Average, FoodPreference::Herbivore),
            min_dist: 2_000_000,
            radius_lo: 4_000_000,
            radius_hi: 4_000_000,
            color: ColorTone::Black,
            durability: 20_000_000,
            speed: 330_000,
            tasks,
            max_lifetime: Option::Some((2 * FRAME_YEAR) as u64),
        }
    }

    /// The player: moved by external controls, never planned for.
    pub fn player() -> (r: GameObjBlueprint)
        ensures
            blueprint_ok(r@),
            r@ == player_spec(),
            r.genus == Genus::Animal(Size::Average, FoodPreference::Herbivore),
            r@.tasks == seq![Task::ListenControls],
            r.speed == 330_000,
            r.radius_lo == 4_000_000,
            r.radius_hi == 4_000_000,
            r.min_dist == 2_000_000,
            r.max_lifetime == Option::Some((2 * FRAME_YEAR) as u64),
    {
        let mut tasks: Vec<Task> = Vec::new();
        tasks.push(Task::ListenControls);
        proof {
            assert(tasks@ =~= seq![Task::ListenControls]);
        }
        GameObjBlueprint {
            name: "Player",
            genus: Genus::Animal(Size::Average, FoodPreference::Herbivore),
            min_dist: 2_000_000,
            radius_lo: 4_000_000,
            radius_hi: 4_000_000,
            color: ColorTone::Black,
            durability: 20_000_000,
            speed: 330_000,
            tasks,
            max_lifetime: Option::Some((2 * FRAME_YEAR) as u64),
        }
    }

    /// A hare: a small herbivore that looks for small plants to eat.
    pub fn hare() -> (r: GameObjBlueprint)
        ensures
            blueprint_ok(r@),
            r@ == hare_spec(),
            r.genus == Genus::Animal(Size::Small, FoodPreference::Herbivore),
            r.min_dist == 2_000_000,
            r.radius_lo == 3_000_000,
            r.radius_hi == 3_000_000,
            r.color == ColorTone::White,
            r.durability == 15_000_000,
            r.speed == 900_000,
            r@.tasks == seq![Task::Eat(Genus::Plant(Size::Small))],
            r.max_lifetime == Option::Some(FRAME_YEAR),
    {
        let mut tasks: Vec<Task> = Vec::new();
        tasks.push(Task::Eat(Genus::Plant(Size::Small)));
        proof {
            assert(tasks@ =~= seq![Task::Eat(Genus::Plant(Size::Small))]);
        }
        GameObjBlueprint {
            name: "Hare",
            genus: Genus::Animal(Size::Small, FoodPreference::Herbivore),
            min_dist: 2_000_000,
            radius_lo: 3_000_000,
            radius_hi: 3_000_000,
            color: ColorTone::White,
            durability: 15_000_000,
            speed: 900_000,
            tasks,
            max_lifetime: Option::Some(FRAME_YEAR),
        }
    }

    /// Grass: a small plant that reproduces and expires within a day.
    pub fn grass() -> (r: GameObjBlueprint)
        ensures
            blueprint_ok(r@),
            r@ == grass_spec(),
            r.genus == Genus::Plant(Size::Small),
            r.min_dist == 0,
            r.radius_lo == 2_000_000,
            r.radius_hi == 2_000_000,
            r.color == ColorTone::DarkGreen,
            r.durability == 20_000_000,
            r.speed == 0,
            r@.tasks == seq![Task::Reproduce],
            r.max_lifetime == Option::Some(FRAME_DAY),
    {
        let mut tasks: Vec<Task> = Vec::new();
        tasks.push(Task::Reproduce);
        proof {
            assert(tasks@ =~= seq![Task::Reproduce]);
        }
        GameObjBlueprint {
            name: "Grass",
            genus: Genus::Plant(Size::Small),
            min_dist: 0,
            radius_lo: 2_000_000,
            radius_hi: 2_000_000,
            color: ColorTone::DarkGreen,
            durability: 20_000_000,
            speed: 0,
            tasks,
            max_lifetime: Option::Some(FRAME_DAY),
        }
    }

    /// A wolf: an average carnivore that hunts small herbivores.
    pub fn wolf() -> (r: GameObjBlueprint)
        ensures
            blueprint_ok(r@),
            r@ == wolf_spec(),
            r.genus == Genus::Animal(Size::Average, FoodPreference::Carnivore),
            r.min_dist == 10_000_000,
            r.radius_lo == 6_000_000,
            r.radius_hi == 6_000_000,
            r.color == ColorTone::Red,
            r.durability == 100_000_000,
            r.speed == 600_000,
            r@.tasks == seq![Task::Hunt(Genus::Animal(Size::Small, FoodPreference::Herbivore))],
            r.max_lifetime == Option::Some(FRAME_YEAR),
    {
        let mut tasks: Vec<Task> = Vec::new();
        tasks.push(Task::Hunt(Genus::Animal(Size::Small, FoodPreference::Herbivore)));
        proof {
            assert(tasks@ =~= seq![
                Task::Hunt(Genus::Animal(Size::Small, FoodPreference::Herbivore)),
            ]);
        }
        GameObjBlueprint {
            name: "Wolf",
            genus: Genus::Animal(Size::Average, FoodPreference::Carnivore),
            min_dist: 10_000_000,
            radius_lo: 6_000_000,
            radius_hi: 6_000_000,
            color: ColorTone::Red,
            durability: 100_000_000,
            speed: 600_000,
            tasks,
            max_lifetime: Option::Some(FRAME_YEAR),
        }
    }
}

/// The chance outcomes one entity's planning step consumes: the
/// reproduction roll, a sampled placement if one was found, and the
/// lifetime spread factor of a spawned child.
#[derive(Clone, Copy, Debug, PartialEq, Eq, Structural)]
pub struct PlanInputs {
    pub roll: i64,
    pub placement: Option<CircleBounds>,
    pub lifetime_factor: i64,
}

/// What the sampler guarantees of a planning step's chance outcomes.
pub open spec fn inputs_ok(ins: PlanInputs) -> bool {
    &&& 0 <= ins.roll < SCALE
    &&& FACTOR_LO <= ins.lifetime_factor < FACTOR_HI
    &&& match ins.placement {
        Option::Some(b) => circle_ok(b),
        Option::None => true,
    }
}

/// What the placement sampler guarantees of a drawn spot, relative to
/// the entity it was drawn for: it keeps the blueprint's separation from
/// every existing entity, its radius comes from the blueprint's range,
/// and it lies in the region the active goal asked for — the map
/// rectangle for a wanderer, the nursery disk around a reproducing
/// plant.
pub open spec fn inputs_consistent(ins: PlanInputs, o: ObjV, w: WorldV) -> bool {
    match ins.placement {
        Option::Some(b) => {
            &&& placement_free(b, w.objects, o.blueprint.min_dist)
            &&& o.blueprint.radius_lo <= b.r <= o.blueprint.radius_hi
            &&& (o.tasks.len() > 0 && o.tasks.last() == Task::Wander ==> in_spawn_rect(
                b,
                w.size,
                o.blueprint.min_dist,
            ))
            &&& (o.tasks.len() > 0 && o.tasks.last() == Task::Reproduce ==> in_spawn_circle(
                b,
                CircleBounds { coords: o.bounds.coords, r: (4 * o.bounds.r) as i64 },
            ))
        },
        Option::None => true,
    }
}

/// The spawned entity: the blueprint's durability and goals, the sampled
/// bounds, and, for a mortal species, one scheduled death between 0.7 and
/// 1.0 of the nominal lifetime from now.
pub open spec fn from_parts_spec(bp: BlueprintV, bounds: CircleBounds, time: u64, factor: i64) -> ObjV {
    ObjV {
        blueprint: bp,
        bounds: bounds,
        durability: bp.durability,
        tasks: bp.tasks,
        tmp_effects: match bp.max_lifetime {
            Option::None => Seq::empty(),
            Option::Some(l) => seq![
                TemporalEffect {
                    start: ((time as int) + ((l as int) * (factor as int)) / (SCALE as int)) as u64,
                    duration: 1u64,
                    effect: EffectType::DelayedDeath,
                },
            ],
        },
    }
}

/// The mathematical value of an action.
#[verifier::ext_equal]
pub ghost enum ActionV {
    Scream { bounds: CircleBounds },
    Hit { bounds: CircleBounds, damage: i64 },
    Swallow(int),
    Pick(int),
    MoveTo(Vec2),
    Spawn(ObjV),
}

/// A concrete effect an entity asks the world to apply this tick.
pub enum Action {
    Scream { bounds: CircleBounds },
    Hit { bounds: CircleBounds, damage: i64 },
    Swallow(usize),
    Pick(usize),
    MoveTo(Point),
    Spawn(GameObj),
}

impl View for Action {
    type V = ActionV;

    open spec fn view(&self) -> ActionV {
        match self {
            Action::Scream { bounds } => ActionV::Scream { bounds: *bounds },
            Action::Hit { bounds, damage } => ActionV::Hit { bounds: *bounds, damage: *damage },
            Action::Swallow(i) => ActionV::Swallow(*i as int),
            Action::Pick(i) => ActionV::Pick(*i as int),
            Action::MoveTo(p) => ActionV::MoveTo(p@),
            Action::Spawn(o) => ActionV::Spawn(o@),
        }
    }
}

/// The mathematical value of a planning transition.
#[verifier::ext_equal]
pub ghost enum TaskUpdV {
    Pop,
    Push(Task),
    Wait,
    Act(ActionV),
}

/// One planning transition: pop the satisfied goal, push a sub-goal,
/// wait, or act on the world.
pub enum TaskUpd {
    TaskPop,
    TaskPush(Task),
    TaskWait,
    TaskAct(Action),
}

impl View for TaskUpd {
    type V = TaskUpdV;

    open spec fn view(&self) -> TaskUpdV {
        match self {
            TaskUpd::TaskPop => TaskUpdV::Pop,
            TaskUpd::TaskPush(t) => TaskUpdV::Push(*t),
            TaskUpd::TaskWait => TaskUpdV::Wait,
            TaskUpd::TaskAct(a) => TaskUpdV::Act(a@),
        }
    }
}

/// The obstacle disks steering considers: every entity that is not a
/// small plant, in world order.
pub open spec fn obstacles_of(objs: Seq<ObjV>) -> Seq<CircleBounds>
    decreases objs.len(),
{
    if objs.len() == 0 {
        Seq::empty()
    } else {
        let prev = obstacles_of(objs.drop_last());
        if objs.last().blueprint.genus != Genus::Plant(Size::Small) {
            prev.push(objs.last().bounds)
        } else {
            prev
        }
    }
}

/// There are at most as many obstacles as entities, and each is well
/// formed when every entity is.
pub proof fn lemma_obstacles_of_props(objs: Seq<ObjV>)
    requires
        forall|i: int| 0 <= i < objs.len() ==> obj_ok(#[trigger] objs[i]),
    ensures
        obstacles_of(objs).len() <= objs.len(),
        obstacles_ok(obstacles_of(objs)),
    decreases objs.len(),
{
    if objs.len() > 0 {
        lemma_obstacles_of_props(objs.drop_last());
    }
}

/// The index of the nearest entity of genus `g` among the first `n`,
/// measured from `from`; the earliest index wins ties.
pub open spec fn nearest_upto(objs: Seq<ObjV>, g: Genus, from: Point, n: int) -> Option<int>
    decreases n,
{
    if n <= 0 {
        Option::None
    } else {
        let prev = nearest_upto(objs, g, from, n - 1);
        if objs[n - 1].blueprint.genus != g {
            prev
        } else {
            match prev {
                Option::None => Option::Some(n - 1),
                Option::Some(j) => if vlen_sq(vsub(objs[n - 1].bounds.coords@, from@)) < vlen_sq(
                    vsub(objs[j].bounds.coords@, from@),
                ) {
                    Option::Some(n - 1)
                } else {
                    Option::Some(j)
                },
            }
        }
    }
}

/// The nearest entity of genus `g`, if any lives.
pub open spec fn nearest_of(objs: Seq<ObjV>, g: Genus, from: Point) -> Option<int> {
    nearest_upto(objs, g, from, objs.len() as int)
}

/// What the planner decides when `top` is the active goal. Planning
/// never mutates anything: it maps the goal and the world snapshot to a
/// single transition.
pub open spec fn plan_on_top(top: Task, o: ObjV, w: WorldV, ins: PlanInputs) -> TaskUpdV {
    match top {
        Task::Wander => match ins.placement {
            Option::Some(b) => TaskUpdV::Push(Task::GetTo(b)),
            Option::None => TaskUpdV::Wait,
        },
        Task::GetTo(target) => if circles_collide(target, o.bounds) {
            TaskUpdV::Pop
        } else {
            TaskUpdV::Act(
                ActionV::MoveTo(
                    vadd(
                        o.bounds.coords@,
                        steer_spec(
                            o.bounds,
                            target.coords,
                            obstacles_of(w.objects),
                            o.blueprint.speed as int,
                        ),
                    ),
                ),
            )
        },
        Task::Eat(genus) => match nearest_of(w.objects, genus, o.bounds.coords) {
            Option::None => TaskUpdV::Pop,
            Option::Some(i) => if circles_collide(w.objects[i].bounds, o.bounds) {
                TaskUpdV::Act(ActionV::Swallow(i))
            } else {
                TaskUpdV::Push(Task::GetTo(w.objects[i].bounds))
            },
        },
        Task::Hunt(genus) => match nearest_of(w.objects, genus, o.bounds.coords) {
            Option::None => TaskUpdV::Pop,
            Option::Some(i) => if circles_collide(w.objects[i].bounds, o.bounds) {
                TaskUpdV::Act(ActionV::Swallow(i))
            } else {
                TaskUpdV::Act(
                    ActionV::MoveTo(
                        vadd(
                            o.bounds.coords@,
                            steer_spec(
                                o.bounds,
                                w.objects[i].bounds.coords,
                                obstacles_of(w.objects),
                                o.blueprint.speed as int,
                            ),
                        ),
                    ),
                )
            },
        },
        Task::Reproduce => match o.blueprint.genus {
            Genus::Plant(sz) => if ins.roll < REPRO_EPS {
                match ins.placement {
                    Option::Some(b) => TaskUpdV::Act(
                        ActionV::Spawn(
                            from_parts_spec(o.blueprint, b, w.time, ins.lifetime_factor),
                        ),
                    ),
                    Option::None => TaskUpdV::Wait,
                }
            } else {
                TaskUpdV::Wait
            },
            Genus::Animal(sz, fp) => TaskUpdV::Wait,
        },
        Task::ListenControls => TaskUpdV::Wait,
    }
}

/// The planner: the transition for the entity's active goal, or a wait
/// when the goal stack is empty.
pub open spec fn plan_spec(o: ObjV, w: WorldV, ins: PlanInputs) -> TaskUpdV {
    if o.tasks.len() == 0 {
        TaskUpdV::Wait
    } else {
        plan_on_top(o.tasks.last(), o, w, ins)
    }
}

/// Whether `k` occurs in the recorded removal list.
pub open spec fn seq_has(s: Seq<int>, k: int) -> bool {
    exists|j: int| 0 <= j < s.len() && s[j] == k
}

/// A coordinate pinned into the world's coordinate range.
pub open spec fn clamp_i(x: int) -> int {
    if x < -PT_LIMIT {
        -PT_LIMIT as int
    } else if x > PT_LIMIT {
        PT_LIMIT as int
    } else {
        x
    }
}

/// The entity with its top goal popped.
pub open spec fn pop_top(o: ObjV) -> ObjV {
    ObjV { tasks: o.tasks.drop_last(), ..o }
}

/// The entity with a new goal pushed on top.
pub open spec fn push_goal(o: ObjV, t: Task) -> ObjV {
    ObjV { tasks: o.tasks.push(t), ..o }
}

/// The entity moved to `p`, clamped into the coordinate range.
pub open spec fn with_coords(o: ObjV, p: Vec2) -> ObjV {
    ObjV {
        bounds: CircleBounds {
            coords: Point { x: clamp_i(p.x) as i64, y: clamp_i(p.y) as i64 },
            r: o.bounds.r,
        },
        ..o
    }
}

/// One applied transition: entity `i`'s plan mutates its goal stack,
/// moves it, records a swallowed or picked target (once, however many
/// entities chose it), or appends a spawned entity. A spawn that would
/// exceed the world's capacity is skipped, like a failed placement.
pub open spec fn apply_one(objs: Seq<ObjV>, removed: Seq<int>, i: int, u: TaskUpdV) -> (
    Seq<ObjV>,
    Seq<int>,
) {
    match u {
        TaskUpdV::Pop => (
            if 0 <= i < objs.len() && objs[i].tasks.len() > 0 {
                objs.update(i, pop_top(objs[i]))
            } else {
                objs
            },
            removed,
        ),
        TaskUpdV::Push(t) => (
            if 0 <= i < objs.len() {
                objs.update(i, push_goal(objs[i], t))
            } else {
                objs
            },
            removed,
        ),
        TaskUpdV::Wait => (objs, removed),
        TaskUpdV::Act(a) => match a {
            ActionV::Scream { bounds } => (objs, removed),
            ActionV::Hit { bounds, damage } => (objs, removed),
            ActionV::Swallow(k) => (
                objs,
                if seq_has(removed, k) {
                    removed
                } else {
                    removed.push(k)
                },
            ),
            ActionV::Pick(k) => (
                objs,
                if seq_has(removed, k) {
                    removed
                } else {
                    removed.push(k)
                },
            ),
            ActionV::MoveTo(p) => (
                if 0 <= i < objs.len() {
                    objs.update(i, with_coords(objs[i], p))
                } else {
                    objs
                },
                removed,
            ),
            ActionV::Spawn(s) => (
                if objs.len() < MAX_OBS {
                    objs.push(s)
                } else {
                    objs
                },
                removed,
            ),
        },
    }
}

/// The first `n` transitions applied in order, against the snapshot the
/// plans were made from.
pub open spec fn apply_upto(objs0: Seq<ObjV>, plans: Seq<TaskUpdV>, n: int) -> (Seq<ObjV>, Seq<
    int,
>)
    decreases n,
{
    if n <= 0 {
        (objs0, Seq::empty())
    } else {
        let prev = apply_upto(objs0, plans, n - 1);
        apply_one(prev.0, prev.1, n - 1, plans[n - 1])
    }
}

/// The timed effects that have not expired by `now`.
pub open spec fn retain_effects(es: Seq<TemporalEffect>, now: u64) -> Seq<TemporalEffect>
    decreases es.len(),
{
    if es.len() == 0 {
        Seq::empty()
    } else {
        let p = retain_effects(es.drop_last(), now);
        if es.last().start + es.last().duration >= now {
            p.push(es.last())
        } else {
            p
        }
    }
}

/// Whether an active scheduled death stands among these effects.
pub open spec fn has_death(es: Seq<TemporalEffect>, now: u64) -> bool {
    exists|k: int|
        0 <= k < es.len() && (#[trigger] es[k]).start <= now && es[k].effect
            == EffectType::DelayedDeath
}

/// The entity with its expired effects dropped.
pub open spec fn effects_obj(o: ObjV, now: u64) -> ObjV {
    ObjV { tmp_effects: retain_effects(o.tmp_effects, now), ..o }
}

/// Every entity with its expired effects dropped.
pub open spec fn effects_all(objs: Seq<ObjV>, now: u64) -> Seq<ObjV> {
    Seq::new(objs.len(), |i: int| effects_obj(objs[i], now))
}

/// The survivors among the first `n` entities, in order: those neither
/// swallowed nor picked this tick nor marked by an active scheduled
/// death.
pub open spec fn cleanup_upto(objs2: Seq<ObjV>, removed: Seq<int>, now: u64, n: int) -> Seq<ObjV>
    decreases n,
{
    if n <= 0 {
        Seq::empty()
    } else {
        let p = cleanup_upto(objs2, removed, now, n - 1);
        if seq_has(removed, n - 1) || has_death(objs2[n - 1].tmp_effects, now) {
            p
        } else {
            p.push(objs2[n - 1])
        }
    }
}

/// One whole tick: plan every entity against the unmodified world, apply
/// the transitions in order, drop expired effects, advance time, and
/// remove the swallowed and the dead together.
pub open spec fn tick_spec(w: WorldV, ins: Seq<PlanInputs>) -> WorldV {
    let plans = Seq::new(w.objects.len(), |i: int| plan_spec(w.objects[i], w, ins[i]));
    let applied = apply_upto(w.objects, plans, w.objects.len() as int);
    let objs2 = effects_all(applied.0, w.time);
    let kept = cleanup_upto(objs2, applied.1, w.time, objs2.len() as int);
    WorldV { size: w.size, objects: kept, time: (w.time + 1) as u64 }
}

/// What a planned transition guarantees, so that applying it preserves a
/// well-formed world.
pub open spec fn plan_wf(u: TaskUpdV, o: ObjV) -> bool {
    match u {
        TaskUpdV::Pop => o.tasks.len() > 0,
        TaskUpdV::Push(t) => task_ok(t),
        TaskUpdV::Act(a) => match a {
            ActionV::Spawn(s) => obj_ok(s),
            _ => true,
        },
        TaskUpdV::Wait => true,
    }
}

/// Law: the planner respects the goal stack. It never pops an empty
/// stack (an empty stack makes it wait), and every transition it yields
/// keeps the world well formed.
pub proof fn lemma_plan_wf(o: ObjV, w: WorldV, ins: PlanInputs)
    requires
        obj_ok(o),
        world_ok(w),
        inputs_ok(ins),
    ensures
        plan_wf(plan_spec(o, w, ins), o),
        plan_spec(o, w, ins) == TaskUpdV::Pop ==> o.tasks.len() > 0,
{
    if o.tasks.len() > 0 {
        let top = o.tasks.last();
        assert(task_ok(top));
        match top {
            Task::Eat(g) => {
                match nearest_of(w.objects, g, o.bounds.coords) {
                    Option::Some(i) => {
                        lemma_nearest_in_range(w.objects, g, o.bounds.coords, w.objects.len() as int);
                    },
                    Option::None => {},
                }
            },
            Task::Reproduce => {
                match o.blueprint.genus {
                    Genus::Plant(sz) => {
                        if ins.roll < REPRO_EPS {
                            match ins.placement {
                                Option::Some(b) => {
                                    lemma_from_parts_ok(
                                        o.blueprint,
                                        b,
                                        w.time,
                                        ins.lifetime_factor,
                                    );
                                },
                                Option::None => {},
                            }
                        }
                    },
                    Genus::Animal(sz, fp) => {},
                }
            },
            _ => {},
        }
    }
}

/// A found nearest index lies within the snapshot.
pub proof fn lemma_nearest_in_range(objs: Seq<ObjV>, g: Genus, from: Point, n: int)
    requires
        n <= objs.len(),
    ensures
        match nearest_upto(objs, g, from, n) {
            Option::Some(i) => 0 <= i < n,
            Option::None => true,
        },
    decreases n,
{
    if n > 0 {
        lemma_nearest_in_range(objs, g, from, n - 1);
    }
}

/// A spawned entity is well formed.
pub proof fn lemma_from_parts_ok(bp: BlueprintV, bounds: CircleBounds, time: u64, factor: i64)
    requires
        blueprint_ok(bp),
        circle_ok(bounds),
        time <= TIME_LIMIT,
        FACTOR_LO <= factor < FACTOR_HI,
    ensures
        obj_ok(from_parts_spec(bp, bounds, time, factor)),
{
    let o = from_parts_spec(bp, bounds, time, factor);
    match bp.max_lifetime {
        Option::None => {
            assert(o.tmp_effects.len() == 0);
        },
        Option::Some(l) => {
            let off = ((l as int) * (factor as int)) / (SCALE as int);
            assert((l as int) * (factor as int) >= 0) by (nonlinear_arith)
                requires
                    l >= 0,
                    factor >= 0,
            ;
            assert((l as int) * (factor as int) <= (SCALE as int) * (l as int)) by (nonlinear_arith)
                requires
                    0 <= factor <= SCALE,
                    l >= 0,
            ;
            vstd::arithmetic::div_mod::lemma_div_pos_is_pos((l as int) * (factor as int), SCALE as int);
            vstd::arithmetic::div_mod::lemma_div_is_ordered(
                (l as int) * (factor as int),
                (SCALE as int) * (l as int),
                SCALE as int,
            );
            vstd::arithmetic::div_mod::lemma_div_multiples_vanish(l as int, SCALE as int);
            assert(off <= l);
            assert(o.tmp_effects.len() == 1);
            assert(effect_ok(o.tmp_effects[0]));
        },
    }
}

/// Applying well-formed transitions preserves a well-formed entity list:
/// capacity is respected, entities not yet processed are untouched, and
/// every entity stays well formed.
pub proof fn lemma_apply_upto_props(objs0: Seq<ObjV>, plans: Seq<TaskUpdV>, n: int)
    requires
        0 <= n <= plans.len(),
        plans.len() == objs0.len(),
        objs0.len() <= MAX_OBS,
        forall|j: int| 0 <= j < objs0.len() ==> obj_ok(#[trigger] objs0[j]),
        forall|j: int| 0 <= j < plans.len() ==> plan_wf(#[trigger] plans[j], objs0[j]),
    ensures
        ({
            let st = apply_upto(objs0, plans, n);
            &&& objs0.len() <= st.0.len() <= MAX_OBS
            &&& forall|j: int| n <= j < objs0.len() ==> st.0[j] == objs0[j]
            &&& forall|j: int| 0 <= j < st.0.len() ==> obj_ok(#[trigger] st.0[j])
        }),
    decreases n,
{
    if n > 0 {
        lemma_apply_upto_props(objs0, plans, n - 1);
        let prev = apply_upto(objs0, plans, n - 1);
        let i = n - 1;
        assert(prev.0[i] == objs0[i]);
        match plans[i] {
            TaskUpdV::Pop => {
                assert(tasks_ok(pop_top(prev.0[i]).tasks)) by {
                    assert(forall|k: int|
                        0 <= k < prev.0[i].tasks.len() - 1 ==> pop_top(prev.0[i]).tasks[k]
                            == prev.0[i].tasks[k]);
                }
            },
            TaskUpdV::Push(t) => {
                assert(tasks_ok(push_goal(prev.0[i], t).tasks)) by {
                    assert(forall|k: int|
                        0 <= k < prev.0[i].tasks.len() ==> push_goal(prev.0[i], t).tasks[k]
                            == prev.0[i].tasks[k]);
                }
            },
            TaskUpdV::Wait => {},
            TaskUpdV::Act(a) => match a {
                ActionV::MoveTo(p) => {
                    assert(obj_ok(with_coords(prev.0[i], p)));
                },
                _ => {},
            },
        }
    }
}

/// Dropping expired effects keeps the remaining ones well formed.
pub proof fn lemma_retain_effects_ok(es: Seq<TemporalEffect>, now: u64)
    requires
        effects_ok(es),
    ensures
        effects_ok(retain_effects(es, now)),
    decreases es.len(),
{
    if es.len() > 0 {
        assert(effects_ok(es.drop_last())) by {
            assert(forall|k: int|
                0 <= k < es.len() - 1 ==> es.drop_last()[k] == es[k]);
        }
        lemma_retain_effects_ok(es.drop_last(), now);
    }
}

/// Collects the obstacle disks steering considers.
fn collect_obstacles(w: &World) -> (r: Vec<CircleBounds>)
    requires
        world_ok(w@),
    ensures
        r@ == obstacles_of(w@.objects),
        obstacles_ok(r@),
        r.len() <= MAX_OBS,
{
    let mut r: Vec<CircleBounds> = Vec::new();
    let mut i: usize = 0;
    proof {
        lemma_obstacles_of_props(w@.objects.take(0));
    }
    while i < w.objects.len()
        invariant
            i <= w.objects.len(),
            world_ok(w@),
            r@ == obstacles_of(w@.objects.take(i as int)),
            r.len() <= i,
        decreases w.objects.len() - i,
    {
        proof {
            assert(w@.objects[i as int] == w.objects@[i as int]@);
            assert(w@.objects.take(i as int + 1).drop_last() =~= w@.objects.take(i as int));
            assert(w@.objects.take(i as int + 1).last() == w@.objects[i as int]);
        }
        let is_small_plant = match w.objects[i].blueprint.genus {
            Genus::Plant(Size::Small) => true,
            _ => false,
        };
        if !is_small_plant {
            r.push(w.objects[i].bounds);
        }
        i = i + 1;
    }
    proof {
        assert(w@.objects.take(w@.objects.len() as int) =~= w@.objects);
        lemma_obstacles_of_props(w@.objects);
    }
    r
}

/// Finds the nearest living entity of genus `g`, if any; the earliest
/// index wins ties.
fn find_nearest(w: &World, g: Genus, from: &Point) -> (r: Option<usize>)
    requires
        world_ok(w@),
        pt_ok(from@),
    ensures
        match r {
            Option::Some(i) => 0 <= i < w@.objects.len() && nearest_of(w@.objects, g, *from)
                == Option::Some(i as int),
            Option::None => nearest_of(w@.objects, g, *from) == Option::<int>::None,
        },
{
    let mut best: Option<usize> = Option::None;
    let mut best_d2: u128 = 0;
    let mut i: usize = 0;
    while i < w.objects.len()
        invariant
            i <= w.objects.len(),
            world_ok(w@),
            pt_ok(from@),
            match best {
                Option::Some(b) => 0 <= b < i && nearest_upto(w@.objects, g, *from, i as int)
                    == Option::Some(b as int) && best_d2 == vlen_sq(
                    vsub(w@.objects[b as int].bounds.coords@, from@),
                ),
                Option::None => nearest_upto(w@.objects, g, *from, i as int)
                    == Option::<int>::None,
            },
        decreases w.objects.len() - i,
    {
        proof {
            assert(w@.objects[i as int] == w.objects@[i as int]@);
        }
        let matches_genus = w.objects[i].blueprint.genus == g;
        if matches_genus {
            let d2 = crate::collision::dist_sq(&w.objects[i].bounds.coords, from);
            match best {
                Option::None => {
                    best = Option::Some(i);
                    best_d2 = d2;
                },
                Option::Some(b) => {
                    if d2 < best_d2 {
                        best = Option::Some(i);
                        best_d2 = d2;
                    }
                },
            }
        }
        i = i + 1;
    }
    best
}

/// Pins a coordinate into the world's coordinate range.
pub(crate) fn clamp_coord(x: i64) -> (r: i64)
    ensures
        r as int == clamp_i(x as int),
        -PT_LIMIT <= r <= PT_LIMIT,
{
    if x < -PT_LIMIT {
        -PT_LIMIT
    } else if x > PT_LIMIT {
        PT_LIMIT
    } else {
        x
    }
}

/// Whether index `k` is already recorded for removal.
fn removed_contains(removed: &Vec<usize>, k: usize) -> (r: bool)
    ensures
        r == seq_has(removed@.map_values(|u: usize| u as int), k as int),
{
    let ghost ints = removed@.map_values(|u: usize| u as int);
    let mut j: usize = 0;
    while j < removed.len()
        invariant
            j <= removed.len(),
            ints == removed@.map_values(|u: usize| u as int),
            forall|t: int| 0 <= t < j ==> ints[t] != k as int,
        decreases removed.len() - j,
    {
        if removed[j] == k {
            proof {
                assert(ints[j as int] == k as int);
            }
            return true;
        }
        j = j + 1;
    }
    false
}

/// Whether an active scheduled death stands among the entity's effects.
fn death_pending(o: &GameObj, now: u64) -> (r: bool)
    ensures
        r == has_death(o@.tmp_effects, now),
{
    let mut k: usize = 0;
    while k < o.tmp_effects.len()
        invariant
            k <= o.tmp_effects.len(),
            forall|t: int|
                0 <= t < k ==> !((#[trigger] o@.tmp_effects[t]).start <= now
                    && o@.tmp_effects[t].effect == EffectType::DelayedDeath),
        decreases o.tmp_effects.len() - k,
    {
        let e = o.tmp_effects[k];
        let is_death = match e.effect {
            EffectType::DelayedDeath => true,
            _ => false,
        };
        if e.start <= now && is_death {
            proof {
                assert(o@.tmp_effects[k as int].start <= now && o@.tmp_effects[k as int].effect
                    == EffectType::DelayedDeath);
            }
            return true;
        }
        k = k + 1;
    }
    false
}

/// Draws the chance outcomes one entity's planning step consumes: a
/// placement sample for a wanderer, and the reproduction roll, nursery
/// placement and lifetime spread for a reproducing plant. Entities whose
/// active goal consumes no chance get inert defaults.
pub fn plan_inputs(o: &GameObj, w: &World) -> (r: PlanInputs)
    requires
        obj_ok(o@),
        world_ok(w@),
    ensures
        inputs_ok(r),
        inputs_consistent(r, o@, w@),
{
    proof {
        assert forall|j: int| 0 <= j < w.objects@.len() implies obj_ok(#[trigger] w.objects@[j]@) by {
            assert(w@.objects[j] == w.objects@[j]@);
        }
    }
    let mut r = PlanInputs { roll: 0, placement: Option::None, lifetime_factor: FACTOR_LO };
    if o.tasks.len() == 0 {
        return r;
    }
    let top = o.tasks[o.tasks.len() - 1];
    match top {
        Task::Wander => {
            r.placement = gen_circle_bounds(&w.size, Option::None, &w.objects, &o.blueprint);
        },
        Task::Reproduce => {
            let roll = rng_range(0, SCALE);
            r.roll = roll;
            if roll < REPRO_EPS {
                let nursery = CircleBounds { coords: o.bounds.coords, r: 4 * o.bounds.r };
                r.placement = gen_circle_bounds(
                    &w.size,
                    Option::Some(&nursery),
                    &w.objects,
                    &o.blueprint,
                );
                r.lifetime_factor = rng_range(FACTOR_LO, FACTOR_HI);
            }
        },
        _ => {},
    }
    r
}

impl World {
    /// Applies one planned transition for entity `i`: edits its goal
    /// stack, moves it, records a swallowed or picked target once, or
    /// appends a spawned entity (skipped at capacity). The recorded
    /// removal indices are deduplicated, never applied eagerly.
    pub fn apply_transition(&mut self, removed: &mut Vec<usize>, i: usize, u: TaskUpd)
        ensures
            ({
                let st = apply_one(
                    old(self)@.objects,
                    old(removed)@.map_values(|x: usize| x as int),
                    i as int,
                    u@,
                );
                &&& final(self)@.objects == st.0
                &&& final(removed)@.map_values(|x: usize| x as int) == st.1
                &&& final(self)@.size == old(self)@.size
                &&& final(self)@.time == old(self)@.time
            }),
    {
        let ghost objs0 = self@.objects;
        let ghost rem0 = removed@.map_values(|x: usize| x as int);
        match u {
            TaskUpd::TaskPop => {
                if i < self.objects.len() && self.objects[i].tasks.len() > 0 {
                    self.objects[i].tasks.pop();
                    proof {
                        assert(self.objects@[i as int]@.tasks =~= objs0[i as int].tasks.drop_last());
                        assert(self.objects@[i as int]@ =~= pop_top(objs0[i as int]));
                        assert(self@.objects =~= objs0.update(i as int, pop_top(objs0[i as int])));
                    }
                }
            },
            TaskUpd::TaskPush(t) => {
                if i < self.objects.len() {
                    self.objects[i].tasks.push(t);
                    proof {
                        assert(self.objects@[i as int]@ =~= push_goal(objs0[i as int], t));
                        assert(self@.objects =~= objs0.update(
                            i as int,
                            push_goal(objs0[i as int], t),
                        ));
                    }
                }
            },
            TaskUpd::TaskWait => {},
            TaskUpd::TaskAct(a) => match a {
                Action::Scream { bounds } => {},
                Action::Hit { bounds, damage } => {},
                Action::Swallow(k) => {
                    if !removed_contains(removed, k) {
                        removed.push(k);
                        proof {
                            assert(removed@.map_values(|x: usize| x as int) =~= rem0.push(
                                k as int,
                            ));
                        }
                    }
                },
                Action::Pick(k) => {
                    if !removed_contains(removed, k) {
                        removed.push(k);
                        proof {
                            assert(removed@.map_values(|x: usize| x as int) =~= rem0.push(
                                k as int,
                            ));
                        }
                    }
                },
                Action::MoveTo(p) => {
                    if i < self.objects.len() {
                        let nx = clamp_coord(p.x);
                        let ny = clamp_coord(p.y);
                        self.objects[i].bounds.coords = Point { x: nx, y: ny };
                        proof {
                            assert(self.objects@[i as int]@ =~= with_coords(objs0[i as int], p@));
                            assert(self@.objects =~= objs0.update(
                                i as int,
                                with_coords(objs0[i as int], p@),
                            ));
                        }
                    }
                },
                Action::Spawn(o) => {
                    if self.objects.len() < MAX_OBS {
                        let ghost ov = o@;
                        self.objects.push(o);
                        proof {
                            assert(self@.objects =~= objs0.push(ov));
                        }
                    }
                },
            },
        }
    }

    /// One simulation tick. Every entity plans against the unmodified
    /// world; the transitions are applied in order; expired effects are
    /// dropped and scheduled deaths marked; time advances; and the
    /// swallowed and the dead leave together. The chance outcomes the
    /// tick consumed exist as a sequence of well-formed plan inputs that
    /// pins the whole result.
    pub fn upd(&mut self)
        requires
            world_ok(old(self)@),
            old(self)@.time < TIME_LIMIT,
        ensures
            world_ok(final(self)@),
            final(self)@.time == old(self)@.time + 1,
            final(self)@.size == old(self)@.size,
            exists|ins: Seq<PlanInputs>|
                {
                    &&& ins.len() == old(self)@.objects.len()
                    &&& (forall|j: int| 0 <= j < ins.len() ==> inputs_ok(#[trigger] ins[j]))
                    &&& (forall|j: int|
                        0 <= j < ins.len() ==> inputs_consistent(
                            #[trigger] ins[j],
                            old(self)@.objects[j],
                            old(self)@,
                        ))
                    &&& final(self)@ == tick_spec(old(self)@, ins)
                },
    {
        let ghost w0 = self@;
        // Phase 1: plan every entity against the unmodified world.
        let n0 = self.objects.len();
        let mut plans: Vec<TaskUpd> = Vec::new();
        let ghost mut gins: Seq<PlanInputs> = Seq::empty();
        let mut i: usize = 0;
        while i < n0
            invariant
                i <= n0,
                self@ == w0,
                n0 == w0.objects.len(),
                world_ok(w0),
                w0.time < TIME_LIMIT,
                plans@.len() == i,
                gins.len() == i,
                forall|j: int| 0 <= j < i ==> inputs_ok(#[trigger] gins[j]),
                forall|j: int|
                    0 <= j < i ==> inputs_consistent(#[trigger] gins[j], w0.objects[j], w0),
                forall|j: int|
                    0 <= j < i ==> (#[trigger] plans@[j])@ == plan_spec(w0.objects[j], w0, gins[j]),
            decreases n0 - i,
        {
            proof {
                assert(w0.objects[i as int] == self.objects@[i as int]@);
            }
            let pi = plan_inputs(&self.objects[i], self);
            let tu = self.objects[i].plan(self, &pi);
            plans.push(tu);
            proof {
                gins = gins.push(pi);
            }
            i = i + 1;
        }
        let ghost plans_v = plans@.map_values(|p: TaskUpd| p@);
        proof {
            assert(plans_v =~= Seq::new(
                w0.objects.len(),
                |j: int| plan_spec(w0.objects[j], w0, gins[j]),
            ));
            assert forall|j: int| 0 <= j < n0 implies plan_wf(
                #[trigger] plans_v[j],
                w0.objects[j],
            ) by {
                lemma_plan_wf(w0.objects[j], w0, gins[j]);
            }
        }
        // Phase 2: apply the transitions in order.
        let mut removed: Vec<usize> = Vec::new();
        let mut i2: usize = 0;
        while i2 < n0
            invariant
                i2 <= n0,
                n0 == w0.objects.len(),
                world_ok(w0),
                w0.time < TIME_LIMIT,
                plans@.len() == n0 - i2,
                plans@.map_values(|p: TaskUpd| p@) =~= plans_v.skip(i2 as int),
                plans_v.len() == n0,
                forall|j: int| 0 <= j < n0 ==> plan_wf(#[trigger] plans_v[j], w0.objects[j]),
                forall|j: int| 0 <= j < n0 ==> inputs_ok(#[trigger] gins[j]),
                forall|j: int|
                    0 <= j < n0 ==> inputs_consistent(#[trigger] gins[j], w0.objects[j], w0),
                gins.len() == n0,
                forall|j: int|
                    0 <= j < n0 ==> #[trigger] plans_v[j] == plan_spec(w0.objects[j], w0, gins[j]),
                ({
                    let st = apply_upto(w0.objects, plans_v, i2 as int);
                    &&& self@.objects == st.0
                    &&& removed@.map_values(|x: usize| x as int) == st.1
                }),
                self@.size == w0.size,
                self@.time == w0.time,
            decreases n0 - i2,
        {
            let ghost pv_before = plans@;
            let u = plans.remove(0);
            proof {
                assert(pv_before.map_values(|p: TaskUpd| p@) == plans_v.skip(i2 as int));
                assert(u@ == plans_v.skip(i2 as int)[0]);
                assert(u@ == plans_v[i2 as int]);
                assert forall|t: int| 0 <= t < plans@.len() implies (#[trigger] plans@[t])@
                    == plans_v.skip(i2 as int + 1)[t] by {
                    assert(plans@[t] == pv_before[t + 1]);
                    assert(pv_before.map_values(|p: TaskUpd| p@)[t + 1] == plans_v.skip(
                        i2 as int,
                    )[t + 1]);
                    assert(plans_v.skip(i2 as int)[t + 1] == plans_v[i2 as int + 1 + t]);
                    assert(plans_v.skip(i2 as int + 1)[t] == plans_v[i2 as int + 1 + t]);
                }
                assert(plans@.map_values(|p: TaskUpd| p@) =~= plans_v.skip(i2 as int + 1));
            }
            self.apply_transition(&mut removed, i2, u);
            i2 = i2 + 1;
        }
        let ghost applied = apply_upto(w0.objects, plans_v, n0 as int);
        let ghost objs1 = applied.0;
        let ghost rem_ints = applied.1;
        proof {
            lemma_apply_upto_props(w0.objects, plans_v, n0 as int);
        }
        // Phase 3: drop expired effects.
        let now = self.time;
        let m = self.objects.len();
        let mut idx: usize = 0;
        while idx < m
            invariant
                idx <= m,
                self.objects.len() == m,
                m == objs1.len(),
                forall|j: int| 0 <= j < objs1.len() ==> obj_ok(#[trigger] objs1[j]),
                forall|j: int|
                    0 <= j < idx ==> self@.objects[j] == effects_obj(#[trigger] objs1[j], now),
                forall|j: int| idx <= j < m ==> self@.objects[j] == #[trigger] objs1[j],
                self@.size == w0.size,
                self@.time == w0.time,
                now == w0.time,
            decreases m - idx,
        {
            let cnt = self.objects[idx].tmp_effects.len();
            let mut keep: Vec<TemporalEffect> = Vec::new();
            let mut k: usize = 0;
            while k < cnt
                invariant
                    k <= cnt,
                    idx < m,
                    self.objects.len() == m,
                    m == objs1.len(),
                    forall|j: int| 0 <= j < objs1.len() ==> obj_ok(#[trigger] objs1[j]),
                    self@.objects[idx as int] == objs1[idx as int],
                    cnt == objs1[idx as int].tmp_effects.len(),
                    keep@ == retain_effects(objs1[idx as int].tmp_effects.take(k as int), now),
                decreases cnt - k,
            {
                proof {
                    assert(self.objects@[idx as int]@ == objs1[idx as int]);
                    assert(effect_ok(objs1[idx as int].tmp_effects[k as int]));
                    assert(objs1[idx as int].tmp_effects.take(k as int + 1).drop_last()
                        =~= objs1[idx as int].tmp_effects.take(k as int));
                    assert(objs1[idx as int].tmp_effects.take(k as int + 1).last() == objs1[idx
                        as int].tmp_effects[k as int]);
                }
                let e = self.objects[idx].tmp_effects[k];
                if e.start + e.duration >= now {
                    keep.push(e);
                }
                k = k + 1;
            }
            proof {
                assert(objs1[idx as int].tmp_effects.take(cnt as int) =~= objs1[idx
                    as int].tmp_effects);
            }
            self.objects[idx].tmp_effects = keep;
            proof {
                assert(self.objects@[idx as int]@ =~= effects_obj(objs1[idx as int], now));
            }
            idx = idx + 1;
        }
        let ghost objs2 = effects_all(objs1, now);
        proof {
            assert(self@.objects =~= objs2);
            assert forall|j: int| 0 <= j < objs2.len() implies obj_ok(#[trigger] objs2[j]) by {
                lemma_retain_effects_ok(objs1[j].tmp_effects, now);
            }
        }
        // Time advances before the removals are carried out.
        self.time = self.time + 1;
        // Phase 4: the swallowed and the dead leave together.
        let mut kept: Vec<GameObj> = Vec::new();
        let mut j: usize = 0;
        while self.objects.len() > 0
            invariant
                j + self.objects.len() == m,
                m == objs2.len(),
                self@.objects =~= objs2.skip(j as int),
                kept@.map_values(|o: GameObj| o@) =~= cleanup_upto(
                    objs2,
                    rem_ints,
                    now,
                    j as int,
                ),
                kept.len() <= j,
                removed@.map_values(|x: usize| x as int) == rem_ints,
                forall|t: int| 0 <= t < objs2.len() ==> obj_ok(#[trigger] objs2[t]),
                self@.size == w0.size,
                self@.time == w0.time + 1,
                now == w0.time,
            decreases self.objects.len(),
        {
            let o = self.objects.remove(0);
            proof {
                assert(o@ == objs2.skip(j as int)[0]);
                assert(o@ == objs2[j as int]);
                assert(objs2.skip(j as int).remove(0) =~= objs2.skip(j as int + 1));
            }
            let drop_it = removed_contains(&removed, j) || death_pending(&o, now);
            if !drop_it {
                kept.push(o);
            }
            j = j + 1;
        }
        self.objects = kept;
        proof {
            assert(j == m);
            assert(self@.objects =~= cleanup_upto(objs2, rem_ints, now, m as int));
            let plans_t = Seq::new(
                w0.objects.len(),
                |t: int| plan_spec(w0.objects[t], w0, gins[t]),
            );
            assert(plans_v =~= plans_t);
            let tick = tick_spec(w0, gins);
            assert(tick.objects == self@.objects);
            assert(self@ =~= tick);
            assert forall|t: int| 0 <= t < self@.objects.len() implies obj_ok(
                #[trigger] self@.objects[t],
            ) by {
                lemma_cleanup_elems(objs2, rem_ints, now, m as int, t);
            }
            assert(self@.objects.len() <= m <= crate::fixed::MAX_OBS);
        }
    }
}

/// Law: goal-stack discipline, per tick. The planner never yields a pop
/// for an empty stack (and an applied pop on an empty stack changes
/// nothing, by the definition of `apply_one`); a pushed goal sits on top
/// of the stack, and the next planning step evaluates exactly that goal.
pub proof fn lemma_goal_stack_discipline(
    o: ObjV,
    w: WorldV,
    ins: PlanInputs,
    t: Task,
    w2: WorldV,
    ins2: PlanInputs,
)
    requires
        obj_ok(o),
        world_ok(w),
        inputs_ok(ins),
    ensures
        plan_spec(o, w, ins) == TaskUpdV::Pop ==> o.tasks.len() > 0,
        push_goal(o, t).tasks.len() == o.tasks.len() + 1,
        push_goal(o, t).tasks.last() == t,
        plan_spec(push_goal(o, t), w2, ins2) == plan_on_top(t, push_goal(o, t), w2, ins2),
{
    lemma_plan_wf(o, w, ins);
}

/// A recorded removal stays recorded while later transitions apply.
proof fn lemma_apply_removed_monotone(
    objs0: Seq<ObjV>,
    plans: Seq<TaskUpdV>,
    n1: int,
    n2: int,
    k: int,
)
    requires
        0 <= n1 <= n2 <= plans.len(),
        seq_has(apply_upto(objs0, plans, n1).1, k),
    ensures
        seq_has(apply_upto(objs0, plans, n2).1, k),
    decreases n2 - n1,
{
    if n1 < n2 {
        let prev = apply_upto(objs0, plans, n2 - 1);
        lemma_apply_removed_monotone(objs0, plans, n1, n2 - 1, k);
        let next = apply_one(prev.0, prev.1, n2 - 1, plans[n2 - 1]);
        assert(next.1 == prev.1 || exists|x: int| next.1 == prev.1.push(x));
        if next.1 != prev.1 {
            let x = choose|x: int| next.1 == prev.1.push(x);
            let j = choose|j: int| 0 <= j < prev.1.len() && prev.1[j] == k;
            assert(prev.1.push(x)[j] == k);
        }
    }
}

/// Law: a swallow is idempotent. When two entities both choose to
/// swallow entity `k` in the same tick, the second choice changes
/// nothing: the applied outcome equals the one where the later swallow
/// is a plain wait, so `k` leaves the world exactly once.
pub proof fn lemma_swallow_idempotent(
    objs0: Seq<ObjV>,
    plans: Seq<TaskUpdV>,
    i1: int,
    i2: int,
    k: int,
    n: int,
)
    requires
        0 <= i1 < i2 < plans.len(),
        plans[i1] == TaskUpdV::Act(ActionV::Swallow(k)),
        plans[i2] == TaskUpdV::Act(ActionV::Swallow(k)),
        0 <= n <= plans.len(),
    ensures
        apply_upto(objs0, plans, n) == apply_upto(objs0, plans.update(i2, TaskUpdV::Wait), n),
    decreases n,
{
    let plans2 = plans.update(i2, TaskUpdV::Wait);
    if n > 0 {
        lemma_swallow_idempotent(objs0, plans, i1, i2, k, n - 1);
        let prev = apply_upto(objs0, plans, n - 1);
        if n - 1 == i2 {
            // The earlier swallow already recorded `k`.
            let st1 = apply_upto(objs0, plans, i1 + 1);
            let before = apply_upto(objs0, plans, i1);
            assert(st1.1 == if seq_has(before.1, k) {
                before.1
            } else {
                before.1.push(k)
            });
            if !seq_has(before.1, k) {
                assert(before.1.push(k)[before.1.len() as int] == k);
            }
            assert(seq_has(st1.1, k));
            lemma_apply_removed_monotone(objs0, plans, i1 + 1, i2, k);
            assert(seq_has(prev.1, k));
            assert(apply_one(prev.0, prev.1, i2, plans[i2]) == (prev.0, prev.1));
        }
    }
}

/// Law: survivors are kept. An entity neither recorded for removal nor
/// marked by an active scheduled death stands in the cleaned-up world,
/// so no surviving entity ever observes a dangling neighbor.
pub proof fn lemma_cleanup_keeps(objs2: Seq<ObjV>, removed: Seq<int>, now: u64, n: int, j: int)
    requires
        0 <= j < n <= objs2.len(),
        !seq_has(removed, j),
        !has_death(objs2[j].tmp_effects, now),
    ensures
        cleanup_upto(objs2, removed, now, n).contains(objs2[j]),
    decreases n,
{
    let p = cleanup_upto(objs2, removed, now, n - 1);
    if j == n - 1 {
        assert(cleanup_upto(objs2, removed, now, n) == p.push(objs2[j]));
        assert(p.push(objs2[j])[p.len() as int] == objs2[j]);
    } else {
        lemma_cleanup_keeps(objs2, removed, now, n - 1, j);
        let t = choose|t: int| 0 <= t < p.len() && p[t] == objs2[j];
        if !(seq_has(removed, n - 1) || has_death(objs2[n - 1].tmp_effects, now)) {
            assert(p.push(objs2[n - 1])[t] == objs2[j]);
        }
    }
}

/// Every survivor of the cleanup pass is one of the processed entities.
pub proof fn lemma_cleanup_elems(objs2: Seq<ObjV>, removed: Seq<int>, now: u64, n: int, t: int)
    requires
        0 <= n <= objs2.len(),
        0 <= t < cleanup_upto(objs2, removed, now, n).len(),
    ensures
        exists|s: int|
            0 <= s < n && cleanup_upto(objs2, removed, now, n)[t] == #[trigger] objs2[s],
    decreases n,
{
    if n > 0 {
        let p = cleanup_upto(objs2, removed, now, n - 1);
        if seq_has(removed, n - 1) || has_death(objs2[n - 1].tmp_effects, now) {
            lemma_cleanup_elems(objs2, removed, now, n - 1, t);
        } else {
            if t < p.len() {
                lemma_cleanup_elems(objs2, removed, now, n - 1, t);
            } else {
                assert(cleanup_upto(objs2, removed, now, n)[t] == objs2[n - 1]);
            }
        }
    }
}

/// Copies a goal list element by element.
fn copy_tasks(ts: &Vec<Task>) -> (r: Vec<Task>)
    ensures
        r@ == ts@,
{
    let mut r: Vec<Task> = Vec::new();
    let mut k: usize = 0;
    while k < ts.len()
        invariant
            k <= ts.len(),
            r@ == ts@.take(k as int),
        decreases ts.len() - k,
    {
        r.push(ts[k]);
        proof {
            assert(ts@.take(k as int + 1) =~= ts@.take(k as int).push(ts@[k as int]));
        }
        k = k + 1;
    }
    proof {
        assert(ts@.take(ts@.len() as int) =~= ts@);
    }
    r
}

impl GameObj {
    /// Builds the entity a blueprint describes, with every chance outcome
    /// given as an argument.
    pub fn from_parts(blueprint: &GameObjBlueprint, bounds: CircleBounds, time: FrameCount, factor:
        i64) -> (r: GameObj)
        requires
            blueprint_ok(blueprint@),
            circle_ok(bounds),
            time <= TIME_LIMIT,
            FACTOR_LO <= factor < FACTOR_HI,
        ensures
            r@ == from_parts_spec(blueprint@, bounds, time, factor),
            obj_ok(r@),
    {
        let tasks = copy_tasks(&blueprint.tasks);
        let mut tmp_effects: Vec<TemporalEffect> = Vec::new();
        match blueprint.max_lifetime {
            Option::None => {},
            Option::Some(l) => {
                proof {
                    assert((l as int) * (factor as int) <= u64::MAX) by (nonlinear_arith)
                        requires
                            0 <= l <= LIFETIME_LIMIT,
                            0 <= factor < FACTOR_HI,
                    ;
                }
                let offset = (l * (factor as u64)) / (SCALE as u64);
                proof {
                    vstd::arithmetic::div_mod::lemma_div_nonincreasing(
                        (l as int) * (factor as int),
                        SCALE as int,
                    );
                    vstd::arithmetic::div_mod::lemma_div_pos_is_pos(
                        (l as int) * (factor as int),
                        SCALE as int,
                    );
                }
                let start = time + offset;
                tmp_effects.push(
                    TemporalEffect { start, duration: 1, effect: EffectType::DelayedDeath },
                );
                proof {
                    assert(tmp_effects@ =~= from_parts_spec(
                        blueprint@,
                        bounds,
                        time,
                        factor,
                    ).tmp_effects);
                }
            },
        }
        let r = GameObj {
            blueprint: GameObjBlueprint {
                name: blueprint.name,
                genus: blueprint.genus,
                min_dist: blueprint.min_dist,
                radius_lo: blueprint.radius_lo,
                radius_hi: blueprint.radius_hi,
                color: blueprint.color,
                durability: blueprint.durability,
                speed: blueprint.speed,
                tasks: copy_tasks(&blueprint.tasks),
                max_lifetime: blueprint.max_lifetime,
            },
            bounds,
            durability: blueprint.durability,
            tasks,
            tmp_effects,
        };
        proof {
            assert(r@.blueprint =~= blueprint@);
            assert(r@ =~= from_parts_spec(blueprint@, bounds, time, factor));
        }
        r
    }

    /// Builds the entity a blueprint describes, drawing the lifetime
    /// spread factor from the sampler.
    pub fn from(blueprint: &GameObjBlueprint, bounds: CircleBounds, time: FrameCount) -> (r:
        GameObj)
        requires
            blueprint_ok(blueprint@),
            circle_ok(bounds),
            time <= TIME_LIMIT,
        ensures
            exists|f: i64|
                #![auto]
                FACTOR_LO <= f < FACTOR_HI && r@ == from_parts_spec(blueprint@, bounds, time, f),
            obj_ok(r@),
    {
        let factor = rng_range(FACTOR_LO, FACTOR_HI);
        GameObj::from_parts(blueprint, bounds, time, factor)
    }

    /// One planning step: maps this entity's active goal and the current
    /// world snapshot to a single transition, using the given chance
    /// outcomes. Planning reads the world and mutates nothing.
    pub fn plan(&self, w: &World, ins: &PlanInputs) -> (r: TaskUpd)
        requires
            obj_ok(self@),
            world_ok(w@),
            inputs_ok(*ins),
        ensures
            r@ == plan_spec(self@, w@, *ins),
    {
        if self.tasks.len() == 0 {
            return TaskUpd::TaskWait;
        }
        let top = self.tasks[self.tasks.len() - 1];
        proof {
            assert(top == self@.tasks.last());
            assert(task_ok(top));
        }
        match top {
            Task::Wander => match ins.placement {
                Option::Some(b) => TaskUpd::TaskPush(Task::GetTo(b)),
                Option::None => TaskUpd::TaskWait,
            },
            Task::GetTo(target) => {
                if target.collides_with(&self.bounds) {
                    TaskUpd::TaskPop
                } else {
                    let obstacles = collect_obstacles(w);
                    let step = move_to_target(
                        &self.bounds,
                        &target.coords,
                        &obstacles,
                        self.blueprint.speed,
                    );
                    let next = self.bounds.coords.add(&step);
                    TaskUpd::TaskAct(Action::MoveTo(next))
                }
            },
            Task::Eat(genus) => {
                match find_nearest(w, genus, &self.bounds.coords) {
                    Option::None => TaskUpd::TaskPop,
                    Option::Some(i) => {
                        proof {
                            assert(w@.objects[i as int] == w.objects@[i as int]@);
                        }
                        if w.objects[i].bounds.collides_with(&self.bounds) {
                            TaskUpd::TaskAct(Action::Swallow(i))
                        } else {
                            TaskUpd::TaskPush(Task::GetTo(w.objects[i].bounds))
                        }
                    },
                }
            },
            Task::Hunt(genus) => {
                match find_nearest(w, genus, &self.bounds.coords) {
                    Option::None => TaskUpd::TaskPop,
                    Option::Some(i) => {
                        proof {
                            assert(w@.objects[i as int] == w.objects@[i as int]@);
                        }
                        if w.objects[i].bounds.collides_with(&self.bounds) {
                            TaskUpd::TaskAct(Action::Swallow(i))
                        } else {
                            let obstacles = collect_obstacles(w);
                            let step = move_to_target(
                                &self.bounds,
                                &w.objects[i].bounds.coords,
                                &obstacles,
                                self.blueprint.speed,
                            );
                            let next = self.bounds.coords.add(&step);
                            TaskUpd::TaskAct(Action::MoveTo(next))
                        }
                    },
                }
            },
            Task::Reproduce => {
                match self.blueprint.genus {
                    Genus::Plant(_) => {
                        if ins.roll < REPRO_EPS {
                            match ins.placement {
                                Option::Some(b) => TaskUpd::TaskAct(
                                    Action::Spawn(
                                        GameObj::from_parts(
                                            &self.blueprint,
                                            b,
                                            w.time,
                                            ins.lifetime_factor,
                                        ),
                                    ),
                                ),
                                Option::None => TaskUpd::TaskWait,
                            }
                        } else {
                            TaskUpd::TaskWait
                        }
                    },
                    Genus::Animal(_, _) => TaskUpd::TaskWait,
                }
            },
            Task::ListenControls => TaskUpd::TaskWait,
        }
    }
}

} // verus!
