//! The world container and random placement of new entities.
//!
//! Placement samples a candidate disk inside a rectangular or circular
//! region and accepts it only if it keeps the blueprint's separation from
//! every existing entity; after a bounded number of failed trials it gives
//! up softly, and the caller simply skips spawning this tick.

use vstd::prelude::*;
use crate::collision::{
    circle_ok, pt_ok, vlen_sq, vsub, CircleBounds, Point, RectBounds, Vec2,
};
use crate::fixed::{isqrt, MAX_OBS, PT_LIMIT, R_LIMIT};
use crate::rng::rng_range;
use crate::world_update::{
    catalog_blueprint, from_parts_spec, obj_ok, BlueprintV, GameObj, GameObjBlueprint, ObjV,
    FACTOR_HI, FACTOR_LO, TIME_LIMIT,
};

verus! {

/// How many placement trials are made before giving up.
pub const PLACEMENT_TRIALS: u32 = 100;

/// The map layer a tile belongs to; entities on different layers do not
/// collide.
#[derive(Clone, Copy, Debug, PartialEq, Eq, Structural)]
pub enum Tile {
    Floor,
    Middle,
    Sky,
}

/// A spawn region: a rectangle anchored at the origin, or a disk.
#[derive(Clone, Copy, Debug, PartialEq, Eq, Structural)]
pub enum Bounds {
    Rect { size: Point },
    Circle { v: CircleBounds },
}

/// A rectangular piece of the map belonging to one layer.
#[derive(Debug)]
pub struct RectTile {
    pub tile: Tile,
    pub bounds: RectBounds,
}

/// The mathematical value of the world.
#[verifier::ext_equal]
pub ghost struct WorldV {
    pub size: Point,
    pub objects: Seq<ObjV>,
    pub time: u64,
}

/// The simulated world: its extent, its live entities, and the tick
/// counter.
#[derive(Debug)]
pub struct World {
    pub size: Point,
    pub objects: Vec<GameObj>,
    pub time: u64,
}

impl View for World {
    type V = WorldV;

    open spec fn view(&self) -> WorldV {
        WorldV {
            size: self.size,
            objects: self.objects@.map_values(|o: GameObj| o@),
            time: self.time,
        }
    }
}

/// A well-formed world: a bounded extent, a bounded number of entities,
/// each well formed, and a tick counter with room to advance.
pub open spec fn world_ok(w: WorldV) -> bool {
    &&& pt_ok(w.size@)
    &&& w.size.x >= 0
    &&& w.size.y >= 0
    &&& w.objects.len() <= MAX_OBS
    &&& forall|i: int| 0 <= i < w.objects.len() ==> obj_ok(#[trigger] w.objects[i])
    &&& w.time <= TIME_LIMIT
}

/// The candidate keeps the required separation from every existing
/// entity: distance between centers at least the radii plus `min_dist`.
pub open spec fn placement_free(b: CircleBounds, objs: Seq<ObjV>, min_dist: i64) -> bool {
    forall|j: int|
        0 <= j < objs.len() ==> vlen_sq(vsub((#[trigger] objs[j]).bounds.coords@, b.coords@)) >= (
        objs[j].bounds.r + b.r + min_dist) * (objs[j].bounds.r + b.r + min_dist)
}

/// The candidate lies inside the spawn rectangle, `b.r + min_dist` away
/// from each edge; a degenerate axis pins it to the low margin instead.
pub open spec fn in_spawn_rect(b: CircleBounds, size: Point, min_dist: i64) -> bool {
    &&& b.coords.x >= b.r + min_dist
    &&& b.coords.y >= b.r + min_dist
    &&& (b.coords.x < size.x - b.r - min_dist || b.coords.x == b.r + min_dist)
    &&& (b.coords.y < size.y - b.r - min_dist || b.coords.y == b.r + min_dist)
}

/// The candidate's center lies within the spawn disk.
pub open spec fn in_spawn_circle(b: CircleBounds, v: CircleBounds) -> bool {
    vlen_sq(vsub(b.coords@, v.coords@)) <= v.r * v.r
}

/// The entity came out of one placement step: its disk keeps the
/// blueprint's separation from every entity present when it was placed,
/// its radius comes from the blueprint's range, it lies in the spawn
/// rectangle, and it is the blueprint's fresh entity, created at `time`
/// with some lifetime spread factor.
pub open spec fn placed_from(
    o: ObjV,
    prior: Seq<ObjV>,
    bp: BlueprintV,
    size: Point,
    time: u64,
) -> bool {
    &&& placement_free(o.bounds, prior, bp.min_dist)
    &&& bp.radius_lo <= o.bounds.r <= bp.radius_hi
    &&& in_spawn_rect(o.bounds, size, bp.min_dist)
    &&& exists|f: i64|
        #![auto]
        FACTOR_LO <= f < FACTOR_HI && o == from_parts_spec(bp, o.bounds, time, f)
}

/// Every entity keeps its own blueprint's separation from all entities
/// placed before it: the list is pairwise conflict-free at creation.
pub open spec fn separated(objs: Seq<ObjV>) -> bool {
    forall|j: int|
        0 <= j < objs.len() ==> placement_free(
            (#[trigger] objs[j]).bounds,
            objs.take(j),
            objs[j].blueprint.min_dist,
        )
}

/// How many entities bear the given blueprint.
pub open spec fn count_with(objs: Seq<ObjV>, bp: BlueprintV) -> int
    decreases objs.len(),
{
    if objs.len() == 0 {
        0
    } else {
        count_with(objs.drop_last(), bp) + if objs.last().blueprint == bp {
            1int
        } else {
            0int
        }
    }
}

/// Appending a run of one blueprint adds exactly the run's length to
/// that blueprint's count and nothing to any other count.
pub proof fn lemma_count_with_run(
    old_objs: Seq<ObjV>,
    new_objs: Seq<ObjV>,
    bp: BlueprintV,
    q: BlueprintV,
)
    requires
        old_objs.len() <= new_objs.len(),
        forall|j: int| 0 <= j < old_objs.len() ==> new_objs[j] == #[trigger] old_objs[j],
        forall|j: int|
            old_objs.len() <= j < new_objs.len() ==> (#[trigger] new_objs[j]).blueprint == bp,
    ensures
        count_with(new_objs, q) == count_with(old_objs, q) + if q == bp {
            new_objs.len() - old_objs.len()
        } else {
            0int
        },
    decreases new_objs.len(),
{
    if new_objs.len() == old_objs.len() {
        assert(new_objs =~= old_objs);
    } else {
        lemma_count_with_run(old_objs, new_objs.drop_last(), bp, q);
        assert(new_objs.last().blueprint == bp);
    }
}

/// Extending a separated list with placement-checked entities of one
/// blueprint keeps it separated.
pub proof fn lemma_separated_extend(
    old_objs: Seq<ObjV>,
    new_objs: Seq<ObjV>,
    bp: BlueprintV,
    size: Point,
    time: u64,
)
    requires
        separated(old_objs),
        old_objs.len() <= new_objs.len(),
        forall|j: int| 0 <= j < old_objs.len() ==> new_objs[j] == #[trigger] old_objs[j],
        forall|j: int|
            old_objs.len() <= j < new_objs.len() ==> placed_from(
                #[trigger] new_objs[j],
                new_objs.take(j),
                bp,
                size,
                time,
            ),
    ensures
        separated(new_objs),
{
    assert forall|j: int| 0 <= j < new_objs.len() implies placement_free(
        (#[trigger] new_objs[j]).bounds,
        new_objs.take(j),
        new_objs[j].blueprint.min_dist,
    ) by {
        if j < old_objs.len() {
            assert(new_objs.take(j) =~= old_objs.take(j));
            assert(new_objs[j] == old_objs[j]);
        } else {
            assert(placed_from(new_objs[j], new_objs.take(j), bp, size, time));
            let f = choose|f: i64|
                FACTOR_LO <= f < FACTOR_HI && new_objs[j] == from_parts_spec(
                    bp,
                    new_objs[j].bounds,
                    time,
                    f,
                );
            assert(new_objs[j].blueprint == bp);
        }
    }
}

/// Checks that the candidate keeps its separation from every entity.
fn placement_is_free(b: &CircleBounds, objects: &Vec<GameObj>, min_dist: i64) -> (r: bool)
    requires
        circle_ok(*b),
        0 <= min_dist <= R_LIMIT,
        forall|j: int| 0 <= j < objects@.len() ==> obj_ok(#[trigger] objects@[j]@),
    ensures
        r == placement_free(*b, objects@.map_values(|o: GameObj| o@), min_dist),
{
    let ghost objs = objects@.map_values(|o: GameObj| o@);
    let mut j: usize = 0;
    while j < objects.len()
        invariant
            j <= objects.len(),
            circle_ok(*b),
            0 <= min_dist <= R_LIMIT,
            forall|k: int| 0 <= k < objects@.len() ==> obj_ok(#[trigger] objects@[k]@),
            objs == objects@.map_values(|o: GameObj| o@),
            forall|k: int|
                0 <= k < j ==> vlen_sq(vsub((#[trigger] objs[k]).bounds.coords@, b.coords@)) >= (
                objs[k].bounds.r + b.r + min_dist) * (objs[k].bounds.r + b.r + min_dist),
        decreases objects.len() - j,
    {
        let ob = objects[j].bounds;
        proof {
            assert(objs[j as int] == objects@[j as int]@);
        }
        let dx = ob.coords.x - b.coords.x;
        let dy = ob.coords.y - b.coords.y;
        let ghost diff = vsub(ob.coords@, b.coords@);
        let ax: u64 = if dx >= 0 {
            dx as u64
        } else {
            (-dx) as u64
        };
        let ay: u64 = if dy >= 0 {
            dy as u64
        } else {
            (-dy) as u64
        };
        proof {
            assert((ax as int) * (ax as int) == diff.x * diff.x) by (nonlinear_arith)
                requires
                    ax == diff.x || ax == -diff.x,
            ;
            assert((ay as int) * (ay as int) == diff.y * diff.y) by (nonlinear_arith)
                requires
                    ay == diff.y || ay == -diff.y,
            ;
            assert((ax as int) * (ax as int) + (ay as int) * (ay as int) <= u128::MAX)
                by (nonlinear_arith)
                requires
                    0 <= ax <= 2 * PT_LIMIT,
                    0 <= ay <= 2 * PT_LIMIT,
            ;
        }
        let d2: u128 = (ax as u128) * (ax as u128) + (ay as u128) * (ay as u128);
        let s = ob.r + b.r + min_dist;
        proof {
            assert((s as int) * (s as int) <= u128::MAX) by (nonlinear_arith)
                requires
                    0 <= s <= 3 * R_LIMIT,
            ;
        }
        let s2 = (s as u128) * (s as u128);
        if d2 < s2 {
            return false;
        }
        j = j + 1;
    }
    true
}

/// Samples a circle for a new entity of `blueprint` inside the given
/// region, trying at most `PLACEMENT_TRIALS` times; gives up with `None`.
/// A candidate that would leave the world's coordinate range is rejected
/// like a colliding one. Against an empty entity list, sampling in the
/// rectangle cannot fail.
pub fn gen_circle_bounds(
    size: &Point,
    center_bounds: Option<&CircleBounds>,
    objects: &Vec<GameObj>,
    blueprint: &GameObjBlueprint,
) -> (r: Option<CircleBounds>)
    requires
        pt_ok(size@),
        size.x >= 0,
        size.y >= 0,
        crate::world_update::blueprint_ok(blueprint@),
        forall|j: int| 0 <= j < objects@.len() ==> obj_ok(#[trigger] objects@[j]@),
        match center_bounds {
            Option::Some(v) => pt_ok(v.coords@) && 0 <= v.r <= 4 * R_LIMIT,
            Option::None => true,
        },
    ensures
        match r {
            Option::Some(b) => {
                &&& circle_ok(b)
                &&& blueprint@.radius_lo <= b.r <= blueprint@.radius_hi
                &&& placement_free(b, objects@.map_values(|o: GameObj| o@), blueprint.min_dist)
                &&& match center_bounds {
                    Option::Some(v) => in_spawn_circle(b, *v),
                    Option::None => in_spawn_rect(b, *size, blueprint.min_dist),
                }
            },
            Option::None => !(objects@.len() == 0 && center_bounds is None),
        },
{
    let mut attempt: u32 = 0;
    while attempt < PLACEMENT_TRIALS
        invariant
            pt_ok(size@),
            size.x >= 0,
            size.y >= 0,
            crate::world_update::blueprint_ok(blueprint@),
            forall|j: int| 0 <= j < objects@.len() ==> obj_ok(#[trigger] objects@[j]@),
            match center_bounds {
                Option::Some(v) => pt_ok(v.coords@) && 0 <= v.r <= 4 * R_LIMIT,
                Option::None => true,
            },
            // against an empty world the first rectangle trial succeeds,
            // so the loop never comes around again
            objects@.len() == 0 && center_bounds is None ==> attempt == 0,
        decreases PLACEMENT_TRIALS - attempt,
    {
        attempt = attempt + 1;
        let rad = rng_range(blueprint.radius_lo, blueprint.radius_hi);
        let md = blueprint.min_dist;
        let candidate: Option<Point> = match center_bounds {
            Option::None => {
                let x = rng_range(rad + md, size.x - rad - md);
                let y = rng_range(rad + md, size.y - rad - md);
                Option::Some(Point { x, y })
            },
            Option::Some(v) => {
                let dx = rng_range(-v.r, v.r);
                let ax: u64 = if dx >= 0 {
                    dx as u64
                } else {
                    (-dx) as u64
                };
                proof {
                    assert((v.r as int) * (v.r as int) >= (ax as int) * (ax
                        as int) >= 0) by (nonlinear_arith)
                        requires
                            0 <= ax <= v.r,
                    ;
                    assert((v.r as int) * (v.r as int) <= u128::MAX) by (nonlinear_arith)
                        requires
                            0 <= v.r <= 4 * R_LIMIT,
                    ;
                }
                let rem: u128 = (v.r as u128) * (v.r as u128) - (ax as u128) * (ax as u128);
                let ry_u = isqrt(rem);
                proof {
                    crate::fixed::lemma_sqrt_floor_bounds(rem as nat);
                    crate::fixed::lemma_sqrt_floor_monotone(rem as nat, ((v.r as int) * (v.r
                        as int)) as nat);
                    crate::fixed::lemma_sqrt_floor_square(v.r as nat);
                }
                let ry = ry_u as i64;
                let dy = rng_range(-ry, ry);
                let x = v.coords.x + dx;
                let y = v.coords.y + dy;
                if x < -PT_LIMIT || x > PT_LIMIT || y < -PT_LIMIT || y > PT_LIMIT {
                    Option::None
                } else {
                    proof {
                        let c = Point { x: x as i64, y: y as i64 };
                        assert(vsub(c@, v.coords@) == Vec2 { x: dx as int, y: dy as int });
                        assert((dx as int) * (dx as int) == (ax as int) * (ax
                            as int)) by (nonlinear_arith)
                            requires
                                ax == dx || ax == -dx,
                        ;
                        assert((dy as int) * (dy as int) <= (ry as int) * (ry
                            as int)) by (nonlinear_arith)
                            requires
                                -ry <= dy <= ry,
                                0 <= ry,
                        ;
                        assert((ax as int) * (ax as int) + (ry as int) * (ry as int) <= (v.r
                            as int) * (v.r as int));
                    }
                    Option::Some(Point { x, y })
                }
            },
        };
        match candidate {
            Option::None => {},
            Option::Some(coords) => {
                let b = CircleBounds { coords, r: rad };
                if placement_is_free(&b, objects, md) {
                    return Option::Some(b);
                }
            },
        }
    }
    Option::None
}

/// Tries to place and append one new entity of `blueprint`; reports
/// whether one was added. Against an empty list it always succeeds.
fn add_object(size: &Point, objects: &mut Vec<GameObj>, blueprint: &GameObjBlueprint, time:
    crate::world_update::FrameCount) -> (added: bool)
    requires
        pt_ok(size@),
        size.x >= 0,
        size.y >= 0,
        crate::world_update::blueprint_ok(blueprint@),
        forall|j: int| 0 <= j < old(objects)@.len() ==> obj_ok(#[trigger] old(objects)@[j]@),
        old(objects)@.len() < MAX_OBS,
        time <= TIME_LIMIT,
    ensures
        forall|j: int| 0 <= j < final(objects)@.len() ==> obj_ok(#[trigger] final(objects)@[j]@),
        !added ==> final(objects)@ == old(objects)@,
        added ==> final(objects)@.len() == old(objects)@.len() + 1 && final(objects)@.take(
            old(objects)@.len() as int,
        ) == old(objects)@ && final(objects)@.last()@.blueprint == blueprint@,
        added ==> placed_from(
            final(objects)@.last()@,
            old(objects)@.map_values(|o: GameObj| o@),
            blueprint@,
            *size,
            time,
        ),
        old(objects)@.len() == 0 ==> added,
{
    let bounds = gen_circle_bounds(size, Option::None, objects, blueprint);
    match bounds {
        Option::Some(b) => {
            let o = GameObj::from(blueprint, b, time);
            let ghost before = objects@;
            objects.push(o);
            proof {
                assert(objects@.take(before.len() as int) =~= before);
                let f = choose|f: i64|
                    #![auto]
                    FACTOR_LO <= f < FACTOR_HI && o@ == from_parts_spec(blueprint@, b, time, f);
                assert(o@.bounds == b);
                assert(o@ == from_parts_spec(blueprint@, o@.bounds, time, f));
            }
            true
        },
        Option::None => false,
    }
}

/// Fills the world with entities of one species: at most the given
/// number of them, or, with no count, as many as placement (and the
/// world's capacity) allows. Each placed entity keeps its separation
/// from everything present at the moment it was placed and carries the
/// world's current time as its creation time.
pub fn add_objects(w: &mut World, tile: Tile, blueprint: &GameObjBlueprint, count: Option<i32>)
    requires
        world_ok(old(w)@),
        crate::world_update::blueprint_ok(blueprint@),
    ensures
        world_ok(final(w)@),
        final(w)@.size == old(w)@.size,
        final(w)@.time == old(w)@.time,
        final(w)@.objects.len() >= old(w)@.objects.len(),
        forall|j: int|
            0 <= j < old(w)@.objects.len() ==> final(w)@.objects[j] == #[trigger] old(w)@.objects[j],
        forall|j: int|
            old(w)@.objects.len() <= j < final(w)@.objects.len() ==> (#[trigger] final(w)@.objects[j]).blueprint
                == blueprint@,
        forall|j: int|
            old(w)@.objects.len() <= j < final(w)@.objects.len() ==> placed_from(
                #[trigger] final(w)@.objects[j],
                final(w)@.objects.take(j),
                blueprint@,
                old(w)@.size,
                old(w)@.time,
            ),
        match count {
            Option::Some(c) => final(w)@.objects.len() <= old(w)@.objects.len() + (if c >= 0 {
                c as int
            } else {
                0int
            }),
            Option::None => old(w)@.objects.len() == 0 ==> final(w)@.objects.len() >= 1,
        },
{
    let ghost w0 = w@;
    let time = w.time;
    match count {
        Option::None => {
            if w.objects.len() < MAX_OBS {
                proof {
                    assert forall|j: int| 0 <= j < w.objects@.len() implies obj_ok(
                        #[trigger] w.objects@[j]@,
                    ) by {
                        assert(w@.objects[j] == w.objects@[j]@);
                    }
                }
                let ghost before_exec = w.objects@;
                let ghost before = w@.objects;
                let mut added = add_object(&w.size, &mut w.objects, blueprint, time);
                proof {
                    let ghost after_v = w@.objects;
                    if added {
                        assert forall|j: int|
                            0 <= j < before.len() implies after_v.take(before.len() as int)[j]
                            == #[trigger] before[j] by {
                            assert(w.objects@.take(before.len() as int)[j] == before_exec[j]);
                            assert(w.objects@.take(before.len() as int)[j] == w.objects@[j]);
                            assert(after_v[j] == w.objects@[j]@);
                            assert(before[j] == before_exec[j]@);
                        }
                        assert(after_v.take(before.len() as int) =~= before);
                        assert(after_v.last() == w.objects@.last()@);
                    }
                    lemma_add_object_step(before, w@.objects, w0, blueprint@, time, added);
                }
                while added && w.objects.len() < MAX_OBS
                    invariant
                        world_ok(w0),
                        crate::world_update::blueprint_ok(blueprint@),
                        w.size == w0.size,
                        w.time == w0.time,
                        w@.objects.len() >= w0.objects.len(),
                        w@.objects.len() <= MAX_OBS,
                        time == w0.time,
                        w0.objects.len() == 0 ==> w@.objects.len() >= 1,
                        forall|j: int|
                            0 <= j < w@.objects.len() ==> obj_ok(#[trigger] w@.objects[j]),
                        forall|j: int|
                            0 <= j < w0.objects.len() ==> w@.objects[j] == #[trigger] w0.objects[j],
                        forall|j: int|
                            w0.objects.len() <= j < w@.objects.len() ==> (#[trigger] w@.objects[j]).blueprint
                                == blueprint@,
                        forall|j: int|
                            w0.objects.len() <= j < w@.objects.len() ==> placed_from(
                                #[trigger] w@.objects[j],
                                w@.objects.take(j),
                                blueprint@,
                                w0.size,
                                w0.time,
                            ),
                    decreases MAX_OBS - w.objects.len(), (if added {
                        1int
                    } else {
                        0int
                    }),
                {
                    proof {
                        assert forall|j: int| 0 <= j < w.objects@.len() implies obj_ok(
                            #[trigger] w.objects@[j]@,
                        ) by {
                            assert(w@.objects[j] == w.objects@[j]@);
                        }
                    }
                    let ghost before_exec = w.objects@;
                    let ghost before = w@.objects;
                    added = add_object(&w.size, &mut w.objects, blueprint, time);
                    proof {
                        let ghost after_v = w@.objects;
                        if added {
                            assert forall|j: int|
                                0 <= j < before.len() implies after_v.take(before.len() as int)[j]
                                == #[trigger] before[j] by {
                                assert(w.objects@.take(before.len() as int)[j] == before_exec[j]);
                                assert(w.objects@.take(before.len() as int)[j] == w.objects@[j]);
                                assert(after_v[j] == w.objects@[j]@);
                                assert(before[j] == before_exec[j]@);
                            }
                            assert(after_v.take(before.len() as int) =~= before);
                            assert(after_v.last() == w.objects@.last()@);
                        }
                        lemma_add_object_step(before, w@.objects, w0, blueprint@, time, added);
                    }
                }
            }
        },
        Option::Some(c) => {
            let mut k: i32 = 0;
            while k < c
                invariant
                    world_ok(w0),
                    crate::world_update::blueprint_ok(blueprint@),
                    w.size == w0.size,
                    w.time == w0.time,
                    w@.objects.len() >= w0.objects.len(),
                    w@.objects.len() <= MAX_OBS,
                    w@.objects.len() <= w0.objects.len() + k,
                    0 <= k,
                    c >= 0 ==> k <= c,
                    c < 0 ==> k == 0,
                    time == w0.time,
                    forall|j: int| 0 <= j < w@.objects.len() ==> obj_ok(#[trigger] w@.objects[j]),
                    forall|j: int|
                        0 <= j < w0.objects.len() ==> w@.objects[j] == #[trigger] w0.objects[j],
                    forall|j: int|
                        w0.objects.len() <= j < w@.objects.len() ==> (#[trigger] w@.objects[j]).blueprint
                            == blueprint@,
                    forall|j: int|
                        w0.objects.len() <= j < w@.objects.len() ==> placed_from(
                            #[trigger] w@.objects[j],
                            w@.objects.take(j),
                            blueprint@,
                            w0.size,
                            w0.time,
                        ),
                decreases c - k,
            {
                if w.objects.len() < MAX_OBS {
                    proof {
                        assert forall|j: int| 0 <= j < w.objects@.len() implies obj_ok(
                            #[trigger] w.objects@[j]@,
                        ) by {
                            assert(w@.objects[j] == w.objects@[j]@);
                        }
                    }
                    let ghost before_exec = w.objects@;
                    let ghost before = w@.objects;
                    let added = add_object(&w.size, &mut w.objects, blueprint, time);
                    proof {
                        let ghost after_v = w@.objects;
                        if added {
                            assert forall|j: int|
                                0 <= j < before.len() implies after_v.take(before.len() as int)[j]
                                == #[trigger] before[j] by {
                                assert(w.objects@.take(before.len() as int)[j] == before_exec[j]);
                                assert(w.objects@.take(before.len() as int)[j] == w.objects@[j]);
                                assert(after_v[j] == w.objects@[j]@);
                                assert(before[j] == before_exec[j]@);
                            }
                            assert(after_v.take(before.len() as int) =~= before);
                            assert(after_v.last() == w.objects@.last()@);
                        }
                        lemma_add_object_step(before, w@.objects, w0, blueprint@, time, added);
                    }
                }
                k = k + 1;
            }
        },
    }
}

/// Builds a fresh world of the given extent: trees fill the map, then at
/// most 100 hares, 10 wolves, 1000 grass tufts, the asked-for number of
/// wanderers and one player are placed, each species only where room
/// remains. Every entity bears a catalog blueprint and keeps its
/// separation from everything placed before it; on any map at least the
/// first tree finds room.
pub fn generate_world(size: Point, wanderers: i32) -> (w: World)
    requires
        pt_ok(size@),
        size.x >= 0,
        size.y >= 0,
    ensures
        world_ok(w@),
        w.size == size,
        w.time == 0,
        w@.objects.len() >= 1,
        separated(w@.objects),
        forall|i: int|
            0 <= i < w@.objects.len() ==> catalog_blueprint(
                (#[trigger] w@.objects[i]).blueprint,
            ),
        count_with(w@.objects, crate::world_update::hare_spec()) <= 100,
        count_with(w@.objects, crate::world_update::wolf_spec()) <= 10,
        count_with(w@.objects, crate::world_update::grass_spec()) <= 1000,
        count_with(w@.objects, crate::world_update::wanderer_spec()) <= (if wanderers >= 0 {
            wanderers as int
        } else {
            0int
        }),
        count_with(w@.objects, crate::world_update::player_spec()) <= 1,
{
    let mut world = World { size, objects: Vec::new(), time: 0 };
    proof {
        assert(world@.objects =~= Seq::<ObjV>::empty());
        crate::world_update::lemma_catalog_distinct();
    }
    let ghost s0 = world@.objects;
    let tree = GameObjBlueprint::tree();
    add_objects(&mut world, Tile::Middle, &tree, Option::None);
    let ghost s1 = world@.objects;
    proof {
        lemma_generation_stage(s0, s1, crate::world_update::tree_spec(), size, 0);
    }
    let hare = GameObjBlueprint::hare();
    add_objects(&mut world, Tile::Floor, &hare, Option::Some(100));
    let ghost s2 = world@.objects;
    proof {
        lemma_generation_stage(s1, s2, crate::world_update::hare_spec(), size, 0);
    }
    let wolf = GameObjBlueprint::wolf();
    add_objects(&mut world, Tile::Middle, &wolf, Option::Some(10));
    let ghost s3 = world@.objects;
    proof {
        lemma_generation_stage(s2, s3, crate::world_update::wolf_spec(), size, 0);
    }
    let grass = GameObjBlueprint::grass();
    add_objects(&mut world, Tile::Floor, &grass, Option::Some(1000));
    let ghost s4 = world@.objects;
    proof {
        lemma_generation_stage(s3, s4, crate::world_update::grass_spec(), size, 0);
    }
    let wanderer = GameObjBlueprint::wanderer();
    add_objects(&mut world, Tile::Middle, &wanderer, Option::Some(wanderers));
    let ghost s5 = world@.objects;
    proof {
        lemma_generation_stage(s4, s5, crate::world_update::wanderer_spec(), size, 0);
    }
    let player = GameObjBlueprint::player();
    add_objects(&mut world, Tile::Middle, &player, Option::Some(1));
    let ghost s6 = world@.objects;
    proof {
        lemma_generation_stage(s5, s6, crate::world_update::player_spec(), size, 0);
    }
    world
}

/// Bookkeeping for one `add_object` call inside a filling loop: the
/// previous entities keep their places and their placement facts, and a
/// newly appended entity carries its own.
proof fn lemma_add_object_step(
    before: Seq<ObjV>,
    after: Seq<ObjV>,
    w0: WorldV,
    bp: BlueprintV,
    time: u64,
    added: bool,
)
    requires
        w0.objects.len() <= before.len(),
        !added ==> after == before,
        added ==> after.len() == before.len() + 1 && after.take(before.len() as int) == before
            && placed_from(after.last(), before, bp, w0.size, time),
        forall|j: int| 0 <= j < w0.objects.len() ==> before[j] == #[trigger] w0.objects[j],
        forall|j: int|
            w0.objects.len() <= j < before.len() ==> placed_from(
                #[trigger] before[j],
                before.take(j),
                bp,
                w0.size,
                time,
            ),
        forall|j: int|
            w0.objects.len() <= j < before.len() ==> (#[trigger] before[j]).blueprint == bp,
    ensures
        forall|j: int| 0 <= j < w0.objects.len() ==> after[j] == #[trigger] w0.objects[j],
        forall|j: int|
            w0.objects.len() <= j < after.len() ==> placed_from(
                #[trigger] after[j],
                after.take(j),
                bp,
                w0.size,
                time,
            ),
        forall|j: int| w0.objects.len() <= j < after.len() ==> (#[trigger] after[j]).blueprint == bp,
        w0.objects.len() == 0 && added ==> after.len() >= 1,
{
    if added {
        assert forall|j: int| 0 <= j < before.len() implies after[j] == #[trigger] before[j] by {
            assert(after.take(before.len() as int)[j] == after[j]);
        }
        assert forall|j: int|
            w0.objects.len() <= j < after.len() implies placed_from(
            #[trigger] after[j],
            after.take(j),
            bp,
            w0.size,
            time,
        ) by {
            if j < before.len() {
                assert(after.take(j) =~= before.take(j));
                assert(after[j] == before[j]);
            } else {
                assert(j == before.len());
                assert(after.take(j) =~= before);
                assert(after[j] == after.last());
            }
        }
        assert forall|j: int|
            w0.objects.len() <= j < after.len() implies (#[trigger] after[j]).blueprint == bp by {
            if j < before.len() {
                assert(after[j] == before[j]);
            } else {
                assert(after[j] == after.last());
                let f = choose|f: i64|
                    #![auto]
                    FACTOR_LO <= f < FACTOR_HI && after.last() == from_parts_spec(
                        bp,
                        after.last().bounds,
                        time,
                        f,
                    );
                assert(after.last().blueprint == bp);
            }
        }
    }
}

/// Bookkeeping for one species stage of world generation: separation,
/// catalog membership and blueprint counts carry over the stage.
proof fn lemma_generation_stage(
    old_objs: Seq<ObjV>,
    new_objs: Seq<ObjV>,
    bp: BlueprintV,
    size: Point,
    time: u64,
)
    requires
        catalog_blueprint(bp),
        separated(old_objs),
        forall|i: int|
            0 <= i < old_objs.len() ==> catalog_blueprint((#[trigger] old_objs[i]).blueprint),
        old_objs.len() <= new_objs.len(),
        forall|j: int| 0 <= j < old_objs.len() ==> new_objs[j] == #[trigger] old_objs[j],
        forall|j: int|
            old_objs.len() <= j < new_objs.len() ==> (#[trigger] new_objs[j]).blueprint == bp,
        forall|j: int|
            old_objs.len() <= j < new_objs.len() ==> placed_from(
                #[trigger] new_objs[j],
                new_objs.take(j),
                bp,
                size,
                time,
            ),
    ensures
        separated(new_objs),
        forall|i: int|
            0 <= i < new_objs.len() ==> catalog_blueprint((#[trigger] new_objs[i]).blueprint),
        forall|q: BlueprintV|
            #![auto]
            count_with(new_objs, q) == count_with(old_objs, q) + if q == bp {
                new_objs.len() - old_objs.len()
            } else {
                0int
            },
{
    lemma_separated_extend(old_objs, new_objs, bp, size, time);
    assert forall|i: int| 0 <= i < new_objs.len() implies catalog_blueprint(
        (#[trigger] new_objs[i]).blueprint,
    ) by {
        if i < old_objs.len() {
            assert(new_objs[i] == old_objs[i]);
        } else {
            assert(new_objs[i].blueprint == bp);
        }
    }
    assert forall|q: BlueprintV|
        #![auto]
        count_with(new_objs, q) == count_with(old_objs, q) + if q == bp {
            new_objs.len() - old_objs.len()
        } else {
            0int
        } by {
        lemma_count_with_run(old_objs, new_objs, bp, q);
    }
}

} // verus!
