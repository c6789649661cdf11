//! The read-only projection of the world that a renderer consumes.
//!
//! One frame is an ordered list of colored shapes: the background
//! rectangle first, then one circle per entity, slower species before
//! faster ones so that moving creatures draw on top of plants. The
//! renderer owns triangulation and the actual draw calls; nothing here
//! touches a device.

use vstd::prelude::*;
use crate::collision::{circles_collide, pt_ok, CircleBounds, Point};
use crate::colors::ColorTone;
use crate::world_gen::{world_ok, Bounds, World};
use crate::world_update::{obj_ok, GameObj, ObjV};

verus! {

/// One drawable shape with its color.
#[derive(Debug)]
pub struct RenderedShape {
    pub color: ColorTone,
    pub bounds: Bounds,
}

/// The pointer probe: a disk a tenth of a unit in radius.
pub const PROBE_RADIUS: i64 = 100_000;

/// The disk a pointer at `mouse` occupies for hit-testing.
pub open spec fn probe_at(mouse: Point) -> CircleBounds {
    CircleBounds { coords: mouse, r: PROBE_RADIUS }
}

/// Entities stand in back-to-front draw order: speeds never decrease.
pub open spec fn speed_sorted(objs: Seq<ObjV>) -> bool {
    forall|i: int, j: int|
        0 <= i < j < objs.len() ==> (#[trigger] objs[i]).blueprint.speed <= (
        #[trigger] objs[j]).blueprint.speed
}

/// The index of a slowest entity among `v`, favoring the earliest.
fn find_slowest(v: &Vec<GameObj>) -> (r: usize)
    requires
        v@.len() > 0,
    ensures
        0 <= r < v@.len(),
        forall|j: int|
            0 <= j < v@.len() ==> v@[r as int]@.blueprint.speed <= (
            #[trigger] v@[j]@).blueprint.speed,
{
    let mut best: usize = 0;
    let mut j: usize = 1;
    while j < v.len()
        invariant
            0 <= best < j <= v@.len(),
            forall|t: int|
                0 <= t < j ==> v@[best as int]@.blueprint.speed <= (
                #[trigger] v@[t]@).blueprint.speed,
        decreases v@.len() - j,
    {
        if v[j].blueprint.speed < v[best].blueprint.speed {
            best = j;
        }
        j = j + 1;
    }
    best
}

/// Selection sort by species speed: repeatedly moves a slowest remaining
/// entity to the end of the sorted prefix.
fn sort_by_speed(v: &mut Vec<GameObj>)
    ensures
        final(v)@.len() == old(v)@.len(),
        final(v)@.map_values(|o: GameObj| o@).to_multiset() == old(v)@.map_values(
            |o: GameObj| o@,
        ).to_multiset(),
        speed_sorted(final(v)@.map_values(|o: GameObj| o@)),
{
    broadcast use vstd::seq_lib::group_to_multiset_ensures;

    let ghost orig = old(v)@.map_values(|o: GameObj| o@);
    let mut out: Vec<GameObj> = Vec::new();
    proof {
        assert(out@.map_values(|o: GameObj| o@) =~= Seq::<ObjV>::empty());
        assert(out@.map_values(|o: GameObj| o@).to_multiset().add(
            v@.map_values(|o: GameObj| o@).to_multiset(),
        ) =~= orig.to_multiset());
    }
    while v.len() > 0
        invariant
            out@.len() + v@.len() == orig.len(),
            out@.map_values(|o: GameObj| o@).to_multiset().add(
                v@.map_values(|o: GameObj| o@).to_multiset(),
            ) == orig.to_multiset(),
            forall|i: int, j: int|
                0 <= i < j < out@.len() ==> (#[trigger] out@[i])@.blueprint.speed <= (
                #[trigger] out@[j])@.blueprint.speed,
            forall|i: int, j: int|
                0 <= i < out@.len() && 0 <= j < v@.len() ==> (#[trigger] out@[i])@.blueprint.speed
                    <= (#[trigger] v@[j])@.blueprint.speed,
        decreases v@.len(),
    {
        broadcast use vstd::seq_lib::group_to_multiset_ensures;

        let ghost out_b = out@;
        let ghost src_b = v@;
        let ghost out_v = out@.map_values(|o: GameObj| o@);
        let ghost src_v = v@.map_values(|o: GameObj| o@);
        let k = find_slowest(v);
        let e = v.remove(k);
        out.push(e);
        proof {
            assert(v@.map_values(|o: GameObj| o@) =~= src_v.remove(k as int));
            assert(out@.map_values(|o: GameObj| o@) =~= out_v.push(e@));
            assert(src_v.remove(k as int).to_multiset() =~= src_v.to_multiset().remove(
                src_v[k as int],
            ));
            assert(out_v.push(e@).to_multiset() =~= out_v.to_multiset().insert(e@));
            assert(e@ == src_v[k as int]);
            assert(src_v.to_multiset().count(e@) >= 1) by {
                assert(src_v[k as int] == e@);
                assert(src_v.contains(e@));
            }
            assert(out_v.to_multiset().insert(e@).add(src_v.to_multiset().remove(e@))
                =~= out_v.to_multiset().add(src_v.to_multiset()));
            assert forall|i: int, j: int|
                0 <= i < out@.len() && 0 <= j < v@.len() implies (#[trigger] out@[i])@.blueprint.speed
                <= (#[trigger] v@[j])@.blueprint.speed by {
                let jj = if j < k as int {
                    j
                } else {
                    j + 1
                };
                assert(v@[j] == src_b[jj]);
                assert(src_b[jj]@.blueprint.speed >= e@.blueprint.speed) by {
                    assert(src_b[jj]@ == src_v[jj]);
                }
                if i < out_b.len() {
                    assert(out@[i] == out_b[i]);
                } else {
                    assert(out@[i] == e);
                }
            }
            assert forall|i: int, j: int|
                0 <= i < j < out@.len() implies (#[trigger] out@[i])@.blueprint.speed <= (
                #[trigger] out@[j])@.blueprint.speed by {
                assert(out@[i] == out_b[i]);
                if j < out_b.len() {
                    assert(out@[j] == out_b[j]);
                } else {
                    assert(out@[j] == e);
                    assert(out_b[i]@.blueprint.speed <= src_v[k as int].blueprint.speed) by {
                        assert(src_b[k as int]@ == src_v[k as int]);
                    }
                }
            }
        }
    }
    *v = out;
    proof {
        assert(speed_sorted(v@.map_values(|o: GameObj| o@)));
    }
}

impl World {
    /// The entity under the pointer, if any: the first whose disk meets a
    /// pointer-sized probe at `mouse` (a tenth of a unit across). The
    /// renderer shows its durability as an overlay.
    pub fn hovered(&self, mouse: &Point) -> (r: Option<usize>)
        requires
            world_ok(self@),
            pt_ok(mouse@),
        ensures
            match r {
                Option::Some(i) => 0 <= i < self@.objects.len() && circles_collide(
                    self@.objects[i as int].bounds,
                    probe_at(*mouse),
                ) && forall|j: int|
                    0 <= j < i ==> !circles_collide(
                        (#[trigger] self@.objects[j]).bounds,
                        probe_at(*mouse),
                    ),
                Option::None => forall|j: int|
                    0 <= j < self@.objects.len() ==> !circles_collide(
                        (#[trigger] self@.objects[j]).bounds,
                        probe_at(*mouse),
                    ),
            },
    {
        let probe = CircleBounds { coords: *mouse, r: PROBE_RADIUS };
        let mut i: usize = 0;
        while i < self.objects.len()
            invariant
                i <= self.objects.len(),
                world_ok(self@),
                pt_ok(mouse@),
                probe == probe_at(*mouse),
                forall|j: int|
                    0 <= j < i ==> !circles_collide(
                        (#[trigger] self@.objects[j]).bounds,
                        probe_at(*mouse),
                    ),
            decreases self.objects.len() - i,
        {
            proof {
                assert(self@.objects[i as int] == self.objects@[i as int]@);
            }
            if self.objects[i].bounds.collides_with(&probe) {
                return Option::Some(i);
            }
            i = i + 1;
        }
        Option::None
    }

    /// Reorders the entities so slower species draw first, then projects
    /// the world onto a scene: the background rectangle in lime green,
    /// then one circle per entity in its species color.
    pub fn to_scene(&mut self) -> (r: Vec<RenderedShape>)
        requires
            world_ok(old(self)@),
        ensures
            world_ok(final(self)@),
            final(self)@.size == old(self)@.size,
            final(self)@.time == old(self)@.time,
            final(self)@.objects.to_multiset() == old(self)@.objects.to_multiset(),
            speed_sorted(final(self)@.objects),
            r@.len() == final(self)@.objects.len() + 1,
            r@[0].color == ColorTone::LimeGreen,
            r@[0].bounds == (Bounds::Rect { size: old(self)@.size }),
            forall|i: int|
                0 <= i < final(self)@.objects.len() ==> (#[trigger] r@[i + 1]).color
                    == final(self)@.objects[i].blueprint.color && r@[i + 1].bounds == (
                Bounds::Circle { v: final(self)@.objects[i].bounds }),
    {
        broadcast use vstd::seq_lib::group_to_multiset_ensures;

        let ghost w0 = self@;
        sort_by_speed(&mut self.objects);
        proof {
            assert forall|t: int| 0 <= t < self@.objects.len() implies obj_ok(
                #[trigger] self@.objects[t],
            ) by {
                assert(self@.objects.to_multiset().count(self@.objects[t]) >= 1) by {
                    assert(self@.objects.contains(self@.objects[t]));
                }
                assert(w0.objects.to_multiset().count(self@.objects[t]) >= 1);
                assert(w0.objects.contains(self@.objects[t]));
                let s = choose|s: int|
                    0 <= s < w0.objects.len() && w0.objects[s] == self@.objects[t];
                assert(obj_ok(w0.objects[s]));
            }
        }
        let mut r: Vec<RenderedShape> = Vec::new();
        r.push(RenderedShape { color: ColorTone::LimeGreen, bounds: Bounds::Rect { size: self.size } });
        let mut i: usize = 0;
        while i < self.objects.len()
            invariant
                i <= self.objects.len(),
                r@.len() == i + 1,
                r@[0].color == ColorTone::LimeGreen,
                r@[0].bounds == (Bounds::Rect { size: w0.size }),
                self@.size == w0.size,
                forall|t: int|
                    0 <= t < i ==> (#[trigger] r@[t + 1]).color
                        == self@.objects[t].blueprint.color && r@[t + 1].bounds == (Bounds::Circle {
                        v: self@.objects[t].bounds,
                    }),
            decreases self.objects.len() - i,
        {
            proof {
                assert(self@.objects[i as int] == self.objects@[i as int]@);
            }
            r.push(
                RenderedShape {
                    color: self.objects[i].blueprint.color,
                    bounds: Bounds::Circle { v: self.objects[i].bounds },
                },
            );
            i = i + 1;
        }
        r
    }
}

} // verus!
