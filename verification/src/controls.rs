//! Player input: the key state, the direction it encodes, and how the
//! world applies it to the player-controlled entity.
//!
//! The window library only reports which key went down or up; everything
//! it decides from there — the held-key state, the unit-ish direction,
//! whether the paused world should advance, and the player's move — is
//! plain logic and lives here.

use vstd::prelude::*;
use crate::collision::{vadd, vlen, vmultf, Point, Vec2};
use crate::fixed::{NORM_EPS, SCALE, SPEED_LIMIT};
use crate::world_gen::{world_ok, World};
use crate::world_update::{obj_ok, ObjV, Task};

verus! {

/// A key the simulation reacts to; anything else is `Other`.
#[derive(Clone, Copy, Debug, PartialEq, Eq, Structural)]
pub enum Key {
    Up,
    Down,
    Left,
    Right,
    Space,
    Other,
}

/// Which movement keys are held, whether the world runs only while the
/// player moves, and where the pointer is.
#[derive(Clone, Copy, Debug, PartialEq, Eq, Structural)]
pub struct ControlsState {
    pub up: bool,
    pub down: bool,
    pub left: bool,
    pub right: bool,
    pub superhot: bool,
    pub mouse: Point,
}

/// One unit along an axis when only `pos` is held, minus one when only
/// `neg` is, zero when both or neither.
pub open spec fn axis_spec(pos: bool, neg: bool) -> int {
    (if pos {
        SCALE as int
    } else {
        0
    }) - (if neg {
        SCALE as int
    } else {
        0
    })
}

/// The direction the held keys encode.
pub open spec fn direction_spec(c: ControlsState) -> Vec2 {
    Vec2 { x: axis_spec(c.right, c.left), y: axis_spec(c.down, c.up) }
}

impl ControlsState {
    /// No key held; the world runs only while the player moves.
    pub fn init() -> (r: ControlsState)
        ensures
            r == (ControlsState {
                up: false,
                down: false,
                left: false,
                right: false,
                superhot: true,
                mouse: Point { x: 0, y: 0 },
            }),
    {
        ControlsState {
            up: false,
            down: false,
            left: false,
            right: false,
            superhot: true,
            mouse: Point { x: 0, y: 0 },
        }
    }

    /// Records that `key` went down or up. The space bar toggles the
    /// run-only-while-moving mode on its way down.
    pub fn upd_key(&mut self, key: Key, down: bool)
        ensures
            final(self).up == (if key == Key::Up {
                down
            } else {
                old(self).up
            }),
            final(self).down == (if key == Key::Down {
                down
            } else {
                old(self).down
            }),
            final(self).left == (if key == Key::Left {
                down
            } else {
                old(self).left
            }),
            final(self).right == (if key == Key::Right {
                down
            } else {
                old(self).right
            }),
            final(self).superhot == (if key == Key::Space && down {
                !old(self).superhot
            } else {
                old(self).superhot
            }),
            final(self).mouse == old(self).mouse,
    {
        match key {
            Key::Up => {
                self.up = down;
            },
            Key::Down => {
                self.down = down;
            },
            Key::Left => {
                self.left = down;
            },
            Key::Right => {
                self.right = down;
            },
            Key::Space => {
                if down {
                    self.superhot = !self.superhot;
                }
            },
            Key::Other => {},
        }
    }

    /// The direction the held keys encode, one unit per axis.
    pub fn direction(&self) -> (r: Point)
        ensures
            r@ == direction_spec(*self),
    {
        let x = (if self.right {
            SCALE
        } else {
            0
        }) - (if self.left {
            SCALE
        } else {
            0
        });
        let y = (if self.down {
            SCALE
        } else {
            0
        }) - (if self.up {
            SCALE
        } else {
            0
        });
        Point { x, y }
    }

    /// Whether the world should advance this frame: always when the
    /// run-only-while-moving mode is off, else only while the player
    /// actually moves.
    pub fn should_advance(&self) -> (r: bool)
        ensures
            r == (vlen(direction_spec(*self)) > NORM_EPS || !self.superhot),
    {
        let d = self.direction();
        let l = d.len();
        l > NORM_EPS || !self.superhot
    }
}

/// The entity is steered by external controls: its active goal listens.
pub open spec fn player_controlled(o: ObjV) -> bool {
    o.tasks.len() > 0 && o.tasks.last() == Task::ListenControls
}

/// Every player-controlled entity displaced by `direction` at its own
/// speed, clamped into the coordinate range; everything else untouched.
pub open spec fn controls_applied(objs: Seq<ObjV>, direction: Vec2) -> Seq<ObjV> {
    Seq::new(
        objs.len(),
        |i: int|
            if player_controlled(objs[i]) {
                crate::world_update::with_coords(
                    objs[i],
                    vadd(objs[i].bounds.coords@, vmultf(direction, objs[i].blueprint.speed as int)),
                )
            } else {
                objs[i]
            },
    )
}

impl World {
    /// Moves each player-controlled entity one step along `direction`,
    /// scaled by its species speed. The planner waits on such entities;
    /// this is the only way they move.
    pub fn apply_controls(&mut self, direction: &Point)
        requires
            world_ok(old(self)@),
            -SCALE <= direction.x <= SCALE,
            -SCALE <= direction.y <= SCALE,
        ensures
            world_ok(final(self)@),
            final(self)@.objects == controls_applied(old(self)@.objects, direction@),
            final(self)@.size == old(self)@.size,
            final(self)@.time == old(self)@.time,
    {
        let ghost w0 = self@;
        let n = self.objects.len();
        let mut i: usize = 0;
        while i < n
            invariant
                i <= n,
                n == w0.objects.len(),
                self.objects.len() == n,
                world_ok(w0),
                -SCALE <= direction.x <= SCALE,
                -SCALE <= direction.y <= SCALE,
                forall|j: int|
                    0 <= j < i ==> self@.objects[j] == controls_applied(w0.objects, direction@)[j],
                forall|j: int| i <= j < n ==> self@.objects[j] == #[trigger] w0.objects[j],
                self@.size == w0.size,
                self@.time == w0.time,
            decreases n - i,
        {
            let ghost objs_entry = self@.objects;
            proof {
                assert(self.objects@[i as int]@ == w0.objects[i as int]);
            }
            let moved = self.objects[i].tasks.len() > 0 && {
                let t = self.objects[i].tasks[self.objects[i].tasks.len() - 1];
                match t {
                    Task::ListenControls => true,
                    _ => false,
                }
            };
            if moved {
                let speed = self.objects[i].blueprint.speed;
                proof {
                    assert(-(i64::MAX as int) <= direction.x * speed <= i64::MAX as int)
                        by (nonlinear_arith)
                        requires
                            -SCALE <= direction.x <= SCALE,
                            0 <= speed <= SPEED_LIMIT,
                    ;
                    assert(-(i64::MAX as int) <= direction.y * speed <= i64::MAX as int)
                        by (nonlinear_arith)
                        requires
                            -SCALE <= direction.y <= SCALE,
                            0 <= speed <= SPEED_LIMIT,
                    ;
                }
                let step = direction.multf(speed);
                proof {
                    crate::fixed::lemma_tdiv_scaled_bound(
                        direction.x as int,
                        SCALE as int,
                        speed as int,
                    );
                    crate::fixed::lemma_tdiv_scaled_bound(
                        direction.y as int,
                        SCALE as int,
                        speed as int,
                    );
                }
                let nx = crate::world_update::clamp_coord(self.objects[i].bounds.coords.x + step.x);
                let ny = crate::world_update::clamp_coord(self.objects[i].bounds.coords.y + step.y);
                self.objects[i].bounds.coords = Point { x: nx, y: ny };
                proof {
                    assert(self.objects@[i as int]@ =~= crate::world_update::with_coords(
                        w0.objects[i as int],
                        vadd(
                            w0.objects[i as int].bounds.coords@,
                            vmultf(direction@, w0.objects[i as int].blueprint.speed as int),
                        ),
                    ));
                }
            }
            proof {
                assert(self@.objects[i as int] == controls_applied(w0.objects, direction@)[i
                    as int]);
                assert forall|j: int| 0 <= j < i + 1 implies self@.objects[j] == controls_applied(
                    w0.objects,
                    direction@,
                )[j] by {
                    if j < i {
                        assert(objs_entry[j] == controls_applied(w0.objects, direction@)[j]);
                        assert(self@.objects[j] == objs_entry[j]);
                    }
                }
            }
            i = i + 1;
        }
        proof {
            assert(self@.objects =~= controls_applied(w0.objects, direction@));
            assert forall|t: int| 0 <= t < self@.objects.len() implies obj_ok(
                #[trigger] self@.objects[t],
            ) by {
                assert(self@.objects[t] == controls_applied(w0.objects, direction@)[t]);
            }
        }
    }
}

} // verus!
