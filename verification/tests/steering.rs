//! The steering engine: straight-line approach, deflection around a
//! blocking obstacle, and the speed budget.

use wanderers::collision::{move_to_target, CircleBounds, Point};
use wanderers::fixed::SCALE;

fn pt(x: i64, y: i64) -> Point {
    Point::new(x, y)
}

#[test]
fn direct_approach_moves_one_unit_along_the_axis() {
    // agent at the origin, target ten units east, no obstacles, speed one:
    // the next position is exactly one unit east
    let bounds = CircleBounds { coords: pt(0, 0), r: SCALE };
    let obstacles: Vec<CircleBounds> = Vec::new();
    let step = move_to_target(&bounds, &pt(10 * SCALE, 0), &obstacles, SCALE);
    assert_eq!(step, pt(SCALE, 0));
    assert_eq!(bounds.coords.add(&step), pt(SCALE, 0));
}

#[test]
fn no_obstacle_fallback_equals_normalized_direction() {
    // with an empty obstacle set, steering is exactly the normalized
    // target direction scaled by the speed
    let bounds = CircleBounds { coords: pt(2_000_000, -1_000_000), r: SCALE };
    let target = pt(-7_000_000, 5_000_000);
    let obstacles: Vec<CircleBounds> = Vec::new();
    let speed = 330_000;
    let step = move_to_target(&bounds, &target, &obstacles, speed);
    let by_hand = target.sub(&bounds.coords).norm().multf(speed);
    assert_eq!(step, by_hand);
}

fn d2(a: Point, b: Point) -> i128 {
    let dx = (a.x - b.x) as i128;
    let dy = (a.y - b.y) as i128;
    dx * dx + dy * dy
}

#[test]
fn head_on_block_deflects_sideways() {
    // agent at the origin walks toward (10, 0); a unit-radius obstacle
    // sits at (3, 0). The first two steps are straight; the third, taken
    // in contact with the obstacle, leaves the axis and does not deepen
    // the overlap.
    let obstacle = CircleBounds { coords: pt(3 * SCALE, 0), r: SCALE };
    let obstacles = vec![obstacle];
    let mut pos = pt(0, 0);
    let mut steps: Vec<Point> = Vec::new();
    for _ in 0..3 {
        let bounds = CircleBounds { coords: pos, r: SCALE };
        let step = move_to_target(&bounds, &pt(10 * SCALE, 0), &obstacles, SCALE);
        pos = pos.add(&step);
        steps.push(step);
    }
    assert_eq!(steps[0], pt(SCALE, 0));
    assert_eq!(steps[1], pt(SCALE, 0));
    // the blocked step has a nonzero sideways component
    assert_eq!(steps[2], pt(-707_106, -707_106));
    assert!(steps[2].y != 0);
    // the blocked step moved the agent away: overlap did not increase
    let before = pt(2 * SCALE, 0);
    assert!(d2(pos, obstacle.coords) >= d2(before, obstacle.coords));
}

#[test]
fn overlapping_agent_is_pushed_out_not_in() {
    // an agent already one-quarter overlapped with the obstacle ahead:
    // the step points away from it, so the overlap strictly shrinks
    let obstacle = CircleBounds { coords: pt(3 * SCALE, 0), r: SCALE };
    let obstacles = vec![obstacle];
    let start = pt(1_500_000, 0);
    let bounds = CircleBounds { coords: start, r: SCALE };
    let step = move_to_target(&bounds, &pt(10 * SCALE, 0), &obstacles, SCALE);
    assert_eq!(step, pt(-447_213, -894_427));
    let after = start.add(&step);
    assert!(d2(after, obstacle.coords) >= d2(start, obstacle.coords));
}

#[test]
fn steering_never_exceeds_the_speed() {
    // boundedness, including while deflecting: |step| <= speed exactly,
    // measured on squared lengths
    let obstacles = vec![
        CircleBounds { coords: pt(3 * SCALE, 0), r: SCALE },
        CircleBounds { coords: pt(2 * SCALE, SCALE), r: SCALE },
        CircleBounds { coords: pt(-SCALE, -SCALE), r: 2 * SCALE },
    ];
    let speeds = [0i64, 1, 330_000, SCALE, 3 * SCALE];
    let positions = [pt(0, 0), pt(SCALE, 0), pt(2 * SCALE, 0), pt(2 * SCALE, SCALE)];
    for &speed in speeds.iter() {
        for &p in positions.iter() {
            let bounds = CircleBounds { coords: p, r: SCALE };
            let step = move_to_target(&bounds, &pt(10 * SCALE, 0), &obstacles, speed);
            let d2 = (step.x as i128) * (step.x as i128) + (step.y as i128) * (step.y as i128);
            assert!(d2 <= (speed as i128) * (speed as i128));
        }
    }
}

#[test]
fn obstacle_directly_behind_is_ignored() {
    // an overlapping obstacle straight behind the goal direction fails
    // the dot-product gate, so the agent keeps walking straight
    let bounds = CircleBounds { coords: pt(0, 0), r: SCALE };
    let behind = vec![CircleBounds { coords: pt(-1_500_000, 0), r: SCALE }];
    let step = move_to_target(&bounds, &pt(10 * SCALE, 0), &behind, SCALE);
    assert_eq!(step, pt(SCALE, 0));
}
