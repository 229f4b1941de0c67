use la_mesa::geom::{Rotation, Transform3, Vec3i};
use la_mesa::tween::{eased_value, Easing, Track, TweenPhase, TweenSequence};

fn at(x: i64, y: i64, z: i64) -> Vec3i {
    Vec3i { x, y, z }
}

#[test]
fn linear_easing_is_proportional() {
    assert_eq!(eased_value(Easing::Linear, 0, 1000, 0, 10), 0);
    assert_eq!(eased_value(Easing::Linear, 0, 1000, 5, 10), 500);
    assert_eq!(eased_value(Easing::Linear, 0, 1000, 10, 10), 1000);
    assert_eq!(eased_value(Easing::Linear, 1000, 0, 5, 10), 500);
}

#[test]
fn quadratic_in_starts_slow() {
    // At half time a quadratic-in tween has covered a quarter of the way.
    assert_eq!(eased_value(Easing::QuadraticIn, 0, 1000, 5, 10), 250);
    assert_eq!(eased_value(Easing::QuadraticIn, 0, 1000, 10, 10), 1000);
    assert_eq!(eased_value(Easing::QuadraticIn, -1000, 1000, 5, 10), -500);
}

#[test]
fn sampling_clamps_outside_the_span() {
    assert_eq!(eased_value(Easing::Linear, 100, 200, 99, 10), 200);
    assert_eq!(eased_value(Easing::QuadraticIn, 100, 200, 0, 0), 200);
}

#[test]
fn sequence_chains_phases_and_settles() {
    let base = Transform3 {
        pos: at(0, 0, 0),
        rot: Rotation { code: 7, face_down: false },
    };
    let seq = TweenSequence {
        phases: vec![
            TweenPhase {
                duration_ms: 100,
                easing: Easing::Linear,
                track: Track::Move { start: at(0, 0, 0), end: at(1000, 0, 0) },
            },
            TweenPhase {
                duration_ms: 100,
                easing: Easing::Linear,
                track: Track::Turn {
                    from: Rotation { code: 7, face_down: false },
                    to: Rotation { code: 9, face_down: true },
                },
            },
        ],
    };
    assert_eq!(seq.total_duration(), 200);
    // Mid first phase: halfway along the glide, rotation untouched.
    let mid = seq.sample(base, 50);
    assert_eq!(mid.pos, at(500, 0, 0));
    assert_eq!(mid.rot.code, 7);
    // During the turn the position holds at the glide's end and the
    // rotation still shows its starting value.
    let turning = seq.sample(base, 150);
    assert_eq!(turning.pos, at(1000, 0, 0));
    assert_eq!(turning.rot.code, 7);
    // Past the total duration the final placement holds.
    let done = seq.sample(base, 99999);
    assert_eq!(done.pos, at(1000, 0, 0));
    assert_eq!(done.rot.code, 9);
    assert!(done.rot.face_down);
}
