use raytracer::integrator::{Bounce, PathEnd, PathState};

fn finish(depth_limit: u64, bounces: &[Bounce]) -> (PathState, usize) {
    let mut s = PathState::start(depth_limit);
    let mut cast = 0;
    for &b in bounces {
        if !s.is_tracing() {
            break;
        }
        cast += 1;
        s = s.advance(b);
    }
    (s, cast)
}

#[test]
fn zero_depth_is_black_before_any_ray() {
    let s = PathState::start(0);
    assert_eq!(s, PathState::Finished { end: PathEnd::DepthExhausted });
    assert!(!s.is_tracing());
    assert!(!PathEnd::DepthExhausted.carries_light());
    for bounces in [vec![Bounce::Missed], vec![Bounce::Scattered, Bounce::Missed], vec![]] {
        let (end, cast) = finish(0, &bounces);
        assert_eq!(end, PathState::Finished { end: PathEnd::DepthExhausted });
        assert_eq!(cast, 0);
    }
}

#[test]
fn escaped_path_carries_light() {
    let (s, cast) = finish(50, &[Bounce::Scattered, Bounce::Scattered, Bounce::Missed]);
    assert_eq!(s, PathState::Finished { end: PathEnd::Escaped });
    assert_eq!(cast, 3);
    assert!(PathEnd::Escaped.carries_light());
}

#[test]
fn absorbed_path_is_black() {
    let (s, cast) = finish(50, &[Bounce::Scattered, Bounce::Absorbed, Bounce::Missed]);
    assert_eq!(s, PathState::Finished { end: PathEnd::Absorbed });
    assert_eq!(cast, 2);
    assert!(!PathEnd::Absorbed.carries_light());
}

#[test]
fn depth_one_stops_after_first_scatter() {
    let (s, cast) = finish(1, &[Bounce::Scattered, Bounce::Missed]);
    assert_eq!(s, PathState::Finished { end: PathEnd::DepthExhausted });
    assert_eq!(cast, 1);
}

#[test]
fn depth_one_miss_escapes() {
    let (s, _) = finish(1, &[Bounce::Missed]);
    assert_eq!(s, PathState::Finished { end: PathEnd::Escaped });
}

#[test]
fn scattering_spends_one_unit_per_bounce() {
    let s = PathState::start(3);
    assert_eq!(s, PathState::Tracing { depth_left: 3 });
    let s = s.advance(Bounce::Scattered);
    assert_eq!(s, PathState::Tracing { depth_left: 2 });
    let s = s.advance(Bounce::Scattered);
    assert_eq!(s, PathState::Tracing { depth_left: 1 });
    let s = s.advance(Bounce::Scattered);
    assert_eq!(s, PathState::Finished { end: PathEnd::DepthExhausted });
}

#[test]
fn finished_path_ignores_later_reports() {
    let s = PathState::Finished { end: PathEnd::Escaped };
    assert_eq!(s.advance(Bounce::Scattered), s);
    assert_eq!(s.advance(Bounce::Absorbed), s);
}

#[test]
fn budget_bounds_rays_cast() {
    let bounces = vec![Bounce::Scattered; 100];
    let (s, cast) = finish(50, &bounces);
    assert_eq!(s, PathState::Finished { end: PathEnd::DepthExhausted });
    assert_eq!(cast, 50);
}
