use raytracer::scene::NearestHit;

fn key(t: f64) -> u64 {
    t.to_bits()
}

#[test]
fn closer_of_two_spheres_wins_when_registered_first() {
    let mut scan = NearestHit::new(key(f64::INFINITY));
    assert!(scan.offer(Some(key(2.0))));
    assert_eq!(f64::from_bits(scan.limit()), 2.0);
    assert!(!scan.offer(Some(key(5.0))));
    assert_eq!(scan.best(), Some(0));
    assert_eq!(f64::from_bits(scan.limit()), 2.0);
}

#[test]
fn closer_of_two_spheres_wins_when_registered_second() {
    let mut scan = NearestHit::new(key(f64::INFINITY));
    assert!(scan.offer(Some(key(5.0))));
    assert!(scan.offer(Some(key(2.0))));
    assert_eq!(scan.best(), Some(1));
    assert_eq!(f64::from_bits(scan.limit()), 2.0);
}

#[test]
fn equal_distances_keep_first_registered() {
    let mut scan = NearestHit::new(key(f64::INFINITY));
    assert!(scan.offer(Some(key(3.0))));
    assert!(!scan.offer(Some(key(3.0))));
    assert_eq!(scan.best(), Some(0));
}

#[test]
fn misses_report_no_hit() {
    let mut scan = NearestHit::new(key(f64::INFINITY));
    assert!(!scan.offer(None));
    assert!(!scan.offer(None));
    assert_eq!(scan.best(), None);
    assert_eq!(scan.limit(), key(f64::INFINITY));
}

#[test]
fn hit_at_or_beyond_bound_is_rejected() {
    let mut scan = NearestHit::new(key(10.0));
    assert!(!scan.offer(Some(key(10.0))));
    assert!(!scan.offer(Some(key(12.5))));
    assert_eq!(scan.best(), None);
    assert!(scan.offer(Some(key(9.5))));
    assert_eq!(scan.best(), Some(2));
}

#[test]
fn misses_between_hits_keep_indices() {
    let mut scan = NearestHit::new(key(f64::INFINITY));
    scan.offer(None);
    scan.offer(Some(key(4.0)));
    scan.offer(None);
    scan.offer(Some(key(1.5)));
    scan.offer(Some(key(1.75)));
    assert_eq!(scan.best(), Some(3));
    assert_eq!(f64::from_bits(scan.limit()), 1.5);
}
