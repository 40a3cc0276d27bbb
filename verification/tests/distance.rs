use craftfinder::geo::Location;

/// The distance computation that feeds the engine: geoutils' haversine
/// distance between two micro-degree coordinates, rounded to whole
/// meters.  The engine itself never computes distances; these tests pin
/// down the properties of what it is fed.
fn distance_m(a: &Location, b: &Location) -> u64 {
    let ga = geoutils::Location::new(a.lat as f64 / 1e6, a.lon as f64 / 1e6);
    let gb = geoutils::Location::new(b.lat as f64 / 1e6, b.lon as f64 / 1e6);
    ga.haversine_distance_to(&gb).meters().round() as u64
}

// distance(a, a) == 0 for any location
#[test]
fn distance_of_a_point_to_itself_is_zero() {
    let points = [
        Location::new(0, 0),
        Location::new(52_518_611, 13_408_056),
        Location::new(-33_868_820, 151_209_290),
        Location::new(89_999_999, -179_999_999),
    ];
    for p in points {
        assert_eq!(distance_m(&p, &p), 0);
    }
}

// distance(a, b) == distance(b, a)
#[test]
fn distance_is_symmetric() {
    let pairs = [
        (Location::new(52_518_611, 13_408_056), Location::new(55_751_667, 37_617_778)),
        (Location::new(48_137_000, 11_575_000), Location::new(48_145_000, 11_566_000)),
        (Location::new(-33_868_820, 151_209_290), Location::new(35_689_500, 139_691_700)),
        (Location::new(0, 0), Location::new(0, 180_000_000)),
    ];
    for (a, b) in pairs {
        assert_eq!(distance_m(&a, &b), distance_m(&b, &a));
    }
}

#[test]
fn one_degree_of_latitude_is_about_111_km() {
    let a = Location::new(0, 0);
    let b = Location::new(1_000_000, 0);
    let d = distance_m(&a, &b);
    assert!((111_190..=111_200).contains(&d), "got {d}");
}

#[test]
fn berlin_to_moscow_is_about_1609_km() {
    let berlin = Location::new(52_518_611, 13_408_056);
    let moscow = Location::new(55_751_667, 37_617_778);
    let d = distance_m(&berlin, &moscow);
    assert!((1_600_000..=1_620_000).contains(&d), "got {d}");
}
