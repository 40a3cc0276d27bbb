use craftfinder::geo::Location;
use craftfinder::postcode_utils::{InGroup, PatchFilters, Postcode, PostcodeCatalog};
use craftfinder::ranking::calc_rank;

fn area(code: i32, group: InGroup) -> Postcode {
    Postcode {
        postcode: code,
        loc: Location::new(50_000_000, 8_000_000),
        group,
    }
}

fn patch(radius: u64) -> PatchFilters {
    PatchFilters {
        profile_id: 3,
        max_driving_distance: radius,
        profile_score: 5_000_000,
        loc: Location::new(50_100_000, 8_100_000),
    }
}

#[test]
fn group_offsets_are_zero_two_and_five_km() {
    assert_eq!(InGroup::GroupA.get_offset(), 0);
    assert_eq!(InGroup::GroupB.get_offset(), 2_000);
    assert_eq!(InGroup::GroupC.get_offset(), 5_000);
}

#[test]
fn catalog_keeps_postal_codes_unique() {
    let mut catalog = PostcodeCatalog::new();
    assert!(catalog.add(area(60313, InGroup::GroupA)));
    assert!(catalog.add(area(60314, InGroup::GroupB)));
    assert!(!catalog.add(area(60313, InGroup::GroupC)));
    assert_eq!(catalog.all().len(), 2);
    assert_eq!(catalog.get(60314).unwrap().postcode, 60314);
    assert!(catalog.get(60000).is_none());
}

// The admission boundary is inclusive: distance == radius + slack is in.
#[test]
fn eligibility_boundary_is_inclusive() {
    let a = area(60313, InGroup::GroupB); // +2 km slack
    let p = patch(40_000);
    let row = a.get_model_opt(&p, 42_000).expect("exactly at the boundary");
    assert_eq!(row.profile_id, 3);
    assert_eq!(row.postcode, 60313);
    assert_eq!(row.distance, 42_000);
    assert_eq!(row.rank, calc_rank(42_000, 5_000_000));
    assert!(a.get_model_opt(&p, 42_001).is_none());
}

#[test]
fn eligibility_at_distance_zero() {
    let a = area(60313, InGroup::GroupA);
    let row = a.get_model_opt(&patch(0), 0).expect("zero distance is in range");
    assert_eq!(row.rank, calc_rank(0, 5_000_000));
}
