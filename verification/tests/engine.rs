use craftfinder::errors::ServiceError;
use craftfinder::geo::Location;
use craftfinder::patch_craftsmen::{handler, update_distances, update_score_and_ranks, ReqBody};
use craftfinder::postcode_utils::{InGroup, Postcode, PostcodeCatalog};
use craftfinder::profile::Profile;
use craftfinder::ranking::calc_rank;
use craftfinder::scoring::calc_score;
use craftfinder::store::Store;

fn profile(id: i32, pic: i64, desc: i64, radius: u64) -> Profile {
    Profile {
        id,
        first_name: "Ada".to_string(),
        last_name: "Lovelace".to_string(),
        street: "Main Street".to_string(),
        house_number: "1".to_string(),
        loc: Location::new(48_137_000, 11_575_000),
        max_driving_distance: radius,
        profile_picture_score: pic,
        profile_description_score: desc,
        profile_score: calc_score(pic, desc),
    }
}

fn area(code: i32, group: InGroup) -> Postcode {
    Postcode {
        postcode: code,
        loc: Location::new(52_000_000 + code as i64, 13_000_000),
        group,
    }
}

/// Five postal areas at distances 0, 10, 50, 80 and 200 km.
fn catalog_of_five() -> (PostcodeCatalog, Vec<u64>) {
    let mut catalog = PostcodeCatalog::new();
    for code in 1000..1005 {
        assert!(catalog.add(area(code, InGroup::GroupA)));
    }
    let distances = vec![0, 10_000, 50_000, 80_000, 200_000];
    (catalog, distances)
}

// After a radius update the derived row set is exactly the areas within
// radius + slack, each ranked from its stored distance.
#[test]
fn radius_update_materializes_exactly_the_admitted_areas() {
    let (catalog, distances) = catalog_of_five();
    let mut store = Store::new();
    assert!(store.add_profile(profile(7, 800_000, 500_000, 0)));
    let score = calc_score(800_000, 500_000);

    let r = update_distances(&mut store, &catalog, &distances, 7, 60_000, None, None);
    assert!(r.is_ok());

    let rows = store.all_rows();
    assert_eq!(rows.len(), 3); // 0, 10 and 50 km are within 60 km; 80 and 200 are not
    for (row, (code, dist)) in rows
        .iter()
        .zip([(1000, 0u64), (1001, 10_000), (1002, 50_000)])
    {
        assert_eq!(row.profile_id, 7);
        assert_eq!(row.postcode, code);
        assert_eq!(row.distance, dist);
        assert_eq!(row.rank, calc_rank(dist, score));
    }
}

// The proximity group widens the admission radius by 0, 2 or 5 km.
#[test]
fn admission_slack_depends_on_the_proximity_group() {
    let mut catalog = PostcodeCatalog::new();
    assert!(catalog.add(area(1, InGroup::GroupA)));
    assert!(catalog.add(area(2, InGroup::GroupB)));
    assert!(catalog.add(area(3, InGroup::GroupC)));
    // each area sits 61.5 km away; only groups B (+2 km) and C (+5 km)
    // stretch a 60 km radius that far
    let distances = vec![61_500, 61_500, 61_500];
    let mut store = Store::new();
    assert!(store.add_profile(profile(1, 0, 0, 0)));

    update_distances(&mut store, &catalog, &distances, 1, 60_000, None, None).unwrap();

    let codes: Vec<i32> = store.all_rows().iter().map(|r| r.postcode).collect();
    assert_eq!(codes, vec![2, 3]);
}

// Repeating the same radius update yields an identical row set.
#[test]
fn radius_update_is_idempotent() {
    let (catalog, distances) = catalog_of_five();
    let mut store = Store::new();
    assert!(store.add_profile(profile(7, 800_000, 500_000, 0)));

    update_distances(&mut store, &catalog, &distances, 7, 60_000, Some(100_000), None).unwrap();
    let rows_first = store.all_rows().clone();
    let profile_first = store.get_profile(7).unwrap().clone();

    update_distances(&mut store, &catalog, &distances, 7, 60_000, Some(100_000), None).unwrap();
    assert_eq!(*store.all_rows(), rows_first);
    let profile_second = store.get_profile(7).unwrap();
    assert_eq!(profile_second.max_driving_distance, profile_first.max_driving_distance);
    assert_eq!(profile_second.profile_score, profile_first.profile_score);
    assert_eq!(
        profile_second.profile_picture_score,
        profile_first.profile_picture_score
    );
}

// A score-only update never changes a row's distance, only its rank.
#[test]
fn score_update_keeps_distances_and_rescores() {
    let (catalog, distances) = catalog_of_five();
    let mut store = Store::new();
    assert!(store.add_profile(profile(7, 800_000, 500_000, 0)));
    update_distances(&mut store, &catalog, &distances, 7, 60_000, None, None).unwrap();
    let before = store.all_rows().clone();

    let r = update_score_and_ranks(&mut store, 7, Some(200_000), Some(900_000));
    assert!(r.is_ok());
    let new_score = calc_score(200_000, 900_000);

    let after = store.all_rows();
    assert_eq!(after.len(), before.len());
    for (new, old) in after.iter().zip(before.iter()) {
        assert_eq!(new.profile_id, old.profile_id);
        assert_eq!(new.postcode, old.postcode);
        assert_eq!(new.distance, old.distance);
        assert_eq!(new.rank, calc_rank(old.distance, new_score));
    }
    let p = store.get_profile(7).unwrap();
    assert_eq!(p.profile_picture_score, 200_000);
    assert_eq!(p.profile_description_score, 900_000);
    assert_eq!(p.profile_score, new_score);
}

// A failed transaction leaves the profile row and all derived rows
// exactly as they were.
#[test]
fn failed_commit_rolls_the_radius_update_back() {
    let (catalog, distances) = catalog_of_five();
    let mut store = Store::new();
    assert!(store.add_profile(profile(7, 800_000, 500_000, 0)));
    update_distances(&mut store, &catalog, &distances, 7, 60_000, None, None).unwrap();
    let rows_before = store.all_rows().clone();
    let radius_before = store.get_profile(7).unwrap().max_driving_distance;

    store.inject_commit_failure();
    let r = update_distances(&mut store, &catalog, &distances, 7, 90_000, Some(100_000), None);
    assert_eq!(r.unwrap_err(), ServiceError::StorageFailure);

    assert_eq!(*store.all_rows(), rows_before);
    let p = store.get_profile(7).unwrap();
    assert_eq!(p.max_driving_distance, radius_before);
    assert_eq!(p.profile_picture_score, 800_000);
    assert_eq!(p.profile_score, calc_score(800_000, 500_000));
}

#[test]
fn failed_commit_rolls_the_score_update_back() {
    let (catalog, distances) = catalog_of_five();
    let mut store = Store::new();
    assert!(store.add_profile(profile(7, 800_000, 500_000, 0)));
    update_distances(&mut store, &catalog, &distances, 7, 60_000, None, None).unwrap();
    let rows_before = store.all_rows().clone();

    store.inject_commit_failure();
    let r = update_score_and_ranks(&mut store, 7, Some(1_000_000), None);
    assert_eq!(r.unwrap_err(), ServiceError::StorageFailure);

    assert_eq!(*store.all_rows(), rows_before);
    assert_eq!(store.get_profile(7).unwrap().profile_picture_score, 800_000);
}

// An unknown profile fails before either path begins.
#[test]
fn unknown_profile_is_not_found() {
    let (catalog, distances) = catalog_of_five();
    let mut store = Store::new();
    assert!(store.add_profile(profile(7, 800_000, 500_000, 0)));

    let r = update_distances(&mut store, &catalog, &distances, 9, 60_000, None, None);
    assert_eq!(r.unwrap_err(), ServiceError::NotFound);
    let r = update_score_and_ranks(&mut store, 9, Some(100_000), None);
    assert_eq!(r.unwrap_err(), ServiceError::NotFound);
    assert!(store.all_rows().is_empty());
}

// A score-only request that carries no score at all must be rejected.
#[test]
fn score_update_with_nothing_to_change_is_invalid() {
    let (catalog, distances) = catalog_of_five();
    let mut store = Store::new();
    assert!(store.add_profile(profile(7, 800_000, 500_000, 0)));
    update_distances(&mut store, &catalog, &distances, 7, 60_000, None, None).unwrap();
    let rows_before = store.all_rows().clone();

    let r = update_score_and_ranks(&mut store, 7, None, None);
    assert_eq!(r.unwrap_err(), ServiceError::InvalidInput);
    assert_eq!(*store.all_rows(), rows_before);
}

// A distance outside the physically possible range is guarded.
#[test]
fn out_of_domain_distance_is_rejected_before_any_write() {
    let mut catalog = PostcodeCatalog::new();
    assert!(catalog.add(area(1, InGroup::GroupA)));
    let distances = vec![30_000_001];
    let mut store = Store::new();
    assert!(store.add_profile(profile(7, 800_000, 500_000, 0)));

    let r = update_distances(&mut store, &catalog, &distances, 7, 60_000, None, None);
    assert_eq!(r.unwrap_err(), ServiceError::NumericDomain);
    assert!(store.all_rows().is_empty());
    assert_eq!(store.get_profile(7).unwrap().max_driving_distance, 0);
}

// A radius change can both admit previously excluded areas and evict
// previously included ones: the row set is fully replaced.
#[test]
fn radius_change_admits_and_evicts() {
    let (catalog, distances) = catalog_of_five();
    let mut store = Store::new();
    assert!(store.add_profile(profile(7, 800_000, 500_000, 0)));

    update_distances(&mut store, &catalog, &distances, 7, 90_000, None, None).unwrap();
    let codes: Vec<i32> = store.all_rows().iter().map(|r| r.postcode).collect();
    assert_eq!(codes, vec![1000, 1001, 1002, 1003]); // up to 80 km

    update_distances(&mut store, &catalog, &distances, 7, 5_000, None, None).unwrap();
    let codes: Vec<i32> = store.all_rows().iter().map(|r| r.postcode).collect();
    assert_eq!(codes, vec![1000]); // only the 0 km area survives
}

// An update of one profile leaves every other profile's rows untouched.
#[test]
fn updates_do_not_touch_other_profiles_rows() {
    let (catalog, distances) = catalog_of_five();
    let mut store = Store::new();
    assert!(store.add_profile(profile(1, 800_000, 500_000, 0)));
    assert!(store.add_profile(profile(2, 300_000, 400_000, 0)));
    update_distances(&mut store, &catalog, &distances, 1, 60_000, None, None).unwrap();
    update_distances(&mut store, &catalog, &distances, 2, 90_000, None, None).unwrap();
    let rows_of_one: Vec<_> = store
        .all_rows()
        .iter()
        .filter(|r| r.profile_id == 1)
        .copied()
        .collect();

    update_distances(&mut store, &catalog, &distances, 2, 10_000, Some(1_000_000), None).unwrap();
    update_score_and_ranks(&mut store, 2, None, Some(0)).unwrap();

    let rows_of_one_after: Vec<_> = store
        .all_rows()
        .iter()
        .filter(|r| r.profile_id == 1)
        .copied()
        .collect();
    assert_eq!(rows_of_one_after, rows_of_one);
}

// The request body selects the path: a present radius takes the radius
// path, an absent one the score path.
#[test]
fn handler_dispatches_on_the_radius_field() {
    let (catalog, distances) = catalog_of_five();
    let mut store = Store::new();
    assert!(store.add_profile(profile(7, 800_000, 500_000, 0)));

    let body = ReqBody {
        max_driving_distance: Some(60_000),
        profile_picture_score: None,
        profile_description_score: None,
    };
    let qr = handler(&mut store, &catalog, &distances, 7, body).unwrap();
    assert_eq!(qr.id, 7);
    assert_eq!(qr.updated.max_driving_distance, 60_000);
    assert_eq!(store.all_rows().len(), 3);

    let body = ReqBody {
        max_driving_distance: None,
        profile_picture_score: Some(100_000),
        profile_description_score: None,
    };
    let qr = handler(&mut store, &catalog, &distances, 7, body).unwrap();
    assert_eq!(qr.updated.profile_picture_score, 100_000);
    assert_eq!(store.all_rows().len(), 3);

    let body = ReqBody {
        max_driving_distance: None,
        profile_picture_score: None,
        profile_description_score: None,
    };
    assert_eq!(
        handler(&mut store, &catalog, &distances, 7, body).unwrap_err(),
        ServiceError::InvalidInput
    );
}
