use craftfinder::errors::ServiceError;
use craftfinder::geo::Location;
use craftfinder::get_craftsmen::{handler, parse_postcode, query, ReqQuery};
use craftfinder::patch_craftsmen::update_distances;
use craftfinder::postcode_utils::{InGroup, Postcode, PostcodeCatalog};
use craftfinder::profile::Profile;
use craftfinder::scoring::calc_score;
use craftfinder::store::Store;

fn named_profile(id: i32, first: &str, last: &str, pic: i64, desc: i64) -> Profile {
    Profile {
        id,
        first_name: first.to_string(),
        last_name: last.to_string(),
        street: "Main Street".to_string(),
        house_number: format!("{id}"),
        loc: Location::new(48_137_000, 11_575_000),
        max_driving_distance: 0,
        profile_picture_score: pic,
        profile_description_score: desc,
        profile_score: calc_score(pic, desc),
    }
}

/// One postal area (code 80333) and `n` profiles admitted for it at
/// distance `10 km + id`, with quality rising with the identity.
fn store_with_profiles(n: i32) -> (Store, PostcodeCatalog) {
    let mut catalog = PostcodeCatalog::new();
    assert!(catalog.add(Postcode {
        postcode: 80333,
        loc: Location::new(48_145_000, 11_566_000),
        group: InGroup::GroupA,
    }));
    let mut store = Store::new();
    for id in 1..=n {
        let pic = (id as i64) * 10_000;
        assert!(store.add_profile(named_profile(id, "Ada", "Lovelace", pic, pic)));
        let distances = vec![10_000 + id as u64];
        update_distances(&mut store, &catalog, &distances, id, 60_000, None, None).unwrap();
    }
    (store, catalog)
}

// Results come ordered by rank descending.
#[test]
fn query_orders_by_rank_descending() {
    let (store, _) = store_with_profiles(5);
    let page = query(&store, 80333, 0);
    assert_eq!(page.len(), 5);
    for pair in page.windows(2) {
        assert!(pair[0].ranking_score >= pair[1].ranking_score);
    }
    // the best-scored profile (highest quality, nearly equal distances)
    // comes first
    assert_eq!(page[0].id, 5);
    assert_eq!(page[4].id, 1);
}

// A page holds at most 20 rows and starts at the offset.
#[test]
fn query_pages_by_twenty() {
    let (store, _) = store_with_profiles(25);
    let first = query(&store, 80333, 0);
    assert_eq!(first.len(), 20);
    let second = query(&store, 80333, 20);
    assert_eq!(second.len(), 5);
    // no entry appears on both pages
    for c in &second {
        assert!(first.iter().all(|f| f.id != c.id));
    }
    let beyond = query(&store, 80333, 25);
    assert!(beyond.is_empty());
}

// A postal code absent from the index is a valid no-results case.
#[test]
fn absent_postal_code_yields_an_empty_page() {
    let (store, _) = store_with_profiles(3);
    assert!(query(&store, 99999, 0).is_empty());
}

// The listing entry joins the profile with its row.
#[test]
fn query_joins_profile_fields_with_the_row() {
    let (store, _) = store_with_profiles(1);
    let page = query(&store, 80333, 0);
    assert_eq!(page.len(), 1);
    let entry = &page[0];
    assert_eq!(entry.id, 1);
    assert_eq!(entry.name, "Ada Lovelace");
    assert_eq!(entry.street, "Main Street");
    assert_eq!(entry.house_number, "1");
    assert_eq!(entry.distance, 10_001);
    let row = &store.all_rows()[0];
    assert_eq!(entry.ranking_score, row.rank);
}

// Entries of equal rank carry no particular order, but both appear.
#[test]
fn equal_ranks_both_appear() {
    let mut catalog = PostcodeCatalog::new();
    assert!(catalog.add(Postcode {
        postcode: 10115,
        loc: Location::new(52_532_000, 13_384_000),
        group: InGroup::GroupA,
    }));
    let mut store = Store::new();
    for id in [1, 2] {
        assert!(store.add_profile(named_profile(id, "Alan", "Turing", 500_000, 500_000)));
        let distances = vec![20_000];
        update_distances(&mut store, &catalog, &distances, id, 60_000, None, None).unwrap();
    }
    let page = query(&store, 10115, 0);
    assert_eq!(page.len(), 2);
    assert_eq!(page[0].ranking_score, page[1].ranking_score);
    let mut ids: Vec<i32> = page.iter().map(|c| c.id).collect();
    ids.sort();
    assert_eq!(ids, vec![1, 2]);
}

#[test]
fn parse_postcode_accepts_decimal_digits() {
    assert_eq!(parse_postcode("80333"), Some(80333));
    assert_eq!(parse_postcode("0"), Some(0));
    assert_eq!(parse_postcode("007"), Some(7));
    assert_eq!(parse_postcode("999999999"), Some(999_999_999));
}

#[test]
fn parse_postcode_rejects_everything_else() {
    assert_eq!(parse_postcode(""), None);
    assert_eq!(parse_postcode("12a45"), None);
    assert_eq!(parse_postcode("-1"), None);
    assert_eq!(parse_postcode(" 80333"), None);
    assert_eq!(parse_postcode("1234567890"), None);
}

// The request handler: parse, then read the page; the offset defaults to
// the first page.
#[test]
fn handler_serves_parsed_requests() {
    let (store, _) = store_with_profiles(3);
    let req = ReqQuery { postalcode: "80333".to_string(), offset: None };
    let resp = handler(&store, &req).unwrap();
    assert_eq!(resp.craftsmen.len(), 3);

    let req = ReqQuery { postalcode: "80333".to_string(), offset: Some(2) };
    let resp = handler(&store, &req).unwrap();
    assert_eq!(resp.craftsmen.len(), 1);
}

#[test]
fn handler_rejects_an_unparsable_postal_code() {
    let (store, _) = store_with_profiles(1);
    let req = ReqQuery { postalcode: "80a33".to_string(), offset: None };
    assert_eq!(handler(&store, &req).unwrap_err(), ServiceError::InvalidInput);
}
