//! The two maintenance paths for a profile update.
//!
//! A request may change the admission radius, the two quality sub-scores,
//! or both.  A score-only change keeps every derived row and recomputes
//! only its rank from the stored distance.  A radius change replaces the
//! profile's whole derived row set, recomputed against every postal area
//! of the catalog.  Either path writes the profile row and the derived
//! rows in one transaction: on any failure the store keeps its prior
//! state.
//!
//! All radii and distances are whole meters; callers convert their units
//! before the request reaches the engine.

use vstd::pervasive::VecAdditionalExecFns;
use vstd::prelude::*;

use crate::errors::ServiceError;
use crate::postcode_utils::{
    lemma_radius_rows_elems, lemma_radius_rows_keys, spec_radius_rows, PatchFilters, Postcode,
    PostcodeCatalog,
};
use crate::profile::Profile;
use crate::ranking::calc_rank;
use crate::ranking::{spec_calc_rank, MAX_DISTANCE_M};
use crate::scoring::{
    calc_score_from_options, spec_calc_score, sub_score_opt_ok,
    MAX_SCORE,
};
use crate::store::{
    find_profile_index, lemma_profile_index_unique, lemma_rows_without_all,
    lemma_rows_without_concat, lemma_rows_without_elem, lemma_rows_without_keys,
    lemma_rows_without_none, spec_has_profile, spec_profile_index, spec_rows_without,
    EligibilityRow, Store,
};

verus! {

/// The body of a profile update request.  A present radius selects the
/// radius path; otherwise at least one sub-score must be present.
#[derive(Clone, Copy, Debug)]
pub struct ReqBody {
    /// New admission radius in meters.
    pub max_driving_distance: Option<u64>,
    /// New picture sub-score in millionths.
    pub profile_picture_score: Option<i64>,
    /// New description sub-score in millionths.
    pub profile_description_score: Option<i64>,
}

/// The fields of the profile as an update left them.
#[derive(Clone, Copy, Debug, PartialEq, Eq, Structural)]
pub struct Updated {
    pub max_driving_distance: u64,
    pub profile_picture_score: i64,
    pub profile_description_score: i64,
}

/// What a successful update reports back.
#[derive(Clone, Copy, Debug, PartialEq, Eq, Structural)]
pub struct QueryResult {
    pub id: i32,
    pub updated: Updated,
}

/// The profile after a score merge: each given sub-score replaces the
/// stored one, and the cached composite is recomputed.
pub open spec fn spec_merged_profile(p: Profile, pic: Option<i64>, desc: Option<i64>) -> Profile {
    let new_pic = match pic {
        Some(v) => v,
        None => p.profile_picture_score,
    };
    let new_desc = match desc {
        Some(v) => v,
        None => p.profile_description_score,
    };
    Profile {
        profile_picture_score: new_pic,
        profile_description_score: new_desc,
        profile_score: spec_calc_score(new_pic as int, new_desc as int) as i64,
        ..p
    }
}

/// What an update reports for the profile it left behind.
pub open spec fn spec_query_result(p: Profile) -> QueryResult {
    QueryResult {
        id: p.id,
        updated: Updated {
            max_driving_distance: p.max_driving_distance,
            profile_picture_score: p.profile_picture_score,
            profile_description_score: p.profile_description_score,
        },
    }
}

/// A row after a score-only update: rows of other profiles are untouched;
/// rows of the updated profile keep their key and distance and carry the
/// rank recomputed from the stored distance.
pub open spec fn spec_rescored_row(row: EligibilityRow, profile_id: i32, score: i64) -> EligibilityRow {
    if row.profile_id == profile_id {
        EligibilityRow { rank: spec_calc_rank(row.distance as int, score as int) as i64, ..row }
    } else {
        row
    }
}

/// The successful score-only update: the profile's sub-scores and cached
/// composite change, every row keeps its key and distance, and every row
/// of the profile carries the recomputed rank.
pub open spec fn spec_score_update_applied(
    old_s: Store,
    new_s: Store,
    id: i32,
    pic: Option<i64>,
    desc: Option<i64>,
    qr: QueryResult,
) -> bool {
    let i = spec_profile_index(old_s.profiles@, id);
    let newp = spec_merged_profile(old_s.profiles@[i], pic, desc);
    &&& spec_has_profile(old_s.profiles@, id)
    &&& !(pic is None && desc is None)
    &&& new_s.profiles@ == old_s.profiles@.update(i, newp)
    &&& new_s.rows@.len() == old_s.rows@.len()
    &&& forall|k: int|
        0 <= k < old_s.rows@.len() ==> new_s.rows@[k] == spec_rescored_row(
            #[trigger] old_s.rows@[k],
            id,
            newp.profile_score,
        )
    &&& qr == spec_query_result(newp)
}

/// Everything a score-only update guarantees, for every outcome.
pub open spec fn spec_score_update_outcome(
    old_s: Store,
    new_s: Store,
    id: i32,
    pic: Option<i64>,
    desc: Option<i64>,
    r: Result<QueryResult, ServiceError>,
) -> bool {
    match r {
        Ok(qr) => {
            &&& spec_score_update_applied(old_s, new_s, id, pic, desc, qr)
            &&& !old_s.fail_next_commit
            &&& !new_s.fail_next_commit
        },
        Err(e) => {
            &&& new_s.profiles@ == old_s.profiles@
            &&& new_s.rows@ == old_s.rows@
            &&& match e {
                ServiceError::NotFound => !spec_has_profile(old_s.profiles@, id)
                    && new_s.fail_next_commit == old_s.fail_next_commit,
                ServiceError::InvalidInput => spec_has_profile(old_s.profiles@, id) && pic is None
                    && desc is None && new_s.fail_next_commit == old_s.fail_next_commit,
                ServiceError::StorageFailure => spec_has_profile(old_s.profiles@, id) && !(pic
                    is None && desc is None) && old_s.fail_next_commit
                    && !new_s.fail_next_commit,
                ServiceError::NumericDomain => false,
            }
        },
    }
}

/// The score-only update path: merge the sub-scores, recompute the rank of
/// every derived row of the profile from its stored distance, and commit
/// the rows together with the profile in one transaction.
pub fn update_score_and_ranks(
    store: &mut Store,
    id: i32,
    pic_score: Option<i64>,
    desc_score: Option<i64>,
) -> (r: Result<QueryResult, ServiceError>)
    requires
        old(store).wf(),
        sub_score_opt_ok(pic_score),
        sub_score_opt_ok(desc_score),
    ensures
        final(store).wf(),
        spec_score_update_outcome(*old(store), *final(store), id, pic_score, desc_score, r),
{
    let idx = match find_profile_index(&store.profiles, id) {
        Some(i) => i,
        None => {
            return Err(ServiceError::NotFound);
        },
    };
    proof {
        lemma_profile_index_unique(store.profiles@, id, idx as int);
    }
    // at least one sub-score is expected; nothing to change is a caller error
    let new_score = match calc_score_from_options(
        pic_score,
        desc_score,
        store.profiles[idx].profile_picture_score,
        store.profiles[idx].profile_description_score,
    ) {
        Some(s) => s,
        None => {
            return Err(ServiceError::InvalidInput);
        },
    };
    // distance does not change, only rank: recompute every row of this
    // profile from its stored distance
    let n = store.rows.len();
    let mut new_rows: Vec<EligibilityRow> = Vec::new();
    let mut k: usize = 0;
    while k < n
        invariant
            k <= n,
            n == store.rows@.len(),
            *store == *old(store),
            old(store).wf(),
            idx < store.profiles@.len(),
            0 <= new_score <= MAX_SCORE,
            new_rows@.len() == k,
            forall|m: int|
                0 <= m < k ==> new_rows@[m] == spec_rescored_row(
                    #[trigger] old(store).rows@[m],
                    id,
                    new_score,
                ),
        decreases n - k,
    {
        let row = store.rows[k];
        if row.profile_id == id {
            let rank = calc_rank(row.distance, new_score);
            new_rows.push(EligibilityRow { rank, ..row });
        } else {
            new_rows.push(row);
        }
        k = k + 1;
    }
    // the transaction: rank updates and the profile update commit together,
    // or the store keeps its prior state
    if store.fail_next_commit {
        store.fail_next_commit = false;
        return Err(ServiceError::StorageFailure);
    }
    let p = &store.profiles[idx];
    let newp = Profile {
        id: p.id,
        first_name: p.first_name.clone(),
        last_name: p.last_name.clone(),
        street: p.street.clone(),
        house_number: p.house_number.clone(),
        loc: p.loc,
        max_driving_distance: p.max_driving_distance,
        profile_picture_score: match pic_score {
            Some(v) => v,
            None => p.profile_picture_score,
        },
        profile_description_score: match desc_score {
            Some(v) => v,
            None => p.profile_description_score,
        },
        profile_score: new_score,
    };
    proof {
        assert(newp == spec_merged_profile(old(store).profiles@[idx as int], pic_score, desc_score));
    }
    let qr = QueryResult {
        id: newp.id,
        updated: Updated {
            max_driving_distance: newp.max_driving_distance,
            profile_picture_score: newp.profile_picture_score,
            profile_description_score: newp.profile_description_score,
        },
    };
    store.profiles.set(idx, newp);
    store.rows = new_rows;
    proof {
        lemma_store_wf_after_score_update(*old(store), *store, id, idx as int);
    }
    Ok(qr)
}

/// The profile after a radius update: the merged scores and the new
/// radius.
pub open spec fn spec_radius_profile(
    p: Profile,
    radius: u64,
    pic: Option<i64>,
    desc: Option<i64>,
) -> Profile {
    Profile { max_driving_distance: radius, ..spec_merged_profile(p, pic, desc) }
}

/// The patch the radius recomputation runs with: the profile's identity
/// and location, the new radius, and the resolved composite score.
pub open spec fn spec_patch_of(
    p: Profile,
    radius: u64,
    pic: Option<i64>,
    desc: Option<i64>,
) -> PatchFilters {
    PatchFilters {
        profile_id: p.id,
        max_driving_distance: radius,
        profile_score: spec_merged_profile(p, pic, desc).profile_score,
        loc: p.loc,
    }
}

/// The successful radius update: the profile carries the new radius and
/// the merged scores, the rows of other profiles stay as they were, and
/// the profile's own row set is fully replaced by the recomputation
/// against the whole catalog.
pub open spec fn spec_radius_update_applied(
    old_s: Store,
    new_s: Store,
    areas: Seq<Postcode>,
    dists: Seq<u64>,
    id: i32,
    radius: u64,
    pic: Option<i64>,
    desc: Option<i64>,
    qr: QueryResult,
) -> bool {
    let i = spec_profile_index(old_s.profiles@, id);
    let p = old_s.profiles@[i];
    let newp = spec_radius_profile(p, radius, pic, desc);
    let patch = spec_patch_of(p, radius, pic, desc);
    &&& spec_has_profile(old_s.profiles@, id)
    &&& forall|k: int| 0 <= k < dists.len() ==> #[trigger] dists[k] <= MAX_DISTANCE_M
    &&& new_s.profiles@ == old_s.profiles@.update(i, newp)
    &&& new_s.rows@ == spec_rows_without(old_s.rows@, id) + spec_radius_rows(areas, dists, patch)
    &&& qr == spec_query_result(newp)
}

/// Everything a radius update guarantees, for every outcome.
pub open spec fn spec_radius_update_outcome(
    old_s: Store,
    new_s: Store,
    areas: Seq<Postcode>,
    dists: Seq<u64>,
    id: i32,
    radius: u64,
    pic: Option<i64>,
    desc: Option<i64>,
    r: Result<QueryResult, ServiceError>,
) -> bool {
    match r {
        Ok(qr) => {
            &&& spec_radius_update_applied(old_s, new_s, areas, dists, id, radius, pic, desc, qr)
            &&& !old_s.fail_next_commit
            &&& !new_s.fail_next_commit
        },
        Err(e) => {
            &&& new_s.profiles@ == old_s.profiles@
            &&& new_s.rows@ == old_s.rows@
            &&& match e {
                ServiceError::NotFound => !spec_has_profile(old_s.profiles@, id)
                    && new_s.fail_next_commit == old_s.fail_next_commit,
                ServiceError::NumericDomain => spec_has_profile(old_s.profiles@, id) && (
                exists|k: int| 0 <= k < dists.len() && #[trigger] dists[k] > MAX_DISTANCE_M)
                    && new_s.fail_next_commit == old_s.fail_next_commit,
                ServiceError::StorageFailure => spec_has_profile(old_s.profiles@, id) && (
                forall|k: int| 0 <= k < dists.len() ==> #[trigger] dists[k] <= MAX_DISTANCE_M)
                    && old_s.fail_next_commit && !new_s.fail_next_commit,
                ServiceError::InvalidInput => false,
            }
        },
    }
}

/// The radius update path: resolve the composite score, recompute the
/// profile's eligibility against every postal area of the catalog from
/// the given distances, and commit the full row replacement together with
/// the profile update in one transaction.
///
/// `distances[j]` is the distance in meters from the profile to the
/// centroid of `catalog.areas[j]`, as the caller computed it.
pub fn update_distances(
    store: &mut Store,
    catalog: &PostcodeCatalog,
    distances: &Vec<u64>,
    id: i32,
    max_driving_distance: u64,
    pic_score: Option<i64>,
    desc_score: Option<i64>,
) -> (r: Result<QueryResult, ServiceError>)
    requires
        old(store).wf(),
        catalog.wf(),
        distances@.len() == catalog.areas@.len(),
        sub_score_opt_ok(pic_score),
        sub_score_opt_ok(desc_score),
    ensures
        final(store).wf(),
        spec_radius_update_outcome(
            *old(store),
            *final(store),
            catalog.areas@,
            distances@,
            id,
            max_driving_distance,
            pic_score,
            desc_score,
            r,
        ),
{
    let idx = match find_profile_index(&store.profiles, id) {
        Some(i) => i,
        None => {
            return Err(ServiceError::NotFound);
        },
    };
    proof {
        lemma_profile_index_unique(store.profiles@, id, idx as int);
    }
    // resolve the composite score: merge where sub-scores were given, else
    // keep the stored one
    let new_score = match calc_score_from_options(
        pic_score,
        desc_score,
        store.profiles[idx].profile_picture_score,
        store.profiles[idx].profile_description_score,
    ) {
        Some(s) => s,
        None => store.profiles[idx].profile_score,
    };
    let patch = PatchFilters {
        profile_id: store.profiles[idx].id,
        max_driving_distance,
        profile_score: new_score,
        loc: store.profiles[idx].loc,
    };
    proof {
        assert(patch == spec_patch_of(
            old(store).profiles@[idx as int],
            max_driving_distance,
            pic_score,
            desc_score,
        ));
        assert(patch.wf());
    }
    // the full replacement: keep the rows of other profiles ...
    let n = store.rows.len();
    let mut new_rows: Vec<EligibilityRow> = Vec::new();
    let mut k: usize = 0;
    while k < n
        invariant
            k <= n,
            n == store.rows@.len(),
            *store == *old(store),
            new_rows@ == spec_rows_without(store.rows@.subrange(0, k as int), id),
        decreases n - k,
    {
        let row = store.rows[k];
        proof {
            assert(store.rows@.subrange(0, k + 1 as int).drop_last() =~= store.rows@.subrange(
                0,
                k as int,
            ));
            assert(store.rows@.subrange(0, k + 1 as int).last() == store.rows@[k as int]);
        }
        if row.profile_id != id {
            new_rows.push(row);
        }
        k = k + 1;
    }
    proof {
        assert(store.rows@.subrange(0, n as int) =~= store.rows@);
    }
    // ... and recompute this profile's rows against the whole catalog
    let m = catalog.areas.len();
    let mut a: usize = 0;
    while a < m
        invariant
            a <= m,
            m == catalog.areas@.len(),
            distances@.len() == catalog.areas@.len(),
            *store == *old(store),
            old(store).wf(),
            spec_has_profile(old(store).profiles@, id),
            idx < store.profiles@.len(),
            patch.wf(),
            patch == spec_patch_of(
                old(store).profiles@[idx as int],
                max_driving_distance,
                pic_score,
                desc_score,
            ),
            new_rows@ == spec_rows_without(store.rows@, id) + spec_radius_rows(
                catalog.areas@.subrange(0, a as int),
                distances@.subrange(0, a as int),
                patch,
            ),
            forall|j: int| 0 <= j < a ==> #[trigger] distances@[j] <= MAX_DISTANCE_M,
        decreases m - a,
    {
        let d = distances[a];
        // guard the numeric domain: no point on Earth is this far away
        if d > MAX_DISTANCE_M {
            return Err(ServiceError::NumericDomain);
        }
        proof {
            assert(catalog.areas@.subrange(0, a + 1 as int).drop_last() =~= catalog.areas@.subrange(
                0,
                a as int,
            ));
            assert(distances@.subrange(0, a + 1 as int).drop_last() =~= distances@.subrange(
                0,
                a as int,
            ));
            assert(catalog.areas@.subrange(0, a + 1 as int).last() == catalog.areas@[a as int]);
            assert(distances@.subrange(0, a + 1 as int).last() == distances@[a as int]);
        }
        match catalog.areas[a].get_model_opt(&patch, d) {
            Some(row) => {
                new_rows.push(row);
            },
            None => {},
        }
        a = a + 1;
    }
    proof {
        assert(catalog.areas@.subrange(0, m as int) =~= catalog.areas@);
        assert(distances@.subrange(0, m as int) =~= distances@);
    }
    // the transaction: the row replacement and the profile update commit
    // together, or the store keeps its prior state
    if store.fail_next_commit {
        store.fail_next_commit = false;
        return Err(ServiceError::StorageFailure);
    }
    let p = &store.profiles[idx];
    let newp = Profile {
        id: p.id,
        first_name: p.first_name.clone(),
        last_name: p.last_name.clone(),
        street: p.street.clone(),
        house_number: p.house_number.clone(),
        loc: p.loc,
        max_driving_distance,
        profile_picture_score: match pic_score {
            Some(v) => v,
            None => p.profile_picture_score,
        },
        profile_description_score: match desc_score {
            Some(v) => v,
            None => p.profile_description_score,
        },
        profile_score: new_score,
    };
    proof {
        assert(newp == spec_radius_profile(
            old(store).profiles@[idx as int],
            max_driving_distance,
            pic_score,
            desc_score,
        ));
    }
    let qr = QueryResult {
        id: newp.id,
        updated: Updated {
            max_driving_distance: newp.max_driving_distance,
            profile_picture_score: newp.profile_picture_score,
            profile_description_score: newp.profile_description_score,
        },
    };
    store.profiles.set(idx, newp);
    store.rows = new_rows;
    proof {
        lemma_store_wf_after_radius_update(
            *old(store),
            *store,
            catalog.areas@,
            distances@,
            patch,
            idx as int,
        );
    }
    Ok(qr)
}

/// A store stays well-formed when one profile's row set is replaced by
/// the recomputation: kept rows keep their keys, recomputed rows have the
/// profile's identity and pairwise distinct postal codes, and the two
/// parts cannot collide.
proof fn lemma_store_wf_after_radius_update(
    old_s: Store,
    new_s: Store,
    areas: Seq<Postcode>,
    dists: Seq<u64>,
    patch: PatchFilters,
    idx: int,
)
    requires
        old_s.wf(),
        forall|i: int, j: int|
            0 <= i < j < areas.len() ==> areas[i].postcode != areas[j].postcode,
        dists.len() == areas.len(),
        forall|k: int| 0 <= k < dists.len() ==> #[trigger] dists[k] <= MAX_DISTANCE_M,
        patch.wf(),
        0 <= idx < old_s.profiles@.len(),
        old_s.profiles@[idx].id == patch.profile_id,
        new_s.profiles@.len() == old_s.profiles@.len(),
        forall|j: int|
            0 <= j < old_s.profiles@.len() ==> (#[trigger] new_s.profiles@[j]).id
                == old_s.profiles@[j].id,
        forall|j: int| 0 <= j < new_s.profiles@.len() ==> (#[trigger] new_s.profiles@[j]).wf(),
        new_s.rows@ == spec_rows_without(old_s.rows@, patch.profile_id) + spec_radius_rows(
            areas,
            dists,
            patch,
        ),
    ensures
        new_s.wf(),
{
    let pid = patch.profile_id;
    let rw = spec_rows_without(old_s.rows@, pid);
    let rr = spec_radius_rows(areas, dists, patch);
    lemma_rows_without_keys(old_s.rows@, pid);
    lemma_radius_rows_keys(areas, dists, patch);
    lemma_radius_rows_elems(areas, dists, patch);
    assert forall|k: int| 0 <= k < rw.len() implies (#[trigger] rw[k]).profile_id != pid
        && rw[k].distance <= MAX_DISTANCE_M && spec_has_profile(new_s.profiles@, rw[k].profile_id)
        by {
        lemma_rows_without_elem(old_s.rows@, pid, k);
        let j = choose|j: int| 0 <= j < old_s.rows@.len() && #[trigger] old_s.rows@[j] == rw[k];
        assert(old_s.rows@[j].distance <= MAX_DISTANCE_M);
        assert(spec_has_profile(old_s.profiles@, old_s.rows@[j].profile_id));
        let j2 = choose|j2: int|
            0 <= j2 < old_s.profiles@.len() && (#[trigger] old_s.profiles@[j2]).id
                == old_s.rows@[j].profile_id;
        assert(new_s.profiles@[j2].id == rw[k].profile_id);
    }
    assert forall|i: int, j: int| 0 <= i < j < new_s.rows@.len() implies !(new_s.rows@[i].profile_id
        == new_s.rows@[j].profile_id && new_s.rows@[i].postcode == new_s.rows@[j].postcode) by {
        if i < rw.len() && j >= rw.len() {
            assert(new_s.rows@[i] == rw[i]);
            assert(new_s.rows@[j] == rr[j - rw.len()]);
            assert(rr[j - rw.len()].profile_id == pid);
        } else if i >= rw.len() {
            assert(new_s.rows@[i] == rr[i - rw.len()]);
            assert(new_s.rows@[j] == rr[j - rw.len()]);
        } else {
            assert(new_s.rows@[i] == rw[i]);
            assert(new_s.rows@[j] == rw[j]);
        }
    }
    assert forall|k: int| 0 <= k < new_s.rows@.len() implies (#[trigger] new_s.rows@[k]).distance
        <= MAX_DISTANCE_M && spec_has_profile(new_s.profiles@, new_s.rows@[k].profile_id) by {
        if k < rw.len() {
            assert(new_s.rows@[k] == rw[k]);
        } else {
            assert(new_s.rows@[k] == rr[k - rw.len()]);
            assert(rr[k - rw.len()].profile_id == pid);
            assert(new_s.profiles@[idx].id == pid);
        }
    }
}

/// A store stays well-formed when one profile's scores and the ranks of
/// its rows change, with every key, distance and identity kept.
proof fn lemma_store_wf_after_score_update(old_s: Store, new_s: Store, id: i32, idx: int)
    requires
        old_s.wf(),
        0 <= idx < old_s.profiles@.len(),
        new_s.profiles@.len() == old_s.profiles@.len(),
        forall|j: int|
            0 <= j < old_s.profiles@.len() ==> (#[trigger] new_s.profiles@[j]).id
                == old_s.profiles@[j].id,
        forall|j: int| 0 <= j < new_s.profiles@.len() ==> (#[trigger] new_s.profiles@[j]).wf(),
        new_s.rows@.len() == old_s.rows@.len(),
        forall|k: int|
            0 <= k < old_s.rows@.len() ==> (#[trigger] new_s.rows@[k]).profile_id
                == old_s.rows@[k].profile_id && new_s.rows@[k].postcode == old_s.rows@[k].postcode
                && new_s.rows@[k].distance == old_s.rows@[k].distance,
    ensures
        new_s.wf(),
{
    assert forall|k: int|
        0 <= k < new_s.rows@.len() implies spec_has_profile(
        new_s.profiles@,
        (#[trigger] new_s.rows@[k]).profile_id,
    ) by {
        let pid = new_s.rows@[k].profile_id;
        assert(spec_has_profile(old_s.profiles@, pid));
        let j = choose|j: int|
            0 <= j < old_s.profiles@.len() && (#[trigger] old_s.profiles@[j]).id == pid;
        assert(new_s.profiles@[j].id == pid);
    }
}

/// Dispatches one profile update request: a present radius selects the
/// radius path, otherwise the score-only path runs.  A request that names
/// an unknown profile fails before either path begins.
pub fn handler(
    store: &mut Store,
    catalog: &PostcodeCatalog,
    distances: &Vec<u64>,
    id: i32,
    input: ReqBody,
) -> (r: Result<QueryResult, ServiceError>)
    requires
        old(store).wf(),
        catalog.wf(),
        distances@.len() == catalog.areas@.len(),
        sub_score_opt_ok(input.profile_picture_score),
        sub_score_opt_ok(input.profile_description_score),
    ensures
        final(store).wf(),
        match input.max_driving_distance {
            Some(radius) => spec_radius_update_outcome(
                *old(store),
                *final(store),
                catalog.areas@,
                distances@,
                id,
                radius,
                input.profile_picture_score,
                input.profile_description_score,
                r,
            ),
            None => spec_score_update_outcome(
                *old(store),
                *final(store),
                id,
                input.profile_picture_score,
                input.profile_description_score,
                r,
            ),
        },
{
    match input.max_driving_distance {
        Some(radius) => update_distances(
            store,
            catalog,
            distances,
            id,
            radius,
            input.profile_picture_score,
            input.profile_description_score,
        ),
        None => update_score_and_ranks(
            store,
            id,
            input.profile_picture_score,
            input.profile_description_score,
        ),
    }
}

/// Law of the score-only path: it never changes a row's key or distance,
/// only its rank.
pub proof fn lemma_score_update_keeps_distances(
    old_s: Store,
    new_s: Store,
    id: i32,
    pic: Option<i64>,
    desc: Option<i64>,
    qr: QueryResult,
)
    requires
        spec_score_update_applied(old_s, new_s, id, pic, desc, qr),
    ensures
        new_s.rows@.len() == old_s.rows@.len(),
        forall|k: int|
            0 <= k < old_s.rows@.len() ==> (#[trigger] new_s.rows@[k]).profile_id
                == old_s.rows@[k].profile_id && new_s.rows@[k].postcode == old_s.rows@[k].postcode
                && new_s.rows@[k].distance == old_s.rows@[k].distance,
{
}

/// Law of atomicity for the score-only path: a failed update leaves the
/// profile rows and all derived rows exactly as they were.
pub proof fn lemma_failed_score_update_keeps_state(
    old_s: Store,
    new_s: Store,
    id: i32,
    pic: Option<i64>,
    desc: Option<i64>,
    e: ServiceError,
)
    requires
        spec_score_update_outcome(old_s, new_s, id, pic, desc, Err(e)),
    ensures
        new_s.profiles@ == old_s.profiles@,
        new_s.rows@ == old_s.rows@,
{
}

/// Law of atomicity for the radius path: a failed update leaves the
/// profile rows and all derived rows exactly as they were.
pub proof fn lemma_failed_radius_update_keeps_state(
    old_s: Store,
    new_s: Store,
    areas: Seq<Postcode>,
    dists: Seq<u64>,
    id: i32,
    radius: u64,
    pic: Option<i64>,
    desc: Option<i64>,
    e: ServiceError,
)
    requires
        spec_radius_update_outcome(old_s, new_s, areas, dists, id, radius, pic, desc, Err(e)),
    ensures
        new_s.profiles@ == old_s.profiles@,
        new_s.rows@ == old_s.rows@,
{
}

/// Law of the radius path: afterwards, the profile's derived row set is
/// exactly the set of postal areas whose given distance lies within the
/// new radius plus the area's slack, and each of its rows carries that
/// distance and the rank recomputed from it.
pub proof fn lemma_radius_update_exact(
    old_s: Store,
    new_s: Store,
    areas: Seq<Postcode>,
    dists: Seq<u64>,
    id: i32,
    radius: u64,
    pic: Option<i64>,
    desc: Option<i64>,
    qr: QueryResult,
)
    requires
        old_s.wf(),
        dists.len() == areas.len(),
        spec_radius_update_applied(old_s, new_s, areas, dists, id, radius, pic, desc, qr),
    ensures
        forall|j: int|
            0 <= j < areas.len() && (#[trigger] areas[j]).admits(radius, dists[j])
                ==> new_s.rows@.contains(
                areas[j].spec_row(
                    spec_patch_of(
                        old_s.profiles@[spec_profile_index(old_s.profiles@, id)],
                        radius,
                        pic,
                        desc,
                    ),
                    dists[j],
                ),
            ),
        forall|k: int|
            0 <= k < new_s.rows@.len() && (#[trigger] new_s.rows@[k]).profile_id == id
                ==> exists|j: int|
                0 <= j < areas.len() && (#[trigger] areas[j]).admits(radius, dists[j])
                    && new_s.rows@[k] == areas[j].spec_row(
                    spec_patch_of(
                        old_s.profiles@[spec_profile_index(old_s.profiles@, id)],
                        radius,
                        pic,
                        desc,
                    ),
                    dists[j],
                ),
{
    let i = spec_profile_index(old_s.profiles@, id);
    let p = old_s.profiles@[i];
    let patch = spec_patch_of(p, radius, pic, desc);
    let rw = spec_rows_without(old_s.rows@, id);
    let rr = spec_radius_rows(areas, dists, patch);
    assert(p.id == id);
    assert(patch.profile_id == id && patch.max_driving_distance == radius);
    assert forall|j: int|
        0 <= j < areas.len() && (#[trigger] areas[j]).admits(radius, dists[j])
            implies new_s.rows@.contains(areas[j].spec_row(patch, dists[j])) by {
        crate::postcode_utils::lemma_radius_rows_covers(areas, dists, patch, j);
        let k = choose|k: int| 0 <= k < rr.len() && rr[k] == areas[j].spec_row(patch, dists[j]);
        assert(new_s.rows@[rw.len() + k] == rr[k]);
        assert(new_s.rows@.contains(areas[j].spec_row(patch, dists[j])));
    }
    assert forall|k: int|
        0 <= k < new_s.rows@.len() && (#[trigger] new_s.rows@[k]).profile_id == id
            implies exists|j: int|
            0 <= j < areas.len() && (#[trigger] areas[j]).admits(radius, dists[j])
                && new_s.rows@[k] == areas[j].spec_row(patch, dists[j]) by {
        if k < rw.len() {
            lemma_rows_without_elem(old_s.rows@, id, k);
            assert(new_s.rows@[k] == rw[k]);
            assert(false);
        } else {
            assert(new_s.rows@[k] == rr[k - rw.len()]);
            crate::postcode_utils::lemma_radius_rows_elem(areas, dists, patch, k - rw.len());
        }
    }
}

/// Law of rank currency across the score-only path: when every stored
/// rank is the formula at its owner's composite score, it stays so after
/// the update — the updated profile's rows follow its new score, all
/// other rows and owners are untouched.
pub proof fn lemma_score_update_keeps_ranks_current(
    s0: Store,
    s1: Store,
    id: i32,
    pic: Option<i64>,
    desc: Option<i64>,
    qr: QueryResult,
)
    requires
        s0.wf(),
        s1.wf(),
        s0.ranks_current(),
        spec_score_update_applied(s0, s1, id, pic, desc, qr),
    ensures
        s1.ranks_current(),
{
    let i = spec_profile_index(s0.profiles@, id);
    let newp = spec_merged_profile(s0.profiles@[i], pic, desc);
    assert(spec_has_profile(s0.profiles@, id));
    assert(0 <= i < s0.profiles@.len() && s0.profiles@[i].id == id);
    assert forall|k: int| 0 <= k < s1.rows@.len() implies {
        let row = #[trigger] s1.rows@[k];
        row.rank == spec_calc_rank(
            row.distance as int,
            s1.profiles@[spec_profile_index(s1.profiles@, row.profile_id)].profile_score as int,
        ) as i64
    } by {
        let row0 = s0.rows@[k];
        assert(s1.rows@[k] == spec_rescored_row(row0, id, newp.profile_score));
        if row0.profile_id == id {
            assert(s1.profiles@[i].id == id);
            lemma_profile_index_unique(s1.profiles@, id, i);
            assert(s1.profiles@[i] == newp);
        } else {
            let pid = row0.profile_id;
            assert(spec_has_profile(s0.profiles@, pid));
            let j = spec_profile_index(s0.profiles@, pid);
            assert(0 <= j < s0.profiles@.len() && s0.profiles@[j].id == pid);
            assert(j != i);
            assert(s1.profiles@[j] == s0.profiles@[j]);
            lemma_profile_index_unique(s1.profiles@, pid, j);
        }
    }
}

/// Law of rank currency across the radius path: the replaced rows carry
/// the rank recomputed at the profile's new score, and every other row
/// and owner is untouched.
pub proof fn lemma_radius_update_keeps_ranks_current(
    s0: Store,
    s1: Store,
    areas: Seq<Postcode>,
    dists: Seq<u64>,
    id: i32,
    radius: u64,
    pic: Option<i64>,
    desc: Option<i64>,
    qr: QueryResult,
)
    requires
        s0.wf(),
        s1.wf(),
        s0.ranks_current(),
        dists.len() == areas.len(),
        spec_radius_update_applied(s0, s1, areas, dists, id, radius, pic, desc, qr),
    ensures
        s1.ranks_current(),
{
    let i = spec_profile_index(s0.profiles@, id);
    let p = s0.profiles@[i];
    let newp = spec_radius_profile(p, radius, pic, desc);
    let patch = spec_patch_of(p, radius, pic, desc);
    assert(spec_has_profile(s0.profiles@, id));
    assert(0 <= i < s0.profiles@.len() && p.id == id);
    assert(patch.profile_score == newp.profile_score);
    let rw = spec_rows_without(s0.rows@, id);
    let rr = spec_radius_rows(areas, dists, patch);
    lemma_radius_rows_elems(areas, dists, patch);
    assert forall|k: int| 0 <= k < s1.rows@.len() implies {
        let row = #[trigger] s1.rows@[k];
        row.rank == spec_calc_rank(
            row.distance as int,
            s1.profiles@[spec_profile_index(s1.profiles@, row.profile_id)].profile_score as int,
        ) as i64
    } by {
        if k < rw.len() {
            assert(s1.rows@[k] == rw[k]);
            lemma_rows_without_elem(s0.rows@, id, k);
            let j = choose|j: int| 0 <= j < s0.rows@.len() && #[trigger] s0.rows@[j] == rw[k];
            let pid = rw[k].profile_id;
            assert(spec_has_profile(s0.profiles@, pid));
            let j2 = spec_profile_index(s0.profiles@, pid);
            assert(0 <= j2 < s0.profiles@.len() && s0.profiles@[j2].id == pid);
            assert(j2 != i);
            assert(s1.profiles@[j2] == s0.profiles@[j2]);
            lemma_profile_index_unique(s1.profiles@, pid, j2);
        } else {
            assert(s1.rows@[k] == rr[k - rw.len()]);
            assert(rr[k - rw.len()].profile_id == patch.profile_id);
            assert(s1.profiles@[i].id == id);
            lemma_profile_index_unique(s1.profiles@, id, i);
            assert(s1.profiles@[i] == newp);
        }
    }
}

/// Law of idempotence for the score-only path: repeating the same score
/// update on its own result changes nothing further.
pub proof fn lemma_score_update_idempotent(
    s0: Store,
    s1: Store,
    s2: Store,
    id: i32,
    pic: Option<i64>,
    desc: Option<i64>,
    qr1: QueryResult,
    qr2: QueryResult,
)
    requires
        s0.wf(),
        s1.wf(),
        spec_score_update_applied(s0, s1, id, pic, desc, qr1),
        spec_score_update_applied(s1, s2, id, pic, desc, qr2),
    ensures
        s2.profiles@ == s1.profiles@,
        s2.rows@ == s1.rows@,
        qr2 == qr1,
{
    let i0 = spec_profile_index(s0.profiles@, id);
    let p0 = s0.profiles@[i0];
    let newp = spec_merged_profile(p0, pic, desc);
    assert(p0.id == id);
    assert(newp.id == id);
    assert(s1.profiles@[i0] == newp);
    lemma_profile_index_unique(s1.profiles@, id, i0);
    // merging the same sub-scores into the merged profile changes nothing
    assert(spec_merged_profile(newp, pic, desc) == newp);
    assert(s2.profiles@ =~= s1.profiles@);
    // rescoring from the same composite score writes the same rank
    assert forall|k: int| 0 <= k < s1.rows@.len() implies s2.rows@[k] == s1.rows@[k] by {
        assert(s1.rows@[k] == spec_rescored_row(s0.rows@[k], id, newp.profile_score));
        assert(s2.rows@[k] == spec_rescored_row(s1.rows@[k], id, newp.profile_score));
    }
    assert(s2.rows@ =~= s1.rows@);
}

/// Law of row currency across the score-only path: when a profile's rows
/// are exactly the recomputation for some radius and distances, they stay
/// exactly that recomputation after a score-only update, taken at the new
/// composite score.  Admission never depends on the score, so the row set
/// cannot change; only every rank follows the new score.
pub proof fn lemma_score_update_keeps_rows_current(
    s0: Store,
    s1: Store,
    id: i32,
    pic: Option<i64>,
    desc: Option<i64>,
    qr: QueryResult,
    areas: Seq<Postcode>,
    dists: Seq<u64>,
    patch0: PatchFilters,
)
    requires
        s0.wf(),
        dists.len() == areas.len(),
        spec_score_update_applied(s0, s1, id, pic, desc, qr),
        patch0.profile_id == id,
        // the profile's rows are current for `patch0`
        forall|k: int|
            0 <= k < s0.rows@.len() && (#[trigger] s0.rows@[k]).profile_id == id
                ==> exists|j: int|
                0 <= j < areas.len() && (#[trigger] areas[j]).admits(
                    patch0.max_driving_distance,
                    dists[j],
                ) && s0.rows@[k] == areas[j].spec_row(patch0, dists[j]),
        forall|j: int|
            0 <= j < areas.len() && (#[trigger] areas[j]).admits(
                patch0.max_driving_distance,
                dists[j],
            ) ==> s0.rows@.contains(areas[j].spec_row(patch0, dists[j])),
    ensures
        // and afterwards they are current for the same radius at the new
        // composite score
        forall|k: int|
            0 <= k < s1.rows@.len() && (#[trigger] s1.rows@[k]).profile_id == id
                ==> exists|j: int|
                0 <= j < areas.len() && (#[trigger] areas[j]).admits(
                    patch0.max_driving_distance,
                    dists[j],
                ) && s1.rows@[k] == areas[j].spec_row(
                    PatchFilters {
                        profile_score: spec_merged_profile(
                            s0.profiles@[spec_profile_index(s0.profiles@, id)],
                            pic,
                            desc,
                        ).profile_score,
                        ..patch0
                    },
                    dists[j],
                ),
        forall|j: int|
            0 <= j < areas.len() && (#[trigger] areas[j]).admits(
                patch0.max_driving_distance,
                dists[j],
            ) ==> s1.rows@.contains(
                areas[j].spec_row(
                    PatchFilters {
                        profile_score: spec_merged_profile(
                            s0.profiles@[spec_profile_index(s0.profiles@, id)],
                            pic,
                            desc,
                        ).profile_score,
                        ..patch0
                    },
                    dists[j],
                ),
            ),
{
    let i0 = spec_profile_index(s0.profiles@, id);
    let score = spec_merged_profile(s0.profiles@[i0], pic, desc).profile_score;
    let patch1 = PatchFilters { profile_score: score, ..patch0 };
    assert forall|k: int|
        0 <= k < s1.rows@.len() && (#[trigger] s1.rows@[k]).profile_id == id implies exists|j: int|
        0 <= j < areas.len() && (#[trigger] areas[j]).admits(patch0.max_driving_distance, dists[j])
            && s1.rows@[k] == areas[j].spec_row(patch1, dists[j]) by {
        assert(s1.rows@[k] == spec_rescored_row(s0.rows@[k], id, score));
        assert(s0.rows@[k].profile_id == id);
        let j = choose|j: int|
            0 <= j < areas.len() && (#[trigger] areas[j]).admits(
                patch0.max_driving_distance,
                dists[j],
            ) && s0.rows@[k] == areas[j].spec_row(patch0, dists[j]);
        assert(s1.rows@[k] == areas[j].spec_row(patch1, dists[j]));
    }
    assert forall|j: int|
        0 <= j < areas.len() && (#[trigger] areas[j]).admits(
            patch0.max_driving_distance,
            dists[j],
        ) implies s1.rows@.contains(areas[j].spec_row(patch1, dists[j])) by {
        let target0 = areas[j].spec_row(patch0, dists[j]);
        assert(s0.rows@.contains(target0));
        let k = choose|k: int| 0 <= k < s0.rows@.len() && s0.rows@[k] == target0;
        assert(s1.rows@[k] == spec_rescored_row(target0, id, score));
        assert(s1.rows@[k] == areas[j].spec_row(patch1, dists[j]));
        assert(s1.rows@.contains(s1.rows@[k]));
    }
}

/// Law of idempotence: repeating the same radius update on its own result
/// yields an identical profile row and an identical derived row set.
pub proof fn lemma_radius_update_idempotent(
    s0: Store,
    s1: Store,
    s2: Store,
    areas: Seq<Postcode>,
    dists: Seq<u64>,
    id: i32,
    radius: u64,
    pic: Option<i64>,
    desc: Option<i64>,
    qr1: QueryResult,
    qr2: QueryResult,
)
    requires
        s0.wf(),
        s1.wf(),
        dists.len() == areas.len(),
        spec_radius_update_applied(s0, s1, areas, dists, id, radius, pic, desc, qr1),
        spec_radius_update_applied(s1, s2, areas, dists, id, radius, pic, desc, qr2),
    ensures
        s2.profiles@ == s1.profiles@,
        s2.rows@ == s1.rows@,
        qr2 == qr1,
{
    let i0 = spec_profile_index(s0.profiles@, id);
    let p0 = s0.profiles@[i0];
    let newp = spec_radius_profile(p0, radius, pic, desc);
    let patch = spec_patch_of(p0, radius, pic, desc);
    assert(p0.id == id);
    assert(newp.id == id);
    assert(s1.profiles@[i0] == newp);
    lemma_profile_index_unique(s1.profiles@, id, i0);
    let p1 = s1.profiles@[spec_profile_index(s1.profiles@, id)];
    assert(p1 == newp);
    // merging the same sub-scores into the merged profile changes nothing
    let newp2 = spec_radius_profile(p1, radius, pic, desc);
    let patch2 = spec_patch_of(p1, radius, pic, desc);
    assert(newp2 == newp);
    assert(patch2 == patch);
    // so the second update writes the same profile ...
    assert(s2.profiles@ =~= s1.profiles@);
    // ... and rebuilds the same row set: the recomputed rows all belong to
    // the profile and are dropped by the second replacement, while the
    // kept rows of other profiles are all kept again
    let rw = spec_rows_without(s0.rows@, id);
    let rr = spec_radius_rows(areas, dists, patch);
    lemma_rows_without_concat(rw, rr, id);
    assert forall|k: int| 0 <= k < rw.len() implies (#[trigger] rw[k]).profile_id != id by {
        lemma_rows_without_elem(s0.rows@, id, k);
    }
    lemma_rows_without_none(rw, id);
    lemma_radius_rows_elems(areas, dists, patch);
    lemma_rows_without_all(rr, id);
    assert(spec_rows_without(s1.rows@, id) =~= rw);
    assert(s2.rows@ == s1.rows@);
}

} // verus!
