//! Postal areas, their admission slack, and the per-area eligibility test.

use vstd::prelude::*;

use crate::geo::Location;
use crate::ranking::{calc_rank, spec_calc_rank, MAX_DISTANCE_M};
use crate::scoring::MAX_SCORE;
use crate::store::EligibilityRow;

verus! {

/// The three-valued proximity group of a postal area.  It widens the
/// admission radius: a profile reaches an area whenever its distance is at
/// most the profile's radius plus the group's offset.
#[derive(Clone, Copy, Debug, PartialEq, Eq, Structural)]
pub enum InGroup {
    GroupA,
    GroupB,
    GroupC,
}

impl InGroup {
    /// The admission slack of the group, in meters: 0 km, 2 km, or 5 km.
    pub open spec fn spec_offset(self) -> u64 {
        match self {
            InGroup::GroupA => 0,
            InGroup::GroupB => 2_000,
            InGroup::GroupC => 5_000,
        }
    }

    pub fn get_offset(&self) -> (m: u64)
        ensures
            m == self.spec_offset(),
    {
        match self {
            InGroup::GroupA => 0,
            InGroup::GroupB => 2_000,
            InGroup::GroupC => 5_000,
        }
    }
}

/// One postal area: its code, its centroid, and its proximity group.
#[derive(Clone, Copy, Debug)]
pub struct Postcode {
    pub postcode: i32,
    pub loc: Location,
    pub group: InGroup,
}

/// The fields of one profile that the radius recomputation reads: the
/// profile's identity, its admission radius in meters, its composite score
/// in ten-millionths, and its location.
#[derive(Clone, Copy, Debug)]
pub struct PatchFilters {
    pub profile_id: i32,
    pub max_driving_distance: u64,
    pub profile_score: i64,
    pub loc: Location,
}

impl PatchFilters {
    pub open spec fn wf(self) -> bool {
        0 <= self.profile_score <= MAX_SCORE
    }
}

impl Postcode {
    /// The admission test: the area is in range when the distance is at
    /// most the radius plus the group's slack.
    pub open spec fn admits(self, max_driving_distance: u64, dist: u64) -> bool {
        dist <= max_driving_distance + self.spec_offset()
    }

    pub open spec fn spec_offset(self) -> u64 {
        self.group.spec_offset()
    }

    /// The derived row for this area, ranked from the given distance.
    pub open spec fn spec_row(self, patch: PatchFilters, dist: u64) -> EligibilityRow {
        EligibilityRow {
            profile_id: patch.profile_id,
            postcode: self.postcode,
            distance: dist,
            rank: spec_calc_rank(dist as int, patch.profile_score as int) as i64,
        }
    }

    /// The eligibility decision for one postal area: a ranked row when the
    /// given distance admits the area, nothing otherwise.
    pub fn get_model_opt(&self, patch: &PatchFilters, dist: u64) -> (r: Option<EligibilityRow>)
        requires
            patch.wf(),
            dist <= MAX_DISTANCE_M,
        ensures
            r == if self.admits(patch.max_driving_distance, dist) {
                Some(self.spec_row(*patch, dist))
            } else {
                None::<EligibilityRow>
            },
    {
        let offset = self.group.get_offset();
        let within = dist <= patch.max_driving_distance || dist - patch.max_driving_distance
            <= offset;
        if !within {
            return None;
        }
        let rank = calc_rank(dist, patch.profile_score);
        Some(
            EligibilityRow {
                profile_id: patch.profile_id,
                postcode: self.postcode,
                distance: dist,
                rank,
            },
        )
    }
}

/// The recomputed row set for one profile: one row for every postal area
/// whose paired distance admits it, in catalog order.  `dists[j]` is the
/// distance from the profile to the centroid of `areas[j]`, in meters.
pub open spec fn spec_radius_rows(
    areas: Seq<Postcode>,
    dists: Seq<u64>,
    patch: PatchFilters,
) -> Seq<EligibilityRow>
    recommends
        dists.len() == areas.len(),
    decreases areas.len(),
{
    if areas.len() == 0 {
        Seq::empty()
    } else {
        let rest = spec_radius_rows(areas.drop_last(), dists.drop_last(), patch);
        if areas.last().admits(patch.max_driving_distance, dists.last()) {
            rest.push(areas.last().spec_row(patch, dists.last()))
        } else {
            rest
        }
    }
}

/// Every recomputed row comes from an admitted postal area: the row at
/// index `k` is the row of some area `j` whose paired distance admits it.
pub proof fn lemma_radius_rows_elem(
    areas: Seq<Postcode>,
    dists: Seq<u64>,
    patch: PatchFilters,
    k: int,
)
    requires
        dists.len() == areas.len(),
        0 <= k < spec_radius_rows(areas, dists, patch).len(),
    ensures
        exists|j: int|
            0 <= j < areas.len() && (#[trigger] areas[j]).admits(
                patch.max_driving_distance,
                dists[j],
            ) && spec_radius_rows(areas, dists, patch)[k] == areas[j].spec_row(patch, dists[j]),
    decreases areas.len(),
{
    let rr = spec_radius_rows(areas, dists, patch);
    let last: int = areas.len() - 1;
    let areas0 = areas.drop_last();
    let dists0 = dists.drop_last();
    let rest = spec_radius_rows(areas0, dists0, patch);
    if k < rest.len() {
        lemma_radius_rows_elem(areas0, dists0, patch, k);
        let j = choose|j: int|
            0 <= j < areas0.len() && (#[trigger] areas0[j]).admits(
                patch.max_driving_distance,
                dists0[j],
            ) && rest[k] == areas0[j].spec_row(patch, dists0[j]);
        assert(areas[j] == areas0[j] && dists[j] == dists0[j]);
        assert(rr[k] == rest[k]);
        assert(areas[j].admits(patch.max_driving_distance, dists[j]) && rr[k] == areas[j].spec_row(
            patch,
            dists[j],
        ));
    } else {
        assert(areas.last().admits(patch.max_driving_distance, dists.last()));
        assert(areas[last].admits(patch.max_driving_distance, dists[last]) && rr[k]
            == areas[last].spec_row(patch, dists[last]));
    }
}

/// Every admitted postal area contributes its row to the recomputed set.
pub proof fn lemma_radius_rows_covers(
    areas: Seq<Postcode>,
    dists: Seq<u64>,
    patch: PatchFilters,
    j: int,
)
    requires
        dists.len() == areas.len(),
        0 <= j < areas.len(),
        areas[j].admits(patch.max_driving_distance, dists[j]),
    ensures
        spec_radius_rows(areas, dists, patch).contains(areas[j].spec_row(patch, dists[j])),
    decreases areas.len(),
{
    let rr = spec_radius_rows(areas, dists, patch);
    let last: int = areas.len() - 1;
    let areas0 = areas.drop_last();
    let dists0 = dists.drop_last();
    let rest = spec_radius_rows(areas0, dists0, patch);
    let target = areas[j].spec_row(patch, dists[j]);
    if j < last {
        assert(areas0[j] == areas[j] && dists0[j] == dists[j]);
        lemma_radius_rows_covers(areas0, dists0, patch, j);
        let k = choose|k: int| 0 <= k < rest.len() && rest[k] == target;
        assert(rr[k] == target);
        assert(rr.contains(target));
    } else {
        assert(rr[rest.len() as int] == target);
        assert(rr.contains(target));
    }
}

/// Element-wise shape of the recomputed rows: each carries the profile's
/// identity, an in-domain distance, and the rank recomputed from its own
/// distance and the profile's composite score.
pub proof fn lemma_radius_rows_elems(areas: Seq<Postcode>, dists: Seq<u64>, patch: PatchFilters)
    requires
        dists.len() == areas.len(),
        forall|j: int| 0 <= j < dists.len() ==> #[trigger] dists[j] <= MAX_DISTANCE_M,
    ensures
        forall|k: int|
            0 <= k < spec_radius_rows(areas, dists, patch).len() ==> {
                let row = #[trigger] spec_radius_rows(areas, dists, patch)[k];
                row.profile_id == patch.profile_id && row.distance <= MAX_DISTANCE_M && row.rank
                    == spec_calc_rank(row.distance as int, patch.profile_score as int) as i64
            },
    decreases areas.len(),
{
    let rr = spec_radius_rows(areas, dists, patch);
    if areas.len() > 0 {
        let areas0 = areas.drop_last();
        let dists0 = dists.drop_last();
        let rest = spec_radius_rows(areas0, dists0, patch);
        assert forall|j: int| 0 <= j < dists0.len() implies #[trigger] dists0[j]
            <= MAX_DISTANCE_M by {
            assert(dists0[j] == dists[j]);
        }
        lemma_radius_rows_elems(areas0, dists0, patch);
        assert(dists.last() == dists[areas.len() - 1]);
        assert forall|k: int| 0 <= k < rr.len() implies {
            let row = #[trigger] rr[k];
            row.profile_id == patch.profile_id && row.distance <= MAX_DISTANCE_M && row.rank
                == spec_calc_rank(row.distance as int, patch.profile_score as int) as i64
        } by {
            if k < rest.len() {
                assert(rr[k] == rest[k]);
            } else {
                assert(rr[k] == areas.last().spec_row(patch, dists.last()));
            }
        }
    }
}

/// Under unique postal codes, the recomputed rows carry the profile's
/// identity and pairwise distinct postal codes.
pub proof fn lemma_radius_rows_keys(areas: Seq<Postcode>, dists: Seq<u64>, patch: PatchFilters)
    requires
        dists.len() == areas.len(),
        forall|i: int, j: int|
            0 <= i < j < areas.len() ==> areas[i].postcode != areas[j].postcode,
    ensures
        forall|k: int|
            0 <= k < spec_radius_rows(areas, dists, patch).len() ==> (#[trigger] spec_radius_rows(
                areas,
                dists,
                patch,
            )[k]).profile_id == patch.profile_id,
        forall|k1: int, k2: int|
            0 <= k1 < k2 < spec_radius_rows(areas, dists, patch).len() ==> spec_radius_rows(
                areas,
                dists,
                patch,
            )[k1].postcode != spec_radius_rows(areas, dists, patch)[k2].postcode,
    decreases areas.len(),
{
    let rr = spec_radius_rows(areas, dists, patch);
    if areas.len() > 0 {
        let last: int = areas.len() - 1;
        let areas0 = areas.drop_last();
        let dists0 = dists.drop_last();
        let rest = spec_radius_rows(areas0, dists0, patch);
        lemma_radius_rows_keys(areas0, dists0, patch);
        assert forall|k1: int, k2: int| 0 <= k1 < k2 < rr.len() implies rr[k1].postcode
            != rr[k2].postcode by {
            if k2 < rest.len() {
                assert(rr[k1] == rest[k1] && rr[k2] == rest[k2]);
            } else if k2 == rest.len() {
                // k2 is the pushed row of the last area; k1 comes from an
                // earlier area, whose code differs
                lemma_radius_rows_elem(areas0, dists0, patch, k1);
                let j = choose|j: int|
                    0 <= j < areas0.len() && (#[trigger] areas0[j]).admits(
                        patch.max_driving_distance,
                        dists0[j],
                    ) && rest[k1] == areas0[j].spec_row(patch, dists0[j]);
                assert(rr[k1] == rest[k1]);
                assert(rr[k1].postcode == areas[j].postcode);
                assert(rr[k2].postcode == areas[last].postcode);
                assert(areas[j].postcode != areas[last].postcode);
            }
        }
    }
}

/// The read-only snapshot of all known postal areas, loaded once at
/// startup.  Postal codes are unique within the catalog.
#[derive(Clone, Debug)]
pub struct PostcodeCatalog {
    pub areas: Vec<Postcode>,
}

impl PostcodeCatalog {
    pub open spec fn wf(self) -> bool {
        forall|i: int, j: int|
            0 <= i < j < self.areas@.len() ==> self.areas@[i].postcode != self.areas@[j].postcode
    }

    pub fn new() -> (r: PostcodeCatalog)
        ensures
            r.areas@ == Seq::<Postcode>::empty(),
            r.wf(),
    {
        PostcodeCatalog { areas: Vec::new() }
    }

    /// Adds one postal area, unless its code is already present.
    pub fn add(&mut self, area: Postcode) -> (added: bool)
        requires
            old(self).wf(),
        ensures
            final(self).wf(),
            added <==> (forall|i: int|
                0 <= i < old(self).areas@.len() ==> (#[trigger] old(self).areas@[i]).postcode
                    != area.postcode),
            added ==> final(self).areas@ == old(self).areas@.push(area),
            !added ==> final(self).areas@ == old(self).areas@,
    {
        match find_area_index(&self.areas, area.postcode) {
            Some(_) => false,
            None => {
                self.areas.push(area);
                true
            },
        }
    }

    /// All areas, for a full recomputation.
    pub fn all(&self) -> (r: &Vec<Postcode>)
        ensures
            r@ == self.areas@,
    {
        &self.areas
    }

    /// Looks one postal area up by its code.
    pub fn get(&self, postcode: i32) -> (r: Option<&Postcode>)
        ensures
            match r {
                Some(area) => self.areas@.contains(*area) && area.postcode == postcode,
                None => forall|i: int|
                    0 <= i < self.areas@.len() ==> (#[trigger] self.areas@[i]).postcode
                        != postcode,
            },
    {
        match find_area_index(&self.areas, postcode) {
            Some(i) => Some(&self.areas[i]),
            None => None,
        }
    }
}

/// The index of the area with the given code, if any.
fn find_area_index(areas: &Vec<Postcode>, postcode: i32) -> (r: Option<usize>)
    ensures
        match r {
            Some(i) => i < areas@.len() && areas@[i as int].postcode == postcode,
            None => forall|i: int|
                0 <= i < areas@.len() ==> (#[trigger] areas@[i]).postcode != postcode,
        },
{
    let mut i: usize = 0;
    while i < areas.len()
        invariant
            i <= areas@.len(),
            forall|j: int| 0 <= j < i ==> (#[trigger] areas@[j]).postcode != postcode,
        decreases areas@.len() - i,
    {
        if areas[i].postcode == postcode {
            return Some(i);
        }
        i = i + 1;
    }
    None
}

} // verus!
