//! The derived eligibility index and the transactional store that holds it.
//!
//! The store models the persisted state: one table of profiles and one
//! table of derived eligibility rows, plus a fault switch that stands for
//! the storage layer failing at commit time.  Every mutation of derived
//! state goes through one of the update paths, which write the profile row
//! and its derived rows together or not at all.

use vstd::prelude::*;

use crate::profile::Profile;
use crate::ranking::{spec_calc_rank, MAX_DISTANCE_M};

verus! {

/// One row of the derived index: the assertion that a profile is reachable
/// for a postal area, with the precomputed distance (meters) and rank
/// (eight-billionths).  Keyed by `(profile_id, postcode)`.
#[derive(Clone, Copy, Debug, PartialEq, Eq, Structural)]
pub struct EligibilityRow {
    pub profile_id: i32,
    pub postcode: i32,
    pub distance: u64,
    pub rank: i64,
}

/// Whether some profile in `s` has the identity `id`.
pub open spec fn spec_has_profile(s: Seq<Profile>, id: i32) -> bool {
    exists|j: int| 0 <= j < s.len() && (#[trigger] s[j]).id == id
}

/// The index of the profile with identity `id`; meaningful only under
/// `spec_has_profile`, and unique once profile identities are unique.
pub open spec fn spec_profile_index(s: Seq<Profile>, id: i32) -> int {
    choose|j: int| 0 <= j < s.len() && (#[trigger] s[j]).id == id
}

/// The rows of `rows` that do not belong to `profile_id`, in their stored
/// order.
pub open spec fn spec_rows_without(rows: Seq<EligibilityRow>, profile_id: i32) -> Seq<
    EligibilityRow,
>
    decreases rows.len(),
{
    if rows.len() == 0 {
        Seq::empty()
    } else {
        let rest = spec_rows_without(rows.drop_last(), profile_id);
        if rows.last().profile_id == profile_id {
            rest
        } else {
            rest.push(rows.last())
        }
    }
}

/// The row at index `k` of the kept rows is a stored row of some other
/// profile: it keeps an index into the stored rows.
pub proof fn lemma_rows_without_elem(rows: Seq<EligibilityRow>, profile_id: i32, k: int)
    requires
        0 <= k < spec_rows_without(rows, profile_id).len(),
    ensures
        spec_rows_without(rows, profile_id)[k].profile_id != profile_id,
        exists|j: int|
            0 <= j < rows.len() && #[trigger] rows[j] == spec_rows_without(rows, profile_id)[k],
    decreases rows.len(),
{
    let rw = spec_rows_without(rows, profile_id);
    let rows0 = rows.drop_last();
    let rest = spec_rows_without(rows0, profile_id);
    if k < rest.len() {
        lemma_rows_without_elem(rows0, profile_id, k);
        let j = choose|j: int| 0 <= j < rows0.len() && #[trigger] rows0[j] == rest[k];
        assert(rows[j] == rw[k]);
    } else {
        assert(rw[k] == rows.last());
        assert(rows[rows.len() - 1] == rw[k]);
    }
}

/// Keeping the rows of other profiles distributes over concatenation.
pub proof fn lemma_rows_without_concat(
    s1: Seq<EligibilityRow>,
    s2: Seq<EligibilityRow>,
    profile_id: i32,
)
    ensures
        spec_rows_without(s1 + s2, profile_id) == spec_rows_without(s1, profile_id)
            + spec_rows_without(s2, profile_id),
    decreases s2.len(),
{
    if s2.len() == 0 {
        assert(s1 + s2 =~= s1);
        assert(spec_rows_without(s2, profile_id) =~= Seq::<EligibilityRow>::empty());
        assert(spec_rows_without(s1, profile_id) + spec_rows_without(s2, profile_id)
            =~= spec_rows_without(s1, profile_id));
    } else {
        lemma_rows_without_concat(s1, s2.drop_last(), profile_id);
        assert((s1 + s2).drop_last() =~= s1 + s2.drop_last());
        assert((s1 + s2).last() == s2.last());
        assert(spec_rows_without(s1 + s2, profile_id) =~= spec_rows_without(s1, profile_id)
            + spec_rows_without(s2, profile_id));
    }
}

/// Rows that all belong to other profiles are all kept.
pub proof fn lemma_rows_without_none(s: Seq<EligibilityRow>, profile_id: i32)
    requires
        forall|k: int| 0 <= k < s.len() ==> (#[trigger] s[k]).profile_id != profile_id,
    ensures
        spec_rows_without(s, profile_id) == s,
    decreases s.len(),
{
    if s.len() > 0 {
        lemma_rows_without_none(s.drop_last(), profile_id);
        assert(spec_rows_without(s, profile_id) =~= s);
    }
}

/// Rows that all belong to the dropped profile are all dropped.
pub proof fn lemma_rows_without_all(s: Seq<EligibilityRow>, profile_id: i32)
    requires
        forall|k: int| 0 <= k < s.len() ==> (#[trigger] s[k]).profile_id == profile_id,
    ensures
        spec_rows_without(s, profile_id) == Seq::<EligibilityRow>::empty(),
    decreases s.len(),
{
    if s.len() > 0 {
        lemma_rows_without_all(s.drop_last(), profile_id);
    }
}

/// Keeping the rows of other profiles keeps keys unique.
pub proof fn lemma_rows_without_keys(rows: Seq<EligibilityRow>, profile_id: i32)
    requires
        forall|i: int, j: int|
            0 <= i < j < rows.len() ==> !(rows[i].profile_id == rows[j].profile_id
                && rows[i].postcode == rows[j].postcode),
    ensures
        forall|k1: int, k2: int|
            0 <= k1 < k2 < spec_rows_without(rows, profile_id).len() ==> !(spec_rows_without(
                rows,
                profile_id,
            )[k1].profile_id == spec_rows_without(rows, profile_id)[k2].profile_id
                && spec_rows_without(rows, profile_id)[k1].postcode == spec_rows_without(
                rows,
                profile_id,
            )[k2].postcode),
    decreases rows.len(),
{
    let rw = spec_rows_without(rows, profile_id);
    if rows.len() > 0 {
        let rows0 = rows.drop_last();
        let rest = spec_rows_without(rows0, profile_id);
        lemma_rows_without_keys(rows0, profile_id);
        assert forall|k1: int, k2: int| 0 <= k1 < k2 < rw.len() implies !(rw[k1].profile_id
            == rw[k2].profile_id && rw[k1].postcode == rw[k2].postcode) by {
            if k2 < rest.len() {
                assert(rw[k1] == rest[k1] && rw[k2] == rest[k2]);
            } else if k2 == rest.len() {
                // rw[k2] is the kept last row; rw[k1] is an earlier stored
                // row, and distinct stored rows have distinct keys
                lemma_rows_without_elem(rows0, profile_id, k1);
                let j = choose|j: int| 0 <= j < rows0.len() && #[trigger] rows0[j] == rest[k1];
                assert(rw[k1] == rest[k1]);
                assert(rows[j] == rw[k1]);
                assert(rw[k2] == rows[rows.len() - 1]);
                assert(!(rows[j].profile_id == rows[rows.len() - 1].profile_id && rows[j].postcode
                    == rows[rows.len() - 1].postcode));
            }
        }
    }
}

/// The in-memory image of the persisted state.
#[derive(Debug)]
pub struct Store {
    pub profiles: Vec<Profile>,
    pub rows: Vec<EligibilityRow>,
    /// When set, the next commit fails and is rolled back; the switch
    /// resets itself.  It stands for a storage-layer fault.
    pub fail_next_commit: bool,
}

impl Store {
    /// Profile identities are unique and every profile is well-formed.
    pub open spec fn profiles_wf(self) -> bool {
        &&& forall|i: int, j: int|
            0 <= i < j < self.profiles@.len() ==> self.profiles@[i].id != self.profiles@[j].id
        &&& forall|i: int| 0 <= i < self.profiles@.len() ==> (#[trigger] self.profiles@[i]).wf()
    }

    /// Row keys are unique, every stored distance is in domain, and every
    /// row belongs to a stored profile.
    pub open spec fn rows_wf(self) -> bool {
        &&& forall|i: int, j: int|
            0 <= i < j < self.rows@.len() ==> !(self.rows@[i].profile_id
                == self.rows@[j].profile_id && self.rows@[i].postcode == self.rows@[j].postcode)
        &&& forall|i: int|
            0 <= i < self.rows@.len() ==> (#[trigger] self.rows@[i]).distance <= MAX_DISTANCE_M
        &&& forall|i: int|
            0 <= i < self.rows@.len() ==> spec_has_profile(
                self.profiles@,
                (#[trigger] self.rows@[i]).profile_id,
            )
    }

    pub open spec fn wf(self) -> bool {
        self.profiles_wf() && self.rows_wf()
    }

    /// Every stored rank is the rank formula applied to the row's stored
    /// distance and its owner's current composite score.  Ranks are never
    /// edited independently; the maintenance paths keep this current.
    pub open spec fn ranks_current(self) -> bool {
        forall|k: int|
            0 <= k < self.rows@.len() ==> {
                let row = #[trigger] self.rows@[k];
                row.rank == spec_calc_rank(
                    row.distance as int,
                    self.profiles@[spec_profile_index(self.profiles@, row.profile_id)].profile_score
                        as int,
                ) as i64
            }
    }

    /// An empty store.
    pub fn new() -> (r: Store)
        ensures
            r.profiles@ == Seq::<Profile>::empty(),
            r.rows@ == Seq::<EligibilityRow>::empty(),
            !r.fail_next_commit,
            r.wf(),
    {
        Store { profiles: Vec::new(), rows: Vec::new(), fail_next_commit: false }
    }

    /// Adds a profile, unless its identity is already taken.  No derived
    /// rows are created: they appear with the profile's first radius
    /// assignment.
    pub fn add_profile(&mut self, p: Profile) -> (added: bool)
        requires
            old(self).wf(),
            p.wf(),
        ensures
            final(self).wf(),
            added <==> !spec_has_profile(old(self).profiles@, p.id),
            added ==> final(self).profiles@ == old(self).profiles@.push(p),
            !added ==> final(self).profiles@ == old(self).profiles@,
            final(self).rows@ == old(self).rows@,
            final(self).fail_next_commit == old(self).fail_next_commit,
    {
        match find_profile_index(&self.profiles, p.id) {
            Some(_) => false,
            None => {
                self.profiles.push(p);
                assert forall|i: int|
                    0 <= i < self.rows@.len() implies spec_has_profile(
                    self.profiles@,
                    (#[trigger] self.rows@[i]).profile_id,
                ) by {
                    let id = self.rows@[i].profile_id;
                    let j = choose|j: int|
                        0 <= j < old(self).profiles@.len() && (#[trigger] old(
                            self,
                        ).profiles@[j]).id == id;
                    assert(self.profiles@[j].id == id);
                }
                true
            },
        }
    }

    /// Arms the fault switch: the next commit will fail and roll back.
    pub fn inject_commit_failure(&mut self)
        ensures
            final(self).profiles@ == old(self).profiles@,
            final(self).rows@ == old(self).rows@,
            final(self).fail_next_commit,
    {
        self.fail_next_commit = true;
    }

    /// The stored profiles, for reading.
    pub fn all_profiles(&self) -> (r: &Vec<Profile>)
        ensures
            r@ == self.profiles@,
    {
        &self.profiles
    }

    /// The derived rows, for reading.
    pub fn all_rows(&self) -> (r: &Vec<EligibilityRow>)
        ensures
            r@ == self.rows@,
    {
        &self.rows
    }

    /// Looks a profile up by its identity.
    pub fn get_profile(&self, id: i32) -> (r: Option<&Profile>)
        requires
            self.wf(),
        ensures
            match r {
                Some(p) => spec_has_profile(self.profiles@, id) && *p
                    == self.profiles@[spec_profile_index(self.profiles@, id)],
                None => !spec_has_profile(self.profiles@, id),
            },
    {
        match find_profile_index(&self.profiles, id) {
            Some(i) => {
                proof {
                    lemma_profile_index_unique(self.profiles@, id, i as int);
                }
                Some(&self.profiles[i])
            },
            None => None,
        }
    }
}

/// Law of rank currency across profile insertion: a new profile owns no
/// rows yet, so every stored rank stays the formula at its owner's score.
pub proof fn lemma_add_profile_keeps_ranks_current(s0: Store, s1: Store, p: Profile)
    requires
        s0.wf(),
        s0.ranks_current(),
        !spec_has_profile(s0.profiles@, p.id),
        s1.profiles@ == s0.profiles@.push(p),
        s1.rows@ == s0.rows@,
    ensures
        s1.ranks_current(),
{
    assert forall|k: int| 0 <= k < s1.rows@.len() implies {
        let row = #[trigger] s1.rows@[k];
        row.rank == spec_calc_rank(
            row.distance as int,
            s1.profiles@[spec_profile_index(s1.profiles@, row.profile_id)].profile_score as int,
        ) as i64
    } by {
        let row = s1.rows@[k];
        let pid = row.profile_id;
        assert(spec_has_profile(s0.profiles@, pid));
        let j = spec_profile_index(s0.profiles@, pid);
        assert(0 <= j < s0.profiles@.len() && s0.profiles@[j].id == pid);
        assert(s1.profiles@[j].id == pid);
        assert forall|a: int, b: int|
            0 <= a < b < s1.profiles@.len() implies s1.profiles@[a].id != s1.profiles@[b].id by {
            if b < s0.profiles@.len() {
                assert(s1.profiles@[a] == s0.profiles@[a] && s1.profiles@[b] == s0.profiles@[b]);
            } else {
                assert(s1.profiles@[b] == p);
                assert(s1.profiles@[a] == s0.profiles@[a]);
                assert(s0.profiles@[a].id != p.id);
            }
        }
        lemma_profile_index_unique(s1.profiles@, pid, j);
        assert(s1.profiles@[j] == s0.profiles@[j]);
    }
}

/// Under unique identities, `spec_profile_index` picks exactly the index
/// that holds `id`.
pub proof fn lemma_profile_index_unique(s: Seq<Profile>, id: i32, i: int)
    requires
        0 <= i < s.len(),
        s[i].id == id,
        forall|a: int, b: int| 0 <= a < b < s.len() ==> s[a].id != s[b].id,
    ensures
        spec_has_profile(s, id),
        spec_profile_index(s, id) == i,
{
    assert(spec_has_profile(s, id));
    let j = spec_profile_index(s, id);
    assert(0 <= j < s.len() && s[j].id == id);
    if i < j {
        assert(s[i].id != s[j].id);
    } else if j < i {
        assert(s[j].id != s[i].id);
    }
}

/// The index of the profile with the given identity, if any.
pub fn find_profile_index(profiles: &Vec<Profile>, id: i32) -> (r: Option<usize>)
    ensures
        match r {
            Some(i) => i < profiles@.len() && profiles@[i as int].id == id,
            None => !spec_has_profile(profiles@, id),
        },
{
    let mut i: usize = 0;
    while i < profiles.len()
        invariant
            i <= profiles@.len(),
            forall|j: int| 0 <= j < i ==> (#[trigger] profiles@[j]).id != id,
        decreases profiles@.len() - i,
    {
        if profiles[i].id == id {
            return Some(i);
        }
        i = i + 1;
    }
    None
}

} // verus!
