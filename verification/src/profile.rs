//! Profiles (service providers) and the shapes a ranked search returns.

use vstd::prelude::*;
use vstd::string::StringExecFns;

use crate::geo::Location;
use crate::scoring::{spec_calc_score, sub_score_ok};

verus! {

/// One service provider.  The composite `profile_score` is cached for read
/// efficiency; a well-formed profile keeps it consistent with the two
/// sub-scores.
#[derive(Clone, Debug)]
pub struct Profile {
    pub id: i32,
    pub first_name: String,
    pub last_name: String,
    pub street: String,
    pub house_number: String,
    pub loc: Location,
    /// Admission radius in meters.
    pub max_driving_distance: u64,
    /// Picture sub-score in millionths.
    pub profile_picture_score: i64,
    /// Description sub-score in millionths.
    pub profile_description_score: i64,
    /// Composite score in ten-millionths, always derivable from the two
    /// sub-scores.
    pub profile_score: i64,
}

impl Profile {
    pub open spec fn wf(self) -> bool {
        &&& sub_score_ok(self.profile_picture_score)
        &&& sub_score_ok(self.profile_description_score)
        &&& self.profile_score == spec_calc_score(
            self.profile_picture_score as int,
            self.profile_description_score as int,
        )
    }
}

/// A profile joined with one of its eligibility rows, as the ranked query
/// reads it.
#[derive(Clone, Debug)]
pub struct ProfileWithRank {
    pub id: i32,
    pub first_name: String,
    pub last_name: String,
    pub street: String,
    pub house_number: String,
    /// Meters, copied from the row.
    pub distance: u64,
    /// Eight-billionths, copied from the row.
    pub rank: i64,
}

/// One entry of a ranked listing, as it is handed to a caller.
#[derive(Clone, Debug)]
pub struct Craftsman {
    pub id: i32,
    pub name: String,
    /// The rank, in eight-billionths.
    pub ranking_score: i64,
    pub street: String,
    pub house_number: String,
    /// Meters.
    pub distance: u64,
}

impl ProfileWithRank {
    /// An exact copy.
    pub fn duplicate(&self) -> (r: ProfileWithRank)
        ensures
            r == *self,
    {
        ProfileWithRank {
            id: self.id,
            first_name: self.first_name.clone(),
            last_name: self.last_name.clone(),
            street: self.street.clone(),
            house_number: self.house_number.clone(),
            distance: self.distance,
            rank: self.rank,
        }
    }

    /// The listing entry for this joined row: the two name parts joined
    /// with a space, the rank and distance carried over.
    pub fn into_craftsman(self) -> (c: Craftsman)
        ensures
            c.id == self.id,
            c.name@ == self.first_name@ + " "@ + self.last_name@,
            c.ranking_score == self.rank,
            c.street == self.street,
            c.house_number == self.house_number,
            c.distance == self.distance,
    {
        let mut name = self.first_name;
        name.append(" ");
        name.append(self.last_name.as_str());
        Craftsman {
            id: self.id,
            name,
            ranking_score: self.rank,
            street: self.street,
            house_number: self.house_number,
            distance: self.distance,
        }
    }
}

} // verus!
