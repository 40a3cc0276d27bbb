//! The ranked listing for one postal code.
//!
//! A search reads the already-materialized eligibility rows: it joins the
//! rows of the requested postal code with their profiles, orders them by
//! rank descending, and returns one fixed-size page.  It never recomputes
//! geometry; correctness rests on the maintenance paths having kept the
//! rows current.  A postal code that is absent from the index yields an
//! empty page, not an error.

use vstd::prelude::*;
use vstd::string::StrSliceExecFns;

use crate::errors::ServiceError;
use crate::profile::{Craftsman, Profile, ProfileWithRank};
use crate::store::{
    find_profile_index, lemma_profile_index_unique, spec_has_profile, spec_profile_index,
    EligibilityRow, Store,
};

verus! {

broadcast use vstd::seq_lib::group_to_multiset_ensures, vstd::multiset::group_multiset_axioms;

/// Page size of a ranked listing.
pub const LIMIT: u64 = 20;

/// A ranked listing request: the postal code as it came in, and the row
/// offset of the requested page.
#[derive(Clone, Debug)]
pub struct ReqQuery {
    pub postalcode: String,
    pub offset: Option<u64>,
}

/// One page of ranked listing entries.
#[derive(Clone, Debug)]
pub struct Response {
    pub craftsmen: Vec<Craftsman>,
}

/// A decimal digit.
pub open spec fn spec_is_digit(c: char) -> bool {
    48 <= c as u32 <= 57
}

/// A non-empty string of decimal digits.
pub open spec fn spec_is_digits(s: Seq<char>) -> bool {
    s.len() > 0 && forall|i: int| 0 <= i < s.len() ==> spec_is_digit(#[trigger] s[i])
}

/// The value of a string of decimal digits.
pub open spec fn spec_digits_value(s: Seq<char>) -> int
    decreases s.len(),
{
    if s.len() == 0 {
        0
    } else {
        10 * spec_digits_value(s.drop_last()) + (s.last() as u32 - 48)
    }
}

pub open spec fn spec_pow10(n: nat) -> int
    decreases n,
{
    if n == 0 {
        1
    } else {
        10 * spec_pow10((n - 1) as nat)
    }
}

proof fn lemma_pow10_pos(n: nat)
    ensures
        spec_pow10(n) >= 1,
    decreases n,
{
    if n > 0 {
        lemma_pow10_pos((n - 1) as nat);
    }
}

proof fn lemma_pow10_mono(a: nat, b: nat)
    requires
        a <= b,
    ensures
        spec_pow10(a) <= spec_pow10(b),
    decreases b,
{
    if a < b {
        lemma_pow10_mono(a, (b - 1) as nat);
        lemma_pow10_pos((b - 1) as nat);
    }
}

/// Parses a postal code: a non-empty string of at most nine decimal
/// digits, read as a decimal number.  Anything else is rejected.
pub fn parse_postcode(s: &str) -> (r: Option<i32>)
    ensures
        match r {
            Some(v) => spec_is_digits(s@) && s@.len() <= 9 && v == spec_digits_value(s@),
            None => !(spec_is_digits(s@) && s@.len() <= 9),
        },
{
    let n = s.unicode_len();
    if n == 0 || n > 9 {
        return None;
    }
    let mut acc: i32 = 0;
    let mut i: usize = 0;
    while i < n
        invariant
            n == s@.len(),
            1 <= n <= 9,
            i <= n,
            forall|j: int| 0 <= j < i ==> spec_is_digit(#[trigger] s@[j]),
            acc == spec_digits_value(s@.subrange(0, i as int)),
            0 <= acc < spec_pow10(i as nat),
        decreases n - i,
    {
        let c = s.get_char(i);
        let d = c as u32;
        if d < 48 || d > 57 {
            proof {
                assert(!spec_is_digit(s@[i as int]));
            }
            return None;
        }
        proof {
            assert(s@.subrange(0, i + 1 as int).drop_last() =~= s@.subrange(0, i as int));
            assert(s@.subrange(0, i + 1 as int).last() == s@[i as int]);
            lemma_pow10_mono(i as nat, 8);
            assert(spec_pow10(8) == 100_000_000) by {
                reveal_with_fuel(spec_pow10, 9);
            }
        }
        acc = acc * 10 + ((d - 48) as i32);
        i = i + 1;
    }
    proof {
        assert(s@.subrange(0, n as int) =~= s@);
    }
    Some(acc)
}

/// The joined row a profile contributes for one eligibility row.
pub open spec fn spec_pwr(p: Profile, row: EligibilityRow) -> ProfileWithRank {
    ProfileWithRank {
        id: p.id,
        first_name: p.first_name,
        last_name: p.last_name,
        street: p.street,
        house_number: p.house_number,
        distance: row.distance,
        rank: row.rank,
    }
}

/// The join of the eligibility rows of one postal code with their
/// profiles, in stored row order.
pub open spec fn spec_matches(
    profiles: Seq<Profile>,
    rows: Seq<EligibilityRow>,
    postcode: i32,
) -> Seq<ProfileWithRank>
    decreases rows.len(),
{
    if rows.len() == 0 {
        Seq::empty()
    } else {
        let rest = spec_matches(profiles, rows.drop_last(), postcode);
        let row = rows.last();
        if row.postcode == postcode && spec_has_profile(profiles, row.profile_id) {
            rest.push(spec_pwr(profiles[spec_profile_index(profiles, row.profile_id)], row))
        } else {
            rest
        }
    }
}

/// Ordered by rank, highest first.
pub open spec fn spec_sorted_desc(s: Seq<ProfileWithRank>) -> bool {
    forall|i: int, j: int| 0 <= i < j < s.len() ==> s[i].rank >= s[j].rank
}

/// How many entries the page starting at `offset` holds: at most `LIMIT`,
/// at most what is left past the offset.
pub open spec fn spec_page_len(n: int, offset: u64) -> int {
    if offset >= n {
        0
    } else if n - offset > LIMIT {
        LIMIT as int
    } else {
        n - offset
    }
}

/// The listing entry `c` presents the joined row `p`: same identity, the
/// two name parts joined with a space, and rank and distance carried
/// over.
pub open spec fn spec_is_craftsman_of(c: Craftsman, p: ProfileWithRank) -> bool {
    &&& c.id == p.id
    &&& c.name@ == p.first_name@ + " "@ + p.last_name@
    &&& c.ranking_score == p.rank
    &&& c.street == p.street
    &&& c.house_number == p.house_number
    &&& c.distance == p.distance
}

/// What a ranked listing returns: one page of some rank-descending
/// ordering of the joined rows of the postal code.  Rows of equal rank
/// carry no further order.
pub open spec fn spec_query_outcome(
    store: Store,
    postcode: i32,
    offset: u64,
    out: Seq<Craftsman>,
) -> bool {
    exists|sorted: Seq<ProfileWithRank>|
        {
            &&& #[trigger] sorted.to_multiset() == spec_matches(
                store.profiles@,
                store.rows@,
                postcode,
            ).to_multiset()
            &&& spec_sorted_desc(sorted)
            &&& out.len() == spec_page_len(sorted.len() as int, offset)
            &&& forall|i: int|
                0 <= i < out.len() ==> spec_is_craftsman_of(#[trigger] out[i], sorted[offset + i])
        }
}

/// Collects the joined rows of one postal code, in stored row order.
fn collect_matches(store: &Store, postcode: i32) -> (r: Vec<ProfileWithRank>)
    requires
        store.wf(),
    ensures
        r@ == spec_matches(store.profiles@, store.rows@, postcode),
{
    let mut out: Vec<ProfileWithRank> = Vec::new();
    let n = store.rows.len();
    let mut k: usize = 0;
    while k < n
        invariant
            k <= n,
            n == store.rows@.len(),
            store.wf(),
            out@ == spec_matches(store.profiles@, store.rows@.subrange(0, k as int), postcode),
        decreases n - k,
    {
        let row = store.rows[k];
        proof {
            assert(store.rows@.subrange(0, k + 1 as int).drop_last() =~= store.rows@.subrange(
                0,
                k as int,
            ));
            assert(store.rows@.subrange(0, k + 1 as int).last() == store.rows@[k as int]);
        }
        if row.postcode == postcode {
            match find_profile_index(&store.profiles, row.profile_id) {
                Some(j) => {
                    proof {
                        lemma_profile_index_unique(store.profiles@, row.profile_id, j as int);
                    }
                    let p = &store.profiles[j];
                    out.push(
                        ProfileWithRank {
                            id: p.id,
                            first_name: p.first_name.clone(),
                            last_name: p.last_name.clone(),
                            street: p.street.clone(),
                            house_number: p.house_number.clone(),
                            distance: row.distance,
                            rank: row.rank,
                        },
                    );
                },
                None => {},
            }
        }
        k = k + 1;
    }
    proof {
        assert(store.rows@.subrange(0, n as int) =~= store.rows@);
    }
    out
}

/// The index of a highest-ranked entry.
fn index_of_max_rank(v: &Vec<ProfileWithRank>) -> (r: usize)
    requires
        v@.len() > 0,
    ensures
        r < v@.len(),
        forall|k: int| 0 <= k < v@.len() ==> (#[trigger] v@[k]).rank <= v@[r as int].rank,
{
    let mut best: usize = 0;
    let mut i: usize = 1;
    while i < v.len()
        invariant
            best < i <= v@.len(),
            forall|k: int| 0 <= k < i ==> (#[trigger] v@[k]).rank <= v@[best as int].rank,
        decreases v@.len() - i,
    {
        if v[i].rank > v[best].rank {
            best = i;
        }
        i = i + 1;
    }
    best
}

/// Sorts by rank, highest first, keeping exactly the same entries.  Equal
/// ranks keep no particular order.
fn sort_by_rank_desc(v: Vec<ProfileWithRank>) -> (r: Vec<ProfileWithRank>)
    ensures
        spec_sorted_desc(r@),
        r@.to_multiset() == v@.to_multiset(),
        r@.len() == v@.len(),
{
    let mut src = v;
    let mut out: Vec<ProfileWithRank> = Vec::new();
    let ghost orig = src@;
    while src.len() > 0
        invariant
            out@.to_multiset().add(src@.to_multiset()) == orig.to_multiset(),
            out@.len() + src@.len() == orig.len(),
            spec_sorted_desc(out@),
            forall|a: int, b: int|
                0 <= a < out@.len() && 0 <= b < src@.len() ==> out@[a].rank >= src@[b].rank,
        decreases src@.len(),
    {
        let ghost src0 = src@;
        let ghost out0 = out@;
        let m = index_of_max_rank(&src);
        let x = src.remove(m);
        out.push(x);
        proof {
            assert(src@ == src0.remove(m as int));
            assert(src@.to_multiset() =~= src0.to_multiset().remove(x));
            assert(out@.to_multiset() =~= out0.to_multiset().insert(x));
            assert(src0.to_multiset().count(x) > 0) by {
                assert(src0.contains(x));
            }
            assert(out@.to_multiset().add(src@.to_multiset()) =~= out0.to_multiset().add(
                src0.to_multiset(),
            ));
            // the extracted maximum keeps the output ordered and above
            // everything that remains
            assert forall|a: int, b: int|
                0 <= a < out@.len() && 0 <= b < src@.len() implies out@[a].rank
                >= src@[b].rank by {
                if a < out0.len() {
                    assert(out@[a] == out0[a]);
                }
                if b < m {
                    assert(src@[b] == src0[b]);
                } else {
                    assert(src@[b] == src0[b + 1]);
                }
            }
        }
    }
    out
}

/// Reads one page of the ranked listing for a postal code: the joined
/// rows ordered by rank descending, `LIMIT` entries starting at `offset`.
pub fn query(store: &Store, postcode: i32, offset: u64) -> (r: Vec<Craftsman>)
    requires
        store.wf(),
    ensures
        spec_query_outcome(*store, postcode, offset, r@),
{
    let matches = collect_matches(store, postcode);
    let sorted = sort_by_rank_desc(matches);
    let ghost sorted_view = sorted@;
    let total = sorted.len();
    let start: usize = if offset >= total as u64 {
        total
    } else {
        offset as usize
    };
    let remaining = total - start;
    let take: usize = if remaining > 20 {
        20
    } else {
        remaining
    };
    let mut out: Vec<Craftsman> = Vec::new();
    let end = start + take;
    let mut idx = start;
    while idx < end
        invariant
            sorted@ == sorted_view,
            end <= sorted@.len(),
            start <= idx <= end,
            out@.len() == idx - start,
            forall|i: int|
                0 <= i < out@.len() ==> spec_is_craftsman_of(
                    #[trigger] out@[i],
                    sorted_view[start + i],
                ),
        decreases end - idx,
    {
        let c = sorted[idx].duplicate().into_craftsman();
        out.push(c);
        idx = idx + 1;
    }
    proof {
        assert(out@.len() == spec_page_len(sorted_view.len() as int, offset));
        assert forall|i: int| 0 <= i < out@.len() implies spec_is_craftsman_of(
            #[trigger] out@[i],
            sorted_view[offset + i],
        ) by {
            assert(start == offset);
            assert(spec_is_craftsman_of(out@[i], sorted_view[start + i]));
        }
        assert(spec_query_outcome(*store, postcode, offset, out@)) by {
            assert(sorted_view.to_multiset() == spec_matches(
                store.profiles@,
                store.rows@,
                postcode,
            ).to_multiset());
        }
    }
    out
}

/// Serves one ranked listing request: parse the postal code, read the
/// page.  An unparsable postal code is invalid input; an unknown one
/// simply yields an empty page.
pub fn handler(store: &Store, req: &ReqQuery) -> (r: Result<Response, ServiceError>)
    requires
        store.wf(),
    ensures
        match r {
            Ok(resp) => {
                &&& spec_is_digits(req.postalcode@)
                &&& req.postalcode@.len() <= 9
                &&& spec_query_outcome(
                    *store,
                    spec_digits_value(req.postalcode@) as i32,
                    match req.offset {
                        Some(o) => o,
                        None => 0,
                    },
                    resp.craftsmen@,
                )
            },
            Err(e) => e == ServiceError::InvalidInput && !(spec_is_digits(req.postalcode@)
                && req.postalcode@.len() <= 9),
        },
{
    let postcode = match parse_postcode(req.postalcode.as_str()) {
        Some(p) => p,
        None => {
            return Err(ServiceError::InvalidInput);
        },
    };
    let offset = match req.offset {
        Some(o) => o,
        None => 0,
    };
    Ok(Response { craftsmen: query(store, postcode, offset) })
}

} // verus!
