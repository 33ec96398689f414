//! Statistics aggregation: five independent reads are joined into one
//! response, and a failed read is replaced by a zero default instead of
//! failing the whole response. Availability over precision is the contract
//! here, not an accident.

use vstd::prelude::*;

verus! {

/// The aggregate artwork statistics of one response.
#[derive(Clone, Copy, PartialEq, Eq, Structural, Debug)]
pub struct ArtworkStatistics {
    pub total: u64,
    pub sfw: u64,
    pub nsfw: u64,
    pub r18: u64,
    pub latest_upload_time: i64,
}

/// The value of one read, or its zero default when the read failed.
pub open spec fn or_zero_u64(o: Option<u64>) -> u64 {
    match o {
        Some(v) => v,
        None => 0,
    }
}

/// The timestamp of one read, or its zero default when the read failed.
pub open spec fn or_zero_i64(o: Option<i64>) -> i64 {
    match o {
        Some(v) => v,
        None => 0,
    }
}

/// Join the five reads of a statistics request. Each argument is the
/// outcome of one independent read (`None` when that read failed); each
/// failed field is defaulted to zero while the others keep their value, so
/// the aggregate always succeeds.
pub fn aggregate_statistics(
    total: Option<u64>,
    latest: Option<i64>,
    sfw: Option<u64>,
    nsfw: Option<u64>,
    r18: Option<u64>,
) -> (r: ArtworkStatistics)
    ensures
        r.total == or_zero_u64(total),
        r.latest_upload_time == or_zero_i64(latest),
        r.sfw == or_zero_u64(sfw),
        r.nsfw == or_zero_u64(nsfw),
        r.r18 == or_zero_u64(r18),
{
    ArtworkStatistics {
        total: match total {
            Some(v) => v,
            None => 0,
        },
        sfw: match sfw {
            Some(v) => v,
            None => 0,
        },
        nsfw: match nsfw {
            Some(v) => v,
            None => 0,
        },
        r18: match r18 {
            Some(v) => v,
            None => 0,
        },
        latest_upload_time: match latest {
            Some(v) => v,
            None => 0,
        },
    }
}

} // verus!
