//! Monitoring of mirror servers: which repositories have fallen out of sync,
//! and which receive no traffic according to the access logs.
//!
//! `status` holds the records a server reports, `staleness` judges them
//! against a threshold, `dates` and `window` name the access-log indices a
//! traffic query covers, and `traffic` pairs the query's buckets with the
//! candidate repositories.

use vstd::prelude::*;

pub mod dates;
pub mod report;
pub mod staleness;
pub mod status;
pub mod traffic;
pub mod window;

pub use dates::{month_dates, month_length, recent_dates, CivilDate};
pub use report::server_report;
pub use staleness::{days_between, expired_repos_at, get_expire_days, get_expired_repos};
pub use status::{sort_by_recency, status_url, TunasyncStatus, USER_AGENT};
pub use traffic::{
    candidate_repos, contains_name, cross_reference, dedup_names, sizes_of, unused_repos,
    TrafficReport,
};
pub use window::{index_name, index_names, index_names_now, local_date, window_is_valid, TimeWindow};

verus! {

/// The ways a monitoring run can fail.
#[derive(Clone, Copy, Debug, PartialEq, Eq, Structural)]
pub enum MonitorError {
    /// A status request could not be completed.
    Transport,
    /// A status response was not the expected list of records.
    Decode,
    /// The search request could not be sent, or the backend failed it.
    Query,
    /// The search response lacked the expected aggregation.
    ResponseShape,
}

} // verus!
