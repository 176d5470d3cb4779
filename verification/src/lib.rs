//! Finds a user's open-source footprint from the decoded responses of a code host's
//! API: the repositories that merged pull requests of the user went to, and the
//! repositories of the user that are still active.
//!
//! The library decides; the caller performs the requests. [`contributions`] holds the
//! paginated fetch as a state that takes in one response after the other, [`owned`]
//! the selection from the single page of owned repositories, [`filter`] the policy
//! that both apply, [`aggregate`] the merging of contribution records into one entry
//! for each repository, [`rank`] the two orders in which the lists are shown, and
//! [`report`] the labels of the entries. Every function is verified against the
//! contract that it states.

pub mod aggregate;
pub mod contributions;
pub mod cutoff;
pub mod filter;
pub mod labels;
pub mod model;
pub mod order;
pub mod owned;
pub mod queries;
pub mod rank;
pub mod report;
pub mod text;
pub mod year;
