//! Discovery of the container images that the services of a fleet of
//! container-orchestration clusters run.
//!
//! The control plane is reached by the caller; this crate holds the decisions:
//! which image a task definition yields, which services of a batch can be
//! resolved, how cursor-paginated listings accumulate, which clusters a filter
//! keeps, and how results are joined, failing as a whole on the first error.

pub mod filter;
pub mod inventory;
pub mod model;
pub mod paginate;
pub mod resolve;
