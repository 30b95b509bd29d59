//! The registry of installed applications: records, granted capabilities,
//! instances and the audit trail.
//!
//! The registry itself is a database; here stands what its rows mean and what
//! every operation makes of them.
pub mod call_laws;
pub mod model;
pub mod queries;
pub mod query_laws;
pub mod rows;
pub mod schema;
pub mod tx;

pub use model::{
    AppRecord, AuditEvent, CapabilitySet, Filter, InstallSource, InstanceRecord, Outcome, UnixMs,
};
pub use schema::SCHEMA_VERSION;
