//! The verified core of mpedb, an embedded, multi-process database: codecs,
//! record formats, routing and ordering rules, and the decision procedures
//! that the engine-facing shell drives.

pub mod blob_source;
pub mod bytes;
pub mod ddl;
pub mod detached;
pub mod error;
pub mod execution;
pub mod fnv;
pub mod retl_codec;
pub mod hash;
pub mod host_fn;
pub mod model;
pub mod multifile;
pub mod opdef;
pub mod params;
pub mod plan;
pub mod policy_lint;
pub mod policy_store;
pub mod registry;
pub mod ring_exec;
pub mod risk;
pub mod risk_laws;
pub mod rretl;
pub mod rretl_map;
pub mod rretl_map_run;
pub mod rretl_map_stream;
pub mod rretl_store;
pub mod session;
pub mod shard;
pub mod sort;
pub mod spellfn;
pub mod sys_record;
pub mod text;
pub mod utf8;
pub mod value;
pub mod write_session;

pub use blob_source::ReaderBlobSource;
pub use detached::DetachedPlan;
pub use params::IntoValue;
pub use risk::{estimate_plan_risk, RiskEstimate};
pub use session::{resolve_params, Session};
pub use shard::ExecResult;
pub use value::{ColumnType, Float, Value, ValueModel};
pub use error::{Error, Fault, PlanHash, Result};
