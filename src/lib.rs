//! Continuous-vesting payroll backed by a per-asset treasury ledger.
//!
//! `vault` keeps, per asset, the funds held and the funds promised to streams,
//! and never lets the promises exceed the funds. `stream` vests payments
//! linearly between an employer and a worker, admitting each new stream only
//! when the ledger can back it. `gateway` and `registry` hold the agent
//! permissions and the worker directory that sit beside them.

use vstd::prelude::*;

pub mod error;
pub mod gateway;
pub mod registry;
pub mod stream;
pub mod vault;

pub use error::{QuipayError, QuipayHelpers, QuipayResult};
pub use gateway::{Agent, AgentView, AutomationGateway, GatewayView, Permission};
pub use registry::{RegistryView, WorkerProfile, WorkforceRegistryContract};
pub use stream::{PayrollStream, Stream, StreamStatus, StreamsView, WithdrawResult, DEFAULT_RETENTION_SECS};
pub use vault::{LedgerOp, PayrollVault, VaultView, VersionInfo};

verus! {

/// A principal or asset identifier, as handed in by the host.
pub type Address = u64;

} // verus!
