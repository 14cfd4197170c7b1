//! Admission and gossip core for transaction relay in a peer-to-peer node.
//!
//! An inbound relay message (a transaction plus the cycle cost its sender
//! claims) is checked against a process-wide dedup filter, submitted to the
//! local transaction pool, and — when the locally computed cost matches the
//! claimed one — rebroadcast to a bounded set of peers that do not yet know
//! it. A peer that relays an invalid transaction or misannounces its cost is
//! banned for a fixed duration.

pub mod hardfork;
pub mod ids;
pub mod known_txs;
pub mod metrics;
pub mod relayer;
pub mod tx_filter;
pub mod wire;

pub use ids::{PeerId, TxId};
pub use known_txs::KnownTxs;
pub use relayer::{BanCmd, Outcome, PoolError, RelayState, TransactionProcess};
pub use tx_filter::TxFilter;
