//! The source's configuration, and the plan that bootstrap derives from it.
use vstd::prelude::*;
use crate::handshake::{MAINNET_MAGIC, VersionTable, effective_magic, n2c_versions, versions_of};
use crate::intersect::{
    ConfigError,
    IntersectArg,
    PointArg,
    point_view,
    resolve_intersection,
    resolve_spec,
};
use crate::retry::RetryPolicy;
use crate::rollback::Point;

verus! {

/// The channel the version handshake runs on.
pub const HANDSHAKE_CHANNEL: u16 = 0;

/// The channel chain-sync runs on.
pub const CHAINSYNC_CHANNEL: u16 = 5;

/// How the node is reached.
#[derive(Clone, Copy, Debug, PartialEq, Eq, Structural)]
pub enum BearerKind {
    Tcp,
    Unix,
}

/// The node's address: a host and port for TCP, a socket path for Unix.
#[derive(Debug, Clone, PartialEq, Eq)]
pub struct AddressArg(pub BearerKind, pub String);

/// Chain parameters that older settings gave per source.
#[derive(Debug, Clone, PartialEq, Eq)]
pub struct ChainWellKnownInfo {
    pub byron_epoch_length: u32,
    pub byron_slot_length: u32,
    pub byron_known_slot: u64,
    pub byron_known_hash: String,
    pub byron_known_time: u64,
    pub shelley_epoch_length: u32,
    pub shelley_slot_length: u32,
    pub shelley_known_slot: u64,
    pub shelley_known_hash: String,
    pub shelley_known_time: u64,
    pub address_hrp: String,
    pub adahandle_policy: String,
}

/// Settings of a node-to-client source, fixed for the life of the process.
#[derive(Debug, Clone, PartialEq, Eq)]
pub struct Config {
    pub address: AddressArg,
    /// Network magic; the main network's when absent.
    pub magic: Option<u64>,
    /// Deprecated single start point; `intersect` takes precedence.
    pub since: Option<PointArg>,
    pub intersect: Option<IntersectArg>,
    /// Deprecated: chain information is now pipeline-wide. Still accepted so
    /// that older settings load; bootstrap does not read it.
    pub well_known: Option<ChainWellKnownInfo>,
    /// Min block depth (# confirmations) required before a block is passed on.
    ///
    /// A high value (eg: ~6) lowers the chance of seeing rollback events, at
    /// the cost of a delay before the first event.
    pub min_depth: usize,
    /// Reconnect policy; when absent a single attempt is made.
    pub retry_policy: Option<RetryPolicy>,
}

/// Everything bootstrap needs to know before it touches the network.
pub struct BootstrapPlan {
    pub magic: u64,
    /// Channels to open: handshake first, then chain-sync.
    pub channels: Vec<u16>,
    /// The versions to propose in the handshake.
    pub versions: VersionTable,
    /// Intersection candidates, most preferred first; empty means the tip.
    pub start: Vec<Point>,
    pub min_depth: usize,
    pub retry_policy: Option<RetryPolicy>,
}

impl Config {
    /// Normalises the configuration into a bootstrap plan. Fails only when the
    /// setting that decides the start point holds a malformed point.
    pub fn plan(&self) -> (r: Result<BootstrapPlan, ConfigError>)
        ensures
            resolve_spec(self.intersect, self.since) is None <==> r is Err,
            r matches Err(e) ==> e == ConfigError::MalformedPoint,
            r matches Ok(p) ==> {
                &&& p.magic == match self.magic {
                    Some(m) => m,
                    None => MAINNET_MAGIC,
                }
                &&& p.channels@ == seq![HANDSHAKE_CHANNEL, CHAINSYNC_CHANNEL]
                &&& p.versions.wf()
                &&& versions_of(p.versions@).to_set() == n2c_versions()
                &&& forall|i: int|
                    0 <= i < p.versions@.len() ==> (#[trigger] p.versions@[i]).1 == p.magic
                &&& resolve_spec(self.intersect, self.since) == Some(
                    p.start@.map_values(|q: Point| point_view(q)),
                )
                &&& p.min_depth == self.min_depth
                &&& p.retry_policy == self.retry_policy
            },
    {
        let start = match resolve_intersection(&self.intersect, &self.since) {
            Ok(s) => s,
            Err(e) => {
                return Err(e);
            },
        };
        let magic = effective_magic(self.magic);
        let versions = VersionTable::client_versions(magic);
        let channels = vec![HANDSHAKE_CHANNEL, CHAINSYNC_CHANNEL];
        Ok(
            BootstrapPlan {
                magic,
                channels,
                versions,
                start,
                min_depth: self.min_depth,
                retry_policy: self.retry_policy,
            },
        )
    }
}

} // verus!
