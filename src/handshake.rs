//! The version handshake, run once over channel 0 before chain-sync starts.
//!
//! The client proposes a table of protocol versions, each with the network
//! magic; the node accepts one of them or refuses. This module builds the
//! proposal and judges the node's reply.
use vstd::prelude::*;

verus! {

/// The network magic of the main network.
pub const MAINNET_MAGIC: u64 = 764824073;

/// The node-to-client protocol versions that the client proposes.
pub open spec fn n2c_versions() -> Set<u64> {
    set![1, 32770, 32771, 32772, 32773, 32774, 32775, 32776, 32777, 32778, 32779, 32780]
}

/// Relies on pallas's `VersionTable::v1_and_above`: its table has one entry
/// for each node-to-client version from the first one on. Only the version
/// numbers are taken out of it, in the order its map yields them.
#[verifier::external_body]
fn proposed_version_numbers(magic: u64) -> (r: Vec<u64>)
    ensures
        r@.no_duplicates(),
        r@.to_set() == n2c_versions(),
{
    pallas::network::miniprotocols::handshake::n2c::VersionTable::v1_and_above(magic)
        .values
        .keys()
        .copied()
        .collect()
}

/// Relies on pallas's `MAINNET_MAGIC` constant, the magic of the main network.
#[verifier::external_body]
fn mainnet_magic() -> (r: u64)
    ensures
        r == MAINNET_MAGIC,
{
    pallas::network::miniprotocols::MAINNET_MAGIC
}

/// The magic to use: the configured one, else the main network's.
pub fn effective_magic(configured: Option<u64>) -> (r: u64)
    ensures
        r == match configured {
            Some(m) => m,
            None => MAINNET_MAGIC,
        },
{
    match configured {
        Some(m) => m,
        None => mainnet_magic(),
    }
}

/// Protocol versions offered to the node, each with its network magic.
pub struct VersionTable {
    entries: Vec<(u64, u64)>,
}

impl View for VersionTable {
    type V = Seq<(u64, u64)>;

    closed spec fn view(&self) -> Seq<(u64, u64)> {
        self.entries@
    }
}

/// Versions of a table, in order.
pub open spec fn versions_of(entries: Seq<(u64, u64)>) -> Seq<u64> {
    entries.map_values(|e: (u64, u64)| e.0)
}

impl VersionTable {
    /// Not empty, and no version twice.
    pub open spec fn wf(&self) -> bool {
        &&& self@.len() > 0
        &&& versions_of(self@).no_duplicates()
    }

    /// The magic offered with `version`, if it is offered.
    pub open spec fn magic_for(&self, version: u64) -> Option<u64> {
        if exists|i: int| 0 <= i < self@.len() && #[trigger] self@[i].0 == version {
            let i = choose|i: int| 0 <= i < self@.len() && #[trigger] self@[i].0 == version;
            Some(self@[i].1)
        } else {
            None
        }
    }

    /// Every node-to-client version from the first one on, each with `magic`.
    pub fn client_versions(magic: u64) -> (r: VersionTable)
        ensures
            r.wf(),
            versions_of(r@).to_set() == n2c_versions(),
            forall|i: int| 0 <= i < r@.len() ==> (#[trigger] r@[i]).1 == magic,
    {
        let numbers = proposed_version_numbers(magic);
        let mut entries: Vec<(u64, u64)> = Vec::new();
        let mut i: usize = 0;
        while i < numbers.len()
            invariant
                i <= numbers@.len(),
                entries@.len() == i,
                forall|j: int| 0 <= j < i ==> (#[trigger] entries@[j]) == (numbers@[j], magic),
            decreases numbers@.len() - i,
        {
            entries.push((numbers[i], magic));
            i = i + 1;
        }
        let r = VersionTable { entries };
        proof {
            assert(versions_of(r@) == numbers@);
            assert(n2c_versions().contains(1));
            assert(numbers@.contains(1));
        }
        r
    }

    /// The versions offered, in order.
    pub fn versions(&self) -> (r: Vec<u64>)
        ensures
            r@ == versions_of(self@),
    {
        let mut out: Vec<u64> = Vec::new();
        let mut i: usize = 0;
        while i < self.entries.len()
            invariant
                i <= self@.len(),
                out@ == versions_of(self@).take(i as int),
            decreases self@.len() - i,
        {
            out.push(self.entries[i].0);
            proof {
                assert(versions_of(self@).take(i + 1) == versions_of(self@).take(i as int).push(
                    self@[i as int].0,
                ));
            }
            i = i + 1;
        }
        proof {
            assert(versions_of(self@).take(self@.len() as int) == versions_of(self@));
        }
        out
    }

    /// The magic offered with `version`, if it is offered.
    pub fn lookup(&self, version: u64) -> (r: Option<u64>)
        requires
            self.wf(),
        ensures
            r == self.magic_for(version),
    {
        let mut i: usize = 0;
        while i < self.entries.len()
            invariant
                i <= self@.len(),
                self.wf(),
                forall|j: int| 0 <= j < i ==> (#[trigger] self@[j]).0 != version,
            decreases self@.len() - i,
        {
            if self.entries[i].0 == version {
                proof {
                    assert forall|k: int| 0 <= k < self@.len() && #[trigger] self@[k].0 == version
                        implies k == i by {
                        assert(versions_of(self@)[k] == self@[k].0);
                        assert(versions_of(self@)[i as int] == self@[i as int].0);
                        if k > i {
                            assert(versions_of(self@)[i as int] != versions_of(self@)[k]);
                        }
                    }
                    assert(self@[i as int].0 == version);
                }
                return Some(self.entries[i].1);
            }
            i = i + 1;
        }
        None
    }
}

/// Why the node refused the proposal.
#[derive(Debug, PartialEq, Eq)]
pub enum RefuseReason {
    /// None of the proposed versions is supported; the node's own versions.
    VersionMismatch(Vec<u64>),
    /// The node could not decode the parameters of this version.
    HandshakeDecodeError(u64, String),
    /// The node refused this version for the given reason.
    Refused(u64, String),
}

/// The node's reply to the proposal.
#[derive(Debug, PartialEq, Eq)]
pub enum HandshakeReply {
    /// The node accepts this version with this magic.
    Accept(u64, u64),
    Refuse(RefuseReason),
}

#[derive(Debug, PartialEq, Eq, Structural)]
pub enum HandshakeError {
    /// The node supports none of the proposed versions.
    VersionMismatch,
    /// The node refused the proposal or could not decode it.
    Refused,
}

/// Judges the node's reply: an acceptance gives the agreed version and magic,
/// a refusal the reason there is none.
pub fn handshake_outcome(reply: HandshakeReply) -> (r: Result<(u64, u64), HandshakeError>)
    ensures
        r == match reply {
            HandshakeReply::Accept(v, m) => Ok((v, m)),
            HandshakeReply::Refuse(RefuseReason::VersionMismatch(_)) => Err(
                HandshakeError::VersionMismatch,
            ),
            HandshakeReply::Refuse(_) => Err(HandshakeError::Refused),
        },
{
    match reply {
        HandshakeReply::Accept(v, m) => Ok((v, m)),
        HandshakeReply::Refuse(RefuseReason::VersionMismatch(_)) => Err(
            HandshakeError::VersionMismatch,
        ),
        HandshakeReply::Refuse(_) => Err(HandshakeError::Refused),
    }
}

} // verus!
