//! Splitting one connection into channels keyed by protocol id.
//!
//! Inbound segments are routed to the queue of the channel their protocol id
//! selects; outbound messages are cut into whole segments, so that segments
//! of different channels never interleave.
//!
//! The runner in `app/` does not use this module: it multiplexes through
//! pallas's plexer. These are the routing rules for callers that hold the
//! byte stream themselves.
use vstd::prelude::*;
use crate::framer::{
    DIRECTION_BIT,
    MAX_PAYLOAD_LEN,
    Segment,
    channel_of,
    encode_segment,
    segment_bytes,
};

verus! {

#[derive(Debug, PartialEq, Eq, Structural)]
pub enum MuxError {
    /// A segment arrived for a channel that nobody uses: a protocol violation.
    UnknownProtocol(u16),
    /// The channel already has its consumer.
    ChannelInUse(u16),
    /// A channel id must fit in 15 bits.
    InvalidChannel(u16),
}

/// Inbound side of the multiplexer: one byte queue per channel in use.
pub struct Demuxer {
    ids: Vec<u16>,
    queues: Vec<Vec<u8>>,
}

impl Demuxer {
    /// Channels in use, in the order they were taken.
    pub closed spec fn ids_spec(&self) -> Seq<u16> {
        self.ids@
    }

    /// Bytes received and not yet taken, for each channel of `ids_spec`.
    pub closed spec fn queues_spec(&self) -> Seq<Seq<u8>> {
        self.queues@.map_values(|q: Vec<u8>| q@)
    }

    pub closed spec fn wf(&self) -> bool {
        &&& self.ids@.len() == self.queues@.len()
        &&& self.ids@.no_duplicates()
        &&& forall|i: int| 0 <= i < self.ids@.len() ==> #[trigger] self.ids@[i] < DIRECTION_BIT
    }

    pub fn new() -> (r: Demuxer)
        ensures
            r.wf(),
            r.ids_spec() == Seq::<u16>::empty(),
            r.queues_spec() == Seq::<Seq<u8>>::empty(),
    {
        let r = Demuxer { ids: Vec::new(), queues: Vec::new() };
        proof {
            assert(r.queues_spec() =~= Seq::<Seq<u8>>::empty());
        }
        r
    }

    fn find(&self, id: u16) -> (r: Option<usize>)
        requires
            self.wf(),
        ensures
            r is None <==> !self.ids_spec().contains(id),
            r matches Some(k) ==> k < self.ids_spec().len() && self.ids_spec()[k as int] == id,
    {
        let mut i: usize = 0;
        while i < self.ids.len()
            invariant
                i <= self.ids@.len(),
                forall|j: int| 0 <= j < i ==> self.ids@[j] != id,
            decreases self.ids@.len() - i,
        {
            if self.ids[i] == id {
                return Some(i);
            }
            i = i + 1;
        }
        None
    }

    /// Takes channel `id` for one consumer.
    pub fn use_channel(&mut self, id: u16) -> (r: Result<(), MuxError>)
        requires
            old(self).wf(),
        ensures
            final(self).wf(),
            id >= DIRECTION_BIT ==> r == Err::<(), MuxError>(MuxError::InvalidChannel(id))
                && final(self).ids_spec() == old(self).ids_spec()
                && final(self).queues_spec() == old(self).queues_spec(),
            id < DIRECTION_BIT && old(self).ids_spec().contains(id) ==> r == Err::<(), MuxError>(
                MuxError::ChannelInUse(id),
            ) && final(self).ids_spec() == old(self).ids_spec() && final(self).queues_spec()
                == old(self).queues_spec(),
            id < DIRECTION_BIT && !old(self).ids_spec().contains(id) ==> r is Ok
                && final(self).ids_spec() == old(self).ids_spec().push(id)
                && final(self).queues_spec() == old(self).queues_spec().push(Seq::empty()),
    {
        if id >= DIRECTION_BIT {
            return Err(MuxError::InvalidChannel(id));
        }
        if self.find(id).is_some() {
            return Err(MuxError::ChannelInUse(id));
        }
        let ghost before = self.queues_spec();
        self.ids.push(id);
        self.queues.push(Vec::new());
        proof {
            assert(self.queues_spec() =~= before.push(Seq::empty()));
            assert forall|i: int, j: int| 0 <= i < j < self.ids@.len() implies self.ids@[i]
                != self.ids@[j] by {
                if j == self.ids@.len() - 1 {
                    assert(old(self).ids@.contains(self.ids@[i]) || i == j);
                }
            }
        }
        Ok(())
    }

    /// Routes one inbound segment to the queue of the channel it selects.
    pub fn deliver(&mut self, seg: Segment) -> (r: Result<(), MuxError>)
        requires
            old(self).wf(),
        ensures
            final(self).wf(),
            final(self).ids_spec() == old(self).ids_spec(),
            !old(self).ids_spec().contains(channel_of(seg.protocol_id)) ==> r == Err::<
                (),
                MuxError,
            >(MuxError::UnknownProtocol(seg.protocol_id)) && final(self).queues_spec() == old(
                self,
            ).queues_spec(),
            old(self).ids_spec().contains(channel_of(seg.protocol_id)) ==> r is Ok && exists|k: int|
                0 <= k < old(self).ids_spec().len() && old(self).ids_spec()[k] == channel_of(
                    seg.protocol_id,
                ) && final(self).queues_spec() == old(self).queues_spec().update(
                    k,
                    old(self).queues_spec()[k] + seg.payload@,
                ),
    {
        let ch = seg.protocol_id & 0x7fffu16;
        match self.find(ch) {
            None => Err(MuxError::UnknownProtocol(seg.protocol_id)),
            Some(k) => {
                let ghost before = self.queues_spec();
                let mut q: Vec<u8> = Vec::new();
                self.queues.set_and_swap(k, &mut q);
                let ghost qv = q@;
                let mut i: usize = 0;
                while i < seg.payload.len()
                    invariant
                        i <= seg.payload@.len(),
                        q@ == qv + seg.payload@.subrange(0, i as int),
                    decreases seg.payload@.len() - i,
                {
                    q.push(seg.payload[i]);
                    proof {
                        assert(seg.payload@.subrange(0, i + 1) == seg.payload@.subrange(
                            0,
                            i as int,
                        ).push(seg.payload@[i as int]));
                    }
                    i = i + 1;
                }
                self.queues.set(k, q);
                proof {
                    assert(seg.payload@.subrange(0, seg.payload@.len() as int) == seg.payload@);
                    assert(self.queues_spec() =~= before.update(k as int, before[k as int] + seg.payload@));
                }
                Ok(())
            },
        }
    }

    /// Takes every byte received so far on channel `id`, or `None` when the
    /// channel is not in use.
    pub fn take_inbound(&mut self, id: u16) -> (r: Option<Vec<u8>>)
        requires
            old(self).wf(),
        ensures
            final(self).wf(),
            final(self).ids_spec() == old(self).ids_spec(),
            !old(self).ids_spec().contains(id) ==> r is None && final(self).queues_spec() == old(
                self,
            ).queues_spec(),
            old(self).ids_spec().contains(id) ==> exists|k: int|
                0 <= k < old(self).ids_spec().len() && old(self).ids_spec()[k] == id && r is Some
                    && r->Some_0@ == old(self).queues_spec()[k] && final(self).queues_spec() == old(
                    self,
                ).queues_spec().update(k, Seq::empty()),
    {
        match self.find(id) {
            None => None,
            Some(k) => {
                let ghost before = self.queues_spec();
                let mut q: Vec<u8> = Vec::new();
                self.queues.set_and_swap(k, &mut q);
                proof {
                    assert(self.queues_spec() =~= before.update(k as int, Seq::empty()));
                }
                Some(q)
            },
        }
    }
}

/// The `k`-th piece of a message cut into pieces of at most one segment's payload.
pub open spec fn chunk(msg: Seq<u8>, k: int) -> Seq<u8> {
    let start = k * MAX_PAYLOAD_LEN;
    let end = if start + MAX_PAYLOAD_LEN <= msg.len() {
        start + MAX_PAYLOAD_LEN
    } else {
        msg.len() as int
    };
    msg.subrange(start, end)
}

/// The number of segments a message takes.
pub open spec fn chunk_count(len: nat) -> nat {
    ((len + MAX_PAYLOAD_LEN - 1) / MAX_PAYLOAD_LEN as int) as nat
}

/// Cuts one outbound message into the bytes of consecutive segments, each
/// carrying the next piece of at most one segment's payload.
pub fn split_message(timestamp: u32, protocol_id: u16, msg: &[u8]) -> (r: Vec<Vec<u8>>)
    ensures
        r@.len() == chunk_count(msg@.len()),
        forall|k: int|
            0 <= k < r@.len() ==> (#[trigger] r@[k])@ == segment_bytes(
                timestamp,
                protocol_id,
                chunk(msg@, k),
            ),
{
    let mut out: Vec<Vec<u8>> = Vec::new();
    let mut start: usize = 0;
    while start < msg.len()
        invariant
            start <= msg@.len(),
            out@.len() == 0 || (out@.len() - 1) * MAX_PAYLOAD_LEN < msg@.len(),
            start as int == if out@.len() * MAX_PAYLOAD_LEN <= msg@.len() {
                out@.len() * MAX_PAYLOAD_LEN
            } else {
                msg@.len() as int
            },
            forall|k: int|
                0 <= k < out@.len() ==> (#[trigger] out@[k])@ == segment_bytes(
                    timestamp,
                    protocol_id,
                    chunk(msg@, k),
                ),
        decreases msg@.len() - start,
    {
        let end: usize = if msg.len() - start >= MAX_PAYLOAD_LEN {
            start + MAX_PAYLOAD_LEN
        } else {
            msg.len()
        };
        let mut piece: Vec<u8> = Vec::new();
        let mut i: usize = start;
        while i < end
            invariant
                start <= i <= end <= msg@.len(),
                piece@ == msg@.subrange(start as int, i as int),
            decreases end - i,
        {
            piece.push(msg[i]);
            proof {
                assert(msg@.subrange(start as int, i + 1) == msg@.subrange(start as int, i as int).push(
                    msg@[i as int],
                ));
            }
            i = i + 1;
        }
        proof {
            assert(piece@ == chunk(msg@, out@.len() as int));
        }
        match encode_segment(timestamp, protocol_id, piece.as_slice()) {
            Ok(bytes) => {
                out.push(bytes);
            },
            Err(_) => {
                proof {
                    assert(false);
                }
            },
        }
        start = end;
    }
    proof {
        if msg@.len() > 0 {
            assert(out@.len() * MAX_PAYLOAD_LEN >= msg@.len());
            assert(out@.len() == chunk_count(msg@.len()));
        }
    }
    out
}

} // verus!
