//! Chain points, chain events and the confirmation buffer of chain-sync.
//!
//! Blocks received from the node wait in the buffer until `min_depth` newer
//! blocks confirm them; only then are they passed downstream. A rollback
//! drops the waiting blocks past its point, and is itself passed downstream
//! when it lies behind the last event passed on, or behind the oldest waiting
//! block without being the position of the last event passed on.
use vstd::prelude::*;

verus! {

/// Where a point sits on the chain, without its hash.
#[derive(Clone, Copy, Debug, PartialEq, Eq, Structural)]
pub enum Position {
    Origin,
    Slot(u64),
}

/// A chain point: the start of the chain, or a block's slot and hash.
#[derive(Debug)]
pub enum Point {
    Origin,
    Specific(u64, Vec<u8>),
}

/// An instruction of the node, or an event passed downstream.
#[derive(Debug)]
pub enum ChainEvent {
    RollForward(Point),
    RollBackward(Point),
}

#[derive(Debug, PartialEq, Eq, Structural)]
pub enum SyncError {
    /// The node rolled forward to a block that does not follow the current head.
    ProtocolViolation,
    /// The node knows none of the offered intersection points.
    IntersectNotFound,
}

/// Order of positions: the origin comes before every slot.
pub open spec fn rank(p: Position) -> int {
    match p {
        Position::Origin => -1,
        Position::Slot(s) => s as int,
    }
}

impl Point {
    pub open spec fn pos(&self) -> Position {
        match self {
            Point::Origin => Position::Origin,
            Point::Specific(s, _) => Position::Slot(*s),
        }
    }

    pub fn position(&self) -> (r: Position)
        ensures
            r == self.pos(),
    {
        match self {
            Point::Origin => Position::Origin,
            Point::Specific(s, _) => Position::Slot(*s),
        }
    }
}

/// Whether `a` is at or before `b` on the chain.
pub fn not_after(a: Position, b: Position) -> (r: bool)
    ensures
        r == (rank(a) <= rank(b)),
{
    match (a, b) {
        (Position::Origin, _) => true,
        (Position::Slot(_), Position::Origin) => false,
        (Position::Slot(x), Position::Slot(y)) => x <= y,
    }
}

/// Points in strictly increasing chain order.
pub open spec fn increasing(pts: Seq<Point>) -> bool {
    forall|i: int, j: int| 0 <= i < j < pts.len() ==> rank(pts[i].pos()) < rank(pts[j].pos())
}

pub open spec fn keep_pred(p: Position) -> spec_fn(Point) -> bool {
    |x: Point| rank(x.pos()) <= rank(p)
}

/// The points that survive a rollback to `p`: those not after it.
pub open spec fn kept(pts: Seq<Point>, p: Position) -> Seq<Point> {
    pts.filter(keep_pred(p))
}

/// The abstract state of a [`RollbackBuffer`].
pub ghost struct BufferModel {
    pub min_depth: nat,
    /// Received blocks not yet confirmed, oldest first.
    pub points: Seq<Point>,
    /// The position of the latest event passed downstream, if any.
    pub confirmed: Option<Position>,
}

impl BufferModel {
    pub open spec fn empty(min_depth: nat) -> BufferModel {
        BufferModel { min_depth, points: Seq::empty(), confirmed: None }
    }

    pub open spec fn wf(self) -> bool {
        &&& increasing(self.points)
        &&& self.points.len() <= self.min_depth
        &&& self.confirmed matches Some(c) ==> forall|i: int|
            0 <= i < self.points.len() ==> rank(c) < rank(#[trigger] self.points[i].pos())
    }

    /// The newest position known: the newest waiting block, else the last one passed on.
    pub open spec fn head(self) -> Option<Position> {
        if self.points.len() > 0 {
            Some(self.points.last().pos())
        } else {
            self.confirmed
        }
    }

    /// Whether a block at `p` may follow the current head.
    pub open spec fn extends(self, p: Position) -> bool {
        match self.head() {
            None => true,
            Some(h) => rank(h) < rank(p),
        }
    }

    /// Whether a rollback to `p` is passed downstream: when it lies behind the
    /// last event passed on, or behind the oldest waiting block without being
    /// the position of the last event passed on.
    pub open spec fn escapes(self, p: Position) -> bool {
        ||| (self.points.len() > 0 && rank(p) < rank(self.points[0].pos()) && self.confirmed
            != Some(p))
        ||| (self.confirmed matches Some(c) && rank(p) < rank(c))
    }
}

/// One instruction of the node applied to the buffer: the new state and the
/// events passed downstream, or `None` for a roll-forward that does not
/// follow the head.
pub open spec fn step(m: BufferModel, e: ChainEvent) -> Option<(BufferModel, Seq<ChainEvent>)> {
    match e {
        ChainEvent::RollForward(q) => {
            if !m.extends(q.pos()) {
                None
            } else {
                let pts = m.points.push(q);
                if pts.len() > m.min_depth {
                    Some(
                        (
                            BufferModel {
                                points: pts.drop_first(),
                                confirmed: Some(pts[0].pos()),
                                ..m
                            },
                            seq![ChainEvent::RollForward(pts[0])],
                        ),
                    )
                } else {
                    Some((BufferModel { points: pts, ..m }, Seq::empty()))
                }
            }
        },
        ChainEvent::RollBackward(p) => {
            let points = kept(m.points, p.pos());
            if m.escapes(p.pos()) {
                Some(
                    (
                        BufferModel { points, confirmed: Some(p.pos()), ..m },
                        seq![ChainEvent::RollBackward(p)],
                    ),
                )
            } else {
                Some((BufferModel { points, ..m }, Seq::empty()))
            }
        },
    }
}

/// When the points before `i` are kept by a rollback to `p` and the rest are
/// not, the rollback keeps exactly the first `i`.
pub proof fn lemma_kept_prefix(s: Seq<Point>, p: Position, i: int)
    requires
        0 <= i <= s.len(),
        forall|j: int| 0 <= j < i ==> rank(#[trigger] s[j].pos()) <= rank(p),
        forall|j: int| i <= j < s.len() ==> rank(p) < rank(#[trigger] s[j].pos()),
    ensures
        kept(s, p) == s.take(i),
    decreases s.len(),
{
    reveal(Seq::filter);
    if s.len() > 0 {
        let r = s.drop_last();
        let i2 = if i == s.len() {
            i - 1
        } else {
            i
        };
        assert forall|j: int| 0 <= j < i2 implies rank(#[trigger] r[j].pos()) <= rank(p) by {
            assert(r[j] == s[j]);
        }
        assert forall|j: int| i2 <= j < r.len() implies rank(p) < rank(#[trigger] r[j].pos()) by {
            assert(r[j] == s[j]);
        }
        lemma_kept_prefix(r, p, i2);
        if i == s.len() {
            assert(s.take(i) == s);
            assert(r.take(i2) == r);
            assert(r.push(s.last()) == s);
        } else {
            assert(r.take(i2) == s.take(i));
        }
    } else {
        assert(s.take(i) == s);
    }
}


/// The chain that results from applying events in order to `chain`.
pub open spec fn replay(chain: Seq<Point>, events: Seq<ChainEvent>) -> Seq<Point>
    decreases events.len(),
{
    if events.len() == 0 {
        chain
    } else {
        let before = replay(chain, events.drop_last());
        match events.last() {
            ChainEvent::RollForward(q) => before.push(q),
            ChainEvent::RollBackward(p) => kept(before, p.pos()),
        }
    }
}

/// Feeds the node's instructions one by one to a buffer in state `m`: the final
/// state and every event passed downstream, or `None` once one is refused.
pub open spec fn run(m: BufferModel, events: Seq<ChainEvent>) -> Option<
    (BufferModel, Seq<ChainEvent>),
>
    decreases events.len(),
{
    if events.len() == 0 {
        Some((m, Seq::empty()))
    } else {
        match run(m, events.drop_last()) {
            None => None,
            Some((m1, out1)) => match step(m1, events.last()) {
                None => None,
                Some((m2, out2)) => Some((m2, out1 + out2)),
            },
        }
    }
}

pub open spec fn projection_holds(m: BufferModel, out: Seq<ChainEvent>, raw: Seq<Point>) -> bool {
    let down = replay(Seq::empty(), out);
    &&& m.wf()
    &&& down + m.points == raw
    &&& match m.confirmed {
        None => down.len() == 0,
        Some(c) => forall|i: int| 0 <= i < down.len() ==> rank(#[trigger] down[i].pos()) <= rank(c),
    }
}

proof fn lemma_step_projection(
    m: BufferModel,
    out: Seq<ChainEvent>,
    raw: Seq<Point>,
    e: ChainEvent,
)
    requires
        projection_holds(m, out, raw),
        step(m, e) is Some,
    ensures
        ({
            let (m2, out2) = step(m, e)->Some_0;
            let raw2 = match e {
                ChainEvent::RollForward(q) => raw.push(q),
                ChainEvent::RollBackward(p) => kept(raw, p.pos()),
            };
            projection_holds(m2, out + out2, raw2)
        }),
{
    let (m2, out2) = step(m, e)->Some_0;
    let down = replay(Seq::empty(), out);
    let all = out + out2;
    match e {
        ChainEvent::RollForward(q) => {
            let pts = m.points.push(q);
            if pts.len() > m.min_depth {
                assert(all.drop_last() == out);
                assert(all.last() == ChainEvent::RollForward(pts[0]));
                let down2 = down.push(pts[0]);
                assert(replay(Seq::empty(), all) == down2);
                assert(down2 + pts.drop_first() == raw.push(q));
                assert forall|i: int| 0 <= i < down2.len() implies rank(#[trigger] down2[i].pos())
                    <= rank(pts[0].pos()) by {
                    if i < down.len() {
                        assert(down2[i] == down[i]);
                        if m.confirmed is None {
                            assert(false);
                        }
                        if m.points.len() > 0 {
                            assert(pts[0] == m.points[0]);
                        }
                    }
                }
                assert forall|i: int, j: int|
                    0 <= i < j < pts.drop_first().len() implies rank(
                    pts.drop_first()[i].pos(),
                ) < rank(pts.drop_first()[j].pos()) by {
                    assert(pts.drop_first()[i] == pts[i + 1]);
                    assert(pts.drop_first()[j] == pts[j + 1]);
                    if j + 1 == m.points.len() {
                        assert(m.points.len() > 0);
                    }
                }
                assert forall|i: int| 0 <= i < pts.drop_first().len() implies rank(pts[0].pos())
                    < rank(#[trigger] pts.drop_first()[i].pos()) by {
                    assert(pts.drop_first()[i] == pts[i + 1]);
                }
            } else {
                assert(all == out);
                assert(down + pts == raw.push(q));
                assert forall|i: int, j: int| 0 <= i < j < pts.len() implies rank(pts[i].pos())
                    < rank(pts[j].pos()) by {
                    if j == m.points.len() && m.points.len() > 0 {
                        assert(rank(pts[i].pos()) <= rank(m.points.last().pos()));
                    }
                }
            }
        },
        ChainEvent::RollBackward(p) => {
            let pos = p.pos();
            Seq::filter_distributes_over_add(down, m.points, keep_pred(pos));
            let kb = kept(m.points, pos);
            assert forall|i: int| 0 <= i < kb.len() implies rank(#[trigger] kb[i].pos()) <= rank(
                pos,
            ) by {
                m.points.lemma_filter_pred(keep_pred(pos), i);
            }
            if m.escapes(pos) {
                // Everything waiting lies after the rollback point.
                lemma_kept_prefix(m.points, pos, 0);
                assert(m.points.take(0) == Seq::<Point>::empty());
                assert(all.drop_last() == out);
                let down2 = kept(down, pos);
                assert(replay(Seq::empty(), all) == down2);
                assert(down2 + kb == down2);
                assert forall|i: int| 0 <= i < down2.len() implies rank(#[trigger] down2[i].pos())
                    <= rank(pos) by {
                    down.lemma_filter_pred(keep_pred(pos), i);
                }
            } else {
                // Everything downstream lies at or before the rollback point.
                lemma_kept_prefix(down, pos, down.len() as int);
                assert(down.take(down.len() as int) == down);
                assert(all == out);
                assert forall|i: int, j: int| 0 <= i < j < kb.len() implies rank(kb[i].pos())
                    < rank(kb[j].pos()) by {
                    lemma_kept_increasing(m.points, pos);
                }
                assert forall|i: int| 0 <= i < kb.len() implies (m.confirmed matches Some(c)
                    ==> rank(c) < rank(#[trigger] kb[i].pos())) by {
                    lemma_kept_member(m.points, pos, i);
                }
            }
        },
    }
}

/// A point that survives a rollback was among the points before it.
proof fn lemma_kept_member(s: Seq<Point>, p: Position, i: int)
    requires
        0 <= i < kept(s, p).len(),
    ensures
        exists|j: int| 0 <= j < s.len() && s[j] == kept(s, p)[i],
{
    let k = kept(s, p);
    assert(k.contains(k[i]));
    s.lemma_filter_contains_rev(keep_pred(p), k[i]);
}

/// A rollback keeps increasing points increasing.
proof fn lemma_kept_increasing(s: Seq<Point>, p: Position)
    requires
        increasing(s),
    ensures
        increasing(kept(s, p)),
    decreases s.len(),
{
    reveal(Seq::filter);
    if s.len() > 0 {
        let r = s.drop_last();
        assert forall|i: int, j: int| 0 <= i < j < r.len() implies rank(r[i].pos()) < rank(
            r[j].pos(),
        ) by {
            assert(r[i] == s[i] && r[j] == s[j]);
        }
        lemma_kept_increasing(r, p);
        let kr = kept(r, p);
        if keep_pred(p)(s.last()) {
            assert forall|i: int| 0 <= i < kr.len() implies rank(#[trigger] kr[i].pos()) < rank(
                s.last().pos(),
            ) by {
                lemma_kept_member(r, p, i);
                let j = choose|j: int| 0 <= j < r.len() && r[j] == kr[i];
                assert(s[j] == r[j]);
            }
            let ks = kr.push(s.last());
            assert(kept(s, p) == ks);
            assert forall|i: int, j: int| 0 <= i < j < ks.len() implies rank(ks[i].pos()) < rank(
                ks[j].pos(),
            ) by {
                if j == kr.len() {
                    assert(ks[i] == kr[i]);
                } else {
                    assert(ks[i] == kr[i] && ks[j] == kr[j]);
                }
            }
        }
    }
}

/// The point an instruction names.
pub open spec fn event_pos(e: ChainEvent) -> Position {
    match e {
        ChainEvent::RollForward(q) => q.pos(),
        ChainEvent::RollBackward(p) => p.pos(),
    }
}

/// A stream as the node sends it: each roll-forward lies after the point of
/// the instruction before it.
pub open spec fn follows_chain(events: Seq<ChainEvent>) -> bool {
    forall|i: int|
        0 < i < events.len() && (#[trigger] events[i]) is RollForward ==> rank(
            event_pos(events[i - 1]),
        ) < rank(event_pos(events[i]))
}

pub open spec fn forward_pred() -> spec_fn(ChainEvent) -> bool {
    |e: ChainEvent| e is RollForward
}

/// Passing events downstream is a delayed projection of the node's raw stream:
/// from an empty buffer of depth `min_depth`, a stream that follows the chain
/// is accepted whole; and whenever the node's instructions are all accepted,
/// replaying what was passed downstream and then the blocks still waiting
/// gives exactly the chain that the raw instructions give, and at most
/// `min_depth` blocks are waiting.
pub proof fn lemma_downstream_is_confirmed_chain(min_depth: nat, events: Seq<ChainEvent>)
    ensures
        follows_chain(events) ==> run(BufferModel::empty(min_depth), events) is Some,
        run(BufferModel::empty(min_depth), events) matches Some((m, out)) ==> {
            &&& replay(Seq::empty(), out) + m.points == replay(Seq::empty(), events)
            &&& m.points.len() <= min_depth
            &&& m.min_depth == min_depth
        },
{
    lemma_run_projection(min_depth, events);
    if follows_chain(events) {
        lemma_run_accepts(min_depth, events);
    }
}

/// With a depth of zero, a stream that follows the chain has every
/// roll-forward passed downstream as it arrives: the roll-forwards passed on
/// are exactly the node's, in order, and nothing waits.
pub proof fn lemma_zero_depth_forwards_everything(events: Seq<ChainEvent>)
    requires
        follows_chain(events),
    ensures
        run(BufferModel::empty(0), events) matches Some((m, out)) && m.points.len() == 0
            && out.filter(forward_pred()) == events.filter(forward_pred()),
    decreases events.len(),
{
    lemma_run_accepts(0, events);
    lemma_run_projection(0, events);
    if events.len() == 0 {
        reveal(Seq::filter);
    } else {
        let pre = events.drop_last();
        lemma_follows_prefix(events);
        lemma_zero_depth_forwards_everything(pre);
        let (m1, out1) = run(BufferModel::empty(0), pre)->Some_0;
        let (m2, out2) = step(m1, events.last())->Some_0;
        Seq::filter_distributes_over_add(out1, out2, forward_pred());
        reveal(Seq::filter);
        assert(events.drop_last() == pre);
        match events.last() {
            ChainEvent::RollForward(q) => {
                let pts = m1.points.push(q);
                assert(pts[0] == q);
                lemma_filter_single(ChainEvent::RollForward(q), forward_pred());
            },
            ChainEvent::RollBackward(p) => {
                if out2.len() > 0 {
                    lemma_filter_single(ChainEvent::RollBackward(p), forward_pred());
                } else {
                    assert(out2 == Seq::<ChainEvent>::empty());
                }
            },
        }
    }
}

proof fn lemma_filter_single(x: ChainEvent, f: spec_fn(ChainEvent) -> bool)
    ensures
        seq![x].filter(f) == if f(x) {
            seq![x]
        } else {
            Seq::<ChainEvent>::empty()
        },
{
    reveal(Seq::filter);
    let s = seq![x];
    assert(s.len() == 1 && s.last() == x);
    assert(s.drop_last() =~= Seq::<ChainEvent>::empty());
    assert(Seq::<ChainEvent>::empty().filter(f) == Seq::<ChainEvent>::empty());
    assert(Seq::<ChainEvent>::empty().push(x) =~= s);
}

proof fn lemma_follows_prefix(events: Seq<ChainEvent>)
    requires
        follows_chain(events),
        events.len() > 0,
    ensures
        follows_chain(events.drop_last()),
{
    let pre = events.drop_last();
    assert forall|i: int| 0 < i < pre.len() && (#[trigger] pre[i]) is RollForward implies rank(
        event_pos(pre[i - 1]),
    ) < rank(event_pos(pre[i])) by {
        assert(pre[i] == events[i] && pre[i - 1] == events[i - 1]);
    }
}

/// A stream that follows the chain is accepted whole, and the buffer's head
/// never lies after the point of the last instruction.
proof fn lemma_run_accepts(min_depth: nat, events: Seq<ChainEvent>)
    requires
        follows_chain(events),
    ensures
        run(BufferModel::empty(min_depth), events) is Some,
        events.len() == 0 ==> run(BufferModel::empty(min_depth), events)->Some_0.0.head() is None,
        events.len() > 0 ==> (run(BufferModel::empty(min_depth), events)->Some_0.0.head() matches Some(
            h,
        ) ==> rank(h) <= rank(event_pos(events.last()))),
    decreases events.len(),
{
    if events.len() > 0 {
        let pre = events.drop_last();
        lemma_follows_prefix(events);
        lemma_run_accepts(min_depth, pre);
        lemma_run_projection(min_depth, pre);
        let (m1, out1) = run(BufferModel::empty(min_depth), pre)->Some_0;
        match events.last() {
            ChainEvent::RollForward(q) => {
                if pre.len() > 0 {
                    assert(events[events.len() - 1] == events.last());
                    assert(events[events.len() - 2] == pre.last());
                }
                let pts = m1.points.push(q);
                assert(pts.last() == q);
                if pts.len() > m1.min_depth {
                    if pts.drop_first().len() > 0 {
                        assert(pts.drop_first().last() == q);
                    } else {
                        assert(pts[0] == q);
                    }
                }
            },
            ChainEvent::RollBackward(p) => {
                let kb = kept(m1.points, p.pos());
                if kb.len() > 0 {
                    m1.points.lemma_filter_pred(keep_pred(p.pos()), kb.len() - 1);
                }
            },
        }
    }
}

proof fn lemma_run_projection(min_depth: nat, events: Seq<ChainEvent>)
    ensures
        run(BufferModel::empty(min_depth), events) matches Some((m, out)) ==> projection_holds(
            m,
            out,
            replay(Seq::empty(), events),
        ) && m.min_depth == min_depth,
    decreases events.len(),
{
    if events.len() == 0 {
        assert(Seq::<Point>::empty() + Seq::<Point>::empty() == Seq::<Point>::empty());
    } else {
        lemma_run_projection(min_depth, events.drop_last());
        if let Some((m1, out1)) = run(BufferModel::empty(min_depth), events.drop_last()) {
            if step(m1, events.last()) is Some {
                lemma_step_projection(
                    m1,
                    out1,
                    replay(Seq::empty(), events.drop_last()),
                    events.last(),
                );
            }
        }
    }
}

/// With a depth of zero nothing waits: every accepted roll-forward is passed
/// downstream at once, alone, and the buffer stays empty.
pub proof fn lemma_zero_depth_passes_through(m: BufferModel, q: Point)
    requires
        m.wf(),
        m.min_depth == 0,
        m.extends(q.pos()),
    ensures
        step(m, ChainEvent::RollForward(q)) matches Some((m2, out)) && out == seq![
            ChainEvent::RollForward(q),
        ] && m2.points.len() == 0,
{
    let pts = m.points.push(q);
    assert(pts[0] == q);
    assert(pts.drop_first().len() == 0);
}

/// A rollback to a point older than every waiting block yields exactly one
/// downstream rollback and empties the buffer, unless the point is the
/// position of the last event already passed downstream.
pub proof fn lemma_old_rollback_goes_downstream(m: BufferModel, p: Point)
    requires
        m.wf(),
        m.points.len() > 0,
        rank(p.pos()) < rank(m.points[0].pos()),
        m.confirmed != Some(p.pos()),
    ensures
        step(m, ChainEvent::RollBackward(p)) matches Some((m2, out)) && out == seq![
            ChainEvent::RollBackward(p),
        ] && m2.points.len() == 0,
{
    assert forall|j: int| 0 <= j < m.points.len() implies rank(p.pos()) < rank(
        #[trigger] m.points[j].pos(),
    ) by {
        if j > 0 {
            assert(rank(m.points[0].pos()) < rank(m.points[j].pos()));
        }
    }
    lemma_kept_prefix(m.points, p.pos(), 0);
}

/// A buffer of received blocks that releases each one only once `min_depth`
/// newer blocks have been received after it.
pub struct RollbackBuffer {
    min_depth: usize,
    points: Vec<Point>,
    confirmed: Option<Position>,
}

impl View for RollbackBuffer {
    type V = BufferModel;

    closed spec fn view(&self) -> BufferModel {
        BufferModel {
            min_depth: self.min_depth as nat,
            points: self.points@,
            confirmed: self.confirmed,
        }
    }
}

impl RollbackBuffer {
    pub closed spec fn depth(&self) -> usize {
        self.min_depth
    }

    /// The buffer is well formed, and its depth is that of its model.
    pub open spec fn wf(&self) -> bool {
        &&& self@.wf()
        &&& self@.min_depth == self.depth() as nat
    }

    pub fn new(min_depth: usize) -> (r: RollbackBuffer)
        ensures
            r@ == BufferModel::empty(min_depth as nat),
            r.wf(),
    {
        RollbackBuffer { min_depth, points: Vec::new(), confirmed: None }
    }

    pub fn min_depth(&self) -> (r: usize)
        ensures
            r as nat == self@.min_depth,
    {
        self.min_depth
    }

    /// Number of blocks waiting for confirmation.
    pub fn len(&self) -> (r: usize)
        ensures
            r as nat == self@.points.len(),
    {
        self.points.len()
    }

    /// Positions of the waiting blocks, oldest first.
    pub fn waiting(&self) -> (r: Vec<Position>)
        ensures
            r@.len() == self@.points.len(),
            forall|i: int| 0 <= i < r@.len() ==> r@[i] == #[trigger] self@.points[i].pos(),
    {
        let mut out: Vec<Position> = Vec::new();
        let mut i: usize = 0;
        while i < self.points.len()
            invariant
                i <= self.points@.len(),
                out@.len() == i,
                forall|j: int| 0 <= j < i ==> out@[j] == #[trigger] self.points@[j].pos(),
            decreases self.points@.len() - i,
        {
            out.push(self.points[i].position());
            i = i + 1;
        }
        out
    }

    fn extends(&self, p: Position) -> (r: bool)
        ensures
            r == self@.extends(p),
    {
        if self.points.len() > 0 {
            !not_after(p, self.points[self.points.len() - 1].position())
        } else {
            match self.confirmed {
                None => true,
                Some(h) => !not_after(p, h),
            }
        }
    }

    fn escapes(&self, p: Position) -> (r: bool)
        ensures
            r == self@.escapes(p),
    {
        let behind_oldest = self.points.len() > 0 && !not_after(self.points[0].position(), p)
            && self.confirmed != Some(p);
        let behind_confirmed = match self.confirmed {
            Some(c) => !not_after(c, p),
            None => false,
        };
        behind_oldest || behind_confirmed
    }

    /// Applies one instruction of the node and returns the events that are
    /// now safe to pass downstream, oldest first.
    pub fn apply(&mut self, event: ChainEvent) -> (r: Result<Vec<ChainEvent>, SyncError>)
        requires
            old(self).wf(),
        ensures
            final(self).wf(),
            final(self).depth() == old(self).depth(),
            step(old(self)@, event) is None ==> r == Err::<Vec<ChainEvent>, SyncError>(
                SyncError::ProtocolViolation,
            ) && final(self)@ == old(self)@,
            step(old(self)@, event) matches Some((m, out)) ==> r is Ok && r->Ok_0@ == out
                && final(self)@ == m,
    {
        match event {
            ChainEvent::RollForward(q) => {
                let pos = q.position();
                if !self.extends(pos) {
                    return Err(SyncError::ProtocolViolation);
                }
                let ghost pts = self@.points.push(q);
                self.points.push(q);
                if self.points.len() > self.min_depth {
                    let first = self.points.remove(0);
                    self.confirmed = Some(first.position());
                    proof {
                        assert(self@.points == pts.drop_first());
                        assert(first == pts[0]);
                    }
                    let out = vec![ChainEvent::RollForward(first)];
                    Ok(out)
                } else {
                    Ok(Vec::new())
                }
            },
            ChainEvent::RollBackward(p) => {
                let pos = p.position();
                let emit = self.escapes(pos);
                let ghost before = self@.points;
                let mut i: usize = 0;
                while i < self.points.len() && not_after(self.points[i].position(), pos)
                    invariant
                        i <= self.points@.len(),
                        self@.points == before,
                        forall|j: int| 0 <= j < i ==> rank(#[trigger] before[j].pos()) <= rank(pos),
                    decreases self.points@.len() - i,
                {
                    i = i + 1;
                }
                proof {
                    assert forall|j: int| i <= j < before.len() implies rank(pos) < rank(
                        #[trigger] before[j].pos(),
                    ) by {
                        assert(rank(pos) < rank(before[i as int].pos()));
                        if j > i {
                            assert(rank(before[i as int].pos()) < rank(before[j].pos()));
                        }
                    }
                    lemma_kept_prefix(before, pos, i as int);
                }
                self.points.truncate(i);
                if emit {
                    self.confirmed = Some(pos);
                    Ok(vec![ChainEvent::RollBackward(p)])
                } else {
                    Ok(Vec::new())
                }
            },
        }
    }
}

} // verus!
