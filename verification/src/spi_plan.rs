//! Planning an SPI transaction for the W6300 so that round trips are spent
//! only where they pay.
//!
//! Consecutive `Write`s that fit together in [`BLOCKING_MAX`] bytes are
//! gathered into one buffer and sent as a single blocking burst; any other
//! operation of at most [`BLOCKING_MAX`] bytes is done by spinning (blocking);
//! anything longer goes by DMA. Before any operation that is not gathered, the
//! gathered bytes are sent, so the bytes reach the wire in the order the
//! operations list them.

use vstd::prelude::*;

verus! {

/// Longest operation done by spinning rather than by DMA, and the size of the
/// gathering buffer.
pub const BLOCKING_MAX: usize = 16;

/// One operation of a transaction, by its shape.
#[derive(Clone, Copy, Debug, PartialEq, Eq, Structural)]
pub enum SpiOp {
    /// Write this many bytes.
    Write(usize),
    /// Read this many bytes.
    Read(usize),
    /// Read into a buffer of the first length while writing one of the second.
    Transfer(usize, usize),
    /// Exchange this many bytes in place.
    TransferInPlace(usize),
    /// Wait this many nanoseconds.
    DelayNs(u32),
}

/// One step of the planned transaction.
#[derive(Clone, Copy, Debug, PartialEq, Eq, Structural)]
pub enum SpiStep {
    /// Send the `count` writes from index `first` on, `len` bytes in all, as
    /// one blocking write.
    Burst { first: usize, count: usize, len: usize },
    /// Do operation `i` by spinning.
    Blocking(usize),
    /// Do operation `i` by DMA.
    Dma(usize),
    /// Wait as operation `i` asks.
    Delay(usize),
    /// Flush the bus; always the last step.
    FlushBus,
}

/// Bytes operation `op` moves, for choosing between spinning and DMA.
pub open spec fn op_size(op: SpiOp) -> int {
    match op {
        SpiOp::Write(n) => n as int,
        SpiOp::Read(n) => n as int,
        SpiOp::Transfer(r, w) => if r >= w { r as int } else { w as int },
        SpiOp::TransferInPlace(n) => n as int,
        SpiOp::DelayNs(_) => 0,
    }
}

/// The gathered writes, if there are any bytes to send.
pub open spec fn flush_group(first: int, end: int, len: int) -> Seq<SpiStep> {
    if len > 0 {
        seq![SpiStep::Burst { first: first as usize, count: (end - first) as usize, len: len as usize }]
    } else {
        seq![]
    }
}

/// How operation `i`, not gathered, is carried out.
pub open spec fn direct_step(op: SpiOp, i: int) -> SpiStep {
    match op {
        SpiOp::DelayNs(_) => SpiStep::Delay(i as usize),
        _ => if op_size(op) <= BLOCKING_MAX { SpiStep::Blocking(i as usize) } else { SpiStep::Dma(i as usize) },
    }
}

/// The steps for operations `i..` when the writes `first..i` are gathered,
/// `len` bytes in all.
pub open spec fn plan_from(ops: Seq<SpiOp>, i: int, first: int, len: int) -> Seq<SpiStep>
    decreases ops.len() - i,
{
    if i < 0 || i >= ops.len() {
        flush_group(first, i, len).push(SpiStep::FlushBus)
    } else {
        match ops[i] {
            SpiOp::Write(n) if len + n <= BLOCKING_MAX => plan_from(ops, i + 1, first, len + n),
            _ => flush_group(first, i, len) + seq![direct_step(ops[i], i)] + plan_from(ops, i + 1, i + 1, 0),
        }
    }
}

/// The steps for the whole transaction.
pub open spec fn plan(ops: Seq<SpiOp>) -> Seq<SpiStep> {
    plan_from(ops, 0, 0, 0)
}

/// Appends the gathered writes, if there are any bytes to send.
fn push_group(steps: &mut Vec<SpiStep>, first: usize, end: usize, len: usize)
    requires
        first <= end,
    ensures
        final(steps)@ == old(steps)@ + flush_group(first as int, end as int, len as int),
{
    if len > 0 {
        steps.push(SpiStep::Burst { first, count: end - first, len });
    }
    proof {
        assert(final(steps)@ =~= old(steps)@ + flush_group(first as int, end as int, len as int));
    }
}

/// Plans the transaction `ops`: which writes are gathered into one burst,
/// which operations spin, which go by DMA.
pub fn plan_transaction(ops: &Vec<SpiOp>) -> (steps: Vec<SpiStep>)
    ensures
        steps@ == plan(ops@),
{
    let mut steps: Vec<SpiStep> = Vec::new();
    let mut first: usize = 0;
    let mut len: usize = 0;
    let mut i: usize = 0;
    while i < ops.len()
        invariant
            first <= i <= ops@.len(),
            len <= BLOCKING_MAX,
            steps@ + plan_from(ops@, i as int, first as int, len as int) == plan(ops@),
        decreases ops@.len() - i,
    {
        let op = ops[i];
        let ghost before = steps@;
        let ghost f0 = first as int;
        let ghost l0 = len as int;
        let gathered = match op {
            SpiOp::Write(n) => n <= BLOCKING_MAX - len,
            _ => false,
        };
        if gathered {
            if let SpiOp::Write(n) = op {
                len = len + n;
            }
            assert(plan_from(ops@, i as int, f0, l0) == plan_from(ops@, i + 1, first as int, len as int));
        } else {
            push_group(&mut steps, first, i, len);
            let step = match op {
                SpiOp::DelayNs(_) => SpiStep::Delay(i),
                SpiOp::Write(n) => if n <= BLOCKING_MAX { SpiStep::Blocking(i) } else { SpiStep::Dma(i) },
                SpiOp::Read(n) => if n <= BLOCKING_MAX { SpiStep::Blocking(i) } else { SpiStep::Dma(i) },
                SpiOp::TransferInPlace(n) => if n <= BLOCKING_MAX { SpiStep::Blocking(i) } else { SpiStep::Dma(i) },
                SpiOp::Transfer(r, w) => {
                    let longest = if r >= w { r } else { w };
                    if longest <= BLOCKING_MAX { SpiStep::Blocking(i) } else { SpiStep::Dma(i) }
                },
            };
            assert(step == direct_step(op, i as int));
            steps.push(step);
            first = i + 1;
            len = 0;
            proof {
                let rest = plan_from(ops@, i + 1, i + 1, 0);
                assert(plan_from(ops@, i as int, f0, l0) == flush_group(f0, i as int, l0) + seq![step] + rest);
                assert(steps@ == before + flush_group(f0, i as int, l0) + seq![step]);
                assert(steps@ + rest =~= before + (flush_group(f0, i as int, l0) + seq![step] + rest));
            }
        }
        i = i + 1;
    }
    push_group(&mut steps, first, i, len);
    steps.push(SpiStep::FlushBus);
    proof {
        assert(steps@ =~= plan(ops@));
    }
    steps
}

/// First operation a step carries out.
pub open spec fn step_lo(s: SpiStep) -> int {
    match s {
        SpiStep::Burst { first, .. } => first as int,
        SpiStep::Blocking(i) => i as int,
        SpiStep::Dma(i) => i as int,
        SpiStep::Delay(i) => i as int,
        SpiStep::FlushBus => 0,
    }
}

/// One past the last operation a step carries out.
pub open spec fn step_hi(s: SpiStep) -> int {
    match s {
        SpiStep::Burst { first, count, .. } => first + count,
        SpiStep::Blocking(i) => i + 1,
        SpiStep::Dma(i) => i + 1,
        SpiStep::Delay(i) => i + 1,
        SpiStep::FlushBus => 0,
    }
}

/// Total bytes of the operations `a..b`.
pub open spec fn bytes_between(ops: Seq<SpiOp>, a: int, b: int) -> int
    decreases b - a,
{
    if b <= a { 0 } else { bytes_between(ops, a, b - 1) + op_size(ops[b - 1]) }
}

/// Operations `a..b` are all writes.
pub open spec fn all_writes(ops: Seq<SpiOp>, a: int, b: int) -> bool {
    forall|j: int| a <= j < b ==> (#[trigger] ops[j]) is Write
}

/// A step other than the final flush is sound for `ops`: a burst sends
/// 1 to [`BLOCKING_MAX`] bytes gathered from consecutive writes; a spin moves at
/// most [`BLOCKING_MAX`] bytes and DMA more; a delay is a delay.
pub open spec fn step_sound(ops: Seq<SpiOp>, s: SpiStep) -> bool {
    &&& 0 <= step_lo(s) < step_hi(s) <= ops.len()
    &&& match s {
        SpiStep::Burst { first, count, len } => {
            &&& all_writes(ops, first as int, first + count)
            &&& bytes_between(ops, first as int, first + count) == len
            &&& 0 < len <= BLOCKING_MAX
        },
        SpiStep::Blocking(i) => ops[i as int] !is DelayNs && op_size(ops[i as int]) <= BLOCKING_MAX,
        SpiStep::Dma(i) => ops[i as int] !is DelayNs && op_size(ops[i as int]) > BLOCKING_MAX,
        SpiStep::Delay(i) => ops[i as int] is DelayNs,
        SpiStep::FlushBus => false,
    }
}

/// An operation that has an effect: anything but an empty write.
pub open spec fn has_effect(op: SpiOp) -> bool {
    !(op matches SpiOp::Write(n) && n == 0)
}

/// What holds of `steps` as a plan for operations `from..` of `ops`.
pub open spec fn plan_laws(ops: Seq<SpiOp>, from: int, steps: Seq<SpiStep>) -> bool {
    &&& steps.len() >= 1
    &&& steps.last() == SpiStep::FlushBus
    &&& forall|k: int| 0 <= k < steps.len() - 1 ==> step_sound(ops, #[trigger] steps[k])
    &&& forall|k: int| 0 <= k < steps.len() - 1 ==> from <= step_lo(#[trigger] steps[k])
    &&& forall|k1: int, k2: int| 0 <= k1 < k2 < steps.len() - 1 ==> step_hi(#[trigger] steps[k1])
        <= step_lo(#[trigger] steps[k2])
    &&& forall|j: int| from <= j < ops.len() && has_effect(#[trigger] ops[j]) ==> exists|k: int|
        0 <= k < steps.len() - 1 && step_lo(#[trigger] steps[k]) <= j < step_hi(steps[k])
}

/// Writes that add up to no bytes are all empty.
proof fn lemma_no_bytes_no_effect(ops: Seq<SpiOp>, a: int, b: int)
    requires
        0 <= a <= b <= ops.len(),
        all_writes(ops, a, b),
        bytes_between(ops, a, b) == 0,
    ensures
        forall|j: int| a <= j < b ==> !has_effect(#[trigger] ops[j]),
    decreases b - a,
{
    if a < b {
        assert(ops[b - 1] is Write);
        lemma_bytes_nonneg(ops, a, b - 1);
        lemma_no_bytes_no_effect(ops, a, b - 1);
    }
}

/// Byte counts are never negative.
proof fn lemma_bytes_nonneg(ops: Seq<SpiOp>, a: int, b: int)
    ensures
        bytes_between(ops, a, b) >= 0,
    decreases b - a,
{
    if a < b {
        lemma_bytes_nonneg(ops, a, b - 1);
    }
}

/// The laws of a plan for operations `i..` with the writes `first..i` gathered.
proof fn lemma_plan_from_laws(ops: Seq<SpiOp>, i: int, first: int, len: int)
    requires
        0 <= first <= i <= ops.len(),
        ops.len() <= usize::MAX,
        all_writes(ops, first, i),
        bytes_between(ops, first, i) == len,
        len <= BLOCKING_MAX,
    ensures
        plan_laws(ops, first, plan_from(ops, i, first, len)),
    decreases ops.len() - i,
{
    let steps = plan_from(ops, i, first, len);
    let g = flush_group(first, i, len);
    lemma_bytes_nonneg(ops, first, i);
    if len == 0 {
        lemma_no_bytes_no_effect(ops, first, i);
    }
    if i == ops.len() {
        assert(steps == g.push(SpiStep::FlushBus));
        assert forall|j: int| first <= j < ops.len() && has_effect(#[trigger] ops[j]) implies exists|k: int|
            0 <= k < steps.len() - 1 && step_lo(#[trigger] steps[k]) <= j < step_hi(steps[k]) by {
            assert(step_lo(steps[0]) <= j < step_hi(steps[0]));
        }
    } else {
        match ops[i] {
            SpiOp::Write(n) if len + n <= BLOCKING_MAX => {
                assert(bytes_between(ops, first, i + 1) == len + n);
                lemma_plan_from_laws(ops, i + 1, first, len + n);
            },
            _ => {
                let d = direct_step(ops[i], i);
                let rest = plan_from(ops, i + 1, i + 1, 0);
                lemma_plan_from_laws(ops, i + 1, i + 1, 0);
                let head = g + seq![d];
                assert(steps == head + rest);
                assert(step_sound(ops, d));
                assert forall|k: int| 0 <= k < steps.len() - 1 implies step_sound(ops, #[trigger] steps[k])
                    && first <= step_lo(steps[k]) by {
                    if k >= head.len() {
                        assert(steps[k] == rest[k - head.len()]);
                    }
                }
                assert forall|k1: int, k2: int| 0 <= k1 < k2 < steps.len() - 1 implies step_hi(
                    #[trigger] steps[k1],
                ) <= step_lo(#[trigger] steps[k2]) by {
                    if k2 >= head.len() {
                        assert(steps[k2] == rest[k2 - head.len()]);
                        if k1 >= head.len() {
                            assert(steps[k1] == rest[k1 - head.len()]);
                        }
                    }
                }
                assert forall|j: int| first <= j < ops.len() && has_effect(#[trigger] ops[j]) implies exists|
                    k: int,
                | 0 <= k < steps.len() - 1 && step_lo(#[trigger] steps[k]) <= j < step_hi(steps[k]) by {
                    if j < i {
                        assert(step_lo(steps[0]) <= j < step_hi(steps[0]));
                    } else if j == i {
                        assert(steps[head.len() - 1] == d);
                        assert(step_lo(steps[head.len() - 1]) <= j < step_hi(steps[head.len() - 1]));
                    } else {
                        let k = choose|k: int| 0 <= k < rest.len() - 1 && step_lo(#[trigger] rest[k]) <= j
                            < step_hi(rest[k]);
                        assert(steps[head.len() + k] == rest[k]);
                        assert(step_lo(steps[head.len() + k]) <= j < step_hi(steps[head.len() + k]));
                    }
                }
            },
        }
    }
}

/// A planned transaction ends with one flush of the bus; every other step is
/// sound (bursts of 1 to 16 gathered bytes, spins of at most 16, DMA for more);
/// the steps take the operations in their order without overlap; and every
/// operation that has an effect is carried out by some step. So the bytes
/// reach the wire in the order the operations list them.
pub proof fn lemma_plan_laws(ops: Seq<SpiOp>)
    requires
        ops.len() <= usize::MAX,
    ensures
        plan_laws(ops, 0, plan(ops)),
{
    lemma_plan_from_laws(ops, 0, 0, 0);
}

/// Step `k` of `steps` follows the gathering rule with its 16-byte limit:
/// a burst sends at most 16 bytes and stops only where the next operation is
/// not a write or is a write that would take it past 16; an operation of at
/// most 16 bytes (its longer buffer, for a transfer) is spun and a longer one
/// goes by DMA; and a write is only ever spun on its own right after a burst
/// that it did not fit into.
pub open spec fn gathers_greedily_at(ops: Seq<SpiOp>, steps: Seq<SpiStep>, k: int) -> bool {
    let moved = |op: SpiOp|
        match op {
            SpiOp::Write(n) => n as int,
            SpiOp::Read(n) => n as int,
            SpiOp::Transfer(r, w) => if r >= w { r as int } else { w as int },
            SpiOp::TransferInPlace(n) => n as int,
            SpiOp::DelayNs(_) => 0,
        };
    match steps[k] {
        SpiStep::Burst { first, count, len } => len <= 16 && (first + count < ops.len() ==> match ops[first
            + count] {
            SpiOp::Write(n) => len + n > 16,
            _ => true,
        }),
        SpiStep::Blocking(i) => moved(ops[i as int]) <= 16 && (ops[i as int] matches SpiOp::Write(n) ==> (k >= 1
            && (steps[k - 1] matches SpiStep::Burst { first, count, len } && first + count == i && len + n > 16))),
        SpiStep::Dma(i) => moved(ops[i as int]) > 16,
        _ => true,
    }
}

/// Gathering from operation `i` on, with the writes `first..i` pending.
proof fn lemma_plan_from_greedy(ops: Seq<SpiOp>, i: int, first: int, len: int)
    requires
        0 <= first <= i <= ops.len(),
        ops.len() <= usize::MAX,
        all_writes(ops, first, i),
        bytes_between(ops, first, i) == len,
        len <= BLOCKING_MAX,
    ensures
        forall|k: int|
            0 <= k < plan_from(ops, i, first, len).len() - 1 ==> #[trigger] gathers_greedily_at(
                ops,
                plan_from(ops, i, first, len),
                k,
            ),
    decreases ops.len() - i,
{
    let steps = plan_from(ops, i, first, len);
    let g = flush_group(first, i, len);
    lemma_bytes_nonneg(ops, first, i);
    if i == ops.len() {
        assert(steps == g.push(SpiStep::FlushBus));
        assert forall|k: int| 0 <= k < steps.len() - 1 implies #[trigger] gathers_greedily_at(ops, steps, k) by {
            assert(steps[k] == g[0]);
        }
    } else {
        match ops[i] {
            SpiOp::Write(n) if len + n <= BLOCKING_MAX => {
                assert(bytes_between(ops, first, i + 1) == len + n);
                lemma_plan_from_greedy(ops, i + 1, first, len + n);
                assert(steps == plan_from(ops, i + 1, first, len + n));
            },
            _ => {
                let d = direct_step(ops[i], i);
                let rest = plan_from(ops, i + 1, i + 1, 0);
                lemma_plan_from_greedy(ops, i + 1, i + 1, 0);
                let head = g + seq![d];
                assert(steps == head + rest);
                assert forall|k: int| 0 <= k < steps.len() - 1 implies #[trigger] gathers_greedily_at(
                    ops,
                    steps,
                    k,
                ) by {
                    if k >= head.len() {
                        let r = k - head.len();
                        assert(steps[k] == rest[r]);
                        assert(gathers_greedily_at(ops, rest, r));
                        if r >= 1 {
                            assert(steps[k - 1] == rest[r - 1]);
                        }
                    } else if k == head.len() - 1 {
                        assert(steps[k] == d);
                        if let SpiOp::Write(n) = ops[i] {
                            assert(len + n > BLOCKING_MAX);
                            if n <= BLOCKING_MAX {
                                assert(len > 0);
                                assert(g.len() == 1);
                                assert(steps[k - 1] == g[0]);
                            }
                        }
                    } else {
                        assert(steps[k] == g[0]);
                        if let SpiOp::Write(n) = ops[i] {
                            assert(len + n > BLOCKING_MAX);
                        }
                    }
                }
            },
        }
    }
}

/// Consecutive writes are gathered greedily up to 16 bytes: every step but
/// the final flush follows [`gathers_greedily_at`].
pub proof fn lemma_plan_gathers_greedily(ops: Seq<SpiOp>)
    requires
        ops.len() <= usize::MAX,
    ensures
        forall|k: int| 0 <= k < plan(ops).len() - 1 ==> #[trigger] gathers_greedily_at(ops, plan(ops), k),
{
    lemma_plan_from_greedy(ops, 0, 0, 0);
}

/// The operations a step carries out, in order.
pub open spec fn step_ops(s: SpiStep) -> Seq<int> {
    match s {
        SpiStep::Burst { first, count, .. } => index_range(first as int, first + count),
        SpiStep::Blocking(i) => seq![i as int],
        SpiStep::Dma(i) => seq![i as int],
        SpiStep::Delay(i) => seq![i as int],
        SpiStep::FlushBus => seq![],
    }
}

/// The indices `a..b`, in order.
pub open spec fn index_range(a: int, b: int) -> Seq<int> {
    Seq::new(if b >= a { (b - a) as nat } else { 0 }, |k: int| a + k)
}

/// The operations the steps carry out, in the order they run.
pub open spec fn carried(steps: Seq<SpiStep>) -> Seq<int>
    decreases steps.len(),
{
    if steps.len() == 0 { seq![] } else { carried(steps.drop_last()) + step_ops(steps.last()) }
}

/// The indices in `xs` of operations that have an effect, in order.
pub open spec fn effective(ops: Seq<SpiOp>, xs: Seq<int>) -> Seq<int>
    decreases xs.len(),
{
    if xs.len() == 0 {
        seq![]
    } else {
        let rest = effective(ops, xs.drop_last());
        if has_effect(ops[xs.last()]) { rest.push(xs.last()) } else { rest }
    }
}

proof fn lemma_carried_add(a: Seq<SpiStep>, b: Seq<SpiStep>)
    ensures
        carried(a + b) == carried(a) + carried(b),
    decreases b.len(),
{
    if b.len() == 0 {
        assert(a + b =~= a);
        assert(carried(b) =~= Seq::<int>::empty());
        assert(carried(a) + carried(b) =~= carried(a));
    } else {
        lemma_carried_add(a, b.drop_last());
        assert((a + b).drop_last() =~= a + b.drop_last());
        assert((a + b).last() == b.last());
        assert(carried(a + b) =~= carried(a) + carried(b));
    }
}

proof fn lemma_effective_add(ops: Seq<SpiOp>, a: Seq<int>, b: Seq<int>)
    ensures
        effective(ops, a + b) == effective(ops, a) + effective(ops, b),
    decreases b.len(),
{
    if b.len() == 0 {
        assert(a + b =~= a);
        assert(effective(ops, a) + effective(ops, b) =~= effective(ops, a));
    } else {
        lemma_effective_add(ops, a, b.drop_last());
        assert((a + b).drop_last() =~= a + b.drop_last());
        assert((a + b).last() == b.last());
        if has_effect(ops[b.last()]) {
            assert(effective(ops, a + b) =~= effective(ops, a) + effective(ops, b));
        }
    }
}

/// Indices of operations without effect contribute nothing.
proof fn lemma_effective_none(ops: Seq<SpiOp>, a: int, b: int)
    requires
        a <= b,
        forall|j: int| a <= j < b ==> !has_effect(#[trigger] ops[j]),
    ensures
        effective(ops, index_range(a, b)) == Seq::<int>::empty(),
    decreases b - a,
{
    if a < b {
        lemma_effective_none(ops, a, b - 1);
        assert(index_range(a, b).drop_last() =~= index_range(a, b - 1));
    } else {
        assert(index_range(a, b) =~= Seq::<int>::empty());
    }
}

/// The operations with effect that a plan for `i..` carries out, with the
/// writes `first..i` gathered, are those of `first..` in order.
proof fn lemma_plan_from_carries(ops: Seq<SpiOp>, i: int, first: int, len: int)
    requires
        0 <= first <= i <= ops.len(),
        ops.len() <= usize::MAX,
        all_writes(ops, first, i),
        bytes_between(ops, first, i) == len,
        len <= BLOCKING_MAX,
    ensures
        effective(ops, carried(plan_from(ops, i, first, len))) == effective(ops, index_range(first, ops.len() as int)),
    decreases ops.len() - i,
{
    let g = flush_group(first, i, len);
    lemma_bytes_nonneg(ops, first, i);
    if len == 0 {
        lemma_no_bytes_no_effect(ops, first, i);
        lemma_effective_none(ops, first, i);
        assert(carried(g) =~= Seq::<int>::empty());
        assert(effective(ops, carried(g)) =~= Seq::<int>::empty());
    } else {
        assert(g == seq![SpiStep::Burst { first: first as usize, count: (i - first) as usize, len: len as usize }]);
        assert(g.drop_last() =~= Seq::<SpiStep>::empty());
        assert(carried(g.drop_last()) == Seq::<int>::empty());
        assert(step_ops(g.last()) == index_range(first, i));
        assert(carried(g) == carried(g.drop_last()) + step_ops(g.last()));
        assert(carried(g) =~= index_range(first, i));
    }
    assert(effective(ops, carried(g)) == effective(ops, index_range(first, i)));
    let n = ops.len() as int;
    if i == n {
        let steps = g.push(SpiStep::FlushBus);
        assert(steps == g + seq![SpiStep::FlushBus]);
        lemma_carried_add(g, seq![SpiStep::FlushBus]);
        assert(seq![SpiStep::FlushBus].drop_last() =~= Seq::<SpiStep>::empty());
        assert(carried(seq![SpiStep::FlushBus]) =~= Seq::<int>::empty());
        assert(carried(steps) =~= carried(g));
    } else {
        match ops[i] {
            SpiOp::Write(m) if len + m <= BLOCKING_MAX => {
                assert(bytes_between(ops, first, i + 1) == len + m);
                lemma_plan_from_carries(ops, i + 1, first, len + m);
            },
            _ => {
                let d = direct_step(ops[i], i);
                let rest = plan_from(ops, i + 1, i + 1, 0);
                lemma_plan_from_carries(ops, i + 1, i + 1, 0);
                let head = g + seq![d];
                lemma_carried_add(g, seq![d]);
                lemma_carried_add(head, rest);
                assert(seq![d].drop_last() =~= Seq::<SpiStep>::empty());
                assert(carried(seq![d]) =~= seq![i]);
                assert(has_effect(ops[i]));
                assert(effective(ops, seq![i]) =~= seq![i]) by {
                    let one = seq![i];
                    assert(one.drop_last() =~= Seq::<int>::empty());
                    assert(one.last() == i);
                    assert(effective(ops, one.drop_last()) == Seq::<int>::empty());
                    assert(effective(ops, one) == effective(ops, one.drop_last()).push(i));
                }
                assert(index_range(first, n) =~= index_range(first, i) + seq![i] + index_range(i + 1, n));
                lemma_effective_add(ops, index_range(first, i) + seq![i], index_range(i + 1, n));
                lemma_effective_add(ops, index_range(first, i), seq![i]);
                lemma_effective_add(ops, carried(g), carried(seq![d]));
                lemma_effective_add(ops, carried(head), carried(rest));
            },
        }
    }
}

/// A planned transaction carries out the operations that have an effect in
/// exactly the order the transaction lists them, each once; with the
/// soundness of each step ([`lemma_plan_laws`]), the bytes clocked out and the
/// buffers filled are those of running each operation on its own, in order.
pub proof fn lemma_plan_same_as_one_by_one(ops: Seq<SpiOp>)
    requires
        ops.len() <= usize::MAX,
    ensures
        effective(ops, carried(plan(ops))) == effective(ops, index_range(0, ops.len() as int)),
{
    lemma_plan_from_carries(ops, 0, 0, 0);
}

/// Where a transaction being carried out stands.
#[derive(Clone, Copy, Debug, PartialEq, Eq, Structural)]
pub enum TxPhase {
    /// Not started.
    Idle,
    /// Chip select asserted.
    Selected,
    /// Step `k` of the plan is being carried out.
    Running(usize),
    /// Chip select being released; the transaction succeeded or not.
    Releasing(bool),
    /// Over; it succeeded or not.
    Finished(bool),
}

/// What the caller does next.
#[derive(Clone, Copy, Debug, PartialEq, Eq, Structural)]
pub enum TxAction {
    /// Drive chip select low.
    SelectChip,
    /// Carry out this step on the bus.
    Perform(SpiStep),
    /// Drive chip select high.
    ReleaseChip,
    /// Return from the transaction: `Ok` or the error of the failed call.
    Finish(bool),
}

/// Carries out a planned transaction: chip select low, the steps in order
/// until one fails, chip select high whatever happened, then the result.
pub struct TransactionRunner {
    pub steps: Vec<SpiStep>,
    pub phase: TxPhase,
}

/// The phase after the caller reports `ok` for what the runner last asked,
/// for a plan of `len` steps.
pub open spec fn tx_next(phase: TxPhase, len: nat, ok: bool) -> TxPhase {
    match phase {
        TxPhase::Idle => TxPhase::Selected,
        TxPhase::Selected => if len > 0 { TxPhase::Running(0) } else { TxPhase::Releasing(true) },
        TxPhase::Running(k) => if !ok {
            TxPhase::Releasing(false)
        } else if k + 1 < len {
            TxPhase::Running((k + 1) as usize)
        } else {
            TxPhase::Releasing(true)
        },
        TxPhase::Releasing(r) => TxPhase::Finished(r),
        TxPhase::Finished(r) => TxPhase::Finished(r),
    }
}

/// The action that goes with entering `phase`.
pub open spec fn tx_action(phase: TxPhase, steps: Seq<SpiStep>) -> TxAction {
    match phase {
        TxPhase::Idle => TxAction::SelectChip,
        TxPhase::Selected => TxAction::SelectChip,
        TxPhase::Running(k) => TxAction::Perform(steps[k as int]),
        TxPhase::Releasing(_) => TxAction::ReleaseChip,
        TxPhase::Finished(r) => TxAction::Finish(r),
    }
}

impl TransactionRunner {
    /// A runner for the transaction `ops`, planned and not yet started.
    pub fn new(ops: &Vec<SpiOp>) -> (r: TransactionRunner)
        ensures
            r.steps@ == plan(ops@),
            r.phase == TxPhase::Idle,
    {
        TransactionRunner { steps: plan_transaction(ops), phase: TxPhase::Idle }
    }

    /// Takes whether what was last asked succeeded (ignored when nothing can
    /// fail: starting, selecting, releasing) and says what to do next. A failed
    /// step ends the steps; chip select is released on every way out.
    pub fn advance(&mut self, ok: bool) -> (a: TxAction)
        requires
            old(self).phase matches TxPhase::Running(k) ==> k < old(self).steps@.len(),
        ensures
            final(self).steps == old(self).steps,
            final(self).phase == tx_next(old(self).phase, old(self).steps@.len(), ok),
            final(self).phase matches TxPhase::Running(k) ==> k < final(self).steps@.len(),
            a == tx_action(final(self).phase, final(self).steps@),
    {
        let next = match self.phase {
            TxPhase::Idle => TxPhase::Selected,
            TxPhase::Selected => if self.steps.len() > 0 { TxPhase::Running(0) } else { TxPhase::Releasing(true) },
            TxPhase::Running(k) => if !ok {
                TxPhase::Releasing(false)
            } else if k < self.steps.len() - 1 {
                TxPhase::Running(k + 1)
            } else {
                TxPhase::Releasing(true)
            },
            TxPhase::Releasing(r) => TxPhase::Finished(r),
            TxPhase::Finished(r) => TxPhase::Finished(r),
        };
        self.phase = next;
        match next {
            TxPhase::Idle => TxAction::SelectChip,
            TxPhase::Selected => TxAction::SelectChip,
            TxPhase::Running(k) => TxAction::Perform(self.steps[k]),
            TxPhase::Releasing(_) => TxAction::ReleaseChip,
            TxPhase::Finished(r) => TxAction::Finish(r),
        }
    }
}

/// The phase after reports `oks`, one per call of `advance`, from the start.
pub open spec fn tx_run(len: nat, oks: Seq<bool>) -> TxPhase
    decreases oks.len(),
{
    if oks.len() == 0 { TxPhase::Idle } else { tx_next(tx_run(len, oks.drop_last()), len, oks.last()) }
}

/// The steps before the `k`-th all succeeded: the reports for them, which
/// come after the start and the select, are all `true`.
pub open spec fn steps_ok(oks: Seq<bool>, k: int) -> bool {
    forall|j: int| 0 <= j < k ==> #[trigger] oks[j + 2]
}

/// Carrying out a plan of `len >= 1` steps: a step runs only after every
/// earlier one succeeded; the transaction ends releasing chip select, and
/// succeeds exactly when every step did; after a failure no further step
/// runs; and after `len + 3` reports it is over.
pub proof fn lemma_transaction_run(len: nat, oks: Seq<bool>)
    requires
        1 <= len <= usize::MAX,
    ensures
        tx_run(len, oks) matches TxPhase::Running(k) ==> k < len && oks.len() == k + 2 && steps_ok(oks, k as int),
        tx_run(len, oks) matches TxPhase::Releasing(r) ==> (r ==> oks.len() == len + 2 && steps_ok(oks, len as int))
            && (!r ==> exists|m: int| 0 <= m < len && oks.len() == m + 3 && steps_ok(oks, m) && !oks[m + 2]),
        tx_run(len, oks) matches TxPhase::Finished(r) ==> (r ==> oks.len() >= len + 3 && steps_ok(oks, len as int))
            && (!r ==> exists|m: int| 0 <= m < len && oks.len() >= m + 4 && steps_ok(oks, m) && !oks[m + 2]),
        tx_run(len, oks) is Idle ==> oks.len() == 0,
        tx_run(len, oks) is Selected ==> oks.len() == 1,
        oks.len() >= len + 3 ==> tx_run(len, oks) is Finished,
    decreases oks.len(),
{
    if oks.len() > 0 {
        let prev = oks.drop_last();
        lemma_transaction_run(len, prev);
        assert forall|j: int| 0 <= j < prev.len() implies oks[j] == prev[j] by {}
        match tx_run(len, prev) {
            TxPhase::Running(k) => {
                if oks.last() && k + 1 < len {
                    assert(steps_ok(oks, k + 1)) by {
                        assert forall|j: int| 0 <= j < k + 1 implies #[trigger] oks[j + 2] by {
                            if j < k {
                                assert(prev[j + 2]);
                            }
                        }
                    }
                } else if oks.last() {
                    assert(steps_ok(oks, len as int)) by {
                        assert forall|j: int| 0 <= j < len implies #[trigger] oks[j + 2] by {
                            if j < k {
                                assert(prev[j + 2]);
                            }
                        }
                    }
                } else {
                    assert(steps_ok(oks, k as int)) by {
                        assert forall|j: int| 0 <= j < k implies #[trigger] oks[j + 2] by {
                            assert(prev[j + 2]);
                        }
                    }
                    assert(!oks[k + 2]);
                }
            },
            TxPhase::Releasing(r) => {
                if r {
                    assert(steps_ok(oks, len as int)) by {
                        assert forall|j: int| 0 <= j < len implies #[trigger] oks[j + 2] by {
                            assert(prev[j + 2]);
                        }
                    }
                } else {
                    let m = choose|m: int| 0 <= m < len && prev.len() == m + 3 && steps_ok(prev, m) && !prev[m + 2];
                    assert(steps_ok(oks, m)) by {
                        assert forall|j: int| 0 <= j < m implies #[trigger] oks[j + 2] by {
                            assert(prev[j + 2]);
                        }
                    }
                    assert(!oks[m + 2]);
                }
            },
            TxPhase::Finished(r) => {
                if r {
                    assert(steps_ok(oks, len as int)) by {
                        assert forall|j: int| 0 <= j < len implies #[trigger] oks[j + 2] by {
                            assert(prev[j + 2]);
                        }
                    }
                } else {
                    let m = choose|m: int| 0 <= m < len && prev.len() >= m + 4 && steps_ok(prev, m) && !prev[m + 2];
                    assert(steps_ok(oks, m)) by {
                        assert forall|j: int| 0 <= j < m implies #[trigger] oks[j + 2] by {
                            assert(prev[j + 2]);
                        }
                    }
                    assert(!oks[m + 2]);
                }
            },
            _ => {},
        }
    }
}

} // verus!
