//! The WASM device host: hook masks, failure policy, body buffering and
//! the execution deadline.
use vstd::prelude::*;

verus! {

/// What happens when a device fails or overflows its body buffer.
#[derive(Debug, Clone, Copy, PartialEq, Eq, Structural)]
pub enum WasmDeviceFailPolicy {
    /// Carry on as if the device were absent.
    Open,
    /// Block the request.
    Closed,
}

/// Which hooks a device implements.
#[derive(Debug, Clone, Copy, PartialEq, Eq, Structural)]
pub struct WasmHookMask {
    pub on_request: bool,
    pub on_stream_request_body: bool,
    pub before_proxy: bool,
    pub after_proxy: bool,
    pub on_stream_response_body: bool,
    pub on_response: bool,
}

/// What the host does after a failure of the guest.
#[derive(Debug, Clone, Copy, PartialEq, Eq, Structural)]
pub enum FailureAction {
    /// Fail open: the request continues.
    Continue,
    /// Fail closed: the request is answered with 503.
    Block503,
}

/// What the host does when a request body outgrows the buffer.
#[derive(Debug, Clone, Copy, PartialEq, Eq, Structural)]
pub enum OverflowAction {
    /// Fail open: the buffered bytes go on as the current chunk.
    PassThrough,
    /// Fail closed: the request is answered with 413 `Payload too large`.
    Reject413,
}

/// The answer to a guest failure under a policy.
pub fn failure_action(policy: WasmDeviceFailPolicy) -> (a: FailureAction)
    ensures
        policy is Open ==> a == FailureAction::Continue,
        policy is Closed ==> a == FailureAction::Block503,
{
    match policy {
        WasmDeviceFailPolicy::Open => FailureAction::Continue,
        WasmDeviceFailPolicy::Closed => FailureAction::Block503,
    }
}

/// The answer to a body buffer overflow under a policy.
pub fn overflow_action(policy: WasmDeviceFailPolicy) -> (a: OverflowAction)
    ensures
        policy is Open ==> a == OverflowAction::PassThrough,
        policy is Closed ==> a == OverflowAction::Reject413,
{
    match policy {
        WasmDeviceFailPolicy::Open => OverflowAction::PassThrough,
        WasmDeviceFailPolicy::Closed => OverflowAction::Reject413,
    }
}

/// The epoch deadline of a call: the timeout in ticks, rounded up, and at
/// least one tick.
pub fn epoch_deadline_ticks(timeout_ms: u64, tick_ms: u64) -> (t: u64)
    requires
        tick_ms > 0,
    ensures
        t == (if timeout_ms == 0 { 1 } else { (timeout_ms - 1) / (tick_ms as int) + 1 }),
        t >= 1,
        (t - 1) * tick_ms < timeout_ms || t == 1,
        t * tick_ms >= timeout_ms,
{
    let q = timeout_ms / tick_ms;
    proof {
        if timeout_ms % tick_ms != 0 {
            assert(tick_ms > 1);
            assert(q < u64::MAX) by (nonlinear_arith)
                requires
                    tick_ms > 1,
                    q == timeout_ms / tick_ms,
            ;
        }
    }
    let ticks = if timeout_ms % tick_ms == 0 { q } else { q + 1 };
    proof {
        assert(timeout_ms == q * tick_ms + timeout_ms % tick_ms) by (nonlinear_arith)
            requires
                tick_ms > 0,
                q == timeout_ms / tick_ms,
        ;
        if timeout_ms > 0 {
            assert((timeout_ms - 1) / (tick_ms as int) + 1 == ticks) by (nonlinear_arith)
                requires
                    tick_ms > 0,
                    timeout_ms > 0,
                    q == timeout_ms / tick_ms,
                    timeout_ms == q * tick_ms + timeout_ms % tick_ms,
                    ticks == (if timeout_ms % tick_ms == 0 { q as int } else { q + 1 }),
            ;
        }
        assert(ticks * tick_ms >= timeout_ms) by (nonlinear_arith)
            requires
                tick_ms > 0,
                timeout_ms == q * tick_ms + timeout_ms % tick_ms,
                ticks == (if timeout_ms % tick_ms == 0 { q as int } else { q + 1 }),
                timeout_ms % tick_ms < tick_ms,
        ;
        assert(ticks == 0 || (ticks - 1) * tick_ms < timeout_ms) by (nonlinear_arith)
            requires
                tick_ms > 0,
                timeout_ms == q * tick_ms + timeout_ms % tick_ms,
                ticks == (if timeout_ms % tick_ms == 0 { q as int } else { q + 1 }),
                timeout_ms % tick_ms < tick_ms,
                timeout_ms % tick_ms >= 0,
        ;
    }
    if ticks < 1 { 1 } else { ticks }
}

/// What the host does with one chunk of a request body.
#[derive(Debug)]
pub enum RequestBodyStep {
    /// The device does not read bodies: the chunk goes on untouched.
    Skip,
    /// No buffering: the guest sees the chunk as it is.
    Forward,
    /// The buffer outgrew its limit; these are the buffered bytes, now
    /// taken out of the buffer.
    Overflow(Vec<u8>),
    /// The chunk was buffered and is held back until the body ends.
    Hold,
    /// The body ended: the guest sees it whole.
    Deliver(Vec<u8>),
}

/// A body step with its bytes as sequences.
pub enum BodyStepView {
    Skip,
    Forward,
    Overflow(Seq<u8>),
    Hold,
    Deliver(Seq<u8>),
}

impl View for RequestBodyStep {
    type V = BodyStepView;

    open spec fn view(&self) -> BodyStepView {
        match self {
            RequestBodyStep::Skip => BodyStepView::Skip,
            RequestBodyStep::Forward => BodyStepView::Forward,
            RequestBodyStep::Overflow(b) => BodyStepView::Overflow(b@),
            RequestBodyStep::Hold => BodyStepView::Hold,
            RequestBodyStep::Deliver(b) => BodyStepView::Deliver(b@),
        }
    }
}

pub open spec fn chunk_view(chunk: Option<&[u8]>) -> Option<Seq<u8>> {
    match chunk {
        Some(c) => Some(c@),
        None => None,
    }
}

/// One buffering step: the step taken and the buffer after it. Without the
/// hook, or without a limit, the buffer is left alone; otherwise the chunk
/// is appended; past the limit the whole buffer is taken out as an
/// overflow; before the end of the body the chunk is held; at the end the
/// whole buffer is taken out and delivered.
pub open spec fn body_step(
    hook_enabled: bool,
    body_buffer_max: u64,
    buffer: Seq<u8>,
    chunk: Option<Seq<u8>>,
    end_of_stream: bool,
) -> (BodyStepView, Seq<u8>) {
    if !hook_enabled {
        (BodyStepView::Skip, buffer)
    } else if body_buffer_max == 0 {
        (BodyStepView::Forward, buffer)
    } else {
        let grown = match chunk {
            Some(c) => buffer + c,
            None => buffer,
        };
        if grown.len() > body_buffer_max {
            (BodyStepView::Overflow(grown), Seq::empty())
        } else if !end_of_stream {
            (BodyStepView::Hold, grown)
        } else {
            (BodyStepView::Deliver(grown), Seq::empty())
        }
    }
}

/// The buffering decision for one request body chunk. With a buffer limit
/// the chunk is appended to the buffer; past the limit the buffer is taken
/// out as an overflow; before the end of the body the chunk is held; at the
/// end the whole buffer is taken out and delivered.
pub fn request_body_step(
    hook_enabled: bool,
    body_buffer_max: u64,
    buffer: &mut Vec<u8>,
    chunk: Option<&[u8]>,
    end_of_stream: bool,
) -> (s: RequestBodyStep)
    ensures
        (s@, final(buffer)@) == body_step(hook_enabled, body_buffer_max, old(buffer)@, chunk_view(chunk), end_of_stream),
{
    if !hook_enabled {
        return RequestBodyStep::Skip;
    }
    if body_buffer_max == 0 {
        return RequestBodyStep::Forward;
    }
    if let Some(c) = chunk {
        let mut i: usize = 0;
        let ghost start = buffer@;
        while i < c.len()
            invariant
                i <= c@.len(),
                buffer@ == start + c@.take(i as int),
            decreases c@.len() - i,
        {
            buffer.push(c[i]);
            i = i + 1;
            assert(buffer@ =~= start + c@.take(i as int));
        }
        assert(c@.take(c@.len() as int) =~= c@);
    }
    if buffer.len() as u64 > body_buffer_max {
        let mut taken: Vec<u8> = Vec::new();
        std::mem::swap(&mut taken, buffer);
        return RequestBodyStep::Overflow(taken);
    }
    if !end_of_stream {
        return RequestBodyStep::Hold;
    }
    let mut body: Vec<u8> = Vec::new();
    std::mem::swap(&mut body, buffer);
    RequestBodyStep::Deliver(body)
}


/// The epoch tick of the WASM engine, in milliseconds.
pub const EPOCH_TICK_MS: u64 = 10;

/// The instance pool of the WASM engine.
#[derive(Debug, Clone, Copy, PartialEq, Eq, Structural)]
pub struct PoolLimits {
    pub total_component_instances: u32,
    pub max_component_instance_size: usize,
    pub max_memory_size: usize,
    pub total_memories: u32,
    pub total_tables: u32,
    pub total_core_instances: u32,
    pub total_stacks: u32,
}

/// The pool for a number of concurrent executions: one component instance
/// and one stack per execution, two memories and two tables, four core
/// instances; instances of at most 1 MiB; memories as configured.
pub fn pool_limits(max_concurrent_executions: u32, max_memory_bytes: usize) -> (p: PoolLimits)
    requires
        4 * max_concurrent_executions <= u32::MAX,
    ensures
        p.total_component_instances == max_concurrent_executions,
        p.max_component_instance_size == 1048576,
        p.max_memory_size == max_memory_bytes,
        p.total_memories == 2 * max_concurrent_executions,
        p.total_tables == 2 * max_concurrent_executions,
        p.total_core_instances == 4 * max_concurrent_executions,
        p.total_stacks == max_concurrent_executions,
{
    let e = max_concurrent_executions;
    PoolLimits {
        total_component_instances: e,
        max_component_instance_size: 1048576,
        max_memory_size: max_memory_bytes,
        total_memories: 2 * e,
        total_tables: 2 * e,
        total_core_instances: 4 * e,
        total_stacks: e,
    }
}


/// The chunks of a body, joined.
pub open spec fn joined(chunks: Seq<Seq<u8>>) -> Seq<u8>
    decreases chunks.len(),
{
    if chunks.len() == 0 {
        Seq::empty()
    } else {
        joined(chunks.drop_last()) + chunks.last()
    }
}

/// The buffer before the `k`-th chunk of a body fed to a device with the
/// hook and a buffer limit, starting empty; the body ends with its last
/// chunk.
pub open spec fn buffer_before(chunks: Seq<Seq<u8>>, limit: u64, k: nat) -> Seq<u8>
    decreases k,
{
    if k == 0 {
        Seq::empty()
    } else {
        body_step(true, limit, buffer_before(chunks, limit, (k - 1) as nat), Some(chunks[k - 1]),
            k == chunks.len()).1
    }
}

/// Buffering delivers the body whole: fed chunk by chunk from an empty
/// buffer, a body that fits the limit is held at every chunk but the last,
/// and the last delivers all chunks joined, in order, leaving the buffer
/// empty.
pub proof fn law_buffered_body_is_delivered_whole(chunks: Seq<Seq<u8>>, limit: u64)
    requires
        limit > 0,
        chunks.len() > 0,
        joined(chunks).len() <= limit,
    ensures
        forall|k: int| 0 <= k < chunks.len() - 1 ==>
            #[trigger] body_step(true, limit, buffer_before(chunks, limit, k as nat), Some(chunks[k]), false)
                == (BodyStepView::Hold, joined(chunks.take(k + 1))),
        body_step(true, limit, buffer_before(chunks, limit, (chunks.len() - 1) as nat),
            Some(chunks.last()), true) == (BodyStepView::Deliver(joined(chunks)), Seq::<u8>::empty()),
{
    let n = chunks.len();
    assert forall|k: int| 0 <= k < n implies #[trigger] buffer_before(chunks, limit, k as nat) == joined(chunks.take(k)) by {
        lemma_buffer_before(chunks, limit, k as nat);
    }
    assert forall|k: int| 0 <= k < n - 1 implies
        #[trigger] body_step(true, limit, buffer_before(chunks, limit, k as nat), Some(chunks[k]), false)
            == (BodyStepView::Hold, joined(chunks.take(k + 1))) by {
        assert(buffer_before(chunks, limit, k as nat) == joined(chunks.take(k)));
        lemma_joined_step(chunks, k + 1);
        lemma_joined_prefix_len(chunks, k + 1);
    }
    assert(buffer_before(chunks, limit, (n - 1) as nat) == joined(chunks.take(n - 1)));
    lemma_joined_step(chunks, n as int);
    assert(chunks.take(n as int) =~= chunks);
}

proof fn lemma_joined_step(chunks: Seq<Seq<u8>>, k: int)
    requires
        1 <= k <= chunks.len(),
    ensures
        joined(chunks.take(k)) == joined(chunks.take(k - 1)) + chunks[k - 1],
{
    assert(chunks.take(k).drop_last() =~= chunks.take(k - 1));
}

proof fn lemma_buffer_before(chunks: Seq<Seq<u8>>, limit: u64, k: nat)
    requires
        limit > 0,
        k < chunks.len(),
        joined(chunks).len() <= limit,
    ensures
        buffer_before(chunks, limit, k) == joined(chunks.take(k as int)),
    decreases k,
{
    if k == 0 {
        assert(chunks.take(0) =~= Seq::<Seq<u8>>::empty());
    } else {
        lemma_buffer_before(chunks, limit, (k - 1) as nat);
        lemma_joined_step(chunks, k as int);
        lemma_joined_prefix_len(chunks, k as int);
    }
}

pub proof fn lemma_joined_prefix_len(chunks: Seq<Seq<u8>>, k: int)
    requires
        0 <= k <= chunks.len(),
    ensures
        joined(chunks.take(k)).len() <= joined(chunks).len(),
    decreases chunks.len(),
{
    if k < chunks.len() {
        assert(chunks.drop_last().take(k) =~= chunks.take(k));
        lemma_joined_prefix_len(chunks.drop_last(), k);
    } else {
        assert(chunks.take(k) =~= chunks);
    }
}

} // verus!
