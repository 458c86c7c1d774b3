//! The layer stack: composable middleware wrapped around the backend
//! accessor, dispatching every operation through each layer in turn.  The
//! retry layer reattempts idempotent operations on transient errors up to
//! its attempt budget; the side-effect-only layers (logging, metrics,
//! tracing) and the concurrency-limit layer pass results through
//! unchanged.  A sequential dispatch is a single in-flight operation,
//! let through at once by any positive limit; the entry gate itself is
//! the `Gate` type in the concurrency module, driven by the task runtime.

use vstd::prelude::*;
use crate::backend::Backend;
use crate::backend::OpOutput;
use crate::backend::OpRequest;
use crate::backend::spec_op_of;
use crate::error::OpError;

verus! {

/// One layer of the stack.
#[derive(Clone, Copy, PartialEq, Eq, Structural, Debug)]
pub enum Layer {
    /// Reattempt idempotent operations on transient errors, making at
    /// most `max_attempts` attempts in all.
    Retry { max_attempts: u64 },
    /// Bound the number of in-flight operations.
    ConcurrencyLimit { permits: u64 },
    /// Record what passes through; never alter it.
    Logging,
    /// Measure what passes through; never alter it.
    Metrics,
    /// Trace what passes through; never alter it.
    Tracing,
}

impl Layer {
    /// A retry layer makes at least one attempt; a limit lets through at least
    /// one operation.
    pub open spec fn wf(&self) -> bool {
        match *self {
            Layer::Retry { max_attempts } => max_attempts >= 1,
            Layer::ConcurrencyLimit { permits } => permits >= 1,
            _ => true,
        }
    }
}

/// The operations the retry layer may reattempt: reads of state, whose
/// repetition cannot duplicate an effect.
pub open spec fn spec_idempotent(req: OpRequest) -> bool {
    match req {
        OpRequest::Stat { .. } => true,
        OpRequest::Read { .. } => true,
        OpRequest::ListPage { .. } => true,
        _ => false,
    }
}

/// Whether the retry layer may reattempt a request that just failed with
/// this error.
pub fn is_idempotent(req: &OpRequest) -> (r: bool)
    ensures
        r == spec_idempotent(*req),
{
    match req {
        OpRequest::Stat { .. } => true,
        OpRequest::Read { .. } => true,
        OpRequest::ListPage { .. } => true,
        _ => false,
    }
}

/// What dispatching through the stack from layer `idx` downward may
/// yield: past the last layer it is one backend call; a pass-through
/// layer changes nothing; a retry layer dispatches with its attempt
/// budget.
pub open spec fn spec_stack_rel(
    layers: Seq<Layer>,
    idx: int,
    pre: Backend,
    req: OpRequest,
    post: Backend,
    r: Result<OpOutput, OpError>,
) -> bool
    decreases layers.len() - idx, 1nat, 0nat, 0nat,
{
    if idx < 0 || idx >= layers.len() {
        Backend::spec_perform(pre, req, post, r)
    } else {
        match layers[idx] {
            Layer::Retry { max_attempts } => spec_retry_rel(
                layers,
                idx,
                pre,
                req,
                post,
                r,
                max_attempts as nat,
            ),
            _ => spec_stack_rel(layers, idx + 1, pre, req, post, r),
        }
    }
}

/// What a retry layer with `budget` attempts left may yield: one attempt
/// through the rest of the stack; if it failed with a transient error on
/// an idempotent request and attempts remain, the layer reattempts from
/// the state the failed attempt left; otherwise the attempt's outcome is
/// the layer's outcome, the original error kind preserved.
pub open spec fn spec_retry_rel(
    layers: Seq<Layer>,
    idx: int,
    pre: Backend,
    req: OpRequest,
    post: Backend,
    r: Result<OpOutput, OpError>,
    budget: nat,
) -> bool
    decreases layers.len() - idx, 0nat, budget, 1nat,
{
    if idx < 0 || idx >= layers.len() {
        false
    } else if budget <= 1 {
        spec_stack_rel(layers, idx + 1, pre, req, post, r)
    } else {
        exists|mid: Backend, r1: Result<OpOutput, OpError>|
            #[trigger] spec_attempt(mid, r1) && spec_retry_step(
                layers,
                idx,
                pre,
                req,
                post,
                r,
                budget,
                mid,
                r1,
            )
    }
}

/// Marks one attempt's outcome: the state it left and what it returned.
/// Always true; it names the pair an attempt consists of.
pub open spec fn spec_attempt(mid: Backend, r1: Result<OpOutput, OpError>) -> bool {
    true
}

/// One attempt of a retry layer, through the rest of the stack: the
/// attempt led from `pre` to `mid` with outcome `r1`; a transient failure
/// of an idempotent request is followed by the remaining attempts, any
/// other outcome is final.
pub open spec fn spec_retry_step(
    layers: Seq<Layer>,
    idx: int,
    pre: Backend,
    req: OpRequest,
    post: Backend,
    r: Result<OpOutput, OpError>,
    budget: nat,
    mid: Backend,
    r1: Result<OpOutput, OpError>,
) -> bool
    decreases layers.len() - idx, 0nat, budget, 0nat,
{
    if idx < 0 || idx >= layers.len() {
        false
    } else {
        &&& spec_stack_rel(layers, idx + 1, pre, req, mid, r1)
        &&& match r1 {
            Result::Err(e) => {
                if e.temporary && spec_idempotent(req) {
                    budget >= 2 && spec_retry_rel(
                        layers,
                        idx,
                        mid,
                        req,
                        post,
                        r,
                        (budget - 1) as nat,
                    )
                } else {
                    post == mid && r == r1
                }
            },
            Result::Ok(_) => post == mid && r == r1,
        }
    }
}

/// A layer stack over a backend accessor, composed in caller-specified
/// order, outermost first.
pub struct Stack {
    pub layers: Vec<Layer>,
    pub backend: Backend,
}

impl Stack {
    /// The backend and every layer are well-formed.
    pub open spec fn wf(&self) -> bool {
        &&& self.backend.wf()
        &&& forall|i: int| 0 <= i < self.layers@.len() ==> (#[trigger] self.layers@[i]).wf()
    }

    /// Wrap a backend in layers, outermost first.
    pub fn new(layers: Vec<Layer>, backend: Backend) -> (r: Stack)
        requires
            backend.wf(),
            forall|i: int| 0 <= i < layers@.len() ==> (#[trigger] layers@[i]).wf(),
        ensures
            r.wf(),
            r.layers == layers,
            r.backend == backend,
    {
        Stack { layers, backend }
    }

    /// Dispatch one operation through the whole stack.
    pub fn dispatch(&mut self, req: &OpRequest) -> (r: Result<OpOutput, OpError>)
        requires
            old(self).wf(),
        ensures
            final(self).wf(),
            final(self).layers == old(self).layers,
            spec_stack_rel(
                old(self).layers@,
                0,
                old(self).backend,
                *req,
                final(self).backend,
                r,
            ),
    {
        self.dispatch_from(0, req)
    }

    fn dispatch_from(&mut self, idx: usize, req: &OpRequest) -> (r: Result<OpOutput, OpError>)
        requires
            old(self).wf(),
            idx <= old(self).layers@.len(),
        ensures
            final(self).wf(),
            final(self).layers == old(self).layers,
            spec_stack_rel(
                old(self).layers@,
                idx as int,
                old(self).backend,
                *req,
                final(self).backend,
                r,
            ),
        decreases old(self).layers@.len() - idx, 1nat, 0nat, 0nat,
    {
        if idx >= self.layers.len() {
            self.backend.perform(req)
        } else {
            let layer = self.layers[idx];
            match layer {
                Layer::Retry { max_attempts } => self.retry_from(idx, req, max_attempts),
                _ => self.dispatch_from(idx + 1, req),
            }
        }
    }

    fn retry_from(&mut self, idx: usize, req: &OpRequest, budget: u64) -> (r: Result<
        OpOutput,
        OpError,
    >)
        requires
            old(self).wf(),
            idx < old(self).layers@.len(),
            budget >= 1,
        ensures
            final(self).wf(),
            final(self).layers == old(self).layers,
            spec_retry_rel(
                old(self).layers@,
                idx as int,
                old(self).backend,
                *req,
                final(self).backend,
                r,
                budget as nat,
            ),
        decreases old(self).layers@.len() - idx, 0nat, budget, 1nat,
    {
        let n = self.layers.len();
        let ghost pre = self.backend;
        let r1 = self.dispatch_from(idx + 1, req);
        if budget <= 1 {
            return r1;
        }
        let ghost mid = self.backend;
        let retryable = match &r1 {
            Err(e) => e.is_retryable() && is_idempotent(req),
            Ok(_) => false,
        };
        if retryable {
            let r2 = self.retry_from(idx, req, budget - 1);
            proof {
                reveal_with_fuel(spec_retry_rel, 2);
                reveal_with_fuel(spec_retry_step, 2);
                assert(spec_attempt(mid, r1));
                assert(spec_retry_step(
                    old(self).layers@,
                    idx as int,
                    pre,
                    *req,
                    final(self).backend,
                    r2,
                    budget as nat,
                    mid,
                    r1,
                ));
            }
            r2
        } else {
            proof {
                reveal_with_fuel(spec_retry_rel, 2);
                reveal_with_fuel(spec_retry_step, 2);
                assert(spec_attempt(mid, r1));
                assert(spec_retry_step(
                    old(self).layers@,
                    idx as int,
                    pre,
                    *req,
                    final(self).backend,
                    r1,
                    budget as nat,
                    mid,
                    r1,
                ));
            }
            r1
        }
    }
}

/// A stack of side-effect-only layers (no retry among them) yields
/// exactly what the bare backend yields: such layers must not alter the
/// result or the error kind of what passes through.
pub proof fn lemma_passthrough_stack(
    layers: Seq<Layer>,
    idx: int,
    pre: Backend,
    req: OpRequest,
    post: Backend,
    r: Result<OpOutput, OpError>,
)
    requires
        0 <= idx <= layers.len(),
        forall|i: int| idx <= i < layers.len() ==> !((#[trigger] layers[i]) matches Layer::Retry {
            ..
        }),
        spec_stack_rel(layers, idx, pre, req, post, r),
    ensures
        Backend::spec_perform(pre, req, post, r),
    decreases layers.len() - idx,
{
    if idx < layers.len() {
        lemma_passthrough_stack(layers, idx + 1, pre, req, post, r);
    }
}

/// A non-idempotent request passes through every layer untouched: the
/// retry layer makes a single attempt for it, and no other layer alters
/// anything, so the stack behaves as one backend call.
pub proof fn lemma_stack_single_attempt(
    layers: Seq<Layer>,
    idx: int,
    pre: Backend,
    req: OpRequest,
    post: Backend,
    r: Result<OpOutput, OpError>,
)
    requires
        0 <= idx <= layers.len(),
        spec_stack_rel(layers, idx, pre, req, post, r),
        !spec_idempotent(req),
    ensures
        Backend::spec_perform(pre, req, post, r),
    decreases layers.len() - idx, 1nat,
{
    reveal_with_fuel(spec_retry_rel, 2);
    reveal_with_fuel(spec_retry_step, 2);
    if idx < layers.len() {
        match layers[idx] {
            Layer::Retry { max_attempts } => {
                lemma_retry_single_attempt(layers, idx, pre, req, post, r, max_attempts as nat);
            },
            _ => {
                lemma_stack_single_attempt(layers, idx + 1, pre, req, post, r);
            },
        }
    }
}

proof fn lemma_retry_single_attempt(
    layers: Seq<Layer>,
    idx: int,
    pre: Backend,
    req: OpRequest,
    post: Backend,
    r: Result<OpOutput, OpError>,
    budget: nat,
)
    requires
        0 <= idx < layers.len(),
        spec_retry_rel(layers, idx, pre, req, post, r, budget),
        !spec_idempotent(req),
    ensures
        Backend::spec_perform(pre, req, post, r),
    decreases layers.len() - idx, 0nat,
{
    reveal_with_fuel(spec_retry_rel, 2);
    reveal_with_fuel(spec_retry_step, 2);
    if budget <= 1 {
        lemma_stack_single_attempt(layers, idx + 1, pre, req, post, r);
    } else {
        let (mid, r1) = choose|mid: Backend, r1: Result<OpOutput, OpError>|
            #[trigger] spec_attempt(mid, r1) && spec_retry_step(
                layers,
                idx,
                pre,
                req,
                post,
                r,
                budget,
                mid,
                r1,
            );
        lemma_stack_single_attempt(layers, idx + 1, pre, req, mid, r1);
    }
}

/// What the whole stack owes a read-only request: the stored objects and
/// the backend configuration are untouched, a success carries exactly
/// what one unfaulted backend call on the starting state answers, and a
/// backend with no scripted fault answers as that one call would.
pub proof fn lemma_stack_read_only(
    layers: Seq<Layer>,
    idx: int,
    pre: Backend,
    req: OpRequest,
    post: Backend,
    r: Result<OpOutput, OpError>,
)
    requires
        0 <= idx <= layers.len(),
        spec_stack_rel(layers, idx, pre, req, post, r),
        spec_idempotent(req),
    ensures
        post.objects@ == pre.objects@,
        post.page_size == pre.page_size,
        post.endpoint == pre.endpoint,
        post.signing_headers == pre.signing_headers,
        post.capability == pre.capability,
        r is Ok ==> Backend::spec_perform_ok(pre, req, post, r),
        pre.faults == 0 ==> Backend::spec_perform(pre, req, post, r),
    decreases layers.len() - idx, 1nat,
{
    reveal_with_fuel(spec_retry_rel, 2);
    reveal_with_fuel(spec_retry_step, 2);
    if idx < layers.len() {
        match layers[idx] {
            Layer::Retry { max_attempts } => {
                lemma_retry_read_only(layers, idx, pre, req, post, r, max_attempts as nat);
            },
            _ => {
                lemma_stack_read_only(layers, idx + 1, pre, req, post, r);
            },
        }
    }
}

proof fn lemma_retry_read_only(
    layers: Seq<Layer>,
    idx: int,
    pre: Backend,
    req: OpRequest,
    post: Backend,
    r: Result<OpOutput, OpError>,
    budget: nat,
)
    requires
        0 <= idx < layers.len(),
        spec_retry_rel(layers, idx, pre, req, post, r, budget),
        spec_idempotent(req),
    ensures
        post.objects@ == pre.objects@,
        post.page_size == pre.page_size,
        post.endpoint == pre.endpoint,
        post.signing_headers == pre.signing_headers,
        post.capability == pre.capability,
        r is Ok ==> Backend::spec_perform_ok(pre, req, post, r),
        pre.faults == 0 ==> Backend::spec_perform(pre, req, post, r),
    decreases layers.len() - idx, 0nat, budget,
{
    reveal_with_fuel(spec_retry_rel, 2);
    reveal_with_fuel(spec_retry_step, 2);
    if budget <= 1 {
        lemma_stack_read_only(layers, idx + 1, pre, req, post, r);
    } else {
        let (mid, r1) = choose|mid: Backend, r1: Result<OpOutput, OpError>|
            #[trigger] spec_attempt(mid, r1) && spec_retry_step(
                layers,
                idx,
                pre,
                req,
                post,
                r,
                budget,
                mid,
                r1,
            );
        lemma_stack_read_only(layers, idx + 1, pre, req, mid, r1);
        match r1 {
            Result::Err(e) => {
                if e.temporary {
                    lemma_retry_read_only(layers, idx, mid, req, post, r, (budget - 1) as nat);
                    assert(mid.store() == pre.store());
                    if r is Ok {
                        assert(Backend::spec_perform_ok(mid, req, post, r));
                        assert(Backend::spec_perform_ok(pre, req, post, r));
                    }
                    assert(pre.faults == 0 ==> false) by {
                        if pre.faults == 0 {
                            assert(Backend::spec_perform_ok(pre, req, mid, r1));
                        }
                    }
                }
            },
            Result::Ok(_) => {},
        }
    }
}

/// An idempotent request that the unfaulted backend is bound to answer:
/// a stat or read of a stored path, or a listing page.
pub open spec fn spec_success_owed(b: Backend, req: OpRequest) -> bool {
    match req {
        OpRequest::Stat { path } => b.store().contains_key(path@),
        OpRequest::Read { path } => b.store().contains_key(path@),
        OpRequest::ListPage { .. } => true,
        _ => false,
    }
}

/// Retry masks transient faults: a backend scripted to fail fewer times
/// than the retry budget, wrapped in that single retry layer, answers an
/// owed idempotent request successfully, with every attempt counted and
/// the fault budget used up.
pub proof fn lemma_retry_masks_faults(
    layers: Seq<Layer>,
    pre: Backend,
    req: OpRequest,
    post: Backend,
    r: Result<OpOutput, OpError>,
    budget: nat,
)
    requires
        layers.len() == 1,
        layers[0] matches Layer::Retry { .. },
        spec_retry_rel(layers, 0, pre, req, post, r, budget),
        spec_success_owed(pre, req),
        pre.fault_temporary,
        pre.faults < budget,
        pre.calls + budget <= u64::MAX,
    ensures
        r is Ok,
        post.faults == 0,
        post.calls == pre.calls + pre.faults + 1,
        post.objects@ == pre.objects@,
    decreases budget,
{
    reveal_with_fuel(spec_retry_rel, 2);
    reveal_with_fuel(spec_stack_rel, 2);
    reveal_with_fuel(spec_retry_step, 2);
    if budget <= 1 {
        assert(spec_stack_rel(layers, 1, pre, req, post, r));
        assert(Backend::spec_perform(pre, req, post, r));
        assert(pre.faults == 0);
        assert(Backend::spec_perform_ok(pre, req, post, r));
    } else {
        let (mid, r1) = choose|mid: Backend, r1: Result<OpOutput, OpError>|
            #[trigger] spec_attempt(mid, r1) && spec_retry_step(
                layers,
                0,
                pre,
                req,
                post,
                r,
                budget,
                mid,
                r1,
            );
        assert(spec_stack_rel(layers, 1, pre, req, mid, r1));
        assert(Backend::spec_perform(pre, req, mid, r1));
        if pre.faults > 0 {
            assert(mid.objects@ == pre.objects@);
            assert(mid.store() == pre.store());
            assert(r1 == Result::<OpOutput, OpError>::Err(
                crate::backend::spec_fault_error(pre, spec_op_of(req)),
            ));
            lemma_retry_masks_faults(layers, mid, req, post, r, (budget - 1) as nat);
        } else {
            assert(Backend::spec_perform_ok(pre, req, mid, r1));
            assert(r1 is Ok);
        }
    }
}

/// Retry exhaustion surfaces the original error: a backend scripted to
/// fail at least as many times as the retry budget leaves the layer with
/// the scripted error kind, every attempt counted.
pub proof fn lemma_retry_exhausts(
    layers: Seq<Layer>,
    pre: Backend,
    req: OpRequest,
    post: Backend,
    r: Result<OpOutput, OpError>,
    budget: nat,
)
    requires
        layers.len() == 1,
        layers[0] matches Layer::Retry { .. },
        spec_retry_rel(layers, 0, pre, req, post, r, budget),
        spec_idempotent(req),
        pre.fault_temporary,
        budget >= 1,
        budget <= pre.faults,
        pre.calls + budget <= u64::MAX,
    ensures
        r == Result::<OpOutput, OpError>::Err(
            OpError { kind: pre.fault_kind, op: spec_op_of(req), temporary: true },
        ),
        post.faults == pre.faults - budget,
        post.calls == pre.calls + budget,
        post.objects@ == pre.objects@,
    decreases budget,
{
    reveal_with_fuel(spec_retry_rel, 2);
    reveal_with_fuel(spec_stack_rel, 2);
    reveal_with_fuel(spec_retry_step, 2);
    if budget <= 1 {
        assert(spec_stack_rel(layers, 1, pre, req, post, r));
        assert(Backend::spec_perform(pre, req, post, r));
    } else {
        let (mid, r1) = choose|mid: Backend, r1: Result<OpOutput, OpError>|
            #[trigger] spec_attempt(mid, r1) && spec_retry_step(
                layers,
                0,
                pre,
                req,
                post,
                r,
                budget,
                mid,
                r1,
            );
        assert(spec_stack_rel(layers, 1, pre, req, mid, r1));
        assert(Backend::spec_perform(pre, req, mid, r1));
        assert(r1 == Result::<OpOutput, OpError>::Err(
            crate::backend::spec_fault_error(pre, spec_op_of(req)),
        ));
        lemma_retry_exhausts(layers, mid, req, post, r, (budget - 1) as nat);
    }
}

} // verus!
