//! The manual-mode mailbox: at most one request waits for a pasted answer,
//! and every request gets a larger sequence number than the one before.

use vstd::prelude::*;

verus! {

/// The state of the mailbox. `R` is whatever delivers the answer to the
/// waiting request.
pub struct ManualState<R> {
    pending: Option<Option<R>>,
    next_seq: u64,
}

/// The mailbox as data: what waits for an answer (none when no request
/// waits; the responder of the waiting request otherwise) and the last
/// sequence number handed out (0 before the first request).
pub struct ManualStateView<R> {
    pub waiting: Option<Option<R>>,
    pub seq: nat,
}

impl<R> View for ManualState<R> {
    type V = ManualStateView<R>;

    closed spec fn view(&self) -> ManualStateView<R> {
        ManualStateView { waiting: self.pending, seq: self.next_seq as nat }
    }
}

/// Registering a request answered through `responder`: the next sequence
/// number; the new responder now waits, replacing any request that still
/// waited.
pub open spec fn spec_request<R>(s: ManualStateView<R>, responder: R) -> (nat, ManualStateView<R>) {
    (s.seq + 1, ManualStateView { waiting: Some(Some(responder)), seq: s.seq + 1 })
}

/// Answering: hands back what waited (the responder of the latest request),
/// after which nothing waits.
pub open spec fn spec_respond<R>(s: ManualStateView<R>) -> (Option<Option<R>>, ManualStateView<R>) {
    (s.waiting, ManualStateView { waiting: None, seq: s.seq })
}

/// Cancelling: nothing waits afterwards.
pub open spec fn spec_cancel<R>(s: ManualStateView<R>) -> ManualStateView<R> {
    ManualStateView { waiting: None, seq: s.seq }
}

impl<R> ManualState<R> {
    pub fn new() -> (r: Self)
        ensures
            r@ == (ManualStateView::<R> { waiting: None, seq: 0 }),
    {
        ManualState { pending: None, next_seq: 0 }
    }

    /// The last sequence number handed out.
    pub fn last_seq(&self) -> (r: u64)
        ensures
            r == self@.seq,
    {
        self.next_seq
    }

    /// Registers a request answered through `responder`; a request that was
    /// still waiting is dropped (its receiver then sees a cancellation).
    /// Returns the request's sequence number.
    pub fn request(&mut self, responder: R) -> (seq: u64)
        requires
            old(self)@.seq < u64::MAX,
        ensures
            (seq as nat, final(self)@) == spec_request(old(self)@, responder),
    {
        let seq = self.next_seq + 1;
        self.next_seq = seq;
        self.pending = Some(Some(responder));
        seq
    }

    /// Takes what waits: `Some` (holding the latest request's responder)
    /// means an answer can be delivered; `None` means nothing waits.
    pub fn respond(&mut self) -> (r: Option<Option<R>>)
        ensures
            (r, final(self)@) == spec_respond(old(self)@),
    {
        self.pending.take()
    }

    /// Drops the waiting request, if any.
    pub fn cancel(&mut self)
        ensures
            final(self)@ == spec_cancel(old(self)@),
    {
        self.pending = None;
    }

    /// Whether a request waits for an answer.
    pub fn has_pending(&self) -> (r: bool)
        ensures
            r == self@.waiting is Some,
    {
        self.pending.is_some()
    }
}

/// Sequence numbers grow by exactly one per request, whatever answers or
/// cancellations happen in between.
pub proof fn lemma_seq_increments<R>(s: ManualStateView<R>, r1: R, r2: R, answered: bool)
    ensures
        ({
            let (a, s1) = spec_request(s, r1);
            let s2 = if answered {
                spec_respond(s1).1
            } else {
                spec_cancel(s1)
            };
            let (b, _) = spec_request(s2, r2);
            b == a + 1
        }),
{
}

/// An answer to a waiting request goes to that request's responder, once; a
/// second answer finds nothing waiting.
pub proof fn lemma_respond_once<R>(s: ManualStateView<R>, r: R)
    ensures
        ({
            let (_, s1) = spec_request(s, r);
            let (got1, s2) = spec_respond(s1);
            let (got2, s3) = spec_respond(s2);
            got1 == Some(Some(r)) && got2 is None && s3.waiting is None
        }),
{
}

/// A new request overrides the one still waiting: the next answer goes to
/// the newer responder.
pub proof fn lemma_new_request_overrides<R>(s: ManualStateView<R>, old_r: R, new_r: R)
    ensures
        ({
            let (_, s1) = spec_request(s, old_r);
            let (_, s2) = spec_request(s1, new_r);
            spec_respond(s2).0 == Some(Some(new_r))
        }),
{
}

/// After a cancellation nothing waits, and an answer finds nothing.
pub proof fn lemma_cancel_clears<R>(s: ManualStateView<R>)
    ensures
        spec_cancel(s).waiting is None,
        spec_respond(spec_cancel(s)).0 is None,
{
}

} // verus!
