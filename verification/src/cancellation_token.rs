//! A flag by which the web server tells the archive loop to stop.

use vstd::prelude::*;

verus! {

/// A flag that a running archive loop polls to learn that it should stop.
pub struct CancellationToken {
    cancelled: bool,
}

/// A call on a token.
#[derive(Clone, Copy, Debug, PartialEq, Eq, Structural)]
pub enum TokenCall {
    Cancel,
    IsCancelled,
}

/// Whether a token is cancelled after `call`, given whether it was before:
/// `cancel` cancels it, `is_cancelled` leaves it as it is.
pub open spec fn token_step(cancelled: bool, call: TokenCall) -> bool {
    match call {
        TokenCall::Cancel => true,
        TokenCall::IsCancelled => cancelled,
    }
}

/// Whether a new token is cancelled after `calls`.
pub open spec fn cancelled_after(calls: Seq<TokenCall>) -> bool
    decreases calls.len(),
{
    if calls.len() == 0 {
        false
    } else {
        token_step(cancelled_after(calls.drop_last()), calls.last())
    }
}

impl CancellationToken {
    /// Whether `cancel` has been called on this token.
    pub closed spec fn has_been_cancelled(&self) -> bool {
        self.cancelled
    }

    /// A token that has not been cancelled.
    pub fn new() -> (r: CancellationToken)
        ensures
            r.has_been_cancelled() == cancelled_after(Seq::empty()),
            !r.has_been_cancelled(),
    {
        CancellationToken { cancelled: false }
    }

    /// Whether the token has been cancelled; the call takes the token by
    /// shared reference, so it stays as it is (`token_step` of
    /// `IsCancelled`).
    pub fn is_cancelled(&self) -> (r: bool)
        ensures
            r == self.has_been_cancelled(),
    {
        self.cancelled
    }

    /// Cancels the token; a cancelled token stays cancelled.
    pub fn cancel(&mut self)
        ensures
            final(self).has_been_cancelled() == token_step(
                old(self).has_been_cancelled(),
                TokenCall::Cancel,
            ),
            final(self).has_been_cancelled(),
    {
        self.cancelled = true;
    }
}

impl Default for CancellationToken {
    fn default() -> (r: Self)
        ensures
            r.has_been_cancelled() == cancelled_after(Seq::empty()),
            !r.has_been_cancelled(),
    {
        Self::new()
    }
}

/// After `new` (or `default`) and any sequence of calls, the token is
/// cancelled exactly when `cancel` was among them.
pub proof fn lemma_cancelled_iff_cancel_called(calls: Seq<TokenCall>)
    ensures
        cancelled_after(calls) == calls.contains(TokenCall::Cancel),
    decreases calls.len(),
{
    if calls.len() > 0 {
        let shorter = calls.drop_last();
        lemma_cancelled_iff_cancel_called(shorter);
        if shorter.contains(TokenCall::Cancel) {
            let k = choose|k: int| 0 <= k < shorter.len() && shorter[k] == TokenCall::Cancel;
            assert(calls[k] == TokenCall::Cancel);
        }
        if calls.last() == TokenCall::Cancel {
            assert(calls[calls.len() - 1] == TokenCall::Cancel);
        } else if calls.contains(TokenCall::Cancel) {
            let k = choose|k: int| 0 <= k < calls.len() && calls[k] == TokenCall::Cancel;
            assert(shorter[k] == TokenCall::Cancel);
        }
    }
}

/// Every `is_cancelled` answers whether `cancel` came before it, so once it
/// answers `true` it answers `true` after any further calls.
pub proof fn lemma_cancellation_is_permanent(calls: Seq<TokenCall>, i: int, j: int)
    requires
        0 <= i <= j <= calls.len(),
    ensures
        cancelled_after(calls.take(i)) == calls.take(i).contains(TokenCall::Cancel),
        cancelled_after(calls.take(i)) ==> cancelled_after(calls.take(j)),
{
    lemma_cancelled_iff_cancel_called(calls.take(i));
    lemma_cancelled_iff_cancel_called(calls.take(j));
    if cancelled_after(calls.take(i)) {
        let k = choose|k: int| 0 <= k < calls.take(i).len() && calls.take(i)[k] == TokenCall::Cancel;
        assert(calls.take(j)[k] == TokenCall::Cancel);
    }
}

} // verus!
