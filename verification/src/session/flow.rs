//! Credit-based flow control.

use crate::error::{ErrorView, SeamError};
use vstd::prelude::*;

verus! {

/// Credit-based flow control window: the sender may not transmit beyond
/// `limit` bytes in total.
pub struct FlowWindow {
    limit: u64,
    consumed: u64,
}

/// What a [`FlowWindow`] stands for.
pub struct Credit {
    /// Total bytes the remote has permitted.
    pub limit: u64,
    /// Total bytes reserved so far.
    pub consumed: u64,
}

impl View for FlowWindow {
    type V = Credit;

    closed spec fn view(&self) -> Credit {
        Credit { limit: self.limit, consumed: self.consumed }
    }
}

impl Credit {
    /// No more was ever reserved than permitted.
    pub open spec fn wf(self) -> bool {
        self.consumed <= self.limit
    }

    /// Bytes that can still be reserved.
    pub open spec fn available(self) -> u64 {
        (self.limit - self.consumed) as u64
    }

    /// The next `n` bytes fit into the limit.
    pub open spec fn has_room(self, n: nat) -> bool {
        self.consumed + n <= self.limit
    }

    /// The window after reserving `n` bytes, if they fit.
    pub open spec fn reserve(self, n: u64) -> Credit {
        if self.has_room(n as nat) {
            Credit { consumed: (self.consumed + n) as u64, ..self }
        } else {
            self
        }
    }

    /// The window after the remote announced `new_limit`.
    pub open spec fn raise(self, new_limit: u64) -> Credit {
        if new_limit > self.limit {
            Credit { limit: new_limit, ..self }
        } else {
            self
        }
    }
}

impl FlowWindow {
    pub fn new(initial_limit: u64) -> (w: Self)
        ensures
            w@ == (Credit { limit: initial_limit, consumed: 0 }),
            w@.wf(),
    {
        Self { limit: initial_limit, consumed: 0 }
    }

    /// Try to reserve `n` bytes: they are taken if they fit into the limit,
    /// else the window stays as it is and the error names the credit left.
    pub fn reserve(&mut self, n: u64) -> (r: Result<(), SeamError>)
        requires
            old(self)@.wf(),
        ensures
            final(self)@ == old(self)@.reserve(n),
            final(self)@.wf(),
            match r {
                Ok(()) => old(self)@.has_room(n as nat),
                Err(e) => !old(self)@.has_room(n as nat) && e@ == (ErrorView::FlowControlBlocked {
                    available: old(self)@.available(),
                    requested: n,
                }),
            },
    {
        if n > self.limit - self.consumed {
            Err(
                SeamError::FlowControlBlocked {
                    available: self.limit.saturating_sub(self.consumed),
                    requested: n,
                },
            )
        } else {
            self.consumed = self.consumed + n;
            Ok(())
        }
    }

    /// The remote has announced a limit: it counts if it is a larger one.
    pub fn update_limit(&mut self, new_limit: u64)
        ensures
            final(self)@ == old(self)@.raise(new_limit),
            old(self)@.wf() ==> final(self)@.wf(),
    {
        if new_limit > self.limit {
            self.limit = new_limit;
        }
    }

    /// Bytes that can still be reserved.
    pub fn available(&self) -> (n: u64)
        requires
            self@.wf(),
        ensures
            n == self@.available(),
    {
        self.limit.saturating_sub(self.consumed)
    }

    /// Total bytes permitted.
    pub fn limit(&self) -> (n: u64)
        ensures
            n == self@.limit,
    {
        self.limit
    }
}

/// The limit never shrinks, whatever the remote announces.
pub proof fn limit_only_grows(w: Credit, new_limit: u64)
    ensures
        w.raise(new_limit).limit >= w.limit,
        w.raise(new_limit).limit >= new_limit,
        w.raise(new_limit).consumed == w.consumed,
{
}

/// Reserving moves credit from available to consumed, and nothing else:
/// however the calls are ordered, no more is ever consumed than permitted.
pub proof fn reserve_conserves_credit(w: Credit, n: u64)
    requires
        w.wf(),
    ensures
        w.reserve(n).wf(),
        w.reserve(n).limit == w.limit,
        w.reserve(n).consumed + w.reserve(n).available() == w.consumed + w.available(),
        w.has_room(n as nat) ==> w.reserve(n).available() == w.available() - n,
{
}

} // verus!
