//! Sliding-window replay protection.

use vstd::prelude::*;

verus! {

/// How far behind the highest number a packet may be and still be accepted.
pub const REPLAY_WINDOW: u64 = 128;

/// Remembers which packet numbers were accepted: all that lie
/// [`REPLAY_WINDOW`] or more behind the highest one count as seen.
pub struct ReplayWindow {
    /// One more than the highest number accepted; 0 if none was.
    top: u128,
    /// Bit `i`: the number `top - 1 - i` was accepted.
    bits: u128,
}

/// What a [`ReplayWindow`] stands for.
#[verifier::ext_equal]
pub struct ReplayState {
    /// One more than the highest number accepted.
    pub top: int,
    /// The accepted numbers that lie inside the window.
    pub recent: Set<int>,
}

impl ReplayState {
    pub open spec fn new() -> ReplayState {
        ReplayState { top: 0, recent: Set::empty() }
    }

    /// Only numbers inside the window are remembered.
    pub open spec fn wf(self) -> bool {
        forall|m: int| #[trigger]
            self.recent.contains(m) ==> self.top - REPLAY_WINDOW <= m < self.top
    }

    /// The number was certainly not accepted before.
    pub open spec fn is_fresh(self, n: u64) -> bool {
        n >= self.top || (n >= self.top - REPLAY_WINDOW && !self.recent.contains(n as int))
    }

    /// The state after accepting `n`.
    pub open spec fn accept(self, n: u64) -> ReplayState {
        let top = if n >= self.top {
            n + 1
        } else {
            self.top
        };
        ReplayState {
            top,
            recent: self.recent.insert(n as int).filter(|m: int| top - REPLAY_WINDOW <= m < top),
        }
    }
}

spec fn bit(bits: u128, i: u128) -> bool {
    (bits >> i) & 1 == 1
}

impl View for ReplayWindow {
    type V = ReplayState;

    closed spec fn view(&self) -> ReplayState {
        ReplayState {
            top: self.top as int,
            recent: Set::new(
                |m: int|
                    self.top - REPLAY_WINDOW <= m < self.top && bit(
                        self.bits,
                        (self.top - 1 - m) as u128,
                    ),
            ),
        }
    }
}

proof fn shift_bits(bits: u128, d: u128, i: u128)
    by (bit_vector)
    requires
        0 < d < 128,
        i < 128,
    ensures
        (((bits << d) | 1u128) >> i) & 1 == (if i == 0 {
            1u128
        } else if i < d {
            0u128
        } else {
            (bits >> ((i - d) as u128)) & 1
        }),
{
}

proof fn set_bit(bits: u128, d: u128, i: u128)
    by (bit_vector)
    requires
        d < 128,
        i < 128,
    ensures
        ((bits | (1u128 << d)) >> i) & 1 == (if i == d {
            1u128
        } else {
            (bits >> i) & 1
        }),
{
}

proof fn one_bit(i: u128)
    by (bit_vector)
    requires
        i < 128,
    ensures
        (1u128 >> i) & 1 == (if i == 0 {
            1u128
        } else {
            0u128
        }),
{
}

proof fn no_bits(i: u128)
    by (bit_vector)
    ensures
        (0u128 >> i) & 1 == 0u128,
{
}

impl ReplayWindow {
    /// The highest number is a `u64`.
    #[verifier::type_invariant]
    spec fn top_in_range(self) -> bool {
        self.top <= 0x1_0000_0000_0000_0000
    }

    pub fn new() -> (w: Self)
        ensures
            w@ == ReplayState::new(),
            w@.wf(),
    {
        let w = ReplayWindow { top: 0, bits: 0 };
        assert forall|m: int| !w@.recent.contains(m) by {
            no_bits((0 - 1 - m) as u128);
        }
        w
    }

    /// Accept `n` unless it was accepted before or is too old to tell.
    pub fn accept(&mut self, n: u64) -> (fresh: bool)
        ensures
            fresh == old(self)@.is_fresh(n),
            final(self)@ == (if fresh {
                old(self)@.accept(n)
            } else {
                old(self)@
            }),
            final(self)@.wf(),
    {
        proof {
            use_type_invariant(&*self);
        }
        let ghost before = *self;
        let n128: u128 = n as u128;
        if n128 >= self.top {
            let d: u128 = n128 + 1 - self.top;
            let bits: u128 = if d < 128 {
                (self.bits << d) | 1
            } else {
                1
            };
            *self = ReplayWindow { top: n128 + 1, bits };
            assert forall|m: int| self@.recent.contains(m) == before@.accept(n).recent.contains(m) by {
                if n - 127 <= m <= n {
                    let i = (n - m) as u128;
                    one_bit(i);
                    if d < 128 {
                        shift_bits(before.bits, d, i);
                    }
                }
            }
            assert(self@.recent =~= before@.accept(n).recent);
            true
        } else {
            let d: u128 = self.top - 1 - n128;
            if d >= 128 || (self.bits >> d) & 1 == 1 {
                false
            } else {
                let bits: u128 = self.bits | (1u128 << d);
                *self = ReplayWindow { top: self.top, bits };
                assert forall|m: int|
                    self@.recent.contains(m) == before@.accept(n).recent.contains(m) by {
                    if before.top - 128 <= m < before.top {
                        set_bit(before.bits, d, (before.top - 1 - m) as u128);
                    }
                }
                assert(self@.recent =~= before@.accept(n).recent);
                true
            }
        }
    }
}

/// No number is accepted twice: once accepted it is never fresh again, and
/// accepting other numbers does not change that.
pub proof fn never_accepted_twice(s: ReplayState, n: u64, m: u64)
    requires
        s.is_fresh(n),
    ensures
        !s.accept(n).is_fresh(n),
        !s.is_fresh(m) ==> !s.accept(n).is_fresh(m),
{
}

/// A number inside the window that was not accepted is fresh, however many
/// others are accepted before it: reordering costs no packet.
pub proof fn reordered_packet_is_fresh(s: ReplayState, n: u64, m: u64)
    requires
        s.wf(),
        s.is_fresh(m),
        m != n,
        m >= s.accept(n).top - REPLAY_WINDOW,
    ensures
        s.accept(n).is_fresh(m),
{
}

} // verus!
