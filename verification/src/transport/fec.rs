//! Which packets go into which group of forward error correction.

use vstd::prelude::*;

verus! {

/// How losses are repaired: by sending again, by repair packets, or by both.
/// Repair packets come `r` for each `k` packets.
#[derive(Debug, Clone, Copy, PartialEq, Eq, Structural)]
pub enum ArbiterMode {
    PureArq,
    HybridFecArq { k: usize, r: usize },
    PureFec { k: usize, r: usize },
}

/// The group that is being filled.
#[derive(Debug, Clone, Copy, PartialEq, Eq, Structural)]
pub struct FecGroups {
    pub group: u32,
    /// The group of the encoder at hand, if there is one.
    pub encoder: Option<u32>,
}

/// What to do with a packet that was sent: hand it to the encoder of its group.
#[derive(Debug, Clone, Copy, PartialEq, Eq, Structural)]
pub struct FecSource {
    pub group: u32,
    pub k: usize,
    pub r: usize,
    /// The group has no encoder yet: start one.
    pub start: bool,
}

impl FecGroups {
    pub open spec fn first() -> FecGroups {
        FecGroups { group: 0, encoder: None }
    }

    /// What to do with a packet, unless losses are repaired by sending again.
    pub open spec fn source(self, mode: ArbiterMode) -> Option<FecSource> {
        let start = self.encoder != Some(self.group);
        match mode {
            ArbiterMode::PureArq => None,
            ArbiterMode::HybridFecArq { k, r } => Some(
                FecSource { group: self.group, k, r, start },
            ),
            ArbiterMode::PureFec { k, r } => Some(FecSource { group: self.group, k, r, start }),
        }
    }

    /// The group once the packet is with its encoder.
    pub open spec fn with_source(self, mode: ArbiterMode) -> FecGroups {
        if mode is PureArq {
            self
        } else {
            FecGroups { encoder: Some(self.group), ..self }
        }
    }

    /// The next group; numbers start again after the greatest.
    pub open spec fn next(self) -> FecGroups {
        FecGroups {
            group: if self.group == u32::MAX {
                0
            } else {
                (self.group + 1) as u32
            },
            ..self
        }
    }

    pub fn new() -> (g: Self)
        ensures
            g == FecGroups::first(),
    {
        FecGroups { group: 0, encoder: None }
    }

    /// A packet was sent: what to do with it, if anything.
    pub fn on_source(&mut self, mode: ArbiterMode) -> (r: Option<FecSource>)
        ensures
            r == old(self).source(mode),
            *final(self) == old(self).with_source(mode),
    {
        let (k, r): (usize, usize) = match mode {
            ArbiterMode::PureArq => {
                return None;
            },
            ArbiterMode::HybridFecArq { k, r } => (k, r),
            ArbiterMode::PureFec { k, r } => (k, r),
        };
        let start: bool = match self.encoder {
            Some(group) => group != self.group,
            None => true,
        };
        self.encoder = Some(self.group);
        Some(FecSource { group: self.group, k, r, start })
    }

    /// The encoder has given the repair packets of its group: the group is full.
    pub fn on_repairs(&mut self)
        ensures
            *final(self) == old(self).next(),
    {
        self.group = self.group.wrapping_add(1);
    }
}

/// A group has one encoder: its first packet starts it, the others do not, until
/// the group is full; then the next packet starts that of the next group.
pub proof fn one_encoder_for_a_group(g: FecGroups, mode: ArbiterMode, other: ArbiterMode)
    requires
        !(mode is PureArq),
        !(other is PureArq),
    ensures
        ({
            let filled = g.with_source(mode);
            &&& filled.source(other) matches Some(s) && s.group == g.group && !s.start
            &&& filled.next().source(other) matches Some(s) && s.group == g.next().group && s.start
        }),
{
}

} // verus!
