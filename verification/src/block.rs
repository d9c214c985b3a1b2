//! An outbound that lets nothing through.

use crate::status::OutboundStatus;
use crate::text::{eq_ignore_case, lower_text};
use vstd::prelude::*;

verus! {

/// The settings of an outbound that lets nothing through.
#[derive(Clone, Debug)]
pub struct BlockOutboundConfig {
    pub tag: String,
    /// `drop` for an outbound that does not even close connections.
    pub method: Option<String>,
}

/// An outbound that lets nothing through.
pub struct BlockOutbound {
    pub config: BlockOutboundConfig,
    /// Whether connections stay open, and what they send is thrown away.
    pub silent_drop: bool,
}

/// What becomes of a connection.
#[derive(Clone, Copy, Debug, PartialEq, Eq, Structural)]
pub enum BlockAction {
    /// It is closed at once.
    Close,
    /// What it sends is read and thrown away until it ends.
    Discard,
}

impl BlockOutbound {
    /// An outbound with the given settings; case does not matter in the method.
    pub fn new(config: BlockOutboundConfig) -> (outbound: BlockOutbound)
        ensures
            outbound.config == config,
            outbound.silent_drop == (config.method is Some && lower_text(config.method->Some_0@)
                == "drop"@),
    {
        let silent_drop: bool = match &config.method {
            Some(m) => eq_ignore_case(m, "drop"),
            None => false,
        };
        proof {
            reveal_strlit("drop");
            assert(lower_text("drop"@) =~= "drop"@);
        }
        BlockOutbound { config, silent_drop }
    }

    /// What becomes of a connection.
    pub fn tcp_action(&self) -> (action: BlockAction)
        ensures
            action == if self.silent_drop {
                BlockAction::Discard
            } else {
                BlockAction::Close
            },
    {
        if self.silent_drop {
            BlockAction::Discard
        } else {
            BlockAction::Close
        }
    }

    /// The counts that are reported for a connection after so many bytes were thrown away.
    pub fn tcp_counts(&self, discarded: u64) -> (counts: (u64, u64))
        ensures
            counts == if self.silent_drop {
                (0u64, discarded)
            } else {
                (0u64, 0u64)
            },
    {
        if self.silent_drop {
            (0, discarded)
        } else {
            (0, 0)
        }
    }

    /// What the outbound says about itself.
    pub fn status(&self) -> (s: OutboundStatus)
        ensures
            s.name@ == self.config.tag@,
            s.kind@ == "Reject"@,
            s.now is None,
            s.all@.len() == 0,
            s.history@.len() == 0,
    {
        OutboundStatus::leaf(&self.config.tag, "Reject")
    }
}

} // verus!
