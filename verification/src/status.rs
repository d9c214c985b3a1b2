//! What an outbound says about itself.

use vstd::prelude::*;

verus! {

/// The measured delay of a node.
#[derive(Clone, Debug)]
pub struct OutboundDelay {
    /// The tag of the node.
    pub name: String,
    /// In milliseconds.
    pub delay: u64,
}

/// What an outbound says about itself.
#[derive(Clone, Debug)]
pub struct OutboundStatus {
    pub name: String,
    pub kind: String,
    /// The node in use, for a group.
    pub now: Option<String>,
    /// The nodes of a group.
    pub all: Vec<String>,
    pub history: Vec<OutboundDelay>,
}

impl OutboundStatus {
    /// The status of an outbound that is no group.
    pub fn leaf(tag: &String, kind: &str) -> (s: OutboundStatus)
        ensures
            s.name@ == tag@,
            s.kind@ == kind@,
            s.now is None,
            s.all@.len() == 0,
            s.history@.len() == 0,
    {
        OutboundStatus {
            name: tag.clone(),
            kind: kind.to_string(),
            now: None,
            all: Vec::new(),
            history: Vec::new(),
        }
    }
}

} // verus!
