//! What an internal request is for.

use crate::protocol::{InternalSessionSource, SessionSource, SubAgentSource};
use vstd::prelude::*;

verus! {

/// What an internal request is for.
#[derive(Debug, Clone, Copy, PartialEq, Eq, Structural, Hash)]
pub enum Purpose {
    Compact,
    Review,
    Memory,
}

/// The key of a purpose in the configuration.
pub open spec fn purpose_key(p: Purpose) -> Seq<char> {
    match p {
        Purpose::Compact => "compact"@,
        Purpose::Review => "review"@,
        Purpose::Memory => "memory"@,
    }
}

impl Purpose {
    /// The key of the purpose in the configuration.
    pub fn as_key(self) -> (r: &'static str)
        ensures
            r@ == purpose_key(self),
    {
        match self {
            Purpose::Compact => "compact",
            Purpose::Review => "review",
            Purpose::Memory => "memory",
        }
    }
}

/// What a request from this session is for. A session of the user has no purpose of its own.
pub open spec fn purpose_of(source: SessionSource) -> Option<Purpose> {
    match source {
        SessionSource::SubAgent(SubAgentSource::Review) => Some(Purpose::Review),
        SessionSource::SubAgent(SubAgentSource::Compact) => Some(Purpose::Compact),
        SessionSource::SubAgent(SubAgentSource::MemoryConsolidation) => Some(Purpose::Memory),
        SessionSource::Internal(InternalSessionSource::MemoryConsolidation) => Some(
            Purpose::Memory,
        ),
        _ => None,
    }
}

/// What a request from this session is for.
pub fn purpose_from_source(source: &SessionSource) -> (r: Option<Purpose>)
    ensures
        r == purpose_of(*source),
{
    match source {
        SessionSource::SubAgent(SubAgentSource::Review) => Some(Purpose::Review),
        SessionSource::SubAgent(SubAgentSource::Compact) => Some(Purpose::Compact),
        SessionSource::SubAgent(SubAgentSource::MemoryConsolidation) => Some(Purpose::Memory),
        SessionSource::Internal(InternalSessionSource::MemoryConsolidation) => Some(
            Purpose::Memory,
        ),
        _ => None,
    }
}

/// Different purposes have different keys.
pub proof fn law_purpose_keys_differ(a: Purpose, b: Purpose)
    ensures
        purpose_key(a) == purpose_key(b) <==> a == b,
{
    reveal_strlit("compact");
    reveal_strlit("review");
    reveal_strlit("memory");
    assert("compact"@.len() == 7);
    assert("review"@[0] == 'r');
    assert("memory"@[0] == 'm');
}

} // verus!
