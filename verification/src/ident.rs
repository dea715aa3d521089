//! Identifiers: logical node names, instance headers and actor handles.

use vstd::prelude::*;

verus! {

/// The stable name of one logical node. A node keeps its identifier through
/// every version of the tree, and no other node of that tree, or of what
/// mutations make of it, ever receives it.
#[derive(Clone, Copy, Debug, PartialEq, Eq, Hash, Structural)]
pub struct ID {
    pub raw: u64,
}

/// The runtime tag of a node's payload type.
pub type Kind = u32;

/// What an instance of a node carries to be known by: the logical node it
/// is a version of, the stamp of the mutation that created the instance,
/// and the payload type.
///
/// Within one snapshot no two nodes have one header, and between a
/// snapshot and what a mutation makes of it a node has kept its header
/// exactly where it is the node it was. Across containers that were
/// mutated apart from each other, equal headers say nothing: each has drawn
/// its stamps from its own clock. That is why an observer holds the node it
/// has seen, and not its header.
#[derive(Clone, Copy, Debug, PartialEq, Eq, Hash, Structural)]
pub struct Header {
    pub id: ID,
    pub version: u64,
    pub kind: Kind,
}

impl Header {
    /// This header as carried by the instance that the mutation with stamp
    /// `stamp` puts in its place.
    pub open spec fn restamped(self, stamp: u64) -> Header {
        Header { id: self.id, version: stamp, kind: self.kind }
    }

    /// The logical node that the instance is a version of.
    pub fn id(&self) -> (id: ID)
        ensures
            id == self.id,
    {
        self.id
    }

    /// Whether both headers are equal.
    pub fn same_as(&self, other: &Header) -> (same: bool)
        ensures
            same <==> *self == *other,
    {
        self.id.raw == other.id.raw && self.version == other.version && self.kind == other.kind
    }
}

/// The handle of an actor: a subscriber that is notified, or a requester.
/// One value, the null handle, stands for "no actor".
#[derive(Clone, Copy, Debug, PartialEq, Eq, Hash, Structural)]
pub struct Entity {
    pub raw: u32,
}

impl Entity {
    /// The handle that names no actor.
    pub open spec fn spec_null() -> Entity {
        Entity { raw: 0xffff_ffff }
    }

    /// The handle that names no actor.
    #[verifier::when_used_as_spec(spec_null)]
    pub fn null() -> (e: Entity)
        ensures
            e == Entity::spec_null(),
    {
        Entity { raw: 0xffff_ffff }
    }

    /// Whether this is the handle that names no actor.
    pub open spec fn spec_is_null(&self) -> bool {
        self.raw == 0xffff_ffff
    }

    /// Whether this is the handle that names no actor.
    #[verifier::when_used_as_spec(spec_is_null)]
    pub fn is_null(&self) -> (b: bool)
        ensures
            b == self.spec_is_null(),
    {
        self.raw == 0xffff_ffff
    }
}

} // verus!
