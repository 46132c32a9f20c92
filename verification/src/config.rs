use vstd::prelude::*;

verus! {

/// The kinds of resource that the cache can track.
#[derive(Clone, Copy, Debug, PartialEq, Eq, Structural)]
pub enum ResourceKind {
    Channel,
    Emoji,
    Guild,
    Member,
    Message,
    Presence,
    Reaction,
    Role,
    UserCurrent,
    User,
    VoiceState,
    StageInstance,
    Integration,
    Sticker,
}

/// Position of a kind's bit in the mask.
pub open spec fn bit_index(kind: ResourceKind) -> u64 {
    match kind {
        ResourceKind::Channel => 0,
        ResourceKind::Emoji => 1,
        ResourceKind::Guild => 2,
        ResourceKind::Member => 3,
        ResourceKind::Message => 4,
        ResourceKind::Presence => 5,
        ResourceKind::Reaction => 6,
        ResourceKind::Role => 7,
        ResourceKind::UserCurrent => 8,
        ResourceKind::User => 9,
        ResourceKind::VoiceState => 10,
        ResourceKind::StageInstance => 11,
        ResourceKind::Integration => 12,
        ResourceKind::Sticker => 13,
    }
}

/// The mask with only `kind`'s bit set.
pub open spec fn bit_of(kind: ResourceKind) -> u64 {
    1u64 << bit_index(kind)
}

/// Every bit that stands for a kind.
pub const ALL_BITS: u64 = 0x3fff;

/// Setting or clearing one bit of a mask decides that bit and leaves every other bit alone.
pub proof fn lemma_single_bit(mask: u64, i: u64, j: u64)
    requires
        i < 64,
        j < 64,
    ensures
        (mask | (1u64 << i)) & (1u64 << i) != 0,
        (mask & !(1u64 << i)) & (1u64 << i) == 0,
        i != j ==> (mask | (1u64 << i)) & (1u64 << j) == mask & (1u64 << j),
        i != j ==> (mask & !(1u64 << i)) & (1u64 << j) == mask & (1u64 << j),
        0u64 & (1u64 << i) == 0,
        i < 14 ==> 0x3fffu64 & (1u64 << i) != 0,
{
    assert((mask | (1u64 << i)) & (1u64 << i) != 0) by (bit_vector)
        requires
            i < 64,
    ;
    assert((mask & !(1u64 << i)) & (1u64 << i) == 0) by (bit_vector)
        requires
            i < 64,
    ;
    assert(i != j ==> (mask | (1u64 << i)) & (1u64 << j) == mask & (1u64 << j)) by (bit_vector)
        requires
            i < 64,
            j < 64,
    ;
    assert(i != j ==> (mask & !(1u64 << i)) & (1u64 << j) == mask & (1u64 << j)) by (bit_vector)
        requires
            i < 64,
            j < 64,
    ;
    assert(0u64 & (1u64 << i) == 0) by (bit_vector);
    assert(i < 14 ==> 0x3fffu64 & (1u64 << i) != 0) by (bit_vector);
}

/// A set of resource kinds, held as a mask of bits.
#[derive(Clone, Copy, Debug, PartialEq, Eq, Structural)]
pub struct ResourceType {
    bits: u64,
}

impl View for ResourceType {
    type V = Set<ResourceKind>;

    closed spec fn view(&self) -> Set<ResourceKind> {
        Set::new(|kind: ResourceKind| self.bits & bit_of(kind) != 0)
    }
}

impl ResourceType {
    fn bit(kind: ResourceKind) -> (r: u64)
        ensures
            r == bit_of(kind),
    {
        let index: u64 = match kind {
            ResourceKind::Channel => 0,
            ResourceKind::Emoji => 1,
            ResourceKind::Guild => 2,
            ResourceKind::Member => 3,
            ResourceKind::Message => 4,
            ResourceKind::Presence => 5,
            ResourceKind::Reaction => 6,
            ResourceKind::Role => 7,
            ResourceKind::UserCurrent => 8,
            ResourceKind::User => 9,
            ResourceKind::VoiceState => 10,
            ResourceKind::StageInstance => 11,
            ResourceKind::Integration => 12,
            ResourceKind::Sticker => 13,
        };
        1u64 << index
    }

    /// The mask that holds every kind.
    pub fn all() -> (r: Self)
        ensures
            forall|kind: ResourceKind| r@.contains(kind),
    {
        let r = ResourceType { bits: ALL_BITS };
        proof {
            assert forall|kind: ResourceKind| r@.contains(kind) by {
                lemma_single_bit(0, bit_index(kind), 0);
            }
        }
        r
    }

    /// The mask that holds no kind.
    pub fn empty() -> (r: Self)
        ensures
            r@ == Set::<ResourceKind>::empty(),
    {
        let r = ResourceType { bits: 0 };
        proof {
            assert forall|kind: ResourceKind| !r@.contains(kind) by {
                lemma_single_bit(0, bit_index(kind), 0);
            }
            assert(r@ =~= Set::<ResourceKind>::empty());
        }
        r
    }

    /// This mask with `kind` added.
    pub fn with(self, kind: ResourceKind) -> (r: Self)
        ensures
            r@ == self@.insert(kind),
    {
        let r = ResourceType { bits: self.bits | Self::bit(kind) };
        proof {
            assert forall|other: ResourceKind| r@.contains(other) == self@.insert(kind).contains(
                other,
            ) by {
                lemma_single_bit(self.bits, bit_index(kind), bit_index(other));
            }
            assert(r@ =~= self@.insert(kind));
        }
        r
    }

    /// This mask with `kind` taken out.
    pub fn without(self, kind: ResourceKind) -> (r: Self)
        ensures
            r@ == self@.remove(kind),
    {
        let r = ResourceType { bits: self.bits & !Self::bit(kind) };
        proof {
            assert forall|other: ResourceKind| r@.contains(other) == self@.remove(kind).contains(
                other,
            ) by {
                lemma_single_bit(self.bits, bit_index(kind), bit_index(other));
            }
            assert(r@ =~= self@.remove(kind));
        }
        r
    }

    /// Whether `kind` is in the mask.
    pub fn contains(&self, kind: ResourceKind) -> (r: bool)
        ensures
            r == self@.contains(kind),
    {
        self.bits & Self::bit(kind) != 0
    }
}

/// What a cache was set up to track. It is fixed when the cache is made.
#[derive(Clone, Copy, Debug, PartialEq, Eq, Structural)]
pub struct Config {
    resource_types: ResourceType,
}

impl View for Config {
    type V = Set<ResourceKind>;

    closed spec fn view(&self) -> Set<ResourceKind> {
        self.resource_types@
    }
}

impl Config {
    /// A configuration that tracks every kind.
    pub fn new() -> (r: Self)
        ensures
            forall|kind: ResourceKind| r@.contains(kind),
    {
        Config { resource_types: ResourceType::all() }
    }

    /// A configuration that tracks the kinds in `resource_types` and no others.
    pub fn tracking(resource_types: ResourceType) -> (r: Self)
        ensures
            r@ == resource_types@,
    {
        Config { resource_types }
    }

    /// The kinds that are tracked.
    pub fn resource_types(&self) -> (r: ResourceType)
        ensures
            r@ == self@,
    {
        self.resource_types
    }

    /// Whether resources of `kind` are tracked.
    pub fn wants(&self, kind: ResourceKind) -> (r: bool)
        ensures
            r == self@.contains(kind),
    {
        self.resource_types.contains(kind)
    }
}

} // verus!
