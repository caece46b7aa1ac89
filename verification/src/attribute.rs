//! The typed attribute values that characters carry.

use vstd::prelude::*;

verus! {

/// The role of a character. Every entity carries exactly one tag, and the
/// tag decides which attributes the entity must have.
#[derive(Clone, Copy, Debug, PartialEq, Eq, Structural, Hash)]
pub enum Tag {
    /// A character run by the simulation.
    NonPlayer,
    /// A character controlled by a player.
    Player,
}

/// The type of an attribute, used to ask for it.
#[derive(Clone, Copy, Debug, PartialEq, Eq, Structural, Hash)]
pub enum AttributeKind {
    /// A text label.
    Name,
    /// Current vitality.
    Health,
    /// Whether the character can be killed.
    Killable,
    /// Where a player connects from.
    NetworkAddress,
}

/// An IPv4 or IPv6 address. The value is inert data: nothing is ever sent
/// to it.
#[derive(Clone, Copy, Debug, PartialEq, Eq, Hash)]
pub enum NetworkAddress {
    /// The four octets of an IPv4 address, most significant first.
    V4([u8; 4]),
    /// The eight 16-bit groups of an IPv6 address, most significant first.
    V6([u16; 8]),
}

/// One attribute value.
#[derive(Clone, Debug, PartialEq, Eq)]
pub enum Attribute {
    /// A text label.
    Name(String),
    /// Current vitality, from 0 to 255.
    Health(u8),
    /// Whether the character can be killed.
    Killable(bool),
    /// Where a player connects from.
    NetworkAddress(NetworkAddress),
}

/// The mathematical value of an [`Attribute`]: the same variants, with the
/// text of a name as a sequence of characters.
pub ghost enum AttributeValue {
    Name(Seq<char>),
    Health(u8),
    Killable(bool),
    NetworkAddress(NetworkAddress),
}

impl AttributeValue {
    /// The type of this value.
    pub open spec fn kind(self) -> AttributeKind {
        match self {
            AttributeValue::Name(_) => AttributeKind::Name,
            AttributeValue::Health(_) => AttributeKind::Health,
            AttributeValue::Killable(_) => AttributeKind::Killable,
            AttributeValue::NetworkAddress(_) => AttributeKind::NetworkAddress,
        }
    }
}

impl View for Attribute {
    type V = AttributeValue;

    open spec fn view(&self) -> AttributeValue {
        match self {
            Attribute::Name(text) => AttributeValue::Name(text@),
            Attribute::Health(points) => AttributeValue::Health(*points),
            Attribute::Killable(flag) => AttributeValue::Killable(*flag),
            Attribute::NetworkAddress(address) => AttributeValue::NetworkAddress(*address),
        }
    }
}

impl DeepView for Attribute {
    type V = AttributeValue;

    open spec fn deep_view(&self) -> AttributeValue {
        self@
    }
}

impl Attribute {
    /// A copy of this attribute.
    pub fn duplicate(&self) -> (copy: Self)
        ensures
            copy@ == self@,
    {
        match self {
            Attribute::Name(text) => Attribute::Name(text.clone()),
            Attribute::Health(points) => Attribute::Health(*points),
            Attribute::Killable(flag) => Attribute::Killable(*flag),
            Attribute::NetworkAddress(address) => Attribute::NetworkAddress(*address),
        }
    }

    /// The type of this attribute.
    pub fn kind(&self) -> (kind: AttributeKind)
        ensures
            kind == self@.kind(),
    {
        match self {
            Attribute::Name(_) => AttributeKind::Name,
            Attribute::Health(_) => AttributeKind::Health,
            Attribute::Killable(_) => AttributeKind::Killable,
            Attribute::NetworkAddress(_) => AttributeKind::NetworkAddress,
        }
    }
}

impl AttributeKind {
    /// The name of this attribute type, as diagnostics show it.
    pub open spec fn name_spec(self) -> Seq<char> {
        match self {
            AttributeKind::Name => "Name"@,
            AttributeKind::Health => "Health"@,
            AttributeKind::Killable => "Killable"@,
            AttributeKind::NetworkAddress => "NetworkAddress"@,
        }
    }

    /// The name of this attribute type, as diagnostics show it.
    pub fn name(self) -> (name: &'static str)
        ensures
            name@ == self.name_spec(),
    {
        match self {
            AttributeKind::Name => "Name",
            AttributeKind::Health => "Health",
            AttributeKind::Killable => "Killable",
            AttributeKind::NetworkAddress => "NetworkAddress",
        }
    }
}

impl Tag {
    /// Whether a character with this tag must carry an attribute of the
    /// given type. Name, health and the killable flag are required of every
    /// character; a network address is required of players and never
    /// present on non-players.
    pub open spec fn mandates_spec(self, kind: AttributeKind) -> bool {
        kind != AttributeKind::NetworkAddress || self == Tag::Player
    }

    /// Whether a character with this tag must carry an attribute of the
    /// given type.
    pub fn mandates(self, kind: AttributeKind) -> (required: bool)
        ensures
            required == self.mandates_spec(kind),
    {
        match kind {
            AttributeKind::NetworkAddress => self == Tag::Player,
            _ => true,
        }
    }
}

} // verus!
