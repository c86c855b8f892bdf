//! What the AI notes about a unit, as a set of flags.

use vstd::prelude::*;

verus! {

/// What the AI notes about a unit.
#[derive(Clone, Copy, PartialEq, Eq, Structural, Debug)]
pub struct AiTags {
    pub low_hp: bool,
    pub can_heal: bool,
    pub can_cc: bool,
    pub has_aoe: bool,
    pub is_stunned: bool,
    pub forces_targeting: bool,
    pub ranged: bool,
    pub melee_only: bool,
    /// Whether the other side loses when the unit falls.
    pub opponent_objective: bool,
}

/// The value of a flag at a place: a power of two, or nothing.
#[verifier::opaque]
pub open spec fn weight(flag: bool, value: nat) -> nat {
    if flag {
        value
    } else {
        0
    }
}

fn weigh(flag: bool, value: u16) -> (r: u16)
    ensures
        r == weight(flag, value as nat),
        r <= value,
{
    proof {
        reveal(weight);
    }
    if flag {
        value
    } else {
        0
    }
}

/// Whether the binary digit of a value is set in a number.
pub open spec fn digit_set(bits: nat, value: nat) -> bool {
    (bits / value) % 2 == 1
}

impl AiTags {
    /// No flag.
    pub open spec fn none() -> AiTags {
        AiTags {
            low_hp: false,
            can_heal: false,
            can_cc: false,
            has_aoe: false,
            is_stunned: false,
            forces_targeting: false,
            ranged: false,
            melee_only: false,
            opponent_objective: false,
        }
    }

    /// No flag.
    pub fn empty() -> (r: AiTags)
        ensures
            r == AiTags::none(),
    {
        AiTags {
            low_hp: false,
            can_heal: false,
            can_cc: false,
            has_aoe: false,
            is_stunned: false,
            forces_targeting: false,
            ranged: false,
            melee_only: false,
            opponent_objective: false,
        }
    }

    /// The flags as one number, a binary digit for each.
    pub open spec fn number(self) -> nat {
        weight(self.low_hp, 1) + weight(self.can_heal, 2) + weight(self.can_cc, 4) + weight(
            self.has_aoe,
            8,
        ) + weight(self.is_stunned, 16) + weight(self.forces_targeting, 32) + weight(
            self.ranged,
            64,
        ) + weight(self.melee_only, 128) + weight(self.opponent_objective, 256)
    }

    /// The flags as one number, a binary digit for each.
    pub fn bits(self) -> (r: u16)
        ensures
            r == self.number(),
            r < 512,
    {
        let small: u16 = weigh(self.low_hp, 1) + weigh(self.can_heal, 2) + weigh(self.can_cc, 4);
        let middle: u16 = weigh(self.has_aoe, 8) + weigh(self.is_stunned, 16) + weigh(
            self.forces_targeting,
            32,
        );
        let large: u16 = weigh(self.ranged, 64) + weigh(self.melee_only, 128) + weigh(
            self.opponent_objective,
            256,
        );
        small + middle + large
    }

    /// The flags that the binary digits of a number stand for. Digits that stand
    /// for nothing are passed over.
    pub open spec fn of_number(bits: nat) -> AiTags {
        AiTags {
            low_hp: digit_set(bits, 1),
            can_heal: digit_set(bits, 2),
            can_cc: digit_set(bits, 4),
            has_aoe: digit_set(bits, 8),
            is_stunned: digit_set(bits, 16),
            forces_targeting: digit_set(bits, 32),
            ranged: digit_set(bits, 64),
            melee_only: digit_set(bits, 128),
            opponent_objective: digit_set(bits, 256),
        }
    }

    /// The flags that the binary digits of a number stand for.
    pub fn from_bits_truncate(bits: u16) -> (r: AiTags)
        ensures
            r == AiTags::of_number(bits as nat),
    {
        AiTags {
            low_hp: (bits / 1) % 2 == 1,
            can_heal: (bits / 2) % 2 == 1,
            can_cc: (bits / 4) % 2 == 1,
            has_aoe: (bits / 8) % 2 == 1,
            is_stunned: (bits / 16) % 2 == 1,
            forces_targeting: (bits / 32) % 2 == 1,
            ranged: (bits / 64) % 2 == 1,
            melee_only: (bits / 128) % 2 == 1,
            opponent_objective: (bits / 256) % 2 == 1,
        }
    }
}

impl Default for AiTags {
    fn default() -> (r: AiTags)
        ensures
            r == AiTags::none(),
    {
        AiTags::empty()
    }
}

/// Flags that were turned into a number come back as they were.
pub proof fn law_flags_round_trip(tags: AiTags)
    ensures
        AiTags::of_number(tags.number()) == tags,
{
    reveal(weight);
}

/// A number of known digits only that was turned into flags comes back as it was.
pub proof fn law_number_round_trip(bits: nat)
    requires
        bits < 512,
    ensures
        AiTags::of_number(bits).number() == bits,
{
    reveal(weight);
    let b1 = bits / 2;
    let b2 = bits / 4;
    let b3 = bits / 8;
    let b4 = bits / 16;
    let b5 = bits / 32;
    let b6 = bits / 64;
    let b7 = bits / 128;
    let b8 = bits / 256;
    assert(bits / 1 == bits);
    assert(bits == 2 * b1 + bits % 2);
    assert(b1 == 2 * b2 + b1 % 2);
    assert(b2 == 2 * b3 + b2 % 2);
    assert(b3 == 2 * b4 + b3 % 2);
    assert(b4 == 2 * b5 + b4 % 2);
    assert(b5 == 2 * b6 + b5 % 2);
    assert(b6 == 2 * b7 + b6 % 2);
    assert(b7 == 2 * b8 + b7 % 2);
    assert(b8 < 2);
    assert(weight(digit_set(bits, 1), 1) == bits % 2);
    assert(weight(digit_set(bits, 2), 2) == 2 * (b1 % 2));
    assert(weight(digit_set(bits, 4), 4) == 4 * (b2 % 2));
    assert(weight(digit_set(bits, 8), 8) == 8 * (b3 % 2));
    assert(weight(digit_set(bits, 16), 16) == 16 * (b4 % 2));
    assert(weight(digit_set(bits, 32), 32) == 32 * (b5 % 2));
    assert(weight(digit_set(bits, 64), 64) == 64 * (b6 % 2));
    assert(weight(digit_set(bits, 128), 128) == 128 * (b7 % 2));
    assert(weight(digit_set(bits, 256), 256) == 256 * b8);
}

} // verus!
