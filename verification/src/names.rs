//! Short identifiers for aircraft, airports, runways, gates and waypoints.

use vstd::prelude::*;

verus! {

/// A short identifier: up to sixteen ASCII bytes packed big-endian into one
/// integer, so that two names are equal exactly when their codes are equal.
#[derive(Clone, Copy, Debug, PartialEq, Eq, Hash, Structural)]
pub struct Name(pub u128);

/// The departure transition waypoint, "SID".
pub const NAME_SID: u128 = 0x53_4944;

/// The arrival transition waypoint, "STAR".
pub const NAME_STAR: u128 = 0x5354_4152;

/// The crosswind fix of a landing pattern, "CW".
pub const NAME_CROSSWIND: u128 = 0x4357;

/// The downwind fix of a landing pattern, "DW".
pub const NAME_DOWNWIND: u128 = 0x4457;

/// The downwind fix of a pattern flown away from the runway, "UW".
pub const NAME_UPWIND: u128 = 0x5557;

/// The base fix of a landing pattern, "BS".
pub const NAME_BASE: u128 = 0x4253;

/// The airport that is used when none is named, "default".
pub const NAME_DEFAULT: u128 = 0x64_6566_6175_6c74;

/// Named radio frequencies of an airport.
pub const NAME_GROUND: u128 = 0x67_726f_756e_64;

/// The frequency of the tower, "tower".
pub const NAME_TOWER: u128 = 0x74_6f77_6572;

/// The frequency of departure control, "departure".
pub const NAME_DEPARTURE: u128 = 0x64_6570_6172_7475_7265;

/// The frequency of approach control, "approach".
pub const NAME_APPROACH: u128 = 0x6170_7072_6f61_6368;

/// The frequency of the center, "center".
pub const NAME_CENTER: u128 = 0x6365_6e74_6572;

/// The code of a byte string: its bytes read as one big-endian number.
pub open spec fn packed(text: Seq<u8>) -> nat
    decreases text.len(),
{
    if text.len() == 0 {
        0
    } else {
        packed(text.drop_last()) * 256 + text.last() as nat
    }
}

/// Whether a byte string can be a name: at most sixteen bytes, none of them zero.
pub open spec fn nameable(text: Seq<u8>) -> bool {
    &&& text.len() <= 16
    &&& forall|i: int| 0 <= i < text.len() ==> text[i] != 0
}

/// The power of 256 with the given exponent.
pub open spec fn pow256(n: nat) -> nat
    decreases n,
{
    if n == 0 {
        1
    } else {
        256 * pow256((n - 1) as nat)
    }
}

/// The code of a byte string is less than 256 to the power of its length, and
/// at least 256 to the power of one less where its first byte is not zero.
pub proof fn lemma_packed_bound(text: Seq<u8>)
    ensures
        packed(text) < pow256(text.len()),
        text.len() > 0 && text[0] != 0 ==> packed(text) >= pow256((text.len() - 1) as nat),
    decreases text.len(),
{
    if text.len() > 0 {
        lemma_packed_bound(text.drop_last());
        if text.len() > 1 {
            assert(text.drop_last()[0] == text[0]);
        }
    }
}

proof fn lemma_pow256_16()
    ensures
        pow256(16) == 0x1_0000_0000_0000_0000_0000_0000_0000_0000,
{
    reveal_with_fuel(pow256, 17);
}

proof fn lemma_pow256_monotonic(a: nat, b: nat)
    requires
        a <= b,
    ensures
        pow256(a) <= pow256(b),
    decreases b,
{
    if a < b {
        lemma_pow256_monotonic(a, (b - 1) as nat);
    }
}

/// Two nameable byte strings with the same code are the same string.
pub proof fn lemma_packed_injective(a: Seq<u8>, b: Seq<u8>)
    requires
        nameable(a),
        nameable(b),
        packed(a) == packed(b),
    ensures
        a == b,
    decreases a.len() + b.len(),
{
    if a.len() == 0 || b.len() == 0 {
        if a.len() > 0 {
            lemma_packed_bound(a);
            assert(pow256((a.len() - 1) as nat) >= 1) by {
                lemma_pow256_monotonic(0, (a.len() - 1) as nat);
            }
        }
        if b.len() > 0 {
            lemma_packed_bound(b);
            assert(pow256((b.len() - 1) as nat) >= 1) by {
                lemma_pow256_monotonic(0, (b.len() - 1) as nat);
            }
        }
        assert(a =~= b);
    } else {
        let pa = packed(a.drop_last());
        let pb = packed(b.drop_last());
        assert(pa * 256 + a.last() as nat == pb * 256 + b.last() as nat);
        assert(pa == pb && a.last() == b.last());
        lemma_packed_injective(a.drop_last(), b.drop_last());
        assert(a =~= a.drop_last().push(a.last()));
        assert(b =~= b.drop_last().push(b.last()));
    }
}

/// The bytes of a code: its digits to the base 256, the first of them not
/// zero.
pub open spec fn unpacked(code: nat) -> Seq<u8>
    decreases code,
{
    if code == 0 {
        Seq::empty()
    } else {
        unpacked(code / 256).push((code % 256) as u8)
    }
}

/// The bytes of a code are bytes of that code.
pub proof fn lemma_packed_unpacked(code: nat)
    ensures
        packed(unpacked(code)) == code,
    decreases code,
{
    if code > 0 {
        lemma_packed_unpacked(code / 256);
        let bytes = unpacked(code);
        assert(bytes.drop_last() =~= unpacked(code / 256));
        assert(bytes.last() == (code % 256) as u8);
    }
}

/// A byte string that can be a name is the bytes of its code.
pub proof fn lemma_unpacked_packed(text: Seq<u8>)
    requires
        nameable(text),
    ensures
        unpacked(packed(text)) == text,
    decreases text.len(),
{
    if text.len() > 0 {
        lemma_unpacked_packed(text.drop_last());
        let code = packed(text);
        let rest = packed(text.drop_last());
        assert(text.last() != 0);
        assert(code == rest * 256 + text.last() as nat);
        assert(code / 256 == rest && code % 256 == text.last() as nat);
        assert(unpacked(code) == unpacked(rest).push(text.last()));
        assert(text =~= text.drop_last().push(text.last()));
    }
}

impl Name {
    /// The bytes that the name is written with.
    pub fn to_bytes(&self) -> (r: Vec<u8>)
        ensures
            r@ == unpacked(self.0 as nat),
            packed(r@) == self.0,
    {
        let mut digits: Vec<u8> = Vec::new();
        let mut rest: u128 = self.0;
        let ghost mut tail: Seq<u8> = Seq::empty();
        assert(unpacked(self.0 as nat) =~= unpacked(rest as nat) + tail);
        while rest > 0
            invariant
                unpacked(self.0 as nat) == unpacked(rest as nat) + tail,
                tail.len() == digits@.len(),
                forall|j: int| 0 <= j < tail.len() ==> tail[j] == digits@[digits@.len() - 1 - j],
            decreases rest,
        {
            let digit: u8 = (rest % 256) as u8;
            proof {
                let longer = seq![digit] + tail;
                assert(unpacked(rest as nat) == unpacked((rest / 256) as nat).push(digit));
                assert(unpacked((rest / 256) as nat).push(digit) + tail =~= unpacked(
                    (rest / 256) as nat,
                ) + longer);
                tail = longer;
            }
            digits.push(digit);
            rest = rest / 256;
        }
        let mut bytes: Vec<u8> = Vec::new();
        let mut i: usize = digits.len();
        while i > 0
            invariant
                i <= digits@.len() == tail.len(),
                bytes@.len() == digits@.len() - i,
                forall|j: int| 0 <= j < tail.len() ==> tail[j] == digits@[digits@.len() - 1 - j],
                forall|j: int| 0 <= j < bytes@.len() ==> bytes@[j] == tail[j],
            decreases i,
        {
            i = i - 1;
            bytes.push(digits[i]);
        }
        proof {
            assert(bytes@ =~= tail);
            assert(unpacked(0) =~= Seq::empty());
            assert(unpacked(self.0 as nat) =~= tail);
            lemma_packed_unpacked(self.0 as nat);
        }
        bytes
    }

    /// The name written with the given bytes, or `None` where they are more
    /// than sixteen or hold a zero byte.
    pub fn from_bytes(text: &[u8]) -> (r: Option<Name>)
        ensures
            r is Some <==> nameable(text@),
            r matches Some(name) ==> name.0 == packed(text@),
    {
        if text.len() > 16 {
            return None;
        }
        let mut code: u128 = 0;
        let mut i: usize = 0;
        while i < text.len()
            invariant
                i <= text.len() <= 16,
                code == packed(text@.take(i as int)),
                forall|k: int| 0 <= k < i ==> text@[k] != 0,
            decreases text.len() - i,
        {
            let byte = text[i];
            if byte == 0 {
                return None;
            }
            proof {
                let prefix = text@.take(i as int);
                let next = text@.take(i + 1);
                assert(next.drop_last() =~= prefix);
                assert(next.last() == byte);
                lemma_packed_bound(next);
                lemma_pow256_monotonic(next.len(), 16);
                lemma_pow256_16();
            }
            code = code * 256 + byte as u128;
            i = i + 1;
        }
        assert(text@.take(i as int) =~= text@);
        Some(Name(code))
    }
}

} // verus!
