//! The wire form of variable-length integers.
//!
//! An encoded integer is a run of bytes holding its base-128 digits,
//! most significant digit first.  Every byte except the last carries the
//! continuation flag `0x80`.  The leading byte of an unsigned encoding
//! holds a 7-bit digit; the leading byte of a signed encoding holds the
//! sign flag `0x40` and a 6-bit digit.  All other bytes hold 7-bit
//! digits.

use vstd::prelude::*;

verus! {

/// The 7-bit digit groups of `v`, most significant first.  The leading
/// group is the one group below `0x80`; every further group is a full
/// base-128 digit.  Zero has the single group `0`.
pub open spec fn unsigned_groups(v: nat) -> Seq<u8>
    decreases v,
{
    if v < 0x80 {
        seq![v as u8]
    } else {
        unsigned_groups(v / 0x80).push((v % 0x80) as u8)
    }
}

/// The digit groups of a signed magnitude `m`, most significant first.
/// The leading group must fit the 6 magnitude bits left beside the sign
/// flag, so the split stops only once the remainder is below `0x40`;
/// every further group is a full base-128 digit.
pub open spec fn signed_groups(m: nat) -> Seq<u8>
    decreases m,
{
    if m < 0x40 {
        seq![m as u8]
    } else {
        signed_groups(m / 0x80).push((m % 0x80) as u8)
    }
}

/// Digit groups back to the value they spell, most significant first.
pub open spec fn groups_value(groups: Seq<u8>) -> nat
    decreases groups.len(),
{
    if groups.len() == 0 {
        0
    } else {
        groups_value(groups.drop_last()) * 0x80 + groups.last() as nat
    }
}

/// The complete unsigned encoding of `v`: its digit groups with the
/// continuation flag on every byte except the last.
pub open spec fn unsigned_varint(v: nat) -> Seq<u8> {
    let groups = unsigned_groups(v);
    Seq::new(
        groups.len(),
        |i: int|
            if i + 1 < groups.len() {
                (groups[i] + 0x80) as u8
            } else {
                groups[i]
            },
    )
}

/// The complete signed encoding of `v`: its magnitude's digit groups,
/// the sign flag `0x40` on the leading byte when `v` is negative, and
/// the continuation flag on every byte except the last.
pub open spec fn signed_varint(v: int) -> Seq<u8> {
    let sign: u8 = if v < 0 {
        0x40
    } else {
        0x00
    };
    let groups = signed_groups(if v < 0 {
        (-v) as nat
    } else {
        v as nat
    });
    Seq::new(
        groups.len(),
        |i: int|
            if i == 0 {
                (groups[0] + sign + if groups.len() > 1 {
                    0x80u8
                } else {
                    0x00u8
                }) as u8
            } else if i + 1 < groups.len() {
                (groups[i] + 0x80) as u8
            } else {
                groups[i]
            },
    )
}

/// The magnitude bits an unsigned encoding carries: the low 7 bits of
/// every byte, in stream order.
pub open spec fn unsigned_magnitude_groups(bytes: Seq<u8>) -> Seq<u8> {
    Seq::new(bytes.len(), |i: int| (bytes[i] & 0x7F) as u8)
}

/// The magnitude bits a signed encoding carries: the low 6 bits of the
/// leading byte, then the low 7 bits of every further byte, in stream
/// order.
pub open spec fn signed_magnitude_groups(bytes: Seq<u8>) -> Seq<u8> {
    Seq::new(
        bytes.len(),
        |i: int|
            if i == 0 {
                (bytes[0] & 0x3F) as u8
            } else {
                (bytes[i] & 0x7F) as u8
            },
    )
}

/// Every unsigned digit group is a 7-bit value.
pub proof fn lemma_unsigned_groups_bounded(v: nat)
    ensures
        unsigned_groups(v).len() >= 1,
        forall|i: int|
            0 <= i < unsigned_groups(v).len() ==> #[trigger] unsigned_groups(v)[i] < 0x80,
    decreases v,
{
    if v >= 0x80 {
        lemma_unsigned_groups_bounded(v / 0x80);
    }
}

/// Every signed digit group is a 7-bit value, and the leading one fits
/// in the 6 bits beside the sign flag.
pub proof fn lemma_signed_groups_bounded(m: nat)
    ensures
        signed_groups(m).len() >= 1,
        signed_groups(m)[0] < 0x40,
        forall|i: int| 0 <= i < signed_groups(m).len() ==> #[trigger] signed_groups(m)[i] < 0x80,
    decreases m,
{
    if m >= 0x40 {
        lemma_signed_groups_bounded(m / 0x80);
    }
}

/// The unsigned digit groups spell `v` back.
pub proof fn lemma_unsigned_groups_value(v: nat)
    ensures
        groups_value(unsigned_groups(v)) == v,
    decreases v,
{
    if v < 0x80 {
        let g = unsigned_groups(v);
        assert(g.drop_last() =~= Seq::<u8>::empty());
        assert(groups_value(g) == groups_value(g.drop_last()) * 0x80 + g.last() as nat);
        assert(groups_value(g.drop_last()) == 0);
        assert(g.last() == v as u8);
    } else {
        lemma_unsigned_groups_value(v / 0x80);
        let rec = unsigned_groups(v / 0x80);
        let g = unsigned_groups(v);
        assert(g == rec.push((v % 0x80) as u8));
        assert(g.drop_last() =~= rec);
        assert(g.last() == (v % 0x80) as u8);
        assert(groups_value(g) == groups_value(rec) * 0x80 + (v % 0x80));
        vstd::arithmetic::div_mod::lemma_fundamental_div_mod(v as int, 0x80);
        assert((v / 0x80) * 0x80 + (v % 0x80) == v);
    }
}

/// The signed digit groups spell the magnitude `m` back.
pub proof fn lemma_signed_groups_value(m: nat)
    ensures
        groups_value(signed_groups(m)) == m,
    decreases m,
{
    if m < 0x40 {
        let g = signed_groups(m);
        assert(g.drop_last() =~= Seq::<u8>::empty());
        assert(groups_value(g) == groups_value(g.drop_last()) * 0x80 + g.last() as nat);
        assert(groups_value(g.drop_last()) == 0);
        assert(g.last() == m as u8);
    } else {
        lemma_signed_groups_value(m / 0x80);
        let rec = signed_groups(m / 0x80);
        let g = signed_groups(m);
        assert(g == rec.push((m % 0x80) as u8));
        assert(g.drop_last() =~= rec);
        assert(g.last() == (m % 0x80) as u8);
        assert(groups_value(g) == groups_value(rec) * 0x80 + (m % 0x80));
        vstd::arithmetic::div_mod::lemma_fundamental_div_mod(m as int, 0x80);
        assert((m / 0x80) * 0x80 + (m % 0x80) == m);
    }
}

/// How a 7-bit digit behaves under the continuation flag and the
/// magnitude masks.
proof fn lemma_flag_bits(g: u8)
    by (bit_vector)
    requires
        g < 0x80,
    ensures
        ((g + 0x80) as u8) & 0x80 == 0x80,
        ((g + 0x80) as u8) & 0x7F == g,
        g & 0x80 == 0,
        g & 0x7F == g,
{
}

/// How a 6-bit leading digit behaves beside the sign flag and an
/// optional continuation flag.
proof fn lemma_leading_bits(g: u8, sign: u8, more: u8)
    by (bit_vector)
    requires
        g < 0x40,
        sign == 0x00 || sign == 0x40,
        more == 0x00 || more == 0x80,
    ensures
        ((g + sign + more) as u8) & 0x40 == sign,
        ((g + sign + more) as u8) & 0x3F == g,
        ((g + sign + more) as u8) & 0x80 == more,
{
}

/// The unsigned encoding has the continuation flag on every byte but
/// the last and on no other, its magnitude bits in stream order spell
/// `v` back, and zero encodes to the single byte `0x00`.
pub proof fn lemma_unsigned_varint_correct(v: nat)
    ensures
        unsigned_varint(v).len() >= 1,
        forall|i: int|
            0 <= i < unsigned_varint(v).len() - 1 ==> (#[trigger] unsigned_varint(v)[i]) & 0x80
                == 0x80,
        unsigned_varint(v).last() & 0x80 == 0,
        groups_value(unsigned_magnitude_groups(unsigned_varint(v))) == v,
        v == 0 ==> unsigned_varint(v) =~= seq![0u8],
{
    lemma_unsigned_groups_bounded(v);
    let groups = unsigned_groups(v);
    let bytes = unsigned_varint(v);
    assert forall|i: int| 0 <= i < bytes.len() - 1 implies (#[trigger] bytes[i]) & 0x80
        == 0x80 by {
        lemma_flag_bits(groups[i]);
    }
    lemma_flag_bits(groups[groups.len() - 1]);
    assert forall|i: int| 0 <= i < bytes.len() implies (#[trigger] bytes[i]) & 0x7F
        == groups[i] by {
        lemma_flag_bits(groups[i]);
    }
    assert(unsigned_magnitude_groups(bytes) =~= groups);
    lemma_unsigned_groups_value(v);
}

/// The signed encoding has the sign flag on its leading byte exactly
/// when the value is negative, the continuation flag on every byte but
/// the last and on no other, its magnitude bits in stream order spell
/// the absolute value back, and zero encodes to the single byte `0x00`.
pub proof fn lemma_signed_varint_correct(v: int)
    ensures
        signed_varint(v).len() >= 1,
        signed_varint(v)[0] & 0x40 == if v < 0 {
            0x40u8
        } else {
            0x00u8
        },
        forall|i: int|
            0 <= i < signed_varint(v).len() - 1 ==> (#[trigger] signed_varint(v)[i]) & 0x80
                == 0x80,
        signed_varint(v).last() & 0x80 == 0,
        groups_value(signed_magnitude_groups(signed_varint(v))) == if v < 0 {
            (-v) as nat
        } else {
            v as nat
        },
        v == 0 ==> signed_varint(v) =~= seq![0u8],
{
    let m: nat = if v < 0 {
        (-v) as nat
    } else {
        v as nat
    };
    let sign: u8 = if v < 0 {
        0x40
    } else {
        0x00
    };
    lemma_signed_groups_bounded(m);
    let groups = signed_groups(m);
    let bytes = signed_varint(v);
    let more: u8 = if groups.len() > 1 {
        0x80
    } else {
        0x00
    };
    lemma_leading_bits(groups[0], sign, more);
    assert(bytes[0] == (groups[0] + sign + more) as u8);
    assert forall|i: int| 1 <= i < bytes.len() - 1 implies (#[trigger] bytes[i]) & 0x80
        == 0x80 by {
        lemma_flag_bits(groups[i]);
    }
    if bytes.len() > 1 {
        lemma_flag_bits(groups[groups.len() - 1]);
    }
    assert forall|i: int| 1 <= i < bytes.len() implies (#[trigger] bytes[i]) & 0x7F
        == groups[i] by {
        lemma_flag_bits(groups[i]);
    }
    assert(signed_magnitude_groups(bytes) =~= groups);
    lemma_signed_groups_value(m);
}

/// The wire form is a function of the value alone: any two byte runs
/// that extend the same preceding bytes by the unsigned encoding of
/// the same value are byte-identical.
pub proof fn lemma_unsigned_encoding_deterministic(
    pre: Seq<u8>,
    out1: Seq<u8>,
    out2: Seq<u8>,
    v: nat,
)
    requires
        out1 == pre + unsigned_varint(v),
        out2 == pre + unsigned_varint(v),
    ensures
        out1 == out2,
{
}

/// The wire form is a function of the value alone: any two byte runs
/// that extend the same preceding bytes by the signed encoding of the
/// same value are byte-identical.
pub proof fn lemma_signed_encoding_deterministic(
    pre: Seq<u8>,
    out1: Seq<u8>,
    out2: Seq<u8>,
    v: int,
)
    requires
        out1 == pre + signed_varint(v),
        out2 == pre + signed_varint(v),
    ensures
        out1 == out2,
{
}

} // verus!
