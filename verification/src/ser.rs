//! The structural encoder: one append-only buffer and one method per
//! value shape.

use vstd::prelude::*;

use crate::varint::signed_varint;
use crate::varint::unsigned_varint;

verus! {

/// The 4 bytes of a 32-bit word, most significant byte first.
pub open spec fn be_bytes_32(v: u32) -> Seq<u8> {
    seq![
        (v >> 24) as u8,
        ((v >> 16) & 0xFF) as u8,
        ((v >> 8) & 0xFF) as u8,
        (v & 0xFF) as u8,
    ]
}

/// The 8 bytes of a 64-bit word, most significant byte first.
pub open spec fn be_bytes_64(v: u64) -> Seq<u8> {
    seq![
        (v >> 56) as u8,
        ((v >> 48) & 0xFF) as u8,
        ((v >> 40) & 0xFF) as u8,
        ((v >> 32) & 0xFF) as u8,
        ((v >> 24) & 0xFF) as u8,
        ((v >> 16) & 0xFF) as u8,
        ((v >> 8) & 0xFF) as u8,
        (v & 0xFF) as u8,
    ]
}

/// The bytes that draining a chunk stack emits: the stack's contents in
/// reverse, with the continuation flag on every byte but the last.
spec fn drained_stack(stack: Seq<u8>) -> Seq<u8> {
    Seq::new(
        stack.len(),
        |i: int|
            if i + 1 < stack.len() {
                (stack[stack.len() - 1 - i] + 0x80) as u8
            } else {
                stack[stack.len() - 1 - i]
            },
    )
}

/// The failure a caller can provoke: offering a sequence or mapping for
/// encoding without declaring its element count.  The wire format has
/// no way to write an unbounded container, so the count must be known
/// before any element is encoded.
#[derive(Clone, Copy, Debug, PartialEq, Eq, Structural)]
pub enum EncodeError {
    LengthRequired,
}

/// Appends the encoding of each value it is offered to an exclusively
/// owned, append-only byte buffer.  The view of a `Serializer` is the
/// byte sequence written so far.
pub struct Serializer {
    buffer: Vec<u8>,
}

impl View for Serializer {
    type V = Seq<u8>;

    closed spec fn view(&self) -> Seq<u8> {
        self.buffer@
    }
}

impl Serializer {
    /// A serializer over a fresh, empty buffer.
    pub fn new() -> (r: Serializer)
        ensures
            r@ == Seq::<u8>::empty(),
    {
        Serializer { buffer: Vec::new() }
    }

    /// Gives up the buffer holding everything encoded so far.
    pub fn into_bytes(self) -> (r: Vec<u8>)
        ensures
            r@ == self@,
    {
        self.buffer
    }

    /// Appends the unsigned variable-length encoding of `v`, widened to
    /// the largest supported width.  Every unsigned width funnels
    /// through the one canonical path in [`Serializer::serialize_u64`].
    pub fn serialize_usize(&mut self, v: usize)
        ensures
            final(self)@ == old(self)@ + unsigned_varint(v as nat),
    {
        let _ = self.serialize_u64(v as u64);
    }

    /// Appends the unsigned variable-length encoding of `v`: its 7-bit
    /// digit groups most significant first, each byte but the last
    /// carrying the continuation flag.  This is the one canonical
    /// unsigned path; it cannot fail.
    pub fn serialize_u64(&mut self, v: u64) -> (r: Result<(), EncodeError>)
        ensures
            r == Ok::<(), EncodeError>(()),
            final(self)@ == old(self)@ + unsigned_varint(v as nat),
    {
        let ghost pre = self.buffer@;
        let ghost groups = crate::varint::unsigned_groups(v as nat);
        proof {
            crate::varint::lemma_unsigned_groups_bounded(v as nat);
        }
        let mut rest = v;
        let mut stack: Vec<u8> = Vec::new();
        while rest >= 0x80
            invariant
                groups == crate::varint::unsigned_groups(rest as nat) + stack@.reverse(),
                forall|i: int| 0 <= i < stack@.len() ==> #[trigger] stack@[i] < 0x80,
            decreases rest,
        {
            let ghost stack_before = stack@;
            stack.push((rest % 0x80) as u8);
            proof {
                assert(stack_before.push((rest % 0x80) as u8).reverse() =~= seq![
                    (rest % 0x80) as u8,
                ] + stack_before.reverse());
                assert(crate::varint::unsigned_groups((rest / 0x80) as nat) + stack@.reverse()
                    =~= crate::varint::unsigned_groups(rest as nat) + stack_before.reverse());
            }
            rest = rest / 0x80;
        }
        let more: u8 = if stack.len() == 0 {
            0x00
        } else {
            0x80
        };
        self.buffer.push((rest as u8) + more);
        proof {
            lemma_groups_emission(groups, stack@, rest as u8);
            assert(unsigned_varint(v as nat) =~= seq![(rest as u8 + more) as u8] + drained_stack(
                stack@,
            ));
        }
        self.drain_chunks(stack);
        proof {
            assert(self.buffer@ =~= pre + unsigned_varint(v as nat));
        }
        Ok(())
    }

    /// Appends the signed variable-length encoding of `v`: sign and
    /// magnitude, the sign flag beside 6 magnitude bits in the leading
    /// byte, 7-bit digit groups most significant first after it, each
    /// byte but the last carrying the continuation flag.  This is the
    /// one canonical signed path; it cannot fail, also on the most
    /// negative representable value.
    pub fn serialize_i64(&mut self, v: i64) -> (r: Result<(), EncodeError>)
        ensures
            r == Ok::<(), EncodeError>(()),
            final(self)@ == old(self)@ + signed_varint(v as int),
    {
        let ghost pre = self.buffer@;
        let (sign, magnitude): (u8, u64) = if v >= 0 {
            (0x00, v as u64)
        } else {
            (0x40, (-(v + 1)) as u64 + 1)
        };
        let ghost groups = crate::varint::signed_groups(magnitude as nat);
        proof {
            crate::varint::lemma_signed_groups_bounded(magnitude as nat);
        }
        let mut rest = magnitude;
        let mut stack: Vec<u8> = Vec::new();
        while rest >= 0x40
            invariant
                groups == crate::varint::signed_groups(rest as nat) + stack@.reverse(),
                forall|i: int| 0 <= i < stack@.len() ==> #[trigger] stack@[i] < 0x80,
            decreases rest,
        {
            let ghost stack_before = stack@;
            stack.push((rest % 0x80) as u8);
            proof {
                assert(stack_before.push((rest % 0x80) as u8).reverse() =~= seq![
                    (rest % 0x80) as u8,
                ] + stack_before.reverse());
                assert(crate::varint::signed_groups((rest / 0x80) as nat) + stack@.reverse()
                    =~= crate::varint::signed_groups(rest as nat) + stack_before.reverse());
            }
            rest = rest / 0x80;
        }
        let more: u8 = if stack.len() == 0 {
            0x00
        } else {
            0x80
        };
        self.buffer.push((rest as u8) + sign + more);
        proof {
            lemma_groups_emission(groups, stack@, rest as u8);
            assert(signed_varint(v as int) =~= seq![(rest as u8 + sign + more) as u8]
                + drained_stack(stack@));
        }
        self.drain_chunks(stack);
        proof {
            assert(self.buffer@ =~= pre + signed_varint(v as int));
        }
        Ok(())
    }

    /// Appends a single byte: `0x01` for true, `0x00` for false.
    pub fn serialize_bool(&mut self, v: bool) -> (r: Result<(), EncodeError>)
        ensures
            r == Ok::<(), EncodeError>(()),
            final(self)@ == old(self)@ + seq![if v { 1u8 } else { 0u8 }],
    {
        self.buffer.push(if v {
            1
        } else {
            0
        });
        proof {
            assert(self.buffer@ =~= old(self)@ + seq![if v { 1u8 } else { 0u8 }]);
        }
        Ok(())
    }

    /// Widens to the largest signed width and funnels through the one
    /// canonical signed path.
    pub fn serialize_i8(&mut self, v: i8) -> (r: Result<(), EncodeError>)
        ensures
            r == Ok::<(), EncodeError>(()),
            final(self)@ == old(self)@ + signed_varint(v as int),
    {
        self.serialize_i64(v as i64)
    }

    /// Widens to the largest signed width and funnels through the one
    /// canonical signed path.
    pub fn serialize_i16(&mut self, v: i16) -> (r: Result<(), EncodeError>)
        ensures
            r == Ok::<(), EncodeError>(()),
            final(self)@ == old(self)@ + signed_varint(v as int),
    {
        self.serialize_i64(v as i64)
    }

    /// Widens to the largest signed width and funnels through the one
    /// canonical signed path.
    pub fn serialize_i32(&mut self, v: i32) -> (r: Result<(), EncodeError>)
        ensures
            r == Ok::<(), EncodeError>(()),
            final(self)@ == old(self)@ + signed_varint(v as int),
    {
        self.serialize_i64(v as i64)
    }

    /// Widens to the largest unsigned width and funnels through the one
    /// canonical unsigned path.
    pub fn serialize_u8(&mut self, v: u8) -> (r: Result<(), EncodeError>)
        ensures
            r == Ok::<(), EncodeError>(()),
            final(self)@ == old(self)@ + unsigned_varint(v as nat),
    {
        self.serialize_u64(v as u64)
    }

    /// Widens to the largest unsigned width and funnels through the one
    /// canonical unsigned path.
    pub fn serialize_u16(&mut self, v: u16) -> (r: Result<(), EncodeError>)
        ensures
            r == Ok::<(), EncodeError>(()),
            final(self)@ == old(self)@ + unsigned_varint(v as nat),
    {
        self.serialize_u64(v as u64)
    }

    /// Widens to the largest unsigned width and funnels through the one
    /// canonical unsigned path.
    pub fn serialize_u32(&mut self, v: u32) -> (r: Result<(), EncodeError>)
        ensures
            r == Ok::<(), EncodeError>(()),
            final(self)@ == old(self)@ + unsigned_varint(v as nat),
    {
        self.serialize_u64(v as u64)
    }

    /// Appends the 4 bytes of a 32-bit float's bit pattern, most
    /// significant byte first, fixed width.  The caller hands the bit
    /// pattern over as a 32-bit word.
    pub fn serialize_f32_bits(&mut self, v: u32) -> (r: Result<(), EncodeError>)
        ensures
            r == Ok::<(), EncodeError>(()),
            final(self)@ == old(self)@ + be_bytes_32(v),
    {
        self.buffer.push((v >> 24) as u8);
        self.buffer.push(((v >> 16) & 0xFF) as u8);
        self.buffer.push(((v >> 8) & 0xFF) as u8);
        self.buffer.push((v & 0xFF) as u8);
        proof {
            assert(self.buffer@ =~= old(self)@ + be_bytes_32(v));
        }
        Ok(())
    }

    /// Appends the 8 bytes of a 64-bit float's bit pattern, most
    /// significant byte first, fixed width.  The caller hands the bit
    /// pattern over as a 64-bit word.
    pub fn serialize_f64_bits(&mut self, v: u64) -> (r: Result<(), EncodeError>)
        ensures
            r == Ok::<(), EncodeError>(()),
            final(self)@ == old(self)@ + be_bytes_64(v),
    {
        self.buffer.push((v >> 56) as u8);
        self.buffer.push(((v >> 48) & 0xFF) as u8);
        self.buffer.push(((v >> 40) & 0xFF) as u8);
        self.buffer.push(((v >> 32) & 0xFF) as u8);
        self.buffer.push(((v >> 24) & 0xFF) as u8);
        self.buffer.push(((v >> 16) & 0xFF) as u8);
        self.buffer.push(((v >> 8) & 0xFF) as u8);
        self.buffer.push((v & 0xFF) as u8);
        proof {
            assert(self.buffer@ =~= old(self)@ + be_bytes_64(v));
        }
        Ok(())
    }

    /// Appends the UTF-8 bytes of one character, self-delimiting, with
    /// no length prefix.
    pub fn serialize_char(&mut self, v: char) -> (r: Result<(), EncodeError>)
        ensures
            r == Ok::<(), EncodeError>(()),
            final(self)@ == old(self)@ + vstd::utf8::encode_scalar(v as u32),
    {
        proof {
            vstd::utf8::char_is_scalar(v);
        }
        let scalar = v as u32;
        if scalar < 0x80 {
            self.buffer.push((scalar & 0x7F) as u8);
        } else if scalar < 0x800 {
            self.buffer.push(0xC0 | ((scalar >> 6) & 0x1F) as u8);
            self.buffer.push(0x80 | (scalar & 0x3F) as u8);
        } else if scalar < 0x10000 {
            self.buffer.push(0xE0 | ((scalar >> 12) & 0x0F) as u8);
            self.buffer.push(0x80 | ((scalar >> 6) & 0x3F) as u8);
            self.buffer.push(0x80 | (scalar & 0x3F) as u8);
        } else {
            self.buffer.push(0xF0 | ((scalar >> 18) & 0x7) as u8);
            self.buffer.push(0x80 | ((scalar >> 12) & 0x3F) as u8);
            self.buffer.push(0x80 | ((scalar >> 6) & 0x3F) as u8);
            self.buffer.push(0x80 | (scalar & 0x3F) as u8);
        }
        proof {
            assert(self.buffer@ =~= old(self)@ + vstd::utf8::encode_scalar(v as u32));
        }
        Ok(())
    }

    /// Appends the unsigned encoding of the string's byte length (not
    /// its character count), then its UTF-8 bytes verbatim.
    pub fn serialize_str(&mut self, v: &str) -> (r: Result<(), EncodeError>)
        ensures
            r == Ok::<(), EncodeError>(()),
            final(self)@ == old(self)@ + unsigned_varint(vstd::utf8::encode_utf8(v@).len())
                + vstd::utf8::encode_utf8(v@),
    {
        let bytes = v.as_bytes();
        self.serialize_usize(bytes.len());
        self.append_bytes(bytes);
        Ok(())
    }

    /// Appends the unsigned encoding of the blob's byte count, then its
    /// bytes verbatim.
    pub fn serialize_bytes(&mut self, v: &[u8]) -> (r: Result<(), EncodeError>)
        ensures
            r == Ok::<(), EncodeError>(()),
            final(self)@ == old(self)@ + unsigned_varint(v@.len()) + v@,
    {
        self.serialize_usize(v.len());
        self.append_bytes(v);
        Ok(())
    }

    /// Appends the absent-optional marker, the single byte `0x00`.
    pub fn serialize_none(&mut self) -> (r: Result<(), EncodeError>)
        ensures
            r == Ok::<(), EncodeError>(()),
            final(self)@ == old(self)@ + seq![0x00u8],
    {
        self.buffer.push(0x00);
        proof {
            assert(self.buffer@ =~= old(self)@ + seq![0x00u8]);
        }
        Ok(())
    }

    /// Appends the present-optional marker, the single byte `0x01`.
    /// The caller encodes the value held by the optional right after.
    pub fn serialize_some(&mut self) -> (r: Result<(), EncodeError>)
        ensures
            r == Ok::<(), EncodeError>(()),
            final(self)@ == old(self)@ + seq![0x01u8],
    {
        self.buffer.push(0x01);
        proof {
            assert(self.buffer@ =~= old(self)@ + seq![0x01u8]);
        }
        Ok(())
    }

    /// The unit value takes no bytes at all.
    pub fn serialize_unit(&mut self) -> (r: Result<(), EncodeError>)
        ensures
            r == Ok::<(), EncodeError>(()),
            final(self)@ == old(self)@,
    {
        Ok(())
    }

    /// A unit struct takes no bytes at all: its name, like every name,
    /// is never written.
    pub fn serialize_unit_struct(&mut self) -> (r: Result<(), EncodeError>)
        ensures
            r == Ok::<(), EncodeError>(()),
            final(self)@ == old(self)@,
    {
        Ok(())
    }

    /// A union case with no payload: the unsigned encoding of its
    /// discriminant and nothing else.
    pub fn serialize_unit_variant(&mut self, variant_index: u32) -> (r: Result<(), EncodeError>)
        ensures
            r == Ok::<(), EncodeError>(()),
            final(self)@ == old(self)@ + unsigned_varint(variant_index as nat),
    {
        self.serialize_u32(variant_index)
    }

    /// A newtype struct adds no bytes of its own.  The caller encodes
    /// the wrapped value right after.
    pub fn serialize_newtype_struct(&mut self) -> (r: Result<(), EncodeError>)
        ensures
            r == Ok::<(), EncodeError>(()),
            final(self)@ == old(self)@,
    {
        Ok(())
    }

    /// A union case with exactly one payload value: the unsigned
    /// encoding of its discriminant.  The caller encodes the payload
    /// right after, with no length prefix, since its arity is fixed.
    pub fn serialize_newtype_variant(&mut self, variant_index: u32) -> (r: Result<
        (),
        EncodeError,
    >)
        ensures
            r == Ok::<(), EncodeError>(()),
            final(self)@ == old(self)@ + unsigned_varint(variant_index as nat),
    {
        self.serialize_usize(variant_index as usize);
        Ok(())
    }

    /// Starts a sequence: the unsigned encoding of the declared element
    /// count.  The caller encodes each element in iteration order right
    /// after.  A sequence whose length is not declared cannot be
    /// written, so it is refused with `LengthRequired` and the buffer
    /// is left untouched.
    pub fn serialize_seq(&mut self, len: Option<usize>) -> (r: Result<(), EncodeError>)
        ensures
            match len {
                Some(n) => r == Ok::<(), EncodeError>(()) && final(self)@ == old(self)@
                    + unsigned_varint(n as nat),
                None => r == Err::<(), EncodeError>(EncodeError::LengthRequired) && final(self)@
                    == old(self)@,
            },
    {
        match len {
            Some(size) => {
                self.serialize_usize(size);
                Ok(())
            },
            None => Err(EncodeError::LengthRequired),
        }
    }

    /// A tuple adds no count prefix: its arity is fixed by the schema.
    /// The caller encodes each element in declared order right after.
    pub fn serialize_tuple(&mut self, _len: usize) -> (r: Result<(), EncodeError>)
        ensures
            r == Ok::<(), EncodeError>(()),
            final(self)@ == old(self)@,
    {
        Ok(())
    }

    /// A tuple struct is written as its fields alone, in declared
    /// order, with no name and no count prefix.
    pub fn serialize_tuple_struct(&mut self, _len: usize) -> (r: Result<(), EncodeError>)
        ensures
            r == Ok::<(), EncodeError>(()),
            final(self)@ == old(self)@,
    {
        Ok(())
    }

    /// A union case carrying a tuple: the unsigned encoding of its
    /// discriminant.  The caller encodes each element in declared order
    /// right after, with no count prefix.
    pub fn serialize_tuple_variant(&mut self, variant_index: u32, _len: usize) -> (r: Result<
        (),
        EncodeError,
    >)
        ensures
            r == Ok::<(), EncodeError>(()),
            final(self)@ == old(self)@ + unsigned_varint(variant_index as nat),
    {
        self.serialize_u32(variant_index)
    }

    /// Starts a keyed mapping: the unsigned encoding of the declared
    /// pair count.  The caller encodes key then value for each pair, in
    /// the mapping's own iteration order, right after.  A mapping whose
    /// length is not declared is refused with `LengthRequired` and the
    /// buffer is left untouched.
    pub fn serialize_map(&mut self, len: Option<usize>) -> (r: Result<(), EncodeError>)
        ensures
            match len {
                Some(n) => r == Ok::<(), EncodeError>(()) && final(self)@ == old(self)@
                    + unsigned_varint(n as nat),
                None => r == Err::<(), EncodeError>(EncodeError::LengthRequired) && final(self)@
                    == old(self)@,
            },
    {
        match len {
            Some(size) => {
                self.serialize_usize(size);
                Ok(())
            },
            None => Err(EncodeError::LengthRequired),
        }
    }

    /// A named-field record is written as its field values alone, in
    /// declared order: names and count are never written.
    pub fn serialize_struct(&mut self, _len: usize) -> (r: Result<(), EncodeError>)
        ensures
            r == Ok::<(), EncodeError>(()),
            final(self)@ == old(self)@,
    {
        Ok(())
    }

    /// A union case carrying a named-field record: the unsigned
    /// encoding of its discriminant.  The caller encodes each field
    /// value in declared order right after.
    pub fn serialize_struct_variant(&mut self, variant_index: u32, _len: usize) -> (r: Result<
        (),
        EncodeError,
    >)
        ensures
            r == Ok::<(), EncodeError>(()),
            final(self)@ == old(self)@ + unsigned_varint(variant_index as nat),
    {
        self.serialize_u32(variant_index)
    }

    /// Appends a run of bytes verbatim.
    fn append_bytes(&mut self, bytes: &[u8])
        ensures
            final(self)@ == old(self)@ + bytes@,
    {
        let ghost pre = self.buffer@;
        let n = bytes.len();
        let mut i: usize = 0;
        while i < n
            invariant
                n == bytes@.len(),
                i <= n,
                self.buffer@ == pre + bytes@.take(i as int),
            decreases n - i,
        {
            let b = *vstd::slice::slice_index_get(bytes, i);
            self.buffer.push(b);
            proof {
                assert(self.buffer@ =~= pre + bytes@.take(i + 1));
            }
            i = i + 1;
        }
        proof {
            assert(self.buffer@ =~= pre + bytes@);
        }
    }

    /// Empties `stack` into the buffer from its top down, flagging
    /// continuation on every byte but the last emitted one.
    fn drain_chunks(&mut self, stack: Vec<u8>)
        requires
            forall|i: int| 0 <= i < stack@.len() ==> #[trigger] stack@[i] < 0x80,
        ensures
            final(self)@ == old(self)@ + drained_stack(stack@),
    {
        let ghost orig = stack@;
        let ghost pre = self.buffer@;
        let mut stack = stack;
        while stack.len() > 0
            invariant
                forall|i: int| 0 <= i < orig.len() ==> #[trigger] orig[i] < 0x80,
                stack@.len() <= orig.len(),
                stack@ == orig.take(stack@.len() as int),
                self.buffer@ == pre + drained_stack(orig).take(orig.len() - stack@.len()),
            decreases stack@.len(),
        {
            let ghost emitted = orig.len() - stack@.len();
            let ghost s_before = stack@;
            let mut next = stack.pop().unwrap();
            proof {
                assert(next == s_before[s_before.len() - 1]);
                assert(s_before[s_before.len() - 1] == orig[s_before.len() - 1]);
                assert forall|i: int| 0 <= i < stack@.len() implies #[trigger] stack@[i] == orig[i]
                    by {
                    assert(s_before[i] == orig[i]);
                }
                assert(stack@ =~= orig.take(stack@.len() as int));
            }
            if stack.len() > 0 {
                next = next + 0x80;
            }
            self.buffer.push(next);
            proof {
                assert(self.buffer@ =~= pre + drained_stack(orig).take(emitted + 1));
            }
        }
        proof {
            assert(self.buffer@ =~= pre + drained_stack(orig));
        }
    }
}

/// A present optional is laid out as the marker byte `0x01` followed
/// directly by the encoding of the held value: after the marker is
/// appended and the held value is encoded, the bytes past the original
/// buffer contents are exactly the marker and then the inner encoding.
pub proof fn lemma_present_optional_layout(
    pre: Seq<u8>,
    marked: Seq<u8>,
    inner: Seq<u8>,
    out: Seq<u8>,
)
    requires
        marked == pre + seq![0x01u8],
        out == marked + inner,
    ensures
        out.subrange(pre.len() as int, out.len() as int) =~= seq![0x01u8] + inner,
{
}

/// A sequence or mapping with a declared count is laid out as the
/// unsigned encoding of that count followed directly by the element
/// encodings: after the count is written and the elements are encoded,
/// the bytes past the original buffer contents start with exactly the
/// count's unsigned encoding.
pub proof fn lemma_container_starts_with_count(
    pre: Seq<u8>,
    counted: Seq<u8>,
    elements: Seq<u8>,
    out: Seq<u8>,
    n: nat,
)
    requires
        counted == pre + unsigned_varint(n),
        out == counted + elements,
    ensures
        out.subrange(pre.len() as int, out.len() as int) =~= unsigned_varint(n) + elements,
{
}

/// Digit groups that stand as a leading value plus the reverse of a
/// chunk stack relate index by index to the stack itself.
proof fn lemma_groups_emission(groups: Seq<u8>, stack: Seq<u8>, leading: u8)
    requires
        groups =~= seq![leading] + stack.reverse(),
    ensures
        groups.len() == 1 + stack.len(),
        groups[0] == leading,
        forall|i: int|
            1 <= i < groups.len() ==> #[trigger] groups[i] == stack[groups.len() - 1 - i],
{
    assert forall|i: int| 1 <= i < groups.len() implies #[trigger] groups[i] == stack[groups.len()
        - 1 - i] by {
        assert(stack.reverse()[i - 1] == stack[stack.len() - 1 - (i - 1)]);
    }
}

} // verus!
