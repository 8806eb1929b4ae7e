//! The protobuf wire format: base-128 varints, field keys, and skipping of
//! fields that a message does not know.
use vstd::prelude::*;
use vstd::utf8::*;
use vstd::string::*;

verus! {

/// Bound on the value that a varint starting at byte index `i` of its
/// encoding may still carry: the tenth byte may only hold the top bit.
pub open spec fn varint_cap(i: nat) -> nat
    decreases 9 - i,
{
    if i >= 9 {
        2
    } else {
        128 * varint_cap(i + 1)
    }
}

/// Reads a varint whose first byte is `s[0]` and which already has `i` bytes
/// before it: the value and the number of bytes it takes, or `None` where no
/// terminating byte comes in time or the tenth byte overflows 64 bits.
pub open spec fn varint_from(s: Seq<u8>, i: nat) -> Option<(nat, nat)>
    decreases s.len(),
{
    if i >= 10 || s.len() == 0 {
        None
    } else if s[0] < 128 {
        if i == 9 && s[0] >= 2 {
            None
        } else {
            Some((s[0] as nat, 1nat))
        }
    } else {
        match varint_from(s.drop_first(), i + 1) {
            None => None,
            Some((v, n)) => Some(((s[0] - 128) as nat + 128 * v, n + 1)),
        }
    }
}

/// The varint at the start of `s`, with the number of bytes it takes.
pub open spec fn varint(s: Seq<u8>) -> Option<(nat, nat)> {
    varint_from(s, 0)
}

/// The bytes of `v` as a varint: seven bits per byte, low bits first, the top
/// bit set on every byte but the last.
pub open spec fn varint_bytes(v: nat) -> Seq<u8>
    decreases v,
{
    if v < 128 {
        seq![v as u8]
    } else {
        seq![(v % 128 + 128) as u8] + varint_bytes(v / 128)
    }
}

pub proof fn lemma_varint_cap_zero()
    ensures
        varint_cap(0) == 0x1_0000_0000_0000_0000,
{
    reveal_with_fuel(varint_cap, 10);
}

proof fn lemma_varint_from_bound(s: Seq<u8>, i: nat)
    requires
        varint_from(s, i) is Some,
    ensures
        varint_from(s, i).unwrap().0 < varint_cap(i),
        1 <= varint_from(s, i).unwrap().1 <= s.len(),
        varint_from(s, i).unwrap().1 + i <= 10,
    decreases s.len(),
{
    if s[0] < 128 {
        if i < 9 {
            lemma_varint_cap_ge_128(i);
        }
    } else {
        lemma_varint_from_bound(s.drop_first(), i + 1);
    }
}

proof fn lemma_varint_cap_ge_128(i: nat)
    requires
        i < 9,
    ensures
        varint_cap(i) >= 256,
    decreases 9 - i,
{
    reveal_with_fuel(varint_cap, 2);
    if i + 1 < 9 {
        lemma_varint_cap_ge_128(i + 1);
    }
}

/// A varint read from bytes holds at most 64 bits and takes 1 to 10 bytes.
pub proof fn lemma_varint_bound(s: Seq<u8>)
    requires
        varint(s) is Some,
    ensures
        varint(s).unwrap().0 < 0x1_0000_0000_0000_0000,
        1 <= varint(s).unwrap().1 <= s.len(),
        varint(s).unwrap().1 <= 10,
{
    lemma_varint_from_bound(s, 0);
    lemma_varint_cap_zero();
}

proof fn lemma_varint_from_roundtrip(v: nat, rest: Seq<u8>, i: nat)
    requires
        i <= 9,
        v < varint_cap(i),
    ensures
        varint_from(varint_bytes(v) + rest, i) == Some((v, varint_bytes(v).len())),
    decreases v,
{
    let s = varint_bytes(v) + rest;
    if v < 128 {
        assert(s[0] == v as u8);
        if i == 9 {
            assert(v < 2);
        }
    } else {
        if i == 9 {
            assert(false);
        }
        assert(v < 128 * varint_cap(i + 1));
        assert(v / 128 < varint_cap(i + 1));
        lemma_varint_from_roundtrip(v / 128, rest, i + 1);
        assert(s.drop_first() =~= varint_bytes(v / 128) + rest);
        assert(s[0] == (v % 128 + 128) as u8);
    }
}

/// Reading back the varint bytes of any 64-bit value gives the value and the
/// length of those bytes, whatever follows them.
pub proof fn lemma_varint_roundtrip(v: u64, rest: Seq<u8>)
    ensures
        varint(varint_bytes(v as nat) + rest) == Some((v as nat, varint_bytes(v as nat).len())),
        1 <= varint_bytes(v as nat).len() <= 10,
{
    lemma_varint_cap_zero();
    lemma_varint_from_roundtrip(v as nat, rest, 0);
    lemma_varint_bound(varint_bytes(v as nat) + rest);
}

/// Appends the varint bytes of `value` to `buf`.
/// Calls `prost::encoding::encode_varint`, which writes seven bits per byte,
/// low bits first, with the top bit set on all but the last byte; its
/// contract says that exactly those bytes are appended.
#[verifier::external_body]
pub(crate) fn put_varint(value: u64, buf: &mut Vec<u8>)
    ensures
        final(buf)@ == old(buf)@ + varint_bytes(value as nat),
{
    prost::encoding::encode_varint(value, buf);
}

/// Reads the varint at the start of `bytes` and returns it with the bytes
/// after it, or `None` where `bytes` holds no valid varint.
/// Calls `prost::encoding::decode_varint` on the slice, which fails where the
/// input ends before a byte below 0x80, or where the tenth byte is above 1;
/// its contract says that it reads what `varint` describes.
#[verifier::external_body]
pub(crate) fn take_varint<'a>(bytes: &'a [u8]) -> (r: Option<(u64, &'a [u8])>)
    ensures
        r is Some <==> varint(bytes@) is Some,
        r matches Some((v, rest)) ==> v as nat == varint(bytes@).unwrap().0 && rest@ == bytes@.skip(
            varint(bytes@).unwrap().1 as int,
        ),
{
    let mut rest = bytes;
    match prost::encoding::decode_varint(&mut rest) {
        Ok(v) => Some((v, rest)),
        Err(_) => None,
    }
}

/// How the value of a field is laid out after its key.
#[derive(Clone, Copy, Debug, PartialEq, Eq, Structural)]
pub enum WireType {
    Varint,
    SixtyFourBit,
    LengthDelimited,
    StartGroup,
    EndGroup,
    ThirtyTwoBit,
}

/// The number that a wire type has in the low three bits of a key.
pub open spec fn wire_type_code(w: WireType) -> nat {
    match w {
        WireType::Varint => 0,
        WireType::SixtyFourBit => 1,
        WireType::LengthDelimited => 2,
        WireType::StartGroup => 3,
        WireType::EndGroup => 4,
        WireType::ThirtyTwoBit => 5,
    }
}

/// The wire type with number `n`, if there is one.
pub open spec fn wire_type_of(n: nat) -> Option<WireType> {
    if n == 0 {
        Some(WireType::Varint)
    } else if n == 1 {
        Some(WireType::SixtyFourBit)
    } else if n == 2 {
        Some(WireType::LengthDelimited)
    } else if n == 3 {
        Some(WireType::StartGroup)
    } else if n == 4 {
        Some(WireType::EndGroup)
    } else if n == 5 {
        Some(WireType::ThirtyTwoBit)
    } else {
        None
    }
}

/// Why bytes are not a valid encoding.
#[derive(Clone, Copy, Debug, PartialEq, Eq, Structural)]
pub enum DecodeErrorKind {
    InvalidVarint,
    RecursionLimitReached,
    InvalidWireType(u64),
    InvalidKey(u64),
    InvalidTag,
    UnexpectedWireType { actual: WireType, expected: WireType },
    BufferUnderflow,
    DelimitedLengthExceeded,
    UnexpectedEndGroupTag,
    InvalidString,
}

/// The key at the start of `s`: its field number, its wire type and the
/// number of bytes it takes.
pub open spec fn key(s: Seq<u8>) -> Result<(u32, WireType, nat), DecodeErrorKind> {
    match varint(s) {
        None => Err(DecodeErrorKind::InvalidVarint),
        Some((k, n)) => if k > u32::MAX {
            Err(DecodeErrorKind::InvalidKey(k as u64))
        } else {
            match wire_type_of(k % 8) {
                None => Err(DecodeErrorKind::InvalidWireType((k % 8) as u64)),
                Some(w) => if k / 8 < 1 {
                    Err(DecodeErrorKind::InvalidTag)
                } else {
                    Ok(((k / 8) as u32, w, n))
                },
            }
        },
    }
}

/// The bytes of the key of field `tag` with wire type `w`.
pub open spec fn key_bytes(tag: u32, w: WireType) -> Seq<u8> {
    varint_bytes(tag as nat * 8 + wire_type_code(w))
}

/// The number of bytes that skipping an unknown field of wire type `w`
/// consumes from `s`, where `depth` more levels of nesting are allowed.
pub open spec fn skip_field(w: WireType, tag: u32, s: Seq<u8>, depth: nat) -> Result<nat, DecodeErrorKind>
    decreases depth, s.len(), 1nat,
{
    if depth == 0 {
        Err(DecodeErrorKind::RecursionLimitReached)
    } else {
        match w {
            WireType::Varint => match varint(s) {
                None => Err(DecodeErrorKind::InvalidVarint),
                Some((_, n)) => Ok(n),
            },
            WireType::ThirtyTwoBit => if s.len() < 4 {
                Err(DecodeErrorKind::BufferUnderflow)
            } else {
                Ok(4)
            },
            WireType::SixtyFourBit => if s.len() < 8 {
                Err(DecodeErrorKind::BufferUnderflow)
            } else {
                Ok(8)
            },
            WireType::LengthDelimited => match varint(s) {
                None => Err(DecodeErrorKind::InvalidVarint),
                Some((l, n)) => if l + n > s.len() {
                    Err(DecodeErrorKind::BufferUnderflow)
                } else {
                    Ok(n + l)
                },
            },
            WireType::StartGroup => skip_group(tag, s, depth),
            WireType::EndGroup => Err(DecodeErrorKind::UnexpectedEndGroupTag),
        }
    }
}

/// The number of bytes that the fields of group `tag`, up to and with its
/// end key, take at the start of `s`.
pub open spec fn skip_group(tag: u32, s: Seq<u8>, depth: nat) -> Result<nat, DecodeErrorKind>
    decreases depth, s.len(), 0nat,
{
    match key(s) {
        Err(e) => Err(e),
        Ok((t, w, n)) => if w == WireType::EndGroup {
            if t != tag {
                Err(DecodeErrorKind::UnexpectedEndGroupTag)
            } else {
                Ok(n)
            }
        } else if depth == 0 {
            Err(DecodeErrorKind::RecursionLimitReached)
        } else {
            match skip_field(w, t, s.skip(n as int), (depth - 1) as nat) {
                Err(e) => Err(e),
                Ok(m) => if n == 0 || n + m > s.len() {
                    Err(DecodeErrorKind::BufferUnderflow)
                } else {
                    match skip_group(tag, s.skip((n + m) as int), depth) {
                        Err(e) => Err(e),
                        Ok(r) => Ok(n + m + r),
                    }
                },
            }
        },
    }
}

/// A key takes between one byte and all of `s`.
pub proof fn lemma_key_bound(s: Seq<u8>)
    requires
        key(s) is Ok,
    ensures
        1 <= key(s)->Ok_0.2 <= s.len(),
{
    lemma_varint_bound(s);
}

/// Skipping a field never consumes more than the bytes there are.
pub proof fn lemma_skip_bound(w: WireType, tag: u32, s: Seq<u8>, depth: nat)
    requires
        skip_field(w, tag, s, depth) is Ok,
    ensures
        skip_field(w, tag, s, depth)->Ok_0 <= s.len(),
    decreases depth, s.len(), 1nat,
{
    if depth > 0 {
        match w {
            WireType::Varint => lemma_varint_bound(s),
            WireType::StartGroup => lemma_skip_group_bound(tag, s, depth),
            _ => {},
        }
    }
}

proof fn lemma_skip_group_bound(tag: u32, s: Seq<u8>, depth: nat)
    requires
        skip_group(tag, s, depth) is Ok,
    ensures
        skip_group(tag, s, depth)->Ok_0 <= s.len(),
    decreases depth, s.len(), 0nat,
{
    lemma_key_bound(s);
    let (t, w, n) = key(s)->Ok_0;
    if w != WireType::EndGroup {
        let m = skip_field(w, t, s.skip(n as int), (depth - 1) as nat)->Ok_0;
        lemma_skip_group_bound(tag, s.skip((n + m) as int), depth);
    }
}

/// Reads the key at the start of `s`, and returns its field number and wire
/// type with the bytes after it.
pub fn decode_key<'a>(s: &'a [u8]) -> (r: Result<(u32, WireType, &'a [u8]), DecodeErrorKind>)
    ensures
        match key(s@) {
            Ok((t, w, n)) => r matches Ok((t2, w2, rest)) && t2 == t && w2 == w && rest@ == s@.skip(
                n as int,
            ),
            Err(e) => r == Err::<(u32, WireType, &[u8]), DecodeErrorKind>(e),
        },
{
    match take_varint(s) {
        None => Err(DecodeErrorKind::InvalidVarint),
        Some((k, rest)) => {
            if k > 0xffff_ffffu64 {
                return Err(DecodeErrorKind::InvalidKey(k));
            }
            let code = k % 8;
            let w = if code == 0 {
                WireType::Varint
            } else if code == 1 {
                WireType::SixtyFourBit
            } else if code == 2 {
                WireType::LengthDelimited
            } else if code == 3 {
                WireType::StartGroup
            } else if code == 4 {
                WireType::EndGroup
            } else if code == 5 {
                WireType::ThirtyTwoBit
            } else {
                return Err(DecodeErrorKind::InvalidWireType(code));
            };
            let tag = k / 8;
            if tag < 1 {
                return Err(DecodeErrorKind::InvalidTag);
            }
            Ok((tag as u32, w, rest))
        },
    }
}

/// Appends the key of field `tag` with wire type `w` to `buf`.
pub fn encode_key(tag: u32, w: WireType, buf: &mut Vec<u8>)
    ensures
        final(buf)@ == old(buf)@ + key_bytes(tag, w),
{
    let code: u64 = match w {
        WireType::Varint => 0,
        WireType::SixtyFourBit => 1,
        WireType::LengthDelimited => 2,
        WireType::StartGroup => 3,
        WireType::EndGroup => 4,
        WireType::ThirtyTwoBit => 5,
    };
    put_varint(tag as u64 * 8 + code, buf);
}

/// Skips an unknown field of wire type `w` and returns the bytes after it.
pub fn skip<'a>(w: WireType, tag: u32, s: &'a [u8], depth: u32) -> (r: Result<&'a [u8], DecodeErrorKind>)
    ensures
        match skip_field(w, tag, s@, depth as nat) {
            Ok(n) => r matches Ok(rest) && rest@ == s@.skip(n as int),
            Err(e) => r == Err::<&[u8], DecodeErrorKind>(e),
        },
    decreases depth, s@.len(), 1nat,
{
    if depth == 0 {
        return Err(DecodeErrorKind::RecursionLimitReached);
    }
    match w {
        WireType::Varint => match take_varint(s) {
            None => Err(DecodeErrorKind::InvalidVarint),
            Some((_, rest)) => Ok(rest),
        },
        WireType::ThirtyTwoBit => {
            if s.len() < 4 {
                Err(DecodeErrorKind::BufferUnderflow)
            } else {
                let (_, rest) = s.split_at(4);
                Ok(rest)
            }
        },
        WireType::SixtyFourBit => {
            if s.len() < 8 {
                Err(DecodeErrorKind::BufferUnderflow)
            } else {
                let (_, rest) = s.split_at(8);
                Ok(rest)
            }
        },
        WireType::LengthDelimited => match take_varint(s) {
            None => Err(DecodeErrorKind::InvalidVarint),
            Some((l, rest)) => {
                proof {
                    lemma_varint_bound(s@);
                }
                if l > rest.len() as u64 {
                    Err(DecodeErrorKind::BufferUnderflow)
                } else {
                    let (_, after) = rest.split_at(l as usize);
                    assert(after@ =~= s@.skip((varint(s@).unwrap().1 + l) as int));
                    Ok(after)
                }
            },
        },
        WireType::StartGroup => skip_group_fields(tag, s, depth),
        WireType::EndGroup => Err(DecodeErrorKind::UnexpectedEndGroupTag),
    }
}

fn skip_group_fields<'a>(tag: u32, s: &'a [u8], depth: u32) -> (r: Result<&'a [u8], DecodeErrorKind>)
    ensures
        match skip_group(tag, s@, depth as nat) {
            Ok(n) => r matches Ok(rest) && rest@ == s@.skip(n as int),
            Err(e) => r == Err::<&[u8], DecodeErrorKind>(e),
        },
    decreases depth, s@.len(), 0nat,
{
    let (t, w, rest) = match decode_key(s) {
        Ok(x) => x,
        Err(e) => return Err(e),
    };
    proof {
        lemma_key_bound(s@);
    }
    let ghost n = key(s@)->Ok_0.2;
    if w == WireType::EndGroup {
        if t != tag {
            return Err(DecodeErrorKind::UnexpectedEndGroupTag);
        }
        return Ok(rest);
    }
    if depth == 0 {
        return Err(DecodeErrorKind::RecursionLimitReached);
    }
    let after = match skip(w, t, rest, depth - 1) {
        Ok(a) => a,
        Err(e) => return Err(e),
    };
    proof {
        lemma_skip_bound(w, t, rest@, (depth - 1) as nat);
        let m = skip_field(w, t, rest@, (depth - 1) as nat)->Ok_0;
        assert(after@ =~= s@.skip((n + m) as int));
    }
    let end = match skip_group_fields(tag, after, depth) {
        Ok(e) => e,
        Err(e) => return Err(e),
    };
    proof {
        let m = skip_field(w, t, rest@, (depth - 1) as nat)->Ok_0;
        let r2 = skip_group(tag, s@.skip((n + m) as int), depth as nat)->Ok_0;
        lemma_skip_group_bound(tag, after@, depth as nat);
        assert(end@ =~= s@.skip((n + m + r2) as int));
    }
    Ok(end)
}

/// The value of a varint field: its wire type must be `Varint`.
pub open spec fn varint_field(w: WireType, s: Seq<u8>) -> Result<(nat, nat), DecodeErrorKind> {
    if w != WireType::Varint {
        Err(DecodeErrorKind::UnexpectedWireType { actual: w, expected: WireType::Varint })
    } else {
        match varint(s) {
            None => Err(DecodeErrorKind::InvalidVarint),
            Some(p) => Ok(p),
        }
    }
}

/// Reads the value of a varint field, and returns it with the bytes after it.
pub fn read_varint_field<'a>(w: WireType, s: &'a [u8]) -> (r: Result<(u64, &'a [u8]), DecodeErrorKind>)
    ensures
        match varint_field(w, s@) {
            Ok((v, n)) => r matches Ok((x, rest)) && x as nat == v && rest@ == s@.skip(n as int),
            Err(e) => r == Err::<(u64, &[u8]), DecodeErrorKind>(e),
        },
{
    if w != WireType::Varint {
        return Err(DecodeErrorKind::UnexpectedWireType { actual: w, expected: WireType::Varint });
    }
    match take_varint(s) {
        None => Err(DecodeErrorKind::InvalidVarint),
        Some((v, rest)) => Ok((v, rest)),
    }
}

/// The characters of a string field and the number of bytes it takes: its
/// wire type must be `LengthDelimited`, and its bytes valid UTF-8.
pub open spec fn string_field(w: WireType, s: Seq<u8>) -> Result<(Seq<char>, nat), DecodeErrorKind> {
    if w != WireType::LengthDelimited {
        Err(
            DecodeErrorKind::UnexpectedWireType {
                actual: w,
                expected: WireType::LengthDelimited,
            },
        )
    } else {
        match varint(s) {
            None => Err(DecodeErrorKind::InvalidVarint),
            Some((l, n)) => if l + n > s.len() {
                Err(DecodeErrorKind::BufferUnderflow)
            } else if !valid_utf8(s.subrange(n as int, (n + l) as int)) {
                Err(DecodeErrorKind::InvalidString)
            } else {
                Ok((decode_utf8(s.subrange(n as int, (n + l) as int)), n + l))
            },
        }
    }
}

/// Checks that `bytes` are UTF-8 and returns them as text.
/// Calls `std::str::from_utf8`, which succeeds exactly on valid UTF-8, and
/// whose result has exactly the given bytes.
#[verifier::external_body]
fn utf8_text(bytes: &[u8]) -> (r: Option<&str>)
    ensures
        r is Some <==> valid_utf8(bytes@),
        r matches Some(t) ==> t.spec_bytes() == bytes@,
{
    std::str::from_utf8(bytes).ok()
}

/// Reads the value of a string field, and returns it with the bytes after it.
pub fn read_string_field<'a>(w: WireType, s: &'a [u8]) -> (r: Result<(String, &'a [u8]), DecodeErrorKind>)
    ensures
        match string_field(w, s@) {
            Ok((v, n)) => r matches Ok((x, rest)) && x@ == v && rest@ == s@.skip(n as int),
            Err(e) => r matches Err(e2) && e2 == e,
        },
{
    if w != WireType::LengthDelimited {
        return Err(
            DecodeErrorKind::UnexpectedWireType {
                actual: w,
                expected: WireType::LengthDelimited,
            },
        );
    }
    match take_varint(s) {
        None => Err(DecodeErrorKind::InvalidVarint),
        Some((l, rest)) => {
            proof {
                lemma_varint_bound(s@);
            }
            if l > rest.len() as u64 {
                return Err(DecodeErrorKind::BufferUnderflow);
            }
            let (body, after) = rest.split_at(l as usize);
            let ghost n = varint(s@).unwrap().1;
            assert(body@ =~= s@.subrange(n as int, (n + l) as int));
            assert(after@ =~= s@.skip((n + l) as int));
            match utf8_text(body) {
                None => Err(DecodeErrorKind::InvalidString),
                Some(t) => {
                    let text = t.to_owned();
                    proof {
                        encode_utf8_decode_utf8(t@);
                    }
                    Ok((text, after))
                },
            }
        },
    }
}

} // verus!
