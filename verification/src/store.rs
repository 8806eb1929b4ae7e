//! The event store names each stored event by a version 6 UUID made from the
//! wall-clock time and a random clock sequence, so that names sort by time.
use vstd::prelude::*;

verus! {

/// The event store of the bank account.
pub struct EventStore;

/// The node id that the event store writes into every event's UUID.
pub open spec fn node_id() -> Seq<u8> {
    seq![1u8, 2u8, 3u8, 4u8, 5u8, 6u8]
}

/// The lowercase hex digit of `n < 16`.
pub open spec fn hex_digit(n: nat) -> char {
    if n < 10 {
        (48 + n) as char
    } else {
        (87 + n) as char
    }
}

/// The last `width` hex digits of `v`, most significant first.
pub open spec fn hex_text(v: nat, width: nat) -> Seq<char>
    decreases width,
{
    if width == 0 {
        Seq::empty()
    } else {
        hex_text(v / 16, (width - 1) as nat).push(hex_digit(v % 16))
    }
}

/// The hex digits of a sequence of bytes, two per byte.
pub open spec fn bytes_hex(b: Seq<u8>) -> Seq<char>
    decreases b.len(),
{
    if b.len() == 0 {
        Seq::empty()
    } else {
        bytes_hex(b.drop_last()) + hex_text(b.last() as nat, 2)
    }
}

/// The number of 100-nanosecond ticks from 15 October 1582 to a Unix time,
/// modulo 2^64.
pub open spec fn gregorian_ticks(seconds: u64, nanos: u32) -> nat {
    ((0x01B2_1DD2_1381_4000 + seconds * 10_000_000 + nanos / 100) as int % 0x1_0000_0000_0000_0000) as nat
}

/// The hyphenated text of the version 6 UUID of a Unix time, a clock
/// sequence and a node id: the ticks from most to least significant bits
/// with the version 6 in between, the 14-bit clock sequence under the
/// RFC 9562 variant bits, then the node id.
pub open spec fn uuid_v6_text(count: u16, seconds: u64, nanos: u32, node: Seq<u8>) -> Seq<char> {
    let t = gregorian_ticks(seconds, nanos);
    hex_text((t / 0x1000_0000) % 0x1_0000_0000, 8) + "-"@ + hex_text((t / 0x1000) % 0x1_0000, 4)
        + "-"@ + hex_text(t % 0x1000 + 0x6000, 4) + "-"@ + hex_text(
        (count % 0x4000) as nat + 0x8000,
        4,
    ) + "-"@ + bytes_hex(node)
}

/// The text of a version 6 UUID.
/// Calls `uuid::ContextV1::new` with the clock sequence, `Timestamp::from_unix`
/// with that fresh context and the time, `Uuid::new_v6` with the timestamp and
/// the node id, and formats the UUID with `to_string`. A fresh context hands
/// out its starting value, cut to 14 bits; the contract states the text that
/// uuid's source gives for these values.
#[verifier::external_body]
fn uuid_v6(count: u16, seconds: u64, nanos: u32, node: &[u8; 6]) -> (r: String)
    ensures
        r@ == uuid_v6_text(count, seconds, nanos, node@),
{
    let context = uuid::ContextV1::new(count);
    let ts = uuid::Timestamp::from_unix(context, seconds, nanos);
    uuid::Uuid::new_v6(ts, node).to_string()
}

impl EventStore {
    /// The file name of a new event, from a random number and the wall-clock
    /// time: the low 16 bits of `random` seed the clock sequence.
    pub fn event_file_name(random: u64, seconds: u64, nanoseconds: u32) -> (r: String)
        ensures
            r@ == uuid_v6_text((random % 0x1_0000) as u16, seconds, nanoseconds, node_id()),
    {
        let random_u16 = (random & 0xFFFF) as u16;
        proof {
            assert(random & 0xFFFF == random % 0x1_0000) by (bit_vector);
        }
        let node: [u8; 6] = [1, 2, 3, 4, 5, 6];
        proof {
            assert(node@ =~= node_id());
        }
        uuid_v6(random_u16, seconds, nanoseconds, &node)
    }
}

/// `a` comes before `b` in the order of their characters: they agree up to
/// some index, where `a` has the smaller character.
pub open spec fn text_before(a: Seq<char>, b: Seq<char>) -> bool {
    exists|i: int|
        0 <= i < a.len() && i < b.len() && a.take(i) == b.take(i) && (a[i] as u32) < (
        #[trigger] b[i] as u32)
}

pub open spec fn pow16(w: nat) -> nat
    decreases w,
{
    if w == 0 {
        1
    } else {
        16 * pow16((w - 1) as nat)
    }
}

proof fn lemma_hex_text_len(v: nat, w: nat)
    ensures
        hex_text(v, w).len() == w,
    decreases w,
{
    if w > 0 {
        lemma_hex_text_len(v / 16, (w - 1) as nat);
    }
}

/// Hex text of a fixed width orders as the numbers do.
proof fn lemma_hex_text_order(v1: nat, v2: nat, w: nat)
    requires
        v1 < v2 < pow16(w),
    ensures
        text_before(hex_text(v1, w), hex_text(v2, w)),
    decreases w,
{
    let a = hex_text(v1, w);
    let b = hex_text(v2, w);
    lemma_hex_text_len(v1, w);
    lemma_hex_text_len(v2, w);
    if w == 0 {
        assert(false);
    } else {
        let w1 = (w - 1) as nat;
        let p1 = hex_text(v1 / 16, w1);
        let p2 = hex_text(v2 / 16, w1);
        lemma_hex_text_len(v1 / 16, w1);
        lemma_hex_text_len(v2 / 16, w1);
        assert(v1 / 16 <= v2 / 16);
        if v1 / 16 < v2 / 16 {
            assert(v2 / 16 < pow16(w1));
            lemma_hex_text_order(v1 / 16, v2 / 16, w1);
            let i = choose|i: int|
                0 <= i < p1.len() && i < p2.len() && p1.take(i) == p2.take(i) && (p1[i] as u32) < (
                #[trigger] p2[i] as u32);
            assert(a.take(i) =~= p1.take(i));
            assert(b.take(i) =~= p2.take(i));
            assert(a[i] == p1[i] && b[i] == p2[i]);
        } else {
            assert(v1 % 16 < v2 % 16);
            let i = w1 as int;
            assert(a.take(i) =~= p1);
            assert(b.take(i) =~= p2);
            assert((a[i] as u32) < (b[i] as u32));
        }
    }
}

/// Text before another stays before it, whatever follows either of the two
/// when the first two have the same length; text after equal text keeps
/// its order.
proof fn lemma_text_before_concat(a1: Seq<char>, a2: Seq<char>, b1: Seq<char>, b2: Seq<char>)
    requires
        a1.len() == a2.len(),
        text_before(a1, a2) || (a1 == a2 && text_before(b1, b2)),
    ensures
        text_before(a1 + b1, a2 + b2),
{
    if text_before(a1, a2) {
        let i = choose|i: int|
            0 <= i < a1.len() && i < a2.len() && a1.take(i) == a2.take(i) && (a1[i] as u32) < (
            #[trigger] a2[i] as u32);
        assert((a1 + b1).take(i) =~= a1.take(i));
        assert((a2 + b2).take(i) =~= a2.take(i));
        assert((a1 + b1)[i] == a1[i] && (a2 + b2)[i] == a2[i]);
    } else {
        let i = choose|i: int|
            0 <= i < b1.len() && i < b2.len() && b1.take(i) == b2.take(i) && (b1[i] as u32) < (
            #[trigger] b2[i] as u32);
        let j = a1.len() + i;
        assert((a1 + b1).take(j) =~= a1 + b1.take(i));
        assert((a2 + b2).take(j) =~= a2 + b2.take(i));
        assert((a1 + b1)[j] == b1[i] && (a2 + b2)[j] == b2[i]);
    }
}

proof fn lemma_pow16_values()
    ensures
        pow16(3) == 0x1000,
        pow16(4) == 0x1_0000,
        pow16(8) == 0x1_0000_0000,
{
    reveal_with_fuel(pow16, 9);
}

/// The fields of ticks below 2^60: the high 32, middle 16 and low 12 bits.
proof fn lemma_tick_fields_order(t1: nat, t2: nat)
    requires
        t1 < t2 < 0x1000_0000_0000_0000,
    ensures
        (t1 / 0x1000_0000) % 0x1_0000_0000 == t1 / 0x1000_0000,
        (t2 / 0x1000_0000) % 0x1_0000_0000 == t2 / 0x1000_0000,
        t2 / 0x1000_0000 < 0x1_0000_0000,
        t1 / 0x1000_0000 < t2 / 0x1000_0000 || (t1 / 0x1000_0000 == t2 / 0x1000_0000 && (
        (t1 / 0x1000) % 0x1_0000 < (t2 / 0x1000) % 0x1_0000 || ((t1 / 0x1000) % 0x1_0000 == (t2
            / 0x1000) % 0x1_0000 && t1 % 0x1000 < t2 % 0x1000))),
{
    assert(t1 / 0x1000_0000 <= t2 / 0x1000_0000) by (nonlinear_arith)
        requires
            t1 < t2,
    ;
    assert(t2 / 0x1000_0000 < 0x1_0000_0000) by (nonlinear_arith)
        requires
            t2 < 0x1000_0000_0000_0000,
    ;
    if t1 / 0x1000_0000 == t2 / 0x1000_0000 {
        let h = t1 / 0x1000_0000;
        assert(t1 == h * 0x1000_0000 + (t1 / 0x1000) % 0x1_0000 * 0x1000 + t1 % 0x1000) by (
        nonlinear_arith)
            requires
                h == t1 / 0x1000_0000,
        ;
        assert(t2 == h * 0x1000_0000 + (t2 / 0x1000) % 0x1_0000 * 0x1000 + t2 % 0x1000) by (
        nonlinear_arith)
            requires
                h == t2 / 0x1000_0000,
        ;
        let m1 = (t1 / 0x1000) % 0x1_0000;
        let m2 = (t2 / 0x1000) % 0x1_0000;
        let l1 = t1 % 0x1000;
        let l2 = t2 % 0x1000;
        assert(m1 * 0x1000 + l1 < m2 * 0x1000 + l2);
        if m1 > m2 {
            assert(m1 * 0x1000 >= m2 * 0x1000 + 0x1000) by (nonlinear_arith)
                requires
                    m1 > m2,
            ;
        } else if m1 == m2 {
        }
    }
}

/// Event file names sort as the times they were made at, whatever their
/// clock sequences, as long as the ticks stay below 2^60 (until the year
/// 5236).
pub proof fn law_event_names_sort_by_time(
    c1: u16,
    s1: u64,
    n1: u32,
    c2: u16,
    s2: u64,
    n2: u32,
    node: Seq<u8>,
)
    requires
        gregorian_ticks(s1, n1) < gregorian_ticks(s2, n2) < 0x1000_0000_0000_0000,
    ensures
        text_before(uuid_v6_text(c1, s1, n1, node), uuid_v6_text(c2, s2, n2, node)),
{
    let t1 = gregorian_ticks(s1, n1);
    let t2 = gregorian_ticks(s2, n2);
    lemma_tick_fields_order(t1, t2);
    lemma_pow16_values();
    let h1 = hex_text((t1 / 0x1000_0000) % 0x1_0000_0000, 8);
    let h2 = hex_text((t2 / 0x1000_0000) % 0x1_0000_0000, 8);
    let m1 = hex_text((t1 / 0x1000) % 0x1_0000, 4);
    let m2 = hex_text((t2 / 0x1000) % 0x1_0000, 4);
    let l1 = hex_text(t1 % 0x1000 + 0x6000, 4);
    let l2 = hex_text(t2 % 0x1000 + 0x6000, 4);
    let r1 = "-"@ + hex_text((c1 % 0x4000) as nat + 0x8000, 4) + "-"@ + bytes_hex(node);
    let r2 = "-"@ + hex_text((c2 % 0x4000) as nat + 0x8000, 4) + "-"@ + bytes_hex(node);
    let d = "-"@;
    lemma_hex_text_len((t1 / 0x1000_0000) % 0x1_0000_0000, 8);
    lemma_hex_text_len((t2 / 0x1000_0000) % 0x1_0000_0000, 8);
    lemma_hex_text_len((t1 / 0x1000) % 0x1_0000, 4);
    lemma_hex_text_len((t2 / 0x1000) % 0x1_0000, 4);
    lemma_hex_text_len(t1 % 0x1000 + 0x6000, 4);
    lemma_hex_text_len(t2 % 0x1000 + 0x6000, 4);
    // The tail after the time: the low bits and what follows them.
    let tail1 = l1 + r1;
    let tail2 = l2 + r2;
    let mid1 = m1 + d + tail1;
    let mid2 = m2 + d + tail2;
    assert(uuid_v6_text(c1, s1, n1, node) =~= h1 + d + mid1);
    assert(uuid_v6_text(c2, s2, n2, node) =~= h2 + d + mid2);
    if t1 / 0x1000_0000 < t2 / 0x1000_0000 {
        lemma_hex_text_order(
            (t1 / 0x1000_0000) % 0x1_0000_0000,
            (t2 / 0x1000_0000) % 0x1_0000_0000,
            8,
        );
        lemma_text_before_concat(h1, h2, d + mid1, d + mid2);
        assert(h1 + d + mid1 =~= h1 + (d + mid1));
        assert(h2 + d + mid2 =~= h2 + (d + mid2));
    } else {
        assert(h1 == h2);
        if (t1 / 0x1000) % 0x1_0000 < (t2 / 0x1000) % 0x1_0000 {
            lemma_hex_text_order((t1 / 0x1000) % 0x1_0000, (t2 / 0x1000) % 0x1_0000, 4);
            lemma_text_before_concat(m1, m2, d + tail1, d + tail2);
            assert(mid1 =~= m1 + (d + tail1));
            assert(mid2 =~= m2 + (d + tail2));
        } else {
            assert(m1 == m2);
            lemma_hex_text_order(t1 % 0x1000 + 0x6000, t2 % 0x1000 + 0x6000, 4);
            lemma_text_before_concat(l1, l2, r1, r2);
            lemma_text_before_concat(m1 + d, m2 + d, tail1, tail2);
            assert(mid1 =~= (m1 + d) + tail1);
            assert(mid2 =~= (m2 + d) + tail2);
        }
        lemma_text_before_concat(h1 + d, h2 + d, mid1, mid2);
        assert(h1 + d + mid1 =~= (h1 + d) + mid1);
        assert(h2 + d + mid2 =~= (h2 + d) + mid2);
    }
}

} // verus!
