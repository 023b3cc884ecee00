//! JSON serialization of the enriched fleet snapshot.
//!
//! The snapshot is a JSON array of records, one object per vehicle, fields
//! in declaration order. The library's fixed-point quantities are rendered
//! in their documented units as fixed-precision decimals: coordinates in
//! degrees with six fractional digits, speeds in m/s and distances in
//! metres with three, the delay in seconds with three. Strings are escaped
//! minimally: the quote and the backslash get a backslash, control bytes
//! become `\u00XX`; all other bytes pass through, which keeps multi-byte
//! UTF-8 sequences intact.

use crate::bus::Bus;
use vstd::prelude::*;
use vstd::string::StrSliceExecFns;
use vstd::string::StringSliceAdditionalSpecFns;
use vstd::utf8::encode_utf8;

verus! {

/// Decimal digits of `n`, most significant first.
pub open spec fn dec_digits(n: nat) -> Seq<u8>
    decreases n,
{
    if n < 10 {
        seq![(48 + n) as u8]
    } else {
        dec_digits(n / 10).push((48 + n % 10) as u8)
    }
}

/// Exactly `digits` decimal digits of `n`, zero-padded: the fractional part
/// of a fixed-point rendering.
pub open spec fn dec_frac(n: nat, digits: nat) -> Seq<u8>
    decreases digits,
{
    if digits == 0 {
        Seq::empty()
    } else {
        dec_frac(n / 10, (digits - 1) as nat).push((48 + n % 10) as u8)
    }
}

/// Fixed-point decimal rendering of `n` scale-ths, with `digits` fractional
/// digits (callers pass `scale` equal to ten to the `digits`).
pub open spec fn dec_fixed(n: int, scale: int, digits: nat) -> Seq<u8> {
    let m = if n < 0 {
        -n
    } else {
        n
    };
    (if n < 0 {
        seq![45u8]
    } else {
        Seq::<u8>::empty()
    }) + dec_digits((m / scale) as nat) + seq![46u8] + dec_frac((m % scale) as nat, digits)
}

/// Lowercase hexadecimal digit.
pub open spec fn hex_digit(n: u8) -> u8 {
    if n < 10 {
        (48 + n) as u8
    } else {
        (87 + n) as u8
    }
}

/// The escape of one byte inside a JSON string.
pub open spec fn esc_byte(b: u8) -> Seq<u8> {
    if b == 34 {
        seq![92u8, 34u8]
    } else if b == 92 {
        seq![92u8, 92u8]
    } else if b < 32 {
        seq![92u8, 117u8, 48u8, 48u8, hex_digit(b / 16), hex_digit(b % 16)]
    } else {
        seq![b]
    }
}

/// The escape of a byte string.
pub open spec fn esc_bytes(s: Seq<u8>) -> Seq<u8>
    decreases s.len(),
{
    if s.len() == 0 {
        Seq::empty()
    } else {
        esc_byte(s[0]) + esc_bytes(s.drop_first())
    }
}

pub proof fn lemma_esc_bytes_push(s: Seq<u8>, x: u8)
    ensures
        esc_bytes(s.push(x)) == esc_bytes(s) + esc_byte(x),
    decreases s.len(),
{
    if s.len() == 0 {
        assert(s.push(x).drop_first() =~= Seq::<u8>::empty());
        assert((s.push(x))[0] == x);
        assert(esc_bytes(Seq::<u8>::empty()) == Seq::<u8>::empty());
        assert(esc_bytes(s.push(x)) =~= esc_byte(x));
        assert(esc_bytes(s) + esc_byte(x) =~= esc_byte(x));
    } else {
        assert(s.push(x).drop_first() =~= s.drop_first().push(x));
        lemma_esc_bytes_push(s.drop_first(), x);
        assert(esc_bytes(s.push(x)) =~= esc_byte(s[0]) + (esc_bytes(s.drop_first()) + esc_byte(x)));
        assert(esc_byte(s[0]) + (esc_bytes(s.drop_first()) + esc_byte(x)) =~= (esc_byte(s[0])
            + esc_bytes(s.drop_first())) + esc_byte(x));
    }
}

/// A quoted, escaped JSON string for the UTF-8 bytes of `s`.
pub open spec fn json_string(s: Seq<char>) -> Seq<u8> {
    seq![34u8] + esc_bytes(encode_utf8(s)) + seq![34u8]
}

/// The identifying fields of one record's JSON rendering.
#[verifier::opaque]
pub open spec fn json_bus_head(b: Bus) -> Seq<u8> {
    ("{\"timestamp\":").spec_bytes() + dec_digits(b.timestamp as nat) + (",\"id\":").spec_bytes()
        + json_string(b.id@) + (",\"line\":").spec_bytes() + json_string(b.line@) + (
    ",\"line_id\":").spec_bytes() + json_string(b.line_id@) + (",\"trip_id\":").spec_bytes()
        + json_string(b.trip_id@) + (",\"agency_id\":").spec_bytes() + json_string(b.agency_id@)
}

/// The kinematic fields of one record's JSON rendering: coordinates in
/// degrees, speeds in m/s.
#[verifier::opaque]
pub open spec fn json_bus_mid(b: Bus) -> Seq<u8> {
    (",\"latitude\":").spec_bytes() + dec_fixed(b.latitude as int, 1_000_000, 6) + (
    ",\"longitude\":").spec_bytes() + dec_fixed(b.longitude as int, 1_000_000, 6) + (
    ",\"speed\":").spec_bytes() + dec_fixed(b.speed as int, 1000, 3) + (
    ",\"average_speed\":").spec_bytes() + dec_fixed(b.average_speed as int, 1000, 3) + (
    ",\"average_count\":").spec_bytes() + dec_digits(b.average_count as nat)
}

/// The derived fields of one record's JSON rendering: the remaining
/// distance in metres, the delay in seconds.
#[verifier::opaque]
pub open spec fn json_bus_tail(b: Bus) -> Seq<u8> {
    (",\"next_stop\":").spec_bytes() + dec_digits(b.next_stop as nat) + (
    ",\"theorical_stop\":").spec_bytes() + dec_digits(b.theorical_stop as nat) + (
    ",\"remaining_distance\":").spec_bytes() + dec_fixed(b.remaining_distance as int, 1000, 3) + (
    ",\"delay\":").spec_bytes() + dec_fixed(b.delay as int, 1000, 3) + (",\"is_out\":").spec_bytes()
        + (if b.is_out {
        ("true").spec_bytes()
    } else {
        ("false").spec_bytes()
    }) + ("}").spec_bytes()
}

/// The JSON rendering of one record, fields in declaration order.
pub open spec fn json_bus(b: Bus) -> Seq<u8> {
    json_bus_head(b) + json_bus_mid(b) + json_bus_tail(b)
}

/// The comma-joined renderings of a batch.
pub open spec fn json_batch_items(bs: Seq<Bus>) -> Seq<u8>
    decreases bs.len(),
{
    if bs.len() == 0 {
        Seq::empty()
    } else if bs.len() == 1 {
        json_bus(bs[0])
    } else {
        json_bus(bs[0]) + seq![44u8] + json_batch_items(bs.drop_first())
    }
}

/// The full snapshot: a JSON array of the batch.
pub open spec fn json_batch(bs: Seq<Bus>) -> Seq<u8> {
    seq![91u8] + json_batch_items(bs) + seq![93u8]
}

pub proof fn lemma_json_batch_items_push(bs: Seq<Bus>, b: Bus)
    ensures
        json_batch_items(bs.push(b)) == if bs.len() == 0 {
            json_bus(b)
        } else {
            json_batch_items(bs) + seq![44u8] + json_batch_items(seq![b])
        },
    decreases bs.len(),
{
    assert(json_batch_items(seq![b]) =~= json_bus(b));
    if bs.len() == 0 {
        assert(bs.push(b) =~= seq![b]);
    } else {
        assert(bs.push(b).drop_first() =~= bs.drop_first().push(b));
        assert(bs.push(b)[0] == bs[0]);
        lemma_json_batch_items_push(bs.drop_first(), b);
        if bs.len() == 1 {
            assert(json_batch_items(bs.push(b)) =~= json_bus(bs[0]) + seq![44u8] + json_bus(b));
            assert(json_batch_items(bs) + seq![44u8] + json_batch_items(seq![b]) =~= json_bus(bs[0])
                + seq![44u8] + json_bus(b));
        } else {
            assert(json_batch_items(bs.push(b)) =~= json_bus(bs[0]) + seq![44u8] + (
            json_batch_items(bs.drop_first()) + seq![44u8] + json_bus(b)));
            assert(json_batch_items(bs) + seq![44u8] + json_batch_items(seq![b]) =~= json_bus(bs[0])
                + seq![44u8] + (json_batch_items(bs.drop_first()) + seq![44u8] + json_bus(b)));
        }
    }
}

/// Append the decimal digits of `n`.
fn push_u64(out: &mut Vec<u8>, n: u64)
    ensures
        final(out)@ == old(out)@ + dec_digits(n as nat),
    decreases n,
{
    if n >= 10 {
        push_u64(out, n / 10);
    }
    out.push(48 + (n % 10) as u8);
    proof {
        if n < 10 {
            assert(old(out)@ + dec_digits(n as nat) =~= old(out)@.push((48 + n % 10) as u8));
        } else {
            assert(old(out)@ + dec_digits(n as nat) =~= (old(out)@ + dec_digits(
                (n / 10) as nat,
            )).push((48 + n % 10) as u8));
        }
    }
}

/// Append exactly `digits` zero-padded decimal digits of `n`.
fn push_frac(out: &mut Vec<u8>, n: u64, digits: u64)
    ensures
        final(out)@ == old(out)@ + dec_frac(n as nat, digits as nat),
    decreases digits,
{
    if digits > 0 {
        push_frac(out, n / 10, digits - 1);
        out.push(48 + (n % 10) as u8);
        proof {
            assert(old(out)@ + dec_frac(n as nat, digits as nat) =~= (old(out)@ + dec_frac(
                (n / 10) as nat,
                (digits - 1) as nat,
            )).push((48 + n % 10) as u8));
        }
    } else {
        proof {
            assert(old(out)@ + dec_frac(n as nat, 0) =~= old(out)@);
        }
    }
}

/// Append the fixed-point rendering of a non-negative value of `n`
/// scale-ths.
fn push_fixed_u64(out: &mut Vec<u8>, n: u64, scale: u64, digits: u64)
    requires
        scale > 0,
    ensures
        final(out)@ == old(out)@ + dec_fixed(n as int, scale as int, digits as nat),
{
    push_u64(out, n / scale);
    out.push(46);
    push_frac(out, n % scale, digits);
    proof {
        assert(final(out)@ =~= old(out)@ + dec_fixed(n as int, scale as int, digits as nat));
    }
}

/// Append the fixed-point rendering of a signed value of `n` scale-ths.
fn push_fixed_i64(out: &mut Vec<u8>, n: i64, scale: u64, digits: u64)
    requires
        scale > 0,
    ensures
        final(out)@ == old(out)@ + dec_fixed(n as int, scale as int, digits as nat),
{
    let m: u64 = if n < 0 {
        out.push(45);
        (-(n as i128)) as u64
    } else {
        n as u64
    };
    push_u64(out, m / scale);
    out.push(46);
    push_frac(out, m % scale, digits);
    proof {
        assert(final(out)@ =~= old(out)@ + dec_fixed(n as int, scale as int, digits as nat));
    }
}

/// Lowercase hexadecimal digit (runtime form).
fn hex_digit_of(n: u8) -> (r: u8)
    requires
        n < 16,
    ensures
        r == hex_digit(n),
{
    if n < 10 {
        48 + n
    } else {
        87 + n
    }
}

/// Append the escaped bytes of a string field.
fn push_escaped(out: &mut Vec<u8>, s: &String)
    ensures
        final(out)@ == old(out)@ + esc_bytes(encode_utf8(s@)),
{
    let bytes: Vec<u8> = s.as_str().as_bytes_vec();
    let mut i: usize = 0;
    proof {
        assert(bytes@.take(0) =~= Seq::<u8>::empty());
        assert(old(out)@ + esc_bytes(bytes@.take(0)) =~= old(out)@);
    }
    while i < bytes.len()
        invariant
            0 <= i <= bytes@.len(),
            bytes@ == encode_utf8(s@),
            out@ == old(out)@ + esc_bytes(bytes@.take(i as int)),
        decreases bytes@.len() - i,
    {
        let ghost pre = out@;
        let b = bytes[i];
        if b == 34 {
            out.push(92);
            out.push(34);
        } else if b == 92 {
            out.push(92);
            out.push(92);
        } else if b < 32 {
            out.push(92);
            out.push(117);
            out.push(48);
            out.push(48);
            out.push(hex_digit_of(b / 16));
            out.push(hex_digit_of(b % 16));
        } else {
            out.push(b);
        }
        proof {
            assert(out@ =~= pre + esc_byte(b));
            lemma_esc_bytes_push(bytes@.take(i as int), b);
            assert(bytes@.take(i as int).push(b) =~= bytes@.take(i + 1));
            assert(out@ =~= old(out)@ + esc_bytes(bytes@.take(i + 1)));
        }
        i += 1;
    }
    proof {
        assert(bytes@.take(bytes@.len() as int) =~= bytes@);
    }
}

/// Append a quoted, escaped JSON string.
fn push_json_string(out: &mut Vec<u8>, s: &String)
    ensures
        final(out)@ == old(out)@ + json_string(s@),
{
    out.push(34);
    push_escaped(out, s);
    out.push(34);
    proof {
        assert(final(out)@ =~= old(out)@ + json_string(s@));
    }
}

/// Append the bytes of a literal.
fn push_lit(out: &mut Vec<u8>, s: &str)
    ensures
        final(out)@ == old(out)@ + s.spec_bytes(),
{
    out.extend_from_slice(s.as_bytes());
}

/// Append the identifying fields of one record.
#[verifier::rlimit(50)]
fn push_bus_head(out: &mut Vec<u8>, b: &Bus)
    ensures
        final(out)@ == old(out)@ + json_bus_head(*b),
{
    push_lit(out, "{\"timestamp\":");
    push_u64(out, b.timestamp);
    push_lit(out, ",\"id\":");
    push_json_string(out, &b.id);
    push_lit(out, ",\"line\":");
    push_json_string(out, &b.line);
    push_lit(out, ",\"line_id\":");
    push_json_string(out, &b.line_id);
    push_lit(out, ",\"trip_id\":");
    push_json_string(out, &b.trip_id);
    push_lit(out, ",\"agency_id\":");
    push_json_string(out, &b.agency_id);
    proof {
        reveal(json_bus_head);
        assert(final(out)@ =~= old(out)@ + json_bus_head(*b));
    }
}

/// Append the kinematic fields of one record.
#[verifier::rlimit(50)]
fn push_bus_mid(out: &mut Vec<u8>, b: &Bus)
    ensures
        final(out)@ == old(out)@ + json_bus_mid(*b),
{
    push_lit(out, ",\"latitude\":");
    push_fixed_i64(out, b.latitude as i64, 1_000_000, 6);
    push_lit(out, ",\"longitude\":");
    push_fixed_i64(out, b.longitude as i64, 1_000_000, 6);
    push_lit(out, ",\"speed\":");
    push_fixed_u64(out, b.speed as u64, 1000, 3);
    push_lit(out, ",\"average_speed\":");
    push_fixed_u64(out, b.average_speed as u64, 1000, 3);
    push_lit(out, ",\"average_count\":");
    push_u64(out, b.average_count as u64);
    proof {
        reveal(json_bus_mid);
        assert(final(out)@ =~= old(out)@ + json_bus_mid(*b));
    }
}

/// Append the derived fields of one record.
#[verifier::rlimit(50)]
fn push_bus_tail(out: &mut Vec<u8>, b: &Bus)
    ensures
        final(out)@ == old(out)@ + json_bus_tail(*b),
{
    push_lit(out, ",\"next_stop\":");
    push_u64(out, b.next_stop as u64);
    push_lit(out, ",\"theorical_stop\":");
    push_u64(out, b.theorical_stop as u64);
    push_lit(out, ",\"remaining_distance\":");
    push_fixed_u64(out, b.remaining_distance, 1000, 3);
    push_lit(out, ",\"delay\":");
    push_fixed_i64(out, b.delay, 1000, 3);
    push_lit(out, ",\"is_out\":");
    if b.is_out {
        push_lit(out, "true");
    } else {
        push_lit(out, "false");
    }
    push_lit(out, "}");
    proof {
        reveal(json_bus_tail);
        assert(final(out)@ =~= old(out)@ + json_bus_tail(*b));
    }
}

/// Append the JSON rendering of one record.
fn push_bus(out: &mut Vec<u8>, b: &Bus)
    ensures
        final(out)@ == old(out)@ + json_bus(*b),
{
    push_bus_head(out, b);
    push_bus_mid(out, b);
    push_bus_tail(out, b);
    proof {
        assert(final(out)@ =~= old(out)@ + json_bus(*b));
    }
}

/// Serialize the whole batch as a JSON array.
pub fn json_of_batch(buses: &Vec<Bus>) -> (r: Vec<u8>)
    ensures
        r@ == json_batch(buses@),
{
    let mut out: Vec<u8> = Vec::new();
    out.push(91);
    let mut i: usize = 0;
    proof {
        assert(buses@.take(0) =~= Seq::<Bus>::empty());
        assert(out@ =~= seq![91u8] + json_batch_items(buses@.take(0)));
    }
    while i < buses.len()
        invariant
            0 <= i <= buses@.len(),
            out@ == seq![91u8] + json_batch_items(buses@.take(i as int)),
        decreases buses@.len() - i,
    {
        let ghost pre = out@;
        if i > 0 {
            out.push(44);
        }
        push_bus(&mut out, &buses[i]);
        proof {
            lemma_json_batch_items_push(buses@.take(i as int), buses@[i as int]);
            assert(buses@.take(i as int).push(buses@[i as int]) =~= buses@.take(i + 1));
            if i == 0 {
                assert(out@ =~= seq![91u8] + json_batch_items(buses@.take(i + 1)));
            } else {
                assert(json_batch_items(seq![buses@[i as int]]) =~= json_bus(buses@[i as int]));
                assert(out@ =~= seq![91u8] + json_batch_items(buses@.take(i + 1)));
            }
        }
        i += 1;
    }
    out.push(93);
    proof {
        assert(buses@.take(buses@.len() as int) =~= buses@);
        assert(out@ =~= json_batch(buses@));
    }
    out
}

} // verus!
