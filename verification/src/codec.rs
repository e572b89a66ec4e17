//! Deterministic byte encoding for values crossing the native/host
//! boundary.
//!
//! Every quantity is a fixed-width little-endian integer: lengths and
//! counts are 32-bit, characters are encoded as their 32-bit code point,
//! samples as their 32-bit offset-binary form. Each encoder has a spec
//! function giving the exact bytes produced, each decoder is specified
//! against a spec parser, and the parsers invert the encoders exactly, so
//! decoding an encoded value always returns the original.

use vstd::prelude::*;

use crate::errors::DeserializeError;
use crate::normalize::Sample;

verus! {

/// Lengths and counts on the wire are 32-bit, so no encodable collection
/// may have more elements than this.
pub const MAX_WIRE_LEN: usize = 0xFFFF_FFFF;

/// The four little-endian bytes of `n`.
pub open spec fn u32_le(n: u32) -> Seq<u8> {
    seq![
        (n % 256) as u8,
        ((n / 256) % 256) as u8,
        ((n / 65536) % 256) as u8,
        ((n / 16777216) % 256) as u8,
    ]
}

/// The value of four little-endian bytes.
pub open spec fn u32_of_le(b: Seq<u8>) -> u32 {
    (b[0] + b[1] * 256 + b[2] * 65536 + b[3] * 16777216) as u32
}

/// Reading back the four bytes of `n` yields `n`.
pub proof fn lemma_u32_le_round_trip(n: u32)
    ensures
        u32_of_le(u32_le(n)) == n,
{
    let a = n as int;
    vstd::arithmetic::div_mod::lemma_fundamental_div_mod(a, 256);
    vstd::arithmetic::div_mod::lemma_fundamental_div_mod(a / 256, 256);
    vstd::arithmetic::div_mod::lemma_fundamental_div_mod(a / 256 / 256, 256);
    vstd::arithmetic::div_mod::lemma_div_denominator(a, 256, 256);
    vstd::arithmetic::div_mod::lemma_div_denominator(a, 65536, 256);
    assert(a / 16777216 < 256) by {
        vstd::arithmetic::div_mod::lemma_div_is_ordered(a, 0xFFFF_FFFF, 16777216);
    }
    assert(0 <= a / 16777216) by {
        vstd::arithmetic::div_mod::lemma_div_is_ordered(0, a, 16777216);
    }
    vstd::arithmetic::div_mod::lemma_small_mod((a / 16777216) as nat, 256);
}

/// Appends the four little-endian bytes of `n`.
pub fn write_u32(out: &mut Vec<u8>, n: u32)
    ensures
        final(out)@ == old(out)@ + u32_le(n),
{
    out.push((n % 256) as u8);
    out.push(((n / 256) % 256) as u8);
    out.push(((n / 65536) % 256) as u8);
    out.push((n / 16777216) as u8);
    proof {
        vstd::arithmetic::div_mod::lemma_div_is_ordered(n as int, 0xFFFF_FFFF, 16777216);
        vstd::arithmetic::div_mod::lemma_div_is_ordered(0, n as int, 16777216);
        vstd::arithmetic::div_mod::lemma_small_mod((n as int / 16777216) as nat, 256);
        assert(final(out)@ =~= old(out)@ + u32_le(n));
    }
}

/// Reads a 32-bit value from position `pos`: `Some` exactly when four
/// bytes are available.
pub open spec fn parse_u32(b: Seq<u8>, pos: int) -> Option<(u32, int)> {
    if pos < 0 || pos + 4 > b.len() {
        None
    } else {
        Some((u32_of_le(b.subrange(pos, pos + 4)), pos + 4))
    }
}

/// Reads the 32-bit value encoded at `pos`, advancing past it.
pub fn read_u32(b: &Vec<u8>, pos: usize) -> (r: Result<(u32, usize), DeserializeError>)
    ensures
        match parse_u32(b@, pos as int) {
            Some((v, next)) => r matches Ok((rv, rp)) && rv == v && rp == next,
            None => r is Err,
        },
{
    if b.len() < 4 || pos > b.len() - 4 {
        return Err(DeserializeError::new("truncated input: expected 4 more bytes"));
    }
    let v: u32 = b[pos] as u32 + (b[pos + 1] as u32) * 256 + (b[pos + 2] as u32) * 65536 + (b[pos
        + 3] as u32) * 16777216;
    proof {
        let window = b@.subrange(pos as int, pos as int + 4);
        assert(window[0] == b@[pos as int] && window[1] == b@[pos as int + 1] && window[2]
            == b@[pos as int + 2] && window[3] == b@[pos as int + 3]);
    }
    Ok((v, pos + 4))
}

/// The code points `char::from_u32` accepts: Unicode scalar values.
pub open spec fn is_scalar_value(v: u32) -> bool {
    v < 0xD800 || (0xE000 <= v && v <= 0x10FFFF)
}

/// The bytes of the characters of `s`, each as its 32-bit code point.
pub open spec fn chars_bytes(s: Seq<char>) -> Seq<u8>
    decreases s.len(),
{
    if s.len() == 0 {
        Seq::empty()
    } else {
        u32_le(s[0] as u32) + chars_bytes(s.drop_first())
    }
}

/// The bytes of a string: its character count, then each character.
pub open spec fn string_bytes(s: Seq<char>) -> Seq<u8> {
    u32_le(s.len() as u32) + chars_bytes(s)
}

/// Every character contributes exactly four bytes.
pub proof fn lemma_chars_bytes_len(s: Seq<char>)
    ensures
        chars_bytes(s).len() == 4 * s.len(),
    decreases s.len(),
{
    if s.len() > 0 {
        lemma_chars_bytes_len(s.drop_first());
    }
}

/// Appending a character appends its four bytes.
pub proof fn lemma_chars_bytes_push(s: Seq<char>, c: char)
    ensures
        chars_bytes(s.push(c)) == chars_bytes(s) + u32_le(c as u32),
    decreases s.len(),
{
    if s.len() == 0 {
        assert(s.push(c)[0] == c);
        assert(s.push(c).drop_first() =~= Seq::<char>::empty());
        assert(chars_bytes(Seq::<char>::empty()) == Seq::<u8>::empty());
        assert(chars_bytes(s.push(c)) == u32_le(c as u32) + Seq::<u8>::empty());
        assert(u32_le(c as u32) + Seq::<u8>::empty() =~= Seq::<u8>::empty() + u32_le(c as u32));
    } else {
        assert(s.push(c).drop_first() =~= s.drop_first().push(c));
        assert(s.push(c)[0] == s[0]);
        lemma_chars_bytes_push(s.drop_first(), c);
        assert(chars_bytes(s.push(c)) == u32_le(s[0] as u32) + (chars_bytes(s.drop_first())
            + u32_le(c as u32)));
        assert(u32_le(s[0] as u32) + (chars_bytes(s.drop_first()) + u32_le(c as u32)) =~= (u32_le(
            s[0] as u32,
        ) + chars_bytes(s.drop_first())) + u32_le(c as u32));
    }
}

/// Reads `count` characters starting at `pos`: `Some` exactly when enough
/// bytes remain and every code point is a Unicode scalar value.
pub open spec fn parse_chars(b: Seq<u8>, pos: int, count: int) -> Option<(Seq<char>, int)>
    decreases count,
{
    if count <= 0 {
        Some((Seq::empty(), pos))
    } else {
        match parse_u32(b, pos) {
            None => None,
            Some((v, p2)) => if is_scalar_value(v) {
                match parse_chars(b, p2, count - 1) {
                    None => None,
                    Some((cs, p3)) => Some((seq![v as char] + cs, p3)),
                }
            } else {
                None
            },
        }
    }
}

/// Reads a counted string starting at `pos`.
pub open spec fn parse_string(b: Seq<u8>, pos: int) -> Option<(Seq<char>, int)> {
    match parse_u32(b, pos) {
        None => None,
        Some((n, p2)) => parse_chars(b, p2, n as int),
    }
}

/// Parsing four bytes that encode `v` yields `v`.
pub proof fn lemma_parse_u32_at(b: Seq<u8>, pos: int, v: u32)
    requires
        0 <= pos,
        pos + 4 <= b.len(),
        b.subrange(pos, pos + 4) == u32_le(v),
    ensures
        parse_u32(b, pos) == Some((v, pos + 4)),
{
    lemma_u32_le_round_trip(v);
}

/// Parsing the bytes of the characters of `s` yields `s`.
pub proof fn lemma_parse_chars_at(b: Seq<u8>, pos: int, s: Seq<char>)
    requires
        0 <= pos,
        pos + 4 * s.len() <= b.len(),
        b.subrange(pos, pos + 4 * s.len()) == chars_bytes(s),
    ensures
        parse_chars(b, pos, s.len() as int) == Some((s, pos + 4 * s.len())),
    decreases s.len(),
{
    lemma_chars_bytes_len(s);
    if s.len() == 0 {
        assert(parse_chars(b, pos, 0) == Some((Seq::<char>::empty(), pos)));
        assert(s =~= Seq::<char>::empty());
    } else {
        let v = s[0] as u32;
        let d = s.drop_first();
        let all = b.subrange(pos, pos + 4 * s.len());
        lemma_chars_bytes_len(d);
        assert(chars_bytes(s) == u32_le(v) + chars_bytes(d));
        assert(b.subrange(pos, pos + 4) =~= all.subrange(0, 4));
        assert(all.subrange(0, 4) =~= u32_le(v));
        lemma_parse_u32_at(b, pos, v);
        vstd::utf8::char_u32_cast(s[0], v);
        assert(b.subrange(pos + 4, pos + 4 + 4 * d.len()) =~= all.subrange(4, 4 * s.len() as int));
        assert(all.subrange(4, 4 * s.len() as int) =~= chars_bytes(d));
        lemma_parse_chars_at(b, pos + 4, d);
        assert(seq![v as char] + d =~= s);
    }
}

/// Parsing the bytes of string `s` yields `s`.
pub proof fn lemma_parse_string_at(b: Seq<u8>, pos: int, s: Seq<char>)
    requires
        0 <= pos,
        s.len() <= MAX_WIRE_LEN,
        pos + 4 + 4 * s.len() <= b.len(),
        b.subrange(pos, pos + 4 + 4 * s.len()) == string_bytes(s),
    ensures
        parse_string(b, pos) == Some((s, pos + 4 + 4 * s.len())),
{
    lemma_chars_bytes_len(s);
    let all = b.subrange(pos, pos + 4 + 4 * s.len());
    assert(b.subrange(pos, pos + 4) =~= all.subrange(0, 4));
    assert(all.subrange(0, 4) =~= u32_le(s.len() as u32));
    lemma_parse_u32_at(b, pos, s.len() as u32);
    assert(b.subrange(pos + 4, pos + 4 + 4 * s.len()) =~= all.subrange(4, 4 + 4 * s.len() as int));
    assert(all.subrange(4, 4 + 4 * s.len() as int) =~= chars_bytes(s));
    lemma_parse_chars_at(b, pos + 4, s);
}

/// Appends the encoding of `s`: character count, then each character.
pub fn write_string(out: &mut Vec<u8>, s: &str)
    requires
        s@.len() <= MAX_WIRE_LEN,
    ensures
        final(out)@ == old(out)@ + string_bytes(s@),
{
    let n = s.unicode_len();
    write_u32(out, n as u32);
    let mut k: usize = 0;
    while k < n
        invariant
            k <= n,
            n == s@.len(),
            s@.len() <= MAX_WIRE_LEN,
            out@ == old(out)@ + u32_le(n as u32) + chars_bytes(s@.take(k as int)),
        decreases n - k,
    {
        let c = s.get_char(k);
        write_u32(out, c as u32);
        proof {
            lemma_chars_bytes_push(s@.take(k as int), c);
            assert(s@.take(k as int).push(c) =~= s@.take(k as int + 1));
            assert(out@ =~= old(out)@ + u32_le(n as u32) + chars_bytes(s@.take(k as int + 1)));
        }
        k = k + 1;
    }
    proof {
        assert(s@.take(n as int) =~= s@);
        assert(out@ =~= old(out)@ + string_bytes(s@));
    }
}

/// Reads the string encoded at `pos`, advancing past it.
pub fn read_string(b: &Vec<u8>, pos: usize) -> (r: Result<(String, usize), DeserializeError>)
    ensures
        match parse_string(b@, pos as int) {
            Some((cs, next)) => r matches Ok(p) && p.0@ == cs && p.1 == next,
            None => r is Err,
        },
{
    let (n, start) = match read_u32(b, pos) {
        Ok(p) => p,
        Err(e) => {
            return Err(e);
        },
    };
    let ghost count: int = n as int;
    let mut s = String::new();
    let mut k: u32 = 0;
    let mut at: usize = start;
    while k < n
        invariant
            k <= n,
            count == n as int,
            parse_string(b@, pos as int) == parse_chars(b@, start as int, count),
            match parse_chars(b@, at as int, count - k as int) {
                Some((cs, e)) => parse_chars(b@, start as int, count) == Some((s@ + cs, e)),
                None => parse_chars(b@, start as int, count) is None,
            },
        decreases n - k,
    {
        let ghost rem: int = count - k as int;
        let (v, next) = match read_u32(b, at) {
            Ok(p) => p,
            Err(_) => {
                return Err(DeserializeError::new("truncated input inside a string"));
            },
        };
        let c = match char::from_u32(v) {
            Some(c) => c,
            None => {
                return Err(DeserializeError::new("invalid character code point"));
            },
        };
        let ghost prev: Seq<char> = s@;
        s.push(c);
        proof {
            vstd::utf8::char_u32_cast(c, v);
            match parse_chars(b@, next as int, rem - 1) {
                Some((cs2, e)) => {
                    assert(parse_chars(b@, at as int, rem) == Some((seq![c] + cs2, e)));
                    assert(prev + (seq![c] + cs2) =~= s@ + cs2);
                },
                None => {
                    assert(parse_chars(b@, at as int, rem) is None);
                },
            }
        }
        at = next;
        k = k + 1;
    }
    proof {
        assert(parse_chars(b@, at as int, 0) == Some((Seq::<char>::empty(), at as int)));
        assert(s@ + Seq::<char>::empty() =~= s@);
    }
    Ok((s, at))
}

/// The 32-bit offset-binary form of a sample.
pub open spec fn sample_u32(x: Sample) -> u32 {
    (x + 0x8000_0000) as u32
}

/// The sample encoded by an offset-binary value.
pub open spec fn sample_of_u32(v: u32) -> Sample {
    (v - 0x8000_0000) as i32
}

/// The bytes of the samples of `s`, each in 32-bit offset-binary form.
pub open spec fn samples_payload(s: Seq<Sample>) -> Seq<u8>
    decreases s.len(),
{
    if s.len() == 0 {
        Seq::empty()
    } else {
        u32_le(sample_u32(s[0])) + samples_payload(s.drop_first())
    }
}

/// The bytes of a sample sequence: its count, then each sample.
pub open spec fn samples_bytes(s: Seq<Sample>) -> Seq<u8> {
    u32_le(s.len() as u32) + samples_payload(s)
}

/// Every sample contributes exactly four bytes.
pub proof fn lemma_samples_payload_len(s: Seq<Sample>)
    ensures
        samples_payload(s).len() == 4 * s.len(),
    decreases s.len(),
{
    if s.len() > 0 {
        lemma_samples_payload_len(s.drop_first());
    }
}

/// Appending a sample appends its four bytes.
pub proof fn lemma_samples_payload_push(s: Seq<Sample>, x: Sample)
    ensures
        samples_payload(s.push(x)) == samples_payload(s) + u32_le(sample_u32(x)),
    decreases s.len(),
{
    if s.len() == 0 {
        assert(s.push(x)[0] == x);
        assert(s.push(x).drop_first() =~= Seq::<Sample>::empty());
        assert(samples_payload(Seq::<Sample>::empty()) == Seq::<u8>::empty());
        assert(samples_payload(s.push(x)) == u32_le(sample_u32(x)) + Seq::<u8>::empty());
        assert(u32_le(sample_u32(x)) + Seq::<u8>::empty() =~= Seq::<u8>::empty() + u32_le(
            sample_u32(x),
        ));
    } else {
        assert(s.push(x).drop_first() =~= s.drop_first().push(x));
        assert(s.push(x)[0] == s[0]);
        lemma_samples_payload_push(s.drop_first(), x);
        assert(samples_payload(s.push(x)) == u32_le(sample_u32(s[0])) + (samples_payload(
            s.drop_first(),
        ) + u32_le(sample_u32(x))));
        assert(u32_le(sample_u32(s[0])) + (samples_payload(s.drop_first()) + u32_le(
            sample_u32(x),
        )) =~= (u32_le(sample_u32(s[0])) + samples_payload(s.drop_first())) + u32_le(
            sample_u32(x),
        ));
    }
}

/// Reads `count` samples starting at `pos`.
pub open spec fn parse_sample_run(b: Seq<u8>, pos: int, count: int) -> Option<(Seq<Sample>, int)>
    decreases count,
{
    if count <= 0 {
        Some((Seq::empty(), pos))
    } else {
        match parse_u32(b, pos) {
            None => None,
            Some((v, p2)) => match parse_sample_run(b, p2, count - 1) {
                None => None,
                Some((xs, p3)) => Some((seq![sample_of_u32(v)] + xs, p3)),
            },
        }
    }
}

/// Reads a counted sample sequence starting at `pos`.
pub open spec fn parse_samples(b: Seq<u8>, pos: int) -> Option<(Seq<Sample>, int)> {
    match parse_u32(b, pos) {
        None => None,
        Some((n, p2)) => parse_sample_run(b, p2, n as int),
    }
}

/// Parsing the bytes of the samples of `s` yields `s`.
pub proof fn lemma_parse_sample_run_at(b: Seq<u8>, pos: int, s: Seq<Sample>)
    requires
        0 <= pos,
        pos + 4 * s.len() <= b.len(),
        b.subrange(pos, pos + 4 * s.len()) == samples_payload(s),
    ensures
        parse_sample_run(b, pos, s.len() as int) == Some((s, pos + 4 * s.len())),
    decreases s.len(),
{
    lemma_samples_payload_len(s);
    if s.len() == 0 {
        assert(s =~= Seq::<Sample>::empty());
    } else {
        let v = sample_u32(s[0]);
        let d = s.drop_first();
        let all = b.subrange(pos, pos + 4 * s.len());
        lemma_samples_payload_len(d);
        assert(samples_payload(s) == u32_le(v) + samples_payload(d));
        assert(b.subrange(pos, pos + 4) =~= all.subrange(0, 4));
        assert(all.subrange(0, 4) =~= u32_le(v));
        lemma_parse_u32_at(b, pos, v);
        assert(sample_of_u32(v) == s[0]);
        assert(b.subrange(pos + 4, pos + 4 + 4 * d.len()) =~= all.subrange(4, 4 * s.len() as int));
        assert(all.subrange(4, 4 * s.len() as int) =~= samples_payload(d));
        lemma_parse_sample_run_at(b, pos + 4, d);
        assert(seq![sample_of_u32(v)] + d =~= s);
    }
}

/// Parsing the bytes of sample sequence `s` yields `s`.
pub proof fn lemma_parse_samples_at(b: Seq<u8>, pos: int, s: Seq<Sample>)
    requires
        0 <= pos,
        s.len() <= MAX_WIRE_LEN,
        pos + 4 + 4 * s.len() <= b.len(),
        b.subrange(pos, pos + 4 + 4 * s.len()) == samples_bytes(s),
    ensures
        parse_samples(b, pos) == Some((s, pos + 4 + 4 * s.len())),
{
    lemma_samples_payload_len(s);
    let all = b.subrange(pos, pos + 4 + 4 * s.len());
    assert(b.subrange(pos, pos + 4) =~= all.subrange(0, 4));
    assert(all.subrange(0, 4) =~= u32_le(s.len() as u32));
    lemma_parse_u32_at(b, pos, s.len() as u32);
    assert(b.subrange(pos + 4, pos + 4 + 4 * s.len()) =~= all.subrange(4, 4 + 4 * s.len() as int));
    assert(all.subrange(4, 4 + 4 * s.len() as int) =~= samples_payload(s));
    lemma_parse_sample_run_at(b, pos + 4, s);
}

/// Appends the encoding of `samples`: count, then each sample.
pub fn write_samples(out: &mut Vec<u8>, samples: &Vec<Sample>)
    requires
        samples@.len() <= MAX_WIRE_LEN,
    ensures
        final(out)@ == old(out)@ + samples_bytes(samples@),
{
    let n = samples.len();
    write_u32(out, n as u32);
    let mut k: usize = 0;
    while k < n
        invariant
            k <= n,
            n == samples@.len(),
            out@ == old(out)@ + u32_le(n as u32) + samples_payload(samples@.take(k as int)),
        decreases n - k,
    {
        let x = samples[k];
        write_u32(out, ((x as i64) + 0x8000_0000) as u32);
        proof {
            lemma_samples_payload_push(samples@.take(k as int), x);
            assert(samples@.take(k as int).push(x) =~= samples@.take(k as int + 1));
            assert(out@ =~= old(out)@ + u32_le(n as u32) + samples_payload(
                samples@.take(k as int + 1),
            ));
        }
        k = k + 1;
    }
    proof {
        assert(samples@.take(n as int) =~= samples@);
        assert(out@ =~= old(out)@ + samples_bytes(samples@));
    }
}

/// Reads the sample sequence encoded at `pos`, advancing past it.
pub fn read_samples(b: &Vec<u8>, pos: usize) -> (r: Result<
    (Vec<Sample>, usize),
    DeserializeError,
>)
    ensures
        match parse_samples(b@, pos as int) {
            Some((xs, next)) => r matches Ok(p) && p.0@ == xs && p.1 == next,
            None => r is Err,
        },
{
    let (n, start) = match read_u32(b, pos) {
        Ok(p) => p,
        Err(e) => {
            return Err(e);
        },
    };
    let ghost count: int = n as int;
    let mut out: Vec<Sample> = Vec::new();
    let mut k: u32 = 0;
    let mut at: usize = start;
    while k < n
        invariant
            k <= n,
            count == n as int,
            parse_samples(b@, pos as int) == parse_sample_run(b@, start as int, count),
            match parse_sample_run(b@, at as int, count - k as int) {
                Some((xs, e)) => parse_sample_run(b@, start as int, count) == Some(
                    (out@ + xs, e),
                ),
                None => parse_sample_run(b@, start as int, count) is None,
            },
        decreases n - k,
    {
        let ghost rem: int = count - k as int;
        let (v, next) = match read_u32(b, at) {
            Ok(p) => p,
            Err(_) => {
                return Err(DeserializeError::new("truncated input inside a sample sequence"));
            },
        };
        let x: Sample = ((v as i64) - 0x8000_0000) as i32;
        let ghost prev: Seq<Sample> = out@;
        out.push(x);
        proof {
            match parse_sample_run(b@, next as int, rem - 1) {
                Some((xs2, e)) => {
                    assert(parse_sample_run(b@, at as int, rem) == Some((seq![x] + xs2, e)));
                    assert(prev + (seq![x] + xs2) =~= out@ + xs2);
                },
                None => {
                    assert(parse_sample_run(b@, at as int, rem) is None);
                },
            }
        }
        at = next;
        k = k + 1;
    }
    proof {
        assert(parse_sample_run(b@, at as int, 0) == Some((Seq::<Sample>::empty(), at as int)));
        assert(out@ + Seq::<Sample>::empty() =~= out@);
    }
    Ok((out, at))
}

/// Whether every string in `ws` fits the 32-bit wire length.
pub open spec fn strings_fit(ws: Seq<Seq<char>>) -> bool {
    forall|i: int| 0 <= i < ws.len() ==> (#[trigger] ws[i]).len() <= MAX_WIRE_LEN
}

/// The bytes of the strings of `ws`, each as a counted string.
pub open spec fn strings_payload(ws: Seq<Seq<char>>) -> Seq<u8>
    decreases ws.len(),
{
    if ws.len() == 0 {
        Seq::empty()
    } else {
        string_bytes(ws[0]) + strings_payload(ws.drop_first())
    }
}

/// The bytes of a string list: its count, then each string.
pub open spec fn strings_bytes(ws: Seq<Seq<char>>) -> Seq<u8> {
    u32_le(ws.len() as u32) + strings_payload(ws)
}

/// Appending a string appends its bytes.
pub proof fn lemma_strings_payload_push(ws: Seq<Seq<char>>, w: Seq<char>)
    ensures
        strings_payload(ws.push(w)) == strings_payload(ws) + string_bytes(w),
    decreases ws.len(),
{
    if ws.len() == 0 {
        assert(ws.push(w)[0] == w);
        assert(ws.push(w).drop_first() =~= Seq::<Seq<char>>::empty());
        assert(strings_payload(Seq::<Seq<char>>::empty()) == Seq::<u8>::empty());
        assert(strings_payload(ws.push(w)) == string_bytes(w) + Seq::<u8>::empty());
        assert(string_bytes(w) + Seq::<u8>::empty() =~= Seq::<u8>::empty() + string_bytes(w));
    } else {
        assert(ws.push(w).drop_first() =~= ws.drop_first().push(w));
        assert(ws.push(w)[0] == ws[0]);
        lemma_strings_payload_push(ws.drop_first(), w);
        assert(strings_payload(ws.push(w)) == string_bytes(ws[0]) + (strings_payload(
            ws.drop_first(),
        ) + string_bytes(w)));
        assert(string_bytes(ws[0]) + (strings_payload(ws.drop_first()) + string_bytes(w)) =~= (
        string_bytes(ws[0]) + strings_payload(ws.drop_first())) + string_bytes(w));
    }
}

/// Reads `count` strings starting at `pos`.
pub open spec fn parse_string_run(b: Seq<u8>, pos: int, count: int) -> Option<
    (Seq<Seq<char>>, int),
>
    decreases count,
{
    if count <= 0 {
        Some((Seq::empty(), pos))
    } else {
        match parse_string(b, pos) {
            None => None,
            Some((w, p2)) => match parse_string_run(b, p2, count - 1) {
                None => None,
                Some((ws, p3)) => Some((seq![w] + ws, p3)),
            },
        }
    }
}

/// Reads a counted string list starting at `pos`.
pub open spec fn parse_strings(b: Seq<u8>, pos: int) -> Option<(Seq<Seq<char>>, int)> {
    match parse_u32(b, pos) {
        None => None,
        Some((n, p2)) => parse_string_run(b, p2, n as int),
    }
}

/// Parsing the bytes of the strings of `ws` yields `ws`.
pub proof fn lemma_parse_string_run_at(b: Seq<u8>, pos: int, ws: Seq<Seq<char>>)
    requires
        0 <= pos,
        strings_fit(ws),
        pos + strings_payload(ws).len() <= b.len(),
        b.subrange(pos, pos + strings_payload(ws).len()) == strings_payload(ws),
    ensures
        parse_string_run(b, pos, ws.len() as int) == Some(
            (ws, pos + strings_payload(ws).len()),
        ),
    decreases ws.len(),
{
    if ws.len() == 0 {
        assert(ws =~= Seq::<Seq<char>>::empty());
    } else {
        let w = ws[0];
        let d = ws.drop_first();
        let all = b.subrange(pos, pos + strings_payload(ws).len());
        let wlen: int = 4 + 4 * w.len() as int;
        lemma_chars_bytes_len(w);
        assert(strings_payload(ws) == string_bytes(w) + strings_payload(d));
        assert(b.subrange(pos, pos + wlen) =~= all.subrange(0, wlen));
        assert(all.subrange(0, wlen) =~= string_bytes(w));
        lemma_parse_string_at(b, pos, w);
        assert(b.subrange(pos + wlen, pos + wlen + strings_payload(d).len()) =~= all.subrange(
            wlen,
            strings_payload(ws).len() as int,
        ));
        assert(all.subrange(wlen, strings_payload(ws).len() as int) =~= strings_payload(d));
        lemma_parse_string_run_at(b, pos + wlen, d);
        assert(seq![w] + d =~= ws);
    }
}

/// Parsing the bytes of string list `ws` yields `ws`.
pub proof fn lemma_parse_strings_at(b: Seq<u8>, pos: int, ws: Seq<Seq<char>>)
    requires
        0 <= pos,
        ws.len() <= MAX_WIRE_LEN,
        strings_fit(ws),
        pos + 4 + strings_payload(ws).len() <= b.len(),
        b.subrange(pos, pos + 4 + strings_payload(ws).len()) == strings_bytes(ws),
    ensures
        parse_strings(b, pos) == Some((ws, pos + 4 + strings_payload(ws).len())),
{
    let all = b.subrange(pos, pos + 4 + strings_payload(ws).len());
    assert(b.subrange(pos, pos + 4) =~= all.subrange(0, 4));
    assert(all.subrange(0, 4) =~= u32_le(ws.len() as u32));
    lemma_parse_u32_at(b, pos, ws.len() as u32);
    assert(b.subrange(pos + 4, pos + 4 + strings_payload(ws).len()) =~= all.subrange(
        4,
        4 + strings_payload(ws).len() as int,
    ));
    assert(all.subrange(4, 4 + strings_payload(ws).len() as int) =~= strings_payload(ws));
    lemma_parse_string_run_at(b, pos + 4, ws);
}

/// A parsed character run has exactly the requested count.
pub proof fn lemma_parse_chars_shape(b: Seq<u8>, pos: int, count: int)
    requires
        parse_chars(b, pos, count) is Some,
    ensures
        parse_chars(b, pos, count) matches Some((cs, p)) && cs.len() == if count >= 0 {
            count
        } else {
            0
        },
    decreases count,
{
    if count > 0 {
        let (v, p2) = parse_u32(b, pos)->Some_0;
        lemma_parse_chars_shape(b, p2, count - 1);
    }
}

/// A parsed string is never longer than the wire length limit.
pub proof fn lemma_parse_string_shape(b: Seq<u8>, pos: int)
    requires
        parse_string(b, pos) is Some,
    ensures
        parse_string(b, pos) matches Some((s, p)) && s.len() <= MAX_WIRE_LEN,
{
    let (n, p2) = parse_u32(b, pos)->Some_0;
    lemma_parse_chars_shape(b, p2, n as int);
}

/// A parsed string run has exactly the requested count, of strings that
/// all fit the wire length limit.
pub proof fn lemma_parse_string_run_shape(b: Seq<u8>, pos: int, count: int)
    requires
        parse_string_run(b, pos, count) is Some,
    ensures
        parse_string_run(b, pos, count) matches Some((ws, p)) && ws.len() == (if count >= 0 {
            count
        } else {
            0
        }) && strings_fit(ws),
    decreases count,
{
    if count > 0 {
        let (w, p2) = parse_string(b, pos)->Some_0;
        lemma_parse_string_shape(b, pos);
        lemma_parse_string_run_shape(b, p2, count - 1);
        let ws = parse_string_run(b, pos, count)->Some_0.0;
        assert forall|i: int| 0 <= i < ws.len() implies (#[trigger] ws[i]).len()
            <= MAX_WIRE_LEN by {
            if i > 0 {
                let tail = parse_string_run(b, p2, count - 1)->Some_0.0;
                assert(ws[i] == tail[i - 1]);
            }
        }
    }
}

/// A parsed string list fits the wire limits.
pub proof fn lemma_parse_strings_shape(b: Seq<u8>, pos: int)
    requires
        parse_strings(b, pos) is Some,
    ensures
        parse_strings(b, pos) matches Some((ws, p)) && ws.len() <= MAX_WIRE_LEN && strings_fit(
            ws,
        ),
{
    let (n, p2) = parse_u32(b, pos)->Some_0;
    lemma_parse_string_run_shape(b, p2, n as int);
}

/// Appends the encoding of `words`: count, then each string.
pub fn write_strings(out: &mut Vec<u8>, words: &Vec<String>)
    requires
        words@.len() <= MAX_WIRE_LEN,
        strings_fit(words.deep_view()),
    ensures
        final(out)@ == old(out)@ + strings_bytes(words.deep_view()),
{
    let ghost ws = words.deep_view();
    let n = words.len();
    write_u32(out, n as u32);
    let mut k: usize = 0;
    while k < n
        invariant
            k <= n,
            n == words@.len(),
            ws == words.deep_view(),
            strings_fit(ws),
            out@ == old(out)@ + u32_le(n as u32) + strings_payload(ws.take(k as int)),
        decreases n - k,
    {
        proof {
            assert(ws[k as int] == words@[k as int]@);
        }
        write_string(out, words[k].as_str());
        proof {
            lemma_strings_payload_push(ws.take(k as int), ws[k as int]);
            assert(ws.take(k as int).push(ws[k as int]) =~= ws.take(k as int + 1));
            assert(out@ =~= old(out)@ + u32_le(n as u32) + strings_payload(
                ws.take(k as int + 1),
            ));
        }
        k = k + 1;
    }
    proof {
        assert(ws.take(n as int) =~= ws);
        assert(out@ =~= old(out)@ + strings_bytes(ws));
    }
}

/// Reads the string list encoded at `pos`, advancing past it.
pub fn read_strings(b: &Vec<u8>, pos: usize) -> (r: Result<(Vec<String>, usize), DeserializeError>)
    ensures
        match parse_strings(b@, pos as int) {
            Some((ws, next)) => r matches Ok(p) && p.0.deep_view() == ws && p.1 == next,
            None => r is Err,
        },
{
    let (n, start) = match read_u32(b, pos) {
        Ok(p) => p,
        Err(e) => {
            return Err(e);
        },
    };
    let ghost count: int = n as int;
    let mut out: Vec<String> = Vec::new();
    let mut k: u32 = 0;
    let mut at: usize = start;
    while k < n
        invariant
            k <= n,
            count == n as int,
            parse_strings(b@, pos as int) == parse_string_run(b@, start as int, count),
            match parse_string_run(b@, at as int, count - k as int) {
                Some((ws, e)) => parse_string_run(b@, start as int, count) == Some(
                    (out.deep_view() + ws, e),
                ),
                None => parse_string_run(b@, start as int, count) is None,
            },
        decreases n - k,
    {
        let ghost rem: int = count - k as int;
        let (w, next) = match read_string(b, at) {
            Ok(p) => p,
            Err(e) => {
                proof {
                    assert(parse_string_run(b@, at as int, rem) is None);
                }
                return Err(e);
            },
        };
        let ghost prev: Seq<Seq<char>> = out.deep_view();
        let ghost wv: Seq<char> = w@;
        out.push(w);
        proof {
            assert(out.deep_view() =~~= prev.push(wv));
            match parse_string_run(b@, next as int, rem - 1) {
                Some((ws2, e)) => {
                    assert(parse_string_run(b@, at as int, rem) == Some((seq![wv] + ws2, e)));
                    assert(prev + (seq![wv] + ws2) =~~= prev.push(wv) + ws2);
                },
                None => {
                    assert(parse_string_run(b@, at as int, rem) is None);
                },
            }
        }
        at = next;
        k = k + 1;
    }
    proof {
        assert(parse_string_run(b@, at as int, 0) == Some((Seq::<Seq<char>>::empty(), at as int)));
        assert(out.deep_view() + Seq::<Seq<char>>::empty() =~~= out.deep_view());
    }
    Ok((out, at))
}

} // verus!
