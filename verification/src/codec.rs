//! Base64 and hex codecs: exact functional specifications, executable
//! encoders and decoders proved against them, and the round-trip laws.

use vstd::prelude::*;

use crate::codec_tables::{
    b64_char, b64_val, hex_char, hex_val, u8_from_base64, u8_from_hex, u8_to_base64, u8_to_hex,
};
use crate::errors::Error;

verus! {

/// Relies on String::push: appends one character to the string.
#[verifier::external_body]
fn push_char(s: &mut String, c: char)
    ensures
        final(s)@ == old(s)@.push(c),
{
    s.push(c);
}

/// The base64 and hex digit values extracted from bytes stay in range.
proof fn lemma_digit_bounds(x: u8, y: u8)
    ensures
        x >> 2 <= 63,
        ((x & 3) << 4) | (y >> 4) <= 63,
        ((x & 15) << 2) | (y >> 6) <= 63,
        (x & 3) << 4 <= 63,
        (x & 15) << 2 <= 63,
        x & 63 <= 63,
        x >> 4 <= 15,
        x & 15 <= 15,
{
    assert(x >> 2 <= 63 && (((x & 3) << 4) | (y >> 4)) <= 63 && (((x & 15) << 2) | (y >> 6)) <= 63
        && (x & 3) << 4 <= 63 && (x & 15) << 2 <= 63 && x & 63 <= 63 && x >> 4 <= 15 && x & 15
        <= 15) by (bit_vector);
}

/// Prepending already-decoded bytes distributes over decoding one more group.
proof fn lemma_then_append_step(pre: Seq<u8>, a: Seq<u8>, r: Result<Seq<u8>, Error>)
    ensures
        then_append(pre, then_append(a, r)) == then_append(pre + a, r),
{
    match r {
        Ok(b) => {
            assert(pre + (a + b) =~= (pre + a) + b);
        },
        Err(_) => {},
    }
}

/// Decoding after nothing decoded is just decoding.
proof fn lemma_then_append_empty(r: Result<Seq<u8>, Error>)
    ensures
        then_append(Seq::empty(), r) == r,
{
    match r {
        Ok(b) => {
            assert(Seq::empty() + b =~= b);
        },
        Err(_) => {},
    }
}

/// The four base64 characters encoding one full three-byte group.
pub open spec fn b64_quad(b0: u8, b1: u8, b2: u8) -> Seq<char> {
    seq![
        b64_char(b0 >> 2),
        b64_char(((b0 & 3) << 4) | (b1 >> 4)),
        b64_char(((b1 & 15) << 2) | (b2 >> 6)),
        b64_char(b2 & 63),
    ]
}

/// Base64 encoding of a byte sequence, `=`-padded to groups of four.
pub open spec fn spec_to_base64(b: Seq<u8>) -> Seq<char>
    decreases b.len(),
{
    if b.len() == 0 {
        Seq::empty()
    } else if b.len() == 1 {
        seq![b64_char(b[0] >> 2), b64_char((b[0] & 3) << 4), '=', '=']
    } else if b.len() == 2 {
        seq![
            b64_char(b[0] >> 2),
            b64_char(((b[0] & 3) << 4) | (b[1] >> 4)),
            b64_char((b[1] & 15) << 2),
            '=',
        ]
    } else {
        b64_quad(b[0], b[1], b[2]) + spec_to_base64(b.skip(3))
    }
}

/// Decode one full group of four base64 characters into three bytes.
pub open spec fn spec_b64_group(s: Seq<char>) -> Result<Seq<u8>, Error> {
    match (b64_val(s[0]), b64_val(s[1]), b64_val(s[2]), b64_val(s[3])) {
        (Some(v0), Some(v1), Some(v2), Some(v3)) => Ok(
            seq![(v0 << 2) | (v1 >> 4), ((v1 & 15) << 4) | (v2 >> 2), ((v2 & 3) << 6) | v3],
        ),
        _ => Err(Error::InvalidCharacter),
    }
}

/// Decode the final group of four characters, which may end in `=` or `==`;
/// the unused low bits of the last digit must be zero.
pub open spec fn spec_b64_last(s: Seq<char>) -> Result<Seq<u8>, Error> {
    if s[3] == '=' && s[2] == '=' {
        match (b64_val(s[0]), b64_val(s[1])) {
            (Some(v0), Some(v1)) => if v1 & 15 != 0 {
                Err(Error::InvalidPadding)
            } else {
                Ok(seq![(v0 << 2) | (v1 >> 4)])
            },
            _ => Err(Error::InvalidCharacter),
        }
    } else if s[3] == '=' {
        match (b64_val(s[0]), b64_val(s[1]), b64_val(s[2])) {
            (Some(v0), Some(v1), Some(v2)) => if v2 & 3 != 0 {
                Err(Error::InvalidPadding)
            } else {
                Ok(seq![(v0 << 2) | (v1 >> 4), ((v1 & 15) << 4) | (v2 >> 2)])
            },
            _ => Err(Error::InvalidCharacter),
        }
    } else {
        spec_b64_group(s)
    }
}

/// Decode a sequence of groups of four, the last of which may be padded.
/// Meaningful only for lengths that are a multiple of four.
pub open spec fn spec_b64_rec(s: Seq<char>) -> Result<Seq<u8>, Error>
    decreases s.len(),
{
    if s.len() == 0 {
        Ok(Seq::empty())
    } else if s.len() == 4 {
        spec_b64_last(s)
    } else if s.len() < 4 {
        Err(Error::InvalidLength)
    } else {
        match spec_b64_group(s.take(4)) {
            Ok(a) => match spec_b64_rec(s.skip(4)) {
                Ok(b) => Ok(a + b),
                Err(e) => Err(e),
            },
            Err(e) => Err(e),
        }
    }
}

/// Base64 decoding: rejects lengths that are not a multiple of four,
/// characters outside the alphabet, and nonzero discarded padding bits.
pub open spec fn spec_from_base64(s: Seq<char>) -> Result<Seq<u8>, Error> {
    if s.len() % 4 != 0 {
        Err(Error::InvalidLength)
    } else {
        spec_b64_rec(s)
    }
}

/// Hex encoding of a byte sequence, two lower-case digits per byte.
pub open spec fn spec_to_hex(b: Seq<u8>) -> Seq<char>
    decreases b.len(),
{
    if b.len() == 0 {
        Seq::empty()
    } else {
        seq![hex_char(b[0] >> 4), hex_char(b[0] & 15)] + spec_to_hex(b.skip(1))
    }
}

/// Decode pairs of hex digits. Meaningful only for even lengths.
pub open spec fn spec_hex_rec(s: Seq<char>) -> Result<Seq<u8>, Error>
    decreases s.len(),
{
    if s.len() == 0 {
        Ok(Seq::empty())
    } else if s.len() == 1 {
        Err(Error::InvalidLength)
    } else {
        match (hex_val(s[0]), hex_val(s[1])) {
            (Some(v0), Some(v1)) => match spec_hex_rec(s.skip(2)) {
                Ok(b) => Ok(seq![(v0 << 4) | v1] + b),
                Err(e) => Err(e),
            },
            _ => Err(Error::InvalidCharacter),
        }
    }
}

/// Hex decoding: rejects odd lengths and characters that are no hex digit.
pub open spec fn spec_from_hex(s: Seq<char>) -> Result<Seq<u8>, Error> {
    if s.len() % 2 != 0 {
        Err(Error::InvalidLength)
    } else {
        spec_hex_rec(s)
    }
}

/// Byte sequences that can be rendered as base64 and as hex.
pub trait Serialize {
    /// The bytes being serialized.
    spec fn bytes(&self) -> Seq<u8>;

    /// Base64 rendering of the bytes.
    fn to_base64(&self) -> (r: String)
        ensures
            r@ == spec_to_base64(self.bytes()),
    ;

    /// Lower-case hex rendering of the bytes.
    fn to_hex(&self) -> (r: String)
        ensures
            r@ == spec_to_hex(self.bytes()),
    ;
}

/// Append the four base64 characters of one group of at most three bytes,
/// zero-extending a short group; groups of any other length are ignored.
pub fn block_to_base64(block: &[u8], base64: &mut String)
    ensures
        final(base64)@ == if 1 <= block@.len() <= 3 {
            old(base64)@ + b64_quad(
                block@[0],
                if block@.len() >= 2 { block@[1] } else { 0u8 },
                if block@.len() == 3 { block@[2] } else { 0u8 },
            )
        } else {
            old(base64)@
        },
{
    let (a, b, c): (u8, u8, u8) = match block.len() {
        3 => (block[0], block[1], block[2]),
        2 => (block[0], block[1], 0),
        1 => (block[0], 0, 0),
        _ => {
            return ;
        },
    };
    proof {
        lemma_digit_bounds(a, b);
        lemma_digit_bounds(b, c);
        lemma_digit_bounds(c, c);
    }
    push_char(base64, u8_to_base64(a >> 2));
    push_char(base64, u8_to_base64(((a & 3) << 4) | (b >> 4)));
    push_char(base64, u8_to_base64(((b & 15) << 2) | (c >> 6)));
    push_char(base64, u8_to_base64(c & 63));
    proof {
        assert(final(base64)@ =~= old(base64)@ + b64_quad(
            a,
            if block@.len() >= 2 { block@[1] } else { 0u8 },
            if block@.len() == 3 { block@[2] } else { 0u8 },
        ));
    }
}

impl Serialize for [u8] {
    open spec fn bytes(&self) -> Seq<u8> {
        self@
    }

    fn to_base64(&self) -> (r: String) {
        let mut r = String::new();
        let mut i: usize = 0;
        proof {
            assert(self@.skip(0) =~= self@);
            assert(r@ + spec_to_base64(self@) =~= spec_to_base64(self@));
        }
        while self.len() - i >= 3
            invariant
                i <= self@.len(),
                spec_to_base64(self@) == r@ + spec_to_base64(self@.skip(i as int)),
            decreases self@.len() - i,
        {
            let ghost pre = r@;
            let ghost rest = self@.skip(i as int);
            proof {
                lemma_digit_bounds(self@[i as int], self@[i + 1]);
                lemma_digit_bounds(self@[i + 1], self@[i + 2]);
                lemma_digit_bounds(self@[i + 2], self@[i + 2]);
            }
            push_char(&mut r, u8_to_base64(self[i] >> 2));
            push_char(&mut r, u8_to_base64(((self[i] & 3) << 4) | (self[i + 1] >> 4)));
            push_char(&mut r, u8_to_base64(((self[i + 1] & 15) << 2) | (self[i + 2] >> 6)));
            push_char(&mut r, u8_to_base64(self[i + 2] & 63));
            proof {
                assert(rest.len() >= 3);
                assert(rest[0] == self@[i as int]);
                assert(rest[1] == self@[i + 1]);
                assert(rest[2] == self@[i + 2]);
                assert(r@ =~= pre + b64_quad(rest[0], rest[1], rest[2]));
                assert(rest.skip(3) =~= self@.skip(i + 3));
                assert(spec_to_base64(rest) == b64_quad(rest[0], rest[1], rest[2])
                    + spec_to_base64(rest.skip(3)));
                assert(r@ + spec_to_base64(self@.skip(i + 3)) =~= pre + spec_to_base64(rest));
            }
            i += 3;
        }
        let ghost rest = self@.skip(i as int);
        if self.len() - i == 2 {
            let ghost pre = r@;
            proof {
                lemma_digit_bounds(self@[i as int], self@[i + 1]);
                lemma_digit_bounds(self@[i + 1], self@[i + 1]);
            }
            push_char(&mut r, u8_to_base64(self[i] >> 2));
            push_char(&mut r, u8_to_base64(((self[i] & 3) << 4) | (self[i + 1] >> 4)));
            push_char(&mut r, u8_to_base64((self[i + 1] & 15) << 2));
            push_char(&mut r, '=');
            proof {
                assert(rest.len() == 2 && rest[0] == self@[i as int] && rest[1] == self@[i + 1]);
                assert(r@ =~= pre + spec_to_base64(rest));
            }
        } else if self.len() - i == 1 {
            let ghost pre = r@;
            proof {
                lemma_digit_bounds(self@[i as int], self@[i as int]);
            }
            push_char(&mut r, u8_to_base64(self[i] >> 2));
            push_char(&mut r, u8_to_base64((self[i] & 3) << 4));
            push_char(&mut r, '=');
            push_char(&mut r, '=');
            proof {
                assert(rest.len() == 1 && rest[0] == self@[i as int]);
                assert(r@ =~= pre + spec_to_base64(rest));
            }
        } else {
            proof {
                assert(rest.len() == 0);
                assert(r@ + spec_to_base64(rest) =~= r@);
            }
        }
        r
    }

    fn to_hex(&self) -> (r: String) {
        let mut r = String::new();
        let mut i: usize = 0;
        proof {
            assert(self@.skip(0) =~= self@);
            assert(r@ + spec_to_hex(self@) =~= spec_to_hex(self@));
        }
        while i < self.len()
            invariant
                i <= self@.len(),
                spec_to_hex(self@) == r@ + spec_to_hex(self@.skip(i as int)),
            decreases self@.len() - i,
        {
            let ghost pre = r@;
            let ghost rest = self@.skip(i as int);
            proof {
                lemma_digit_bounds(self@[i as int], self@[i as int]);
            }
            push_char(&mut r, u8_to_hex(self[i] >> 4));
            push_char(&mut r, u8_to_hex(self[i] & 15));
            proof {
                assert(rest[0] == self@[i as int]);
                assert(r@ =~= pre + seq![hex_char(rest[0] >> 4), hex_char(rest[0] & 15)]);
                assert(rest.skip(1) =~= self@.skip(i + 1));
                assert(r@ + spec_to_hex(self@.skip(i + 1)) =~= pre + spec_to_hex(rest));
            }
            i += 1;
        }
        proof {
            assert(self@.skip(i as int).len() == 0);
            assert(r@ + spec_to_hex(self@.skip(i as int)) =~= r@);
        }
        r
    }
}

/// Combine the bytes already decoded with the outcome for the rest.
pub open spec fn then_append(acc: Seq<u8>, r: Result<Seq<u8>, Error>) -> Result<Seq<u8>, Error> {
    match r {
        Ok(b) => Ok(acc + b),
        Err(e) => Err(e),
    }
}

/// Decode a base64 string, exactly as `spec_from_base64` says.
pub fn from_base64(s: &str) -> (r: Result<Vec<u8>, Error>)
    ensures
        match r {
            Ok(v) => spec_from_base64(s@) == Ok::<Seq<u8>, Error>(v@),
            Err(e) => spec_from_base64(s@) == Err::<Seq<u8>, Error>(e),
        },
{
    let n = s.unicode_len();
    if n % 4 != 0 {
        return Err(Error::InvalidLength);
    }
    let mut out: Vec<u8> = Vec::new();
    if n == 0 {
        return Ok(out);
    }
    let mut i: usize = 0;
    proof {
        assert(s@.skip(0) =~= s@);
        lemma_then_append_empty(spec_b64_rec(s@));
    }
    while i + 4 < n
        invariant
            i % 4 == 0,
            n % 4 == 0,
            i + 4 <= n,
            n == s@.len(),
            spec_b64_rec(s@) == then_append(out@, spec_b64_rec(s@.skip(i as int))),
        decreases n - i,
    {
        let ghost rest = s@.skip(i as int);
        let c0 = s.get_char(i);
        let c1 = s.get_char(i + 1);
        let c2 = s.get_char(i + 2);
        let c3 = s.get_char(i + 3);
        proof {
            assert(rest.len() > 4);
            assert(rest.take(4) =~= seq![c0, c1, c2, c3]);
            assert(rest.skip(4) =~= s@.skip(i + 4));
        }
        let v0 = match u8_from_base64(c0) {
            Ok(v) => v,
            Err(e) => {
                return Err(e);
            },
        };
        let v1 = match u8_from_base64(c1) {
            Ok(v) => v,
            Err(e) => {
                return Err(e);
            },
        };
        let v2 = match u8_from_base64(c2) {
            Ok(v) => v,
            Err(e) => {
                return Err(e);
            },
        };
        let v3 = match u8_from_base64(c3) {
            Ok(v) => v,
            Err(e) => {
                return Err(e);
            },
        };
        let ghost pre = out@;
        out.push((v0 << 2) | (v1 >> 4));
        out.push(((v1 & 15) << 4) | (v2 >> 2));
        out.push(((v2 & 3) << 6) | v3);
        proof {
            let a = seq![(v0 << 2) | (v1 >> 4), ((v1 & 15) << 4) | (v2 >> 2), ((v2 & 3) << 6) | v3];
            assert(spec_b64_group(rest.take(4)) == Ok::<Seq<u8>, Error>(a));
            assert(out@ =~= pre + a);
            assert(spec_b64_rec(rest) == then_append(a, spec_b64_rec(rest.skip(4))));
            lemma_then_append_step(pre, a, spec_b64_rec(s@.skip(i + 4)));
        }
        i += 4;
    }
    // The final group of four characters, possibly `=`-padded.
    let ghost rest = s@.skip(i as int);
    let c0 = s.get_char(i);
    let c1 = s.get_char(i + 1);
    let c2 = s.get_char(i + 2);
    let c3 = s.get_char(i + 3);
    proof {
        assert(rest.len() == 4);
        assert(rest =~= seq![c0, c1, c2, c3]);
    }
    let v0 = match u8_from_base64(c0) {
        Ok(v) => v,
        Err(e) => {
            return Err(e);
        },
    };
    let v1 = match u8_from_base64(c1) {
        Ok(v) => v,
        Err(e) => {
            return Err(e);
        },
    };
    let ghost pre = out@;
    if c3 == '=' && c2 == '=' {
        if v1 & 15 != 0 {
            return Err(Error::InvalidPadding);
        }
        out.push((v0 << 2) | (v1 >> 4));
        proof {
            assert(out@ =~= pre + seq![(v0 << 2) | (v1 >> 4)]);
        }
    } else if c3 == '=' {
        let v2 = match u8_from_base64(c2) {
            Ok(v) => v,
            Err(e) => {
                return Err(e);
            },
        };
        if v2 & 3 != 0 {
            return Err(Error::InvalidPadding);
        }
        out.push((v0 << 2) | (v1 >> 4));
        out.push(((v1 & 15) << 4) | (v2 >> 2));
        proof {
            assert(out@ =~= pre + seq![(v0 << 2) | (v1 >> 4), ((v1 & 15) << 4) | (v2 >> 2)]);
        }
    } else {
        let v2 = match u8_from_base64(c2) {
            Ok(v) => v,
            Err(e) => {
                return Err(e);
            },
        };
        let v3 = match u8_from_base64(c3) {
            Ok(v) => v,
            Err(e) => {
                return Err(e);
            },
        };
        out.push((v0 << 2) | (v1 >> 4));
        out.push(((v1 & 15) << 4) | (v2 >> 2));
        out.push(((v2 & 3) << 6) | v3);
        proof {
            assert(out@ =~= pre + seq![
                (v0 << 2) | (v1 >> 4),
                ((v1 & 15) << 4) | (v2 >> 2),
                ((v2 & 3) << 6) | v3,
            ]);
        }
    }
    Ok(out)
}

/// Decode a hex string, exactly as `spec_from_hex` says.
pub fn from_hex(s: &str) -> (r: Result<Vec<u8>, Error>)
    ensures
        match r {
            Ok(v) => spec_from_hex(s@) == Ok::<Seq<u8>, Error>(v@),
            Err(e) => spec_from_hex(s@) == Err::<Seq<u8>, Error>(e),
        },
{
    let n = s.unicode_len();
    if n % 2 != 0 {
        return Err(Error::InvalidLength);
    }
    let mut out: Vec<u8> = Vec::new();
    let mut i: usize = 0;
    proof {
        assert(s@.skip(0) =~= s@);
        lemma_then_append_empty(spec_hex_rec(s@));
    }
    while i < n
        invariant
            i % 2 == 0,
            n % 2 == 0,
            i <= n,
            n == s@.len(),
            spec_hex_rec(s@) == then_append(out@, spec_hex_rec(s@.skip(i as int))),
        decreases n - i,
    {
        let ghost rest = s@.skip(i as int);
        let c0 = s.get_char(i);
        let c1 = s.get_char(i + 1);
        proof {
            assert(rest.len() >= 2);
            assert(rest[0] == c0 && rest[1] == c1);
            assert(rest.skip(2) =~= s@.skip(i + 2));
        }
        let v0 = match u8_from_hex(c0) {
            Ok(v) => v,
            Err(e) => {
                return Err(e);
            },
        };
        let v1 = match u8_from_hex(c1) {
            Ok(v) => v,
            Err(e) => {
                return Err(e);
            },
        };
        let ghost pre = out@;
        out.push((v0 << 4) | v1);
        proof {
            let a = seq![(v0 << 4) | v1];
            assert(out@ =~= pre + a);
            assert(spec_hex_rec(rest) == then_append(a, spec_hex_rec(rest.skip(2))));
            lemma_then_append_step(pre, a, spec_hex_rec(s@.skip(i + 2)));
        }
        i += 2;
    }
    proof {
        assert(s@.skip(i as int).len() == 0);
        assert(out@ + Seq::<u8>::empty() =~= out@);
    }
    Ok(out)
}

/// Decode many base64 lines; the first failing line's error is reported.
pub fn from_base64_lines(lines: &Vec<String>) -> (r: Result<Vec<Vec<u8>>, Error>)
    ensures
        match r {
            Ok(v) => v@.len() == lines@.len() && forall|j: int|
                0 <= j < v@.len() ==> spec_from_base64(lines@[j]@) == Ok::<Seq<u8>, Error>(
                    v@[j]@,
                ),
            Err(e) => exists|j: int|
                0 <= j < lines@.len() && (#[trigger] spec_from_base64(lines@[j]@)) == Err::<
                    Seq<u8>,
                    Error,
                >(e) && (forall|t: int| 0 <= t < j ==> spec_from_base64(lines@[t]@) is Ok),
        },
{
    let mut out: Vec<Vec<u8>> = Vec::new();
    let mut i: usize = 0;
    while i < lines.len()
        invariant
            i <= lines@.len(),
            out@.len() == i,
            forall|j: int|
                0 <= j < i ==> spec_from_base64(lines@[j]@) == Ok::<Seq<u8>, Error>(out@[j]@),
        decreases lines@.len() - i,
    {
        match from_base64(lines[i].as_str()) {
            Ok(v) => out.push(v),
            Err(e) => {
                return Err(e);
            },
        }
        i += 1;
    }
    Ok(out)
}

/// Decode many hex lines; the first failing line's error is reported.
pub fn from_hex_lines(lines: &Vec<String>) -> (r: Result<Vec<Vec<u8>>, Error>)
    ensures
        match r {
            Ok(v) => v@.len() == lines@.len() && forall|j: int|
                0 <= j < v@.len() ==> spec_from_hex(lines@[j]@) == Ok::<Seq<u8>, Error>(v@[j]@),
            Err(e) => exists|j: int|
                0 <= j < lines@.len() && (#[trigger] spec_from_hex(lines@[j]@)) == Err::<
                    Seq<u8>,
                    Error,
                >(e) && (forall|t: int| 0 <= t < j ==> spec_from_hex(lines@[t]@) is Ok),
        },
{
    let mut out: Vec<Vec<u8>> = Vec::new();
    let mut i: usize = 0;
    while i < lines.len()
        invariant
            i <= lines@.len(),
            out@.len() == i,
            forall|j: int|
                0 <= j < i ==> spec_from_hex(lines@[j]@) == Ok::<Seq<u8>, Error>(out@[j]@),
        decreases lines@.len() - i,
    {
        match from_hex(lines[i].as_str()) {
            Ok(v) => out.push(v),
            Err(e) => {
                return Err(e);
            },
        }
        i += 1;
    }
    Ok(out)
}

/// Every base64 digit decodes back to its value.
proof fn lemma_b64_char_val(v: u8)
    requires
        v <= 63,
    ensures
        b64_val(b64_char(v)) == Some(v),
        b64_char(v) != '=',
{
}

/// Every hex digit decodes back to its value.
proof fn lemma_hex_char_val(v: u8)
    requires
        v <= 15,
    ensures
        hex_val(hex_char(v)) == Some(v),
{
}

/// Base64 encoding always yields whole groups of four characters.
pub proof fn lemma_to_base64_len(b: Seq<u8>)
    ensures
        spec_to_base64(b).len() % 4 == 0,
    decreases b.len(),
{
    if b.len() >= 3 {
        lemma_to_base64_len(b.skip(3));
    }
}

/// Round trip: decoding an encoded byte sequence gives it back exactly.
#[verifier::rlimit(100)]
pub proof fn lemma_base64_round_trip(b: Seq<u8>)
    ensures
        spec_from_base64(spec_to_base64(b)) == Ok::<Seq<u8>, Error>(b),
    decreases b.len(),
{
    lemma_to_base64_len(b);
    let s = spec_to_base64(b);
    if b.len() == 0 {
        assert(b =~= Seq::<u8>::empty());
    } else if b.len() == 1 {
        let x = b[0];
        lemma_digit_bounds(x, x);
        lemma_b64_char_val(x >> 2);
        lemma_b64_char_val((x & 3) << 4);
        assert(((x & 3) << 4) & 15 == 0 && ((x >> 2) << 2) | (((x & 3) << 4) >> 4) == x)
            by (bit_vector);
        assert(seq![((x >> 2) << 2) | (((x & 3) << 4) >> 4)] =~= b);
    } else if b.len() == 2 {
        let x = b[0];
        let y = b[1];
        let v0 = x >> 2;
        let v1 = ((x & 3) << 4) | (y >> 4);
        let v2 = (y & 15) << 2;
        lemma_digit_bounds(x, y);
        lemma_digit_bounds(y, y);
        lemma_b64_char_val(v0);
        lemma_b64_char_val(v1);
        lemma_b64_char_val(v2);
        assert(v2 & 3 == 0 && (v0 << 2) | (v1 >> 4) == x && ((v1 & 15) << 4) | (v2 >> 2) == y)
            by (bit_vector)
            requires
                v0 == x >> 2,
                v1 == ((x & 3) << 4) | (y >> 4),
                v2 == (y & 15) << 2,
        ;
        assert(seq![(v0 << 2) | (v1 >> 4), ((v1 & 15) << 4) | (v2 >> 2)] =~= b);
    } else {
        let x = b[0];
        let y = b[1];
        let z = b[2];
        let v0 = x >> 2;
        let v1 = ((x & 3) << 4) | (y >> 4);
        let v2 = ((y & 15) << 2) | (z >> 6);
        let v3 = z & 63;
        lemma_digit_bounds(x, y);
        lemma_digit_bounds(y, z);
        lemma_digit_bounds(z, z);
        lemma_b64_char_val(v0);
        lemma_b64_char_val(v1);
        lemma_b64_char_val(v2);
        lemma_b64_char_val(v3);
        assert((v0 << 2) | (v1 >> 4) == x && ((v1 & 15) << 4) | (v2 >> 2) == y && ((v2 & 3) << 6)
            | v3 == z) by (bit_vector)
            requires
                v0 == x >> 2,
                v1 == ((x & 3) << 4) | (y >> 4),
                v2 == ((y & 15) << 2) | (z >> 6),
                v3 == z & 63,
        ;
        lemma_base64_round_trip(b.skip(3));
        lemma_to_base64_len(b.skip(3));
        let tail = spec_to_base64(b.skip(3));
        assert(s == b64_quad(b[0], b[1], b[2]) + tail);
        assert(s.len() == 4 + tail.len());
        assert(s.take(4) =~= b64_quad(b[0], b[1], b[2]));
        assert(s.skip(4) =~= tail);
        if tail.len() == 0 {
            // A three-byte message encodes to a single unpadded group.
            assert(s.len() == 4);
            assert(s[3] != '=' && spec_b64_last(s) == spec_b64_group(s));
            assert(spec_b64_group(s) == Ok::<Seq<u8>, Error>(seq![b[0], b[1], b[2]]));
            assert(b.skip(3) =~= Seq::<u8>::empty());
            assert(seq![b[0], b[1], b[2]] =~= b);
        } else {
            assert(spec_b64_rec(s) == then_append(seq![b[0], b[1], b[2]], spec_b64_rec(s.skip(4))));
            assert(spec_b64_rec(s.skip(4)) == Ok::<Seq<u8>, Error>(b.skip(3)));
            assert(seq![b[0], b[1], b[2]] + b.skip(3) =~= b);
        }
    }
}

/// Hex encoding has even length.
pub proof fn lemma_to_hex_len(b: Seq<u8>)
    ensures
        spec_to_hex(b).len() % 2 == 0,
        spec_to_hex(b).len() == 2 * b.len(),
    decreases b.len(),
{
    if b.len() > 0 {
        lemma_to_hex_len(b.skip(1));
    }
}

/// Round trip: decoding a hex-encoded byte sequence gives it back exactly.
pub proof fn lemma_hex_round_trip(b: Seq<u8>)
    ensures
        spec_from_hex(spec_to_hex(b)) == Ok::<Seq<u8>, Error>(b),
    decreases b.len(),
{
    lemma_to_hex_len(b);
    let s = spec_to_hex(b);
    if b.len() == 0 {
        assert(b =~= Seq::<u8>::empty());
    } else {
        let x = b[0];
        let v0 = x >> 4;
        let v1 = x & 15;
        lemma_digit_bounds(x, x);
        lemma_hex_char_val(v0);
        lemma_hex_char_val(v1);
        assert((v0 << 4) | v1 == x) by (bit_vector)
            requires
                v0 == x >> 4,
                v1 == x & 15,
        ;
        lemma_hex_round_trip(b.skip(1));
        assert(s.skip(2) =~= spec_to_hex(b.skip(1)));
        assert(seq![b[0]] + b.skip(1) =~= b);
    }
}

} // verus!
