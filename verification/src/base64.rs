use vstd::prelude::*;
use vstd::utf8::is_ascii_chars;
use crate::text::{ascii_bytes, string_from_ascii};

verus! {

/// The character of the standard Base64 alphabet for `v < 64`.
pub open spec fn base64_char(v: nat) -> char {
    if v < 26 {
        (65 + v) as char
    } else if v < 52 {
        (71 + v) as char
    } else if v < 62 {
        (v - 4) as char
    } else if v == 62 {
        '+'
    } else {
        '/'
    }
}

/// Standard Base64 with `=` padding: every three bytes become four characters.
#[verifier::opaque]
pub open spec fn base64_chars(data: Seq<u8>) -> Seq<char>
    decreases data.len(),
{
    if data.len() == 0 {
        Seq::empty()
    } else if data.len() == 1 {
        seq![
            base64_char((data[0] / 4) as nat),
            base64_char(((data[0] % 4) * 16) as nat),
            '=',
            '=',
        ]
    } else if data.len() == 2 {
        seq![
            base64_char((data[0] / 4) as nat),
            base64_char(((data[0] % 4) * 16 + data[1] / 16) as nat),
            base64_char(((data[1] % 16) * 4) as nat),
            '=',
        ]
    } else {
        seq![
            base64_char((data[0] / 4) as nat),
            base64_char(((data[0] % 4) * 16 + data[1] / 16) as nat),
            base64_char(((data[1] % 16) * 4 + data[2] / 64) as nat),
            base64_char((data[2] % 64) as nat),
        ] + base64_chars(data.skip(3))
    }
}

/// Base64 turns every started group of three bytes into four characters.
pub proof fn lemma_base64_length(data: Seq<u8>)
    ensures
        base64_chars(data).len() == 4 * ((data.len() + 2) / 3),
    decreases data.len(),
{
    reveal(base64_chars);
    if data.len() >= 3 {
        lemma_base64_length(data.skip(3));
    }
}

fn base64_byte(v: u8) -> (b: u8)
    requires
        v < 64,
    ensures
        b == base64_char(v as nat) as u8,
        base64_char(v as nat) as u32 <= 0x7f,
{
    if v < 26 {
        65 + v
    } else if v < 52 {
        71 + v
    } else if v < 62 {
        v - 4
    } else if v == 62 {
        43
    } else {
        47
    }
}

/// Encodes bytes in standard Base64 with padding.
pub fn base64_encode(data: &[u8]) -> (s: String)
    ensures
        s@ == base64_chars(data@),
{
    reveal(base64_chars);
    let mut out: Vec<u8> = Vec::new();
    let ghost mut chars: Seq<char> = Seq::empty();
    let mut i: usize = 0;
    assert(data@.skip(0) =~= data@);
    while data.len() - i >= 3
        invariant
            i <= data@.len(),
            base64_chars(data@) == chars + base64_chars(data@.skip(i as int)),
            is_ascii_chars(chars),
            out@ == ascii_bytes(chars),
        decreases data@.len() - i,
    {
        let a: u8 = data[i];
        let b: u8 = data[i + 1];
        let c: u8 = data[i + 2];
        let c0: u8 = base64_byte(a / 4);
        let c1: u8 = base64_byte((a % 4) * 16 + b / 16);
        let c2: u8 = base64_byte((b % 16) * 4 + c / 64);
        let c3: u8 = base64_byte(c % 64);
        proof {
            reveal(base64_chars);
            let rest = data@.skip(i as int);
            assert(rest[0] == a && rest[1] == b && rest[2] == c);
            assert(rest.skip(3) =~= data@.skip(i + 3));
            let quad = seq![
                base64_char((a / 4) as nat),
                base64_char(((a % 4) * 16 + b / 16) as nat),
                base64_char(((b % 16) * 4 + c / 64) as nat),
                base64_char((c % 64) as nat),
            ];
            assert(base64_chars(rest) == quad + base64_chars(data@.skip(i + 3)));
            assert(base64_chars(data@) =~= (chars + quad) + base64_chars(data@.skip(i + 3)));
            assert(ascii_bytes(chars + quad) =~= out@.push(c0).push(c1).push(c2).push(c3));
            chars = chars + quad;
        }
        out.push(c0);
        out.push(c1);
        out.push(c2);
        out.push(c3);
        i = i + 3;
    }
    let left: usize = data.len() - i;
    let ghost rest = data@.skip(i as int);
    if left == 1 {
        let a: u8 = data[i];
        let c0: u8 = base64_byte(a / 4);
        let c1: u8 = base64_byte((a % 4) * 16);
        proof {
            assert(rest[0] == a);
            let tail = seq![
                base64_char((a / 4) as nat),
                base64_char(((a % 4) * 16) as nat),
                '=',
                '=',
            ];
            assert(base64_chars(rest) == tail);
            assert(ascii_bytes(chars + tail) =~= out@.push(c0).push(c1).push(61u8).push(61u8));
            chars = chars + tail;
        }
        out.push(c0);
        out.push(c1);
        out.push(61);
        out.push(61);
    } else if left == 2 {
        let a: u8 = data[i];
        let b: u8 = data[i + 1];
        let c0: u8 = base64_byte(a / 4);
        let c1: u8 = base64_byte((a % 4) * 16 + b / 16);
        let c2: u8 = base64_byte((b % 16) * 4);
        proof {
            assert(rest[0] == a && rest[1] == b);
            let tail = seq![
                base64_char((a / 4) as nat),
                base64_char(((a % 4) * 16 + b / 16) as nat),
                base64_char(((b % 16) * 4) as nat),
                '=',
            ];
            assert(base64_chars(rest) == tail);
            assert(ascii_bytes(chars + tail) =~= out@.push(c0).push(c1).push(c2).push(61u8));
            chars = chars + tail;
        }
        out.push(c0);
        out.push(c1);
        out.push(c2);
        out.push(61);
    } else {
        assert(rest.len() == 0);
        assert(chars + base64_chars(rest) =~= chars);
    }
    string_from_ascii(out, Ghost(chars))
}

/// The number that a character of the standard Base64 alphabet stands for.
pub open spec fn base64_value(c: char) -> nat {
    if 'A' <= c <= 'Z' {
        (c as nat - 65) as nat
    } else if 'a' <= c <= 'z' {
        (c as nat - 71) as nat
    } else if '0' <= c <= '9' {
        c as nat + 4
    } else if c == '+' {
        62
    } else {
        63
    }
}

/// Standard Base64 decoding: each group of four characters gives three bytes,
/// or fewer where the group ends in `=` padding.
pub open spec fn base64_decoded(s: Seq<char>) -> Seq<u8>
    decreases s.len(),
{
    if s.len() < 4 {
        Seq::empty()
    } else {
        let v0 = base64_value(s[0]);
        let v1 = base64_value(s[1]);
        let v2 = base64_value(s[2]);
        let v3 = base64_value(s[3]);
        let b0 = (v0 * 4 + v1 / 16) as u8;
        let b1 = ((v1 % 16) * 16 + v2 / 4) as u8;
        let b2 = ((v2 % 4) * 64 + v3) as u8;
        if s[2] == '=' {
            seq![b0]
        } else if s[3] == '=' {
            seq![b0, b1]
        } else {
            seq![b0, b1, b2] + base64_decoded(s.skip(4))
        }
    }
}

proof fn lemma_base64_char_value(v: nat)
    requires
        v < 64,
    ensures
        base64_value(base64_char(v)) == v,
        base64_char(v) != '=',
{
}

proof fn lemma_base64_group(x: u8, y: u8, z: u8)
    ensures
        (x / 4) as nat * 4 + ((x % 4) * 16 + y / 16) as nat / 16 == x as nat,
        (((x % 4) * 16 + y / 16) as nat % 16) * 16 + ((y % 16) * 4 + z / 64) as nat / 4 == y as nat,
        (((y % 16) * 4 + z / 64) as nat % 4) * 64 + (z % 64) as nat == z as nat,
        ((x % 4) * 16 + y / 16) < 64,
        ((y % 16) * 4 + z / 64) < 64,
        (x / 4) < 64,
{
    assert((x / 4) as nat * 4 + ((x % 4) * 16 + y / 16) as nat / 16 == x as nat) by (nonlinear_arith);
    assert((((x % 4) * 16 + y / 16) as nat % 16) * 16 + ((y % 16) * 4 + z / 64) as nat / 4
        == y as nat) by (nonlinear_arith);
    assert((((y % 16) * 4 + z / 64) as nat % 4) * 64 + (z % 64) as nat == z as nat)
        by (nonlinear_arith);
}

/// Decoding the Base64 of any bytes gives those bytes back.
pub proof fn law_base64_round_trip(data: Seq<u8>)
    ensures
        base64_decoded(base64_chars(data)) == data,
    decreases data.len(),
{
    reveal(base64_chars);
    if data.len() == 0 {
    } else {
        let x = data[0];
        let y: u8 = if data.len() > 1 { data[1] } else { 0 };
        let z: u8 = if data.len() > 2 { data[2] } else { 0 };
        lemma_base64_group(x, y, z);
        lemma_base64_char_value((x / 4) as nat);
        lemma_base64_char_value(((x % 4) * 16 + y / 16) as nat);
        lemma_base64_char_value(((y % 16) * 4 + z / 64) as nat);
        lemma_base64_char_value((z % 64) as nat);
        let e = base64_chars(data);
        if data.len() == 1 {
            assert(base64_decoded(e) =~= data);
        } else if data.len() == 2 {
            assert(base64_decoded(e) =~= data);
        } else {
            law_base64_round_trip(data.skip(3));
            lemma_base64_length(data.skip(3));
            assert(e.skip(4) =~= base64_chars(data.skip(3)));
            assert(base64_decoded(e) =~= data);
        }
    }
}

} // verus!
