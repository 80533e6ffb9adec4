use vstd::prelude::*;
use vstd::utf8::*;
use crate::xml::xml_escape;

verus! {

/// Turns bytes into a `String` with `String::from_utf8`. As std documents it:
/// the result is `Ok` exactly when the bytes are valid UTF-8, and then holds the
/// characters they encode; an error is rendered with its `Debug` form.
#[verifier::external_body]
pub(crate) fn string_from_utf8(bytes: Vec<u8>) -> (r: Result<String, String>)
    ensures
        r is Ok <==> valid_utf8(bytes@),
        r matches Ok(s) ==> s@ == decode_utf8(bytes@),
{
    match String::from_utf8(bytes) {
        Ok(s) => Ok(s),
        Err(e) => Err(format!("{:?}", e)),
    }
}

/// Compares two byte strings.
pub fn bytes_eq(a: &[u8], b: &[u8]) -> (r: bool)
    ensures
        r == (a@ == b@),
{
    if a.len() != b.len() {
        return false;
    }
    let mut i: usize = 0;
    while i < a.len()
        invariant
            a@.len() == b@.len(),
            i <= a@.len(),
            forall|j: int| 0 <= j < i ==> a@[j] == b@[j],
        decreases a@.len() - i,
    {
        if a[i] != b[i] {
            return false;
        }
        i = i + 1;
    }
    assert(a@ =~= b@);
    true
}

/// The characters encoded by character data once its entities are replaced,
/// or `None` where the data cannot be unescaped or is not UTF-8.
pub open spec fn decoded_text(raw: Seq<u8>) -> Option<Seq<char>> {
    match crate::xml::xml_unescape(raw) {
        Some(u) => if valid_utf8(u) {
            Some(decode_utf8(u))
        } else {
            None
        },
        None => None,
    }
}

/// Unescapes character data and decodes it as UTF-8. Text that was escaped
/// for writing (as `CData` and `Text` events are written) is read back as it was.
pub fn decode_text(raw: &[u8]) -> (r: Option<String>)
    ensures
        match r {
            Some(s) => decoded_text(raw@) == Some(s@),
            None => decoded_text(raw@) is None,
        },
        forall|c: Seq<char>| #[trigger] xml_escape(encode_utf8(c)) == raw@ ==> r is Some
            && r->0@ == c,
{
    let ghost raw_view = raw@;
    let u = crate::xml::unescape(raw);
    proof {
        assert forall|c: Seq<char>| #[trigger] xml_escape(encode_utf8(c)) == raw_view implies u
            is Some && u->0@ == encode_utf8(c) && valid_utf8(u->0@) && decode_utf8(u->0@) == c by {
            encode_utf8_valid_utf8(c);
            encode_utf8_decode_utf8(c);
        }
    }
    match u {
        Some(u) => match string_from_utf8(u) {
            Ok(s) => Some(s),
            Err(_) => None,
        },
        None => None,
    }
}

/// The bytes of an ASCII text.
pub open spec fn ascii_bytes(chars: Seq<char>) -> Seq<u8> {
    chars.map_values(|c: char| c as u8)
}

/// Turns the bytes of an ASCII text into a `String`.
pub(crate) fn string_from_ascii(bytes: Vec<u8>, Ghost(chars): Ghost<Seq<char>>) -> (s: String)
    requires
        is_ascii_chars(chars),
        bytes@ == ascii_bytes(chars),
    ensures
        s@ == chars,
{
    proof {
        is_ascii_chars_encode_utf8(chars);
        assert(encode_utf8(chars) =~= bytes@);
        encode_utf8_valid_utf8(chars);
        encode_utf8_decode_utf8(chars);
    }
    match string_from_utf8(bytes) {
        Ok(s) => s,
        Err(_) => String::new(),
    }
}

/// The decimal digit for `d < 10`.
pub open spec fn decimal_digit(d: nat) -> char {
    (48 + d) as char
}

/// The decimal representation of a number, without leading zeros.
#[verifier::opaque]
pub open spec fn decimal_chars(n: nat) -> Seq<char>
    decreases n,
{
    if n < 10 {
        seq![decimal_digit(n)]
    } else {
        decimal_chars(n / 10) + seq![decimal_digit(n % 10)]
    }
}

/// Writes a number in decimal.
pub fn decimal_string(v: u64) -> (s: String)
    ensures
        s@ == decimal_chars(v as nat),
{
    reveal(decimal_chars);
    let mut digits: Vec<u8> = Vec::new();
    let mut n: u64 = v;
    let ghost mut suffix: Seq<char> = Seq::empty();
    loop
        invariant_except_break
            decimal_chars(v as nat) == decimal_chars(n as nat) + suffix,
        invariant
            is_ascii_chars(suffix),
            digits@ == ascii_bytes(suffix),
        ensures
            decimal_chars(v as nat) == suffix,
            is_ascii_chars(suffix),
            digits@ == ascii_bytes(suffix),
        decreases n,
    {
        let d: u8 = (n % 10) as u8;
        let c: u8 = 48 + d;
        proof {
            reveal(decimal_chars);
            let dc = decimal_digit(d as nat);
            assert(dc as u8 == c);
            assert(seq![dc] + suffix =~= if n < 10 { decimal_chars(n as nat) + suffix } else {
                seq![dc] + suffix });
            suffix = seq![dc] + suffix;
            assert(digits@.insert(0, c) =~= ascii_bytes(suffix));
        }
        digits.insert(0, c);
        if n < 10 {
            break;
        }
        proof {
            reveal(decimal_chars);
            assert(decimal_chars(n as nat) == decimal_chars((n / 10) as nat) + seq![decimal_digit((n % 10) as nat)]);
            assert(decimal_chars(v as nat) =~= decimal_chars((n / 10) as nat) + suffix);
        }
        n = n / 10;
    }
    string_from_ascii(digits, Ghost(suffix))
}

/// The number that a text of decimal digits stands for.
pub open spec fn decimal_value(s: Seq<char>) -> nat
    decreases s.len(),
{
    if s.len() == 0 {
        0
    } else {
        decimal_value(s.drop_last()) * 10 + ((s.last() as nat) - 48) as nat
    }
}

/// The decimal text of a number is made of digits, starts with no `0` unless
/// the number is 0, and reads back as the number.
pub proof fn law_decimal_round_trip(n: nat)
    ensures
        decimal_value(decimal_chars(n)) == n,
        decimal_chars(n).len() > 0,
        forall|i: int|
            0 <= i < decimal_chars(n).len() ==> '0' <= #[trigger] decimal_chars(n)[i] <= '9',
        n >= 10 ==> decimal_chars(n)[0] != '0',
    decreases n,
{
    reveal(decimal_chars);
    if n >= 10 {
        law_decimal_round_trip(n / 10);
        let h = decimal_chars(n / 10);
        let t = h + seq![decimal_digit(n % 10)];
        assert(decimal_chars(n) == t);
        assert(t.drop_last() =~= h);
        assert(t.last() == decimal_digit(n % 10));
        assert(decimal_digit(n % 10) as nat == 48 + n % 10);
        assert(decimal_value(t) == (n / 10) * 10 + n % 10);
        assert((n / 10) * 10 + n % 10 == n);
        assert(t[0] == h[0]);
        assert forall|i: int| 0 <= i < t.len() implies '0' <= #[trigger] t[i] <= '9' by {
            if i < h.len() {
                assert(t[i] == h[i]);
            }
        }
    } else {
        assert(seq![decimal_digit(n)].drop_last() =~= Seq::<char>::empty());
        assert(decimal_digit(n) as nat == 48 + n);
        assert(decimal_value(Seq::<char>::empty()) == 0);
        assert(decimal_value(seq![decimal_digit(n)]) == n);
    }
}

} // verus!
