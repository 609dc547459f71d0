use vstd::prelude::*;
use vstd::string::*;
use crate::text::{spec_starts_with, starts_with_str};

verus! {

/// The lower-case hex digit for a value below 16.
pub open spec fn hex_digit(n: int) -> char {
    if n == 0 {
        '0'
    } else if n == 1 {
        '1'
    } else if n == 2 {
        '2'
    } else if n == 3 {
        '3'
    } else if n == 4 {
        '4'
    } else if n == 5 {
        '5'
    } else if n == 6 {
        '6'
    } else if n == 7 {
        '7'
    } else if n == 8 {
        '8'
    } else if n == 9 {
        '9'
    } else if n == 10 {
        'a'
    } else if n == 11 {
        'b'
    } else if n == 12 {
        'c'
    } else if n == 13 {
        'd'
    } else if n == 14 {
        'e'
    } else {
        'f'
    }
}

/// Lower-case hex encoding: two digits per byte, high nibble first.
pub open spec fn hex_of(bytes: Seq<u8>) -> Seq<char> {
    Seq::new(
        bytes.len() * 2,
        |i: int|
            if i % 2 == 0 {
                hex_digit(bytes[i / 2] as int / 16)
            } else {
                hex_digit(bytes[i / 2] as int % 16)
            },
    )
}

pub open spec fn is_hex_char(c: char) -> bool {
    let u = c as u32;
    (48 <= u && u <= 57) || (97 <= u && u <= 102) || (65 <= u && u <= 70)
}

/// The value of one hex digit, upper or lower case.
pub open spec fn hex_val(c: char) -> int {
    let u = c as u32;
    if 48 <= u && u <= 57 {
        u - 48
    } else if 97 <= u && u <= 102 {
        u - 97 + 10
    } else {
        u - 65 + 10
    }
}

pub open spec fn all_hex(s: Seq<char>) -> bool {
    forall|i: int| 0 <= i < s.len() ==> is_hex_char(s[i])
}

/// Whether a string is a well-formed hex encoding: even length, hex digits only.
pub open spec fn unhex_ok(s: Seq<char>) -> bool {
    s.len() % 2 == 0 && all_hex(s)
}

/// The bytes a well-formed hex string encodes.
pub open spec fn unhex(s: Seq<char>) -> Seq<u8> {
    Seq::new(s.len() / 2, |i: int| (hex_val(s[2 * i]) * 16 + hex_val(s[2 * i + 1])) as u8)
}

pub proof fn lemma_hex_digit(n: int)
    requires
        0 <= n < 16,
    ensures
        is_hex_char(hex_digit(n)),
        hex_val(hex_digit(n)) == n,
        hex_digit(n) != '\\',
{
}

/// Hex encoding decodes back to the bytes it was made from.
pub proof fn lemma_hex_round_trip(b: Seq<u8>)
    ensures
        unhex_ok(hex_of(b)),
        unhex(hex_of(b)) == b,
{
    let h = hex_of(b);
    assert forall|i: int| 0 <= i < h.len() implies is_hex_char(h[i]) by {
        if i % 2 == 0 {
            lemma_hex_digit(b[i / 2] as int / 16);
        } else {
            lemma_hex_digit(b[i / 2] as int % 16);
        }
    }
    assert forall|i: int| 0 <= i < b.len() implies unhex(h)[i] == b[i] by {
        lemma_hex_digit(b[i] as int / 16);
        lemma_hex_digit(b[i] as int % 16);
        assert(h[2 * i] == hex_digit(b[i] as int / 16));
        assert(h[2 * i + 1] == hex_digit(b[i] as int % 16));
    }
    assert(unhex(h) =~= b);
}

/// No hex encoding contains a backslash.
pub proof fn lemma_hex_no_backslash(b: Seq<u8>)
    ensures
        forall|i: int| 0 <= i < hex_of(b).len() ==> hex_of(b)[i] != '\\',
{
    let h = hex_of(b);
    assert forall|i: int| 0 <= i < h.len() implies h[i] != '\\' by {
        if i % 2 == 0 {
            lemma_hex_digit(b[i / 2] as int / 16);
        } else {
            lemma_hex_digit(b[i / 2] as int % 16);
        }
    }
}

/// Encodes bytes as lower-case hex text.
pub fn hex_encode(bytes: &[u8]) -> (r: String)
    ensures
        r@ == hex_of(bytes@),
{
    let table = "0123456789abcdef";
    proof {
        reveal_strlit("0123456789abcdef");
    }
    let mut out = String::new();
    let mut i: usize = 0;
    while i < bytes.len()
        invariant
            table@.len() == 16,
            forall|n: int| 0 <= n < 16 ==> table@[n] == hex_digit(n),
            out@ == hex_of(bytes@.take(i as int)),
            0 <= i <= bytes@.len(),
        decreases bytes@.len() - i,
    {
        let b = bytes[i];
        let hi = (b / 16) as usize;
        let lo = (b % 16) as usize;
        out.append(table.substring_char(hi, hi + 1));
        out.append(table.substring_char(lo, lo + 1));
        proof {
            assert(table@.subrange(hi as int, hi as int + 1) =~= seq![hex_digit(hi as int)]);
            assert(table@.subrange(lo as int, lo as int + 1) =~= seq![hex_digit(lo as int)]);
            assert(out@ =~= hex_of(bytes@.take(i + 1)));
        }
        i += 1;
    }
    proof {
        assert(bytes@.take(bytes@.len() as int) =~= bytes@);
    }
    out
}

/// How a hex string can fail to decode.
#[derive(Debug)]
pub enum HexError {
    /// The length is odd.
    OddLength,
    /// A character is not a hex digit.
    InvalidChar,
}

impl HexError {
    /// The error text, as shown to the user.
    pub fn message(&self) -> (r: String)
        ensures
            r@ == if self is OddLength {
                "Invalid hex string"@
            } else {
                "Invalid hex character"@
            },
    {
        match self {
            HexError::OddLength => String::from_str("Invalid hex string"),
            HexError::InvalidChar => String::from_str("Invalid hex character"),
        }
    }
}

/// The value of one hex digit character.
pub fn from_hex(c: char) -> (r: Result<u8, HexError>)
    ensures
        is_hex_char(c) <==> r is Ok,
        r matches Ok(v) ==> v == hex_val(c),
        r matches Err(e) ==> e is InvalidChar,
{
    let u = c as u32;
    if 48 <= u && u <= 57 {
        Ok((u - 48) as u8)
    } else if 97 <= u && u <= 102 {
        Ok((u - 97 + 10) as u8)
    } else if 65 <= u && u <= 70 {
        Ok((u - 65 + 10) as u8)
    } else {
        Err(HexError::InvalidChar)
    }
}

/// Decodes a hex string to bytes, rejecting odd lengths and non-hex digits.
pub fn hex_decode(input: &str) -> (r: Result<Vec<u8>, HexError>)
    ensures
        r is Ok <==> unhex_ok(input@),
        r matches Ok(v) ==> v@ == unhex(input@),
        r matches Err(e) ==> (e is OddLength <==> input@.len() % 2 != 0),
{
    let n = input.unicode_len();
    if n % 2 != 0 {
        return Err(HexError::OddLength);
    }
    let mut out: Vec<u8> = Vec::new();
    let mut i: usize = 0;
    while i < n
        invariant
            n == input@.len(),
            n % 2 == 0,
            i % 2 == 0,
            0 <= i <= n,
            out@.len() == i / 2,
            forall|j: int| 0 <= j < i ==> is_hex_char(input@[j]),
            forall|j: int| 0 <= j < i / 2 ==> out@[j] == unhex(input@)[j],
        decreases n - i,
    {
        let hi = match from_hex(input.get_char(i)) {
            Ok(v) => v,
            Err(e) => {
                return Err(e);
            },
        };
        let lo = match from_hex(input.get_char(i + 1)) {
            Ok(v) => v,
            Err(e) => {
                return Err(e);
            },
        };
        out.push(hi * 16 + lo);
        i += 2;
    }
    proof {
        assert(out@ =~= unhex(input@));
    }
    Ok(out)
}

/// Whether a template source is a remote HTTP or HTTPS URL.
pub open spec fn is_url_spec(s: Seq<char>) -> bool {
    spec_starts_with(s, "http://"@) || spec_starts_with(s, "https://"@)
}

/// Tests whether a string starts with an HTTP or HTTPS scheme.
pub fn is_url(value: &str) -> (r: bool)
    ensures
        r == is_url_spec(value@),
{
    starts_with_str(value, "http://") || starts_with_str(value, "https://")
}

} // verus!
