//! The text layer of the identifier codec: bytes as lower-case hexadecimal,
//! two digits per byte, safe in a URL and as a GraphQL scalar.
use vstd::prelude::*;

verus! {

/// The lower-case hexadecimal digit for a value below sixteen.
pub open spec fn hex_digit(n: int) -> u8 {
    if n < 10 {
        (48 + n) as u8
    } else {
        (87 + n) as u8
    }
}

/// Whether `c` is one of `0`-`9` or `a`-`f`.
pub open spec fn is_hex_digit(c: u8) -> bool {
    (48 <= c <= 57) || (97 <= c <= 102)
}

/// The value of a hexadecimal digit.
pub open spec fn hex_value(c: u8) -> int {
    if c <= 57 {
        c - 48
    } else {
        c - 87
    }
}

/// The text of a byte string: the high digit of each byte, then its low digit.
pub open spec fn to_hex(b: Seq<u8>) -> Seq<u8> {
    Seq::new(
        (2 * b.len()) as nat,
        |i: int|
            if i % 2 == 0 {
                hex_digit(b[i / 2] as int / 16)
            } else {
                hex_digit(b[i / 2] as int % 16)
            },
    )
}

/// Whether a text is an even number of lower-case hexadecimal digits.
pub open spec fn is_hex_text(s: Seq<u8>) -> bool {
    &&& s.len() % 2 == 0
    &&& forall|i: int| 0 <= i < s.len() ==> is_hex_digit(#[trigger] s[i])
}

/// The byte string that a hexadecimal text stands for.
pub open spec fn from_hex(s: Seq<u8>) -> Seq<u8> {
    Seq::new(
        (s.len() / 2) as nat,
        |i: int| (hex_value(s[2 * i]) * 16 + hex_value(s[2 * i + 1])) as u8,
    )
}

/// Reading back the text of a byte string gives the byte string.
pub proof fn lemma_hex_round_trip(b: Seq<u8>)
    ensures
        is_hex_text(to_hex(b)),
        from_hex(to_hex(b)) == b,
{
    let t = to_hex(b);
    assert forall|i: int| 0 <= i < t.len() implies is_hex_digit(#[trigger] t[i]) by {
        let x = b[i / 2];
    }
    assert forall|i: int| 0 <= i < b.len() implies from_hex(t)[i] == b[i] by {
        assert(t[2 * i] == hex_digit(b[i] as int / 16));
        assert(t[2 * i + 1] == hex_digit(b[i] as int % 16));
    }
    assert(from_hex(t) =~= b);
}

/// A hexadecimal text is the only text of the byte string it stands for.
pub proof fn lemma_hex_canonical(s: Seq<u8>)
    requires
        is_hex_text(s),
    ensures
        to_hex(from_hex(s)) == s,
{
    let b = from_hex(s);
    assert forall|i: int| 0 <= i < s.len() implies to_hex(b)[i] == s[i] by {
        let k = i / 2;
        assert(is_hex_digit(s[2 * k]));
        assert(is_hex_digit(s[2 * k + 1]));
        assert(b[k] == (hex_value(s[2 * k]) * 16 + hex_value(s[2 * k + 1])) as u8);
    }
    assert(to_hex(b) =~= s);
}

fn digit(n: u8) -> (c: u8)
    requires
        n < 16,
    ensures
        c == hex_digit(n as int),
{
    if n < 10 {
        48 + n
    } else {
        87 + n
    }
}

fn digit_value(c: u8) -> (r: Option<u8>)
    ensures
        r.is_some() == is_hex_digit(c),
        r matches Some(v) ==> v == hex_value(c) && v < 16,
{
    if 48 <= c && c <= 57 {
        Some(c - 48)
    } else if 97 <= c && c <= 102 {
        Some(c - 87)
    } else {
        None
    }
}

/// Writes a byte string as hexadecimal text.
pub fn hex_encode(b: &Vec<u8>) -> (r: Vec<u8>)
    ensures
        r@ == to_hex(b@),
{
    let mut out: Vec<u8> = Vec::new();
    let mut i: usize = 0;
    while i < b.len()
        invariant
            i <= b.len(),
            out@.len() == 2 * i,
            forall|k: int| 0 <= k < 2 * i ==> out@[k] == to_hex(b@)[k],
        decreases b.len() - i,
    {
        let x: u8 = b[i];
        out.push(digit(x / 16));
        out.push(digit(x % 16));
        i += 1;
    }
    proof {
        assert(out@ =~= to_hex(b@));
    }
    out
}

/// Reads hexadecimal text; `None` exactly when the text is not an even number
/// of lower-case hexadecimal digits.
pub fn hex_decode(s: &Vec<u8>) -> (r: Option<Vec<u8>>)
    ensures
        r.is_some() == is_hex_text(s@),
        r matches Some(b) ==> b@ == from_hex(s@),
{
    if s.len() % 2 != 0 {
        return None;
    }
    let mut out: Vec<u8> = Vec::new();
    let mut i: usize = 0;
    while i < s.len()
        invariant
            i <= s.len(),
            i % 2 == 0,
            s.len() % 2 == 0,
            out@.len() == i / 2,
            forall|k: int| 0 <= k < i ==> is_hex_digit(#[trigger] s@[k]),
            forall|k: int| 0 <= k < i / 2 ==> out@[k] == from_hex(s@)[k],
        decreases s.len() - i,
    {
        let high = digit_value(s[i]);
        let low = digit_value(s[i + 1]);
        match (high, low) {
            (Some(h), Some(l)) => {
                out.push(h * 16 + l);
            },
            _ => {
                return None;
            },
        }
        i += 2;
    }
    proof {
        assert(out@ =~= from_hex(s@));
    }
    Some(out)
}

} // verus!
