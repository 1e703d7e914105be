//! The UTF-16 text encoding that strings use inside a byte stream: a
//! byte-order mark followed by big-endian code units.
use vstd::prelude::*;

verus! {

/// Whether `u` is a leading (high) surrogate code unit.
pub open spec fn is_high_surrogate(u: u16) -> bool {
    0xD800 <= u <= 0xDBFF
}

/// Whether `u` is a trailing (low) surrogate code unit.
pub open spec fn is_low_surrogate(u: u16) -> bool {
    0xDC00 <= u <= 0xDFFF
}

/// The UTF-16 code units of one character.
pub open spec fn encode_char_utf16(c: char) -> Seq<u16> {
    let v = c as int;
    if v < 0x10000 {
        seq![v as u16]
    } else {
        seq![(0xD800 + (v - 0x10000) / 0x400) as u16, (0xDC00 + (v - 0x10000) % 0x400) as u16]
    }
}

/// The UTF-16 code units of a sequence of characters.
pub open spec fn utf16_encode(s: Seq<char>) -> Seq<u16>
    decreases s.len(),
{
    if s.len() == 0 {
        Seq::empty()
    } else {
        encode_char_utf16(s[0]) + utf16_encode(s.drop_first())
    }
}

/// Decodes UTF-16 code units, replacing every unpaired surrogate by U+FFFD.
pub open spec fn utf16_decode_lossy(u: Seq<u16>) -> Seq<char>
    decreases u.len(),
{
    if u.len() == 0 {
        Seq::empty()
    } else if u.len() >= 2 && is_high_surrogate(u[0]) && is_low_surrogate(u[1]) {
        seq![(0x10000 + (u[0] - 0xD800) * 0x400 + (u[1] - 0xDC00)) as char] + utf16_decode_lossy(
            u.skip(2),
        )
    } else if is_high_surrogate(u[0]) || is_low_surrogate(u[0]) {
        seq!['\u{FFFD}'] + utf16_decode_lossy(u.drop_first())
    } else {
        seq![u[0] as char] + utf16_decode_lossy(u.drop_first())
    }
}

/// Code units written most significant byte first.
pub open spec fn units_to_be_bytes(u: Seq<u16>) -> Seq<u8> {
    Seq::new(
        2 * u.len(),
        |i: int|
            if i % 2 == 0 {
                (u[i / 2] / 256) as u8
            } else {
                (u[i / 2] % 256) as u8
            },
    )
}

/// Pairs of bytes read most significant byte first; an odd last byte is ignored.
pub open spec fn be_bytes_to_units(b: Seq<u8>) -> Seq<u16> {
    Seq::new(b.len() / 2, |k: int| (b[2 * k] * 256 + b[2 * k + 1]) as u16)
}

/// The bytes of a string's body: the byte-order mark FE FF, then the code units.
pub open spec fn string_bytes(s: Seq<char>) -> Seq<u8> {
    seq![0xFEu8, 0xFFu8] + units_to_be_bytes(utf16_encode(s))
}

/// The text that a string body decodes to: a leading byte-order mark is dropped.
pub open spec fn decode_string_bytes(b: Seq<u8>) -> Seq<char> {
    let u = be_bytes_to_units(b);
    if u.len() > 0 && u[0] == 0xFEFF {
        utf16_decode_lossy(u.drop_first())
    } else {
        utf16_decode_lossy(u)
    }
}

proof fn lemma_encode_char_decodes(c: char, rest: Seq<u16>)
    ensures
        utf16_decode_lossy(encode_char_utf16(c) + rest) == seq![c] + utf16_decode_lossy(rest),
{
    let v = c as int;
    let e = encode_char_utf16(c);
    let u = e + rest;
    if v < 0x10000 {
        assert(!(0xD800 <= v <= 0xDFFF));
        assert(u[0] == v as u16);
        assert(u.drop_first() =~= rest);
        assert(!is_high_surrogate(u[0]) && !is_low_surrogate(u[0]));
        assert((u[0] as char) == c);
    } else {
        let q = (v - 0x10000) / 0x400;
        let r = (v - 0x10000) % 0x400;
        assert(v <= 0x10FFFF);
        assert(0 <= q < 0x400 && 0 <= r < 0x400);
        assert(q * 0x400 + r == v - 0x10000);
        assert(u[0] == (0xD800 + q) as u16);
        assert(u[1] == (0xDC00 + r) as u16);
        assert(is_high_surrogate(u[0]) && is_low_surrogate(u[1]));
        assert(u.skip(2) =~= rest);
        assert(0x10000 + (u[0] - 0xD800) * 0x400 + (u[1] - 0xDC00) == v);
        assert(((0x10000 + (u[0] - 0xD800) * 0x400 + (u[1] - 0xDC00)) as char) == c);
    }
}

/// Decoding the UTF-16 encoding of a text gives the text back.
pub proof fn lemma_utf16_roundtrip(s: Seq<char>)
    ensures
        utf16_decode_lossy(utf16_encode(s)) == s,
    decreases s.len(),
{
    if s.len() == 0 {
        assert(utf16_encode(s) =~= Seq::<u16>::empty());
    } else {
        lemma_utf16_roundtrip(s.drop_first());
        lemma_encode_char_decodes(s[0], utf16_encode(s.drop_first()));
        assert(seq![s[0]] + s.drop_first() =~= s);
    }
}

/// Reading code units back from their big-endian bytes gives the units.
pub proof fn lemma_be_units_roundtrip(u: Seq<u16>)
    ensures
        be_bytes_to_units(units_to_be_bytes(u)) == u,
{
    let b = units_to_be_bytes(u);
    assert forall|k: int| 0 <= k < u.len() implies be_bytes_to_units(b)[k] == u[k] by {
        assert((2 * k) % 2 == 0);
        assert((2 * k + 1) % 2 == 1);
        assert((2 * k) / 2 == k);
        assert((2 * k + 1) / 2 == k);
        let x = u[k];
        assert(((x / 256) as u8) * 256 + ((x % 256) as u8) == x);
    }
    assert(be_bytes_to_units(b) =~= u);
}

/// A string body decodes to the string it was made from.
pub proof fn lemma_string_bytes_roundtrip(s: Seq<char>)
    ensures
        decode_string_bytes(string_bytes(s)) == s,
{
    let units = utf16_encode(s);
    let b = string_bytes(s);
    let body = units_to_be_bytes(units);
    let bom = seq![0xFEu8, 0xFFu8];
    assert(b == bom + body);
    let u = be_bytes_to_units(b);
    lemma_be_units_roundtrip(units);
    assert(u.len() == units.len() + 1);
    assert(u[0] == 0xFEFF);
    assert forall|k: int| 0 <= k < units.len() implies u.drop_first()[k] == units[k] by {
        assert(b[2 * (k + 1)] == body[2 * k]);
        assert(b[2 * (k + 1) + 1] == body[2 * k + 1]);
        assert(be_bytes_to_units(body)[k] == units[k]);
    }
    assert(u.drop_first() =~= units);
    lemma_utf16_roundtrip(s);
}

/// Characters below U+10000 take one code unit each.
pub proof fn lemma_bmp_encode_len(s: Seq<char>)
    requires
        forall|i: int| 0 <= i < s.len() ==> (#[trigger] s[i] as int) < 0x10000,
    ensures
        utf16_encode(s).len() == s.len(),
    decreases s.len(),
{
    if s.len() > 0 {
        assert((s[0] as int) < 0x10000);
        assert forall|i: int| 0 <= i < s.drop_first().len() implies (#[trigger] s.drop_first()[i] as int) < 0x10000 by {
            assert(s.drop_first()[i] == s[i + 1]);
        }
        lemma_bmp_encode_len(s.drop_first());
    }
}

/// Encoding a text with one more character appends that character's units.
proof fn lemma_encode_push(a: Seq<char>, c: char)
    ensures
        utf16_encode(a.push(c)) == utf16_encode(a) + encode_char_utf16(c),
    decreases a.len(),
{
    if a.len() == 0 {
        assert(a.push(c).drop_first() =~= Seq::<char>::empty());
        assert(utf16_encode(Seq::<char>::empty()) =~= Seq::<u16>::empty());
        assert(utf16_encode(a.push(c)) =~= encode_char_utf16(c));
    } else {
        assert(a.push(c).drop_first() =~= a.drop_first().push(c));
        lemma_encode_push(a.drop_first(), c);
        assert(utf16_encode(a.push(c)) =~= utf16_encode(a) + encode_char_utf16(c));
    }
}

/// The UTF-16 code units of `s`.
pub(crate) fn encode_utf16(s: &str) -> (r: Vec<u16>)
    ensures
        r@ == utf16_encode(s@),
{
    let mut r: Vec<u16> = Vec::new();
    let n = s.unicode_len();
    let mut i: usize = 0;
    while i < n
        invariant
            n == s@.len(),
            i <= n,
            r@ == utf16_encode(s@.take(i as int)),
        decreases n - i,
    {
        let c = s.get_char(i);
        let v = c as u32;
        proof {
            assert(s@.take(i + 1) =~= s@.take(i as int).push(c));
            lemma_encode_push(s@.take(i as int), c);
        }
        if v < 0x10000 {
            r.push(v as u16);
        } else {
            let w = v - 0x10000;
            r.push((0xD800 + w / 0x400) as u16);
            r.push((0xDC00 + w % 0x400) as u16);
        }
        proof {
            assert(r@ == utf16_encode(s@.take(i + 1)));
        }
        i = i + 1;
    }
    assert(s@.take(n as int) =~= s@);
    r
}

/// The text made of the characters `cs`. Trusted: collects the characters
/// into a `String` (`FromIterator<char>`), taken to keep them in order.
#[verifier::external_body]
fn string_of_chars(cs: &[char]) -> (r: String)
    ensures
        r@ == cs@,
{
    cs.iter().collect()
}

/// The text of `units`, with every unpaired surrogate replaced by U+FFFD.
pub(crate) fn decode_utf16_lossy(units: &[u16]) -> (r: String)
    ensures
        r@ == utf16_decode_lossy(units@),
{
    let mut out: Vec<char> = Vec::new();
    let n = units.len();
    let mut i: usize = 0;
    proof {
        assert(units@.skip(0) =~= units@);
    }
    while i < n
        invariant
            n == units@.len(),
            i <= n,
            utf16_decode_lossy(units@) == out@ + utf16_decode_lossy(units@.skip(i as int)),
        decreases n - i,
    {
        let ghost rest = units@.skip(i as int);
        let ghost before = out@;
        let u = units[i];
        assert(rest[0] == u);
        if i + 1 < n && 0xD800 <= u && u <= 0xDBFF && 0xDC00 <= units[i + 1] && units[i + 1] <= 0xDFFF {
            let lo = units[i + 1];
            let v: u32 = 0x10000 + (u as u32 - 0xD800) * 0x400 + (lo as u32 - 0xDC00);
            assert(rest[1] == lo);
            assert(rest.skip(2) =~= units@.skip(i + 2));
            let c = super::char_from_u32(v).unwrap();
            out.push(c);
            proof {
                assert(out@ + utf16_decode_lossy(units@.skip(i + 2)) =~= before + (seq![c]
                    + utf16_decode_lossy(rest.skip(2))));
            }
            i = i + 2;
        } else {
            assert(rest.drop_first() =~= units@.skip(i + 1));
            let c = if 0xD800 <= u && u <= 0xDFFF {
                '\u{FFFD}'
            } else {
                super::char_from_u32(u as u32).unwrap()
            };
            out.push(c);
            proof {
                assert(out@ + utf16_decode_lossy(units@.skip(i + 1)) =~= before + (seq![c]
                    + utf16_decode_lossy(rest.drop_first())));
            }
            i = i + 1;
        }
    }
    proof {
        assert(units@.skip(n as int) =~= Seq::<u16>::empty());
        assert(out@ + Seq::<char>::empty() =~= out@);
    }
    string_of_chars(out.as_slice())
}

} // verus!
