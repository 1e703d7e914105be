//! Small text helpers: string equality and decimal numbers.
use vstd::prelude::*;

verus! {

/// The decimal digit for `d` (0 to 9).
pub open spec fn digit_char(d: int) -> char {
    (d + 48) as char
}

/// The decimal digits of a natural number, most significant first.
pub open spec fn nat_text(n: nat) -> Seq<char>
    decreases n,
{
    if n < 10 {
        seq![digit_char(n as int)]
    } else {
        nat_text(n / 10) + seq![digit_char((n % 10) as int)]
    }
}

/// The decimal text of an integer, with a leading '-' when negative.
pub open spec fn int_text(v: int) -> Seq<char> {
    if v < 0 {
        seq!['-'] + nat_text((-v) as nat)
    } else {
        nat_text(v as nat)
    }
}

/// The one-character text of the decimal digit `d`.
fn digit_str(d: u64) -> (r: &'static str)
    requires
        d < 10,
    ensures
        r@ == seq![digit_char(d as int)],
{
    proof {
        reveal_strlit("0");
        reveal_strlit("1");
        reveal_strlit("2");
        reveal_strlit("3");
        reveal_strlit("4");
        reveal_strlit("5");
        reveal_strlit("6");
        reveal_strlit("7");
        reveal_strlit("8");
        reveal_strlit("9");
    }
    if d == 0 {
        "0"
    } else if d == 1 {
        "1"
    } else if d == 2 {
        "2"
    } else if d == 3 {
        "3"
    } else if d == 4 {
        "4"
    } else if d == 5 {
        "5"
    } else if d == 6 {
        "6"
    } else if d == 7 {
        "7"
    } else if d == 8 {
        "8"
    } else {
        "9"
    }
}

/// The decimal digits of `n`.
fn nat_to_string(n: u64) -> (r: String)
    ensures
        r@ == nat_text(n as nat),
    decreases n,
{
    if n < 10 {
        owned(digit_str(n))
    } else {
        let head = nat_to_string(n / 10);
        concat(head.as_str(), digit_str(n % 10))
    }
}

/// The decimal text of `v`, as `i32`'s `Display` writes it.
pub(crate) fn int_to_string(v: i32) -> (r: String)
    ensures
        r@ == int_text(v as int),
{
    if v < 0 {
        let m = (0i64 - (v as i64)) as u64;
        let digits = nat_to_string(m);
        proof {
            reveal_strlit("-");
        }
        concat("-", digits.as_str())
    } else {
        nat_to_string(v as u64)
    }
}

/// The decimal text of `v`, as `usize`'s `Display` writes it.
pub(crate) fn uint_to_string(v: usize) -> (r: String)
    ensures
        r@ == int_text(v as int),
{
    nat_to_string(v as u64)
}

/// Whether two strings hold the same characters.
pub fn str_eq(a: &str, b: &str) -> (r: bool)
    ensures
        r == (a@ == b@),
{
    let x = a.to_string();
    let y = b.to_string();
    x == y
}

/// A new string holding `s`.
pub fn owned(s: &str) -> (r: String)
    ensures
        r@ == s@,
{
    s.to_string()
}

/// The concatenation of `a` and `b`.
pub fn concat(a: &str, b: &str) -> (r: String)
    ensures
        r@ == a@ + b@,
{
    let mut s = a.to_string();
    s.append(b);
    s
}


/// The text `{:?}` gives for a string: the string in double quotes with
/// quotes, backslashes and control characters escaped.
pub uninterp spec fn debug_text(s: Seq<char>) -> Seq<char>;

/// The string as `{:?}` writes it. Trusted: calls `format!("{:?}", s)`;
/// the contract only names the result (`debug_text`), it does not spell
/// out the escaping.
#[verifier::external_body]
pub(crate) fn debug_quoted(s: &str) -> (r: String)
    ensures
        r@ == debug_text(s@),
{
    format!("{:?}", s)
}

/// `s` right-aligned in `w` characters: spaces first when it is shorter.
pub open spec fn pad_left(s: Seq<char>, w: nat) -> Seq<char> {
    if s.len() < w {
        Seq::new((w - s.len()) as nat, |i: int| ' ') + s
    } else {
        s
    }
}

/// `s` right-aligned in `w` characters, as `{:w}` writes a number.
pub fn pad(s: &str, w: usize) -> (r: String)
    ensures
        r@ == pad_left(s@, w as nat),
{
    let n = s.unicode_len();
    let mut r = String::new();
    if n < w {
        let mut k: usize = 0;
        while k < w - n
            invariant
                k <= w - n,
                r@ == Seq::new(k as nat, |i: int| ' '),
            decreases w - n - k,
        {
            r.append(" ");
            proof {
                reveal_strlit(" ");
            }
            k = k + 1;
            assert(r@ =~= Seq::new(k as nat, |i: int| ' '));
        }
    }
    r.append(s);
    r
}

/// The items with `sep` between each two.
pub open spec fn join_text(items: Seq<Seq<char>>, sep: Seq<char>) -> Seq<char>
    decreases items.len(),
{
    if items.len() == 0 {
        Seq::empty()
    } else if items.len() == 1 {
        items[0]
    } else {
        join_text(items.drop_last(), sep) + sep + items.last()
    }
}

/// The strings with `sep` between each two.
pub fn join(items: &[String], sep: &str) -> (r: String)
    ensures
        r@ == join_text(items@.map_values(|s: String| s@), sep@),
{
    let ghost v = items@.map_values(|s: String| s@);
    let mut r = String::new();
    let mut k: usize = 0;
    while k < items.len()
        invariant
            k <= items@.len(),
            v == items@.map_values(|s: String| s@),
            r@ == join_text(v.take(k as int), sep@),
        decreases items@.len() - k,
    {
        assert(v[k as int] == items@[k as int]@);
        if k > 0 {
            r.append(sep);
        }
        r.append(items[k].as_str());
        proof {
            assert(v.take(k + 1).drop_last() =~= v.take(k as int));
            if k == 0 {
                assert(r@ =~= v.take(1)[0]);
            }
        }
        k = k + 1;
    }
    assert(v.take(k as int) =~= v);
    r
}

} // verus!
