//! Small string helpers shared by the modules that handle names and text.

use vstd::prelude::*;

verus! {

/// Returns the characters of `s`, in order.
pub fn chars_of(s: &str) -> (v: Vec<char>)
    ensures
        v@ == s@,
{
    let mut v: Vec<char> = Vec::new();
    for c in it: s.chars()
        invariant
            v@ == s@.take(it.index() as int),
            it.seq() == s@,
    {
        v.push(c);
        proof {
            assert(s@.take(it.index() + 1) =~= s@.take(it.index() as int).push(c));
        }
    }
    v
}

/// Appends one character to a string (`String::push`).
#[verifier::external_body]
pub(crate) fn push_char(s: &mut String, c: char)
    ensures
        final(s)@ == old(s)@.push(c),
{
    s.push(c)
}

/// Builds a string from a sequence of characters.
pub fn string_from_chars(v: &[char]) -> (s: String)
    ensures
        s@ == v@,
{
    let mut s = String::new();
    let mut i: usize = 0;
    while i < v.len()
        invariant
            i <= v.len(),
            s@ == v@.take(i as int),
        decreases v.len() - i,
    {
        push_char(&mut s, v[i]);
        proof {
            assert(v@.take(i + 1) =~= v@.take(i as int).push(v@[i as int]));
        }
        i = i + 1;
    }
    proof {
        assert(v@.take(v@.len() as int) =~= v@);
    }
    s
}

/// Returns the character with the given Unicode scalar value
/// (`char::from_u32`, which returns `Some` exactly for scalar values).
#[verifier::external_body]
pub(crate) fn char_from_scalar(v: u32) -> (c: char)
    requires
        v < 0xD800 || (0xE000 <= v && v <= 0x10FFFF),
    ensures
        c == v as char,
        c as u32 == v,
{
    char::from_u32(v).unwrap()
}

/// Joins three pieces of text.
pub fn concat3(a: &str, b: &str, c: &str) -> (r: String)
    ensures
        r@ == a@ + b@ + c@,
{
    let x = chars_of(a);
    let y = chars_of(b);
    let z = chars_of(c);
    let mut all: Vec<char> = Vec::new();
    append_chars(&mut all, &x);
    append_chars(&mut all, &y);
    append_chars(&mut all, &z);
    string_from_chars(all.as_slice())
}

/// Joins two pieces of text.
pub fn concat2(a: &str, b: &str) -> (r: String)
    ensures
        r@ == a@ + b@,
{
    let mut all = chars_of(a);
    let y = chars_of(b);
    append_chars(&mut all, &y);
    string_from_chars(all.as_slice())
}

/// Appends the characters of a string to `dst`.
pub fn append_str(dst: &mut Vec<char>, s: &str)
    ensures
        final(dst)@ == old(dst)@ + s@,
{
    let chars = chars_of(s);
    append_chars(dst, &chars);
}

/// Appends the characters of `src` to `dst`.
pub fn append_chars(dst: &mut Vec<char>, src: &Vec<char>)
    ensures
        final(dst)@ == old(dst)@ + src@,
{
    let mut i: usize = 0;
    let ghost before = dst@;
    while i < src.len()
        invariant
            i <= src.len(),
            dst@ == before + src@.take(i as int),
        decreases src.len() - i,
    {
        dst.push(src[i]);
        proof {
            assert(src@.take(i + 1) =~= src@.take(i as int).push(src@[i as int]));
        }
        i = i + 1;
    }
    proof {
        assert(src@.take(src@.len() as int) =~= src@);
    }
}

/// The character of a decimal digit.
pub open spec fn digit_char(d: int) -> char {
    (48 + d) as char
}

/// The decimal digits of a natural number, without leading zeros.
pub open spec fn nat_text(n: nat) -> Seq<char>
    decreases n,
{
    if n < 10 {
        seq![digit_char(n as int)]
    } else {
        nat_text(n / 10).push(digit_char((n % 10) as int))
    }
}

/// The decimal text of an integer, with a leading `-` when it is negative.
pub open spec fn int_text(i: int) -> Seq<char> {
    if i < 0 {
        seq!['-'] + nat_text((-i) as nat)
    } else {
        nat_text(i as nat)
    }
}

/// Appends the decimal digits of `n`.
fn push_nat_text(out: &mut Vec<char>, n: u64)
    ensures
        final(out)@ == old(out)@ + nat_text(n as nat),
    decreases n,
{
    if n >= 10 {
        push_nat_text(out, n / 10);
    }
    let d = n % 10;
    out.push(char_from_scalar((48 + d) as u32));
    proof {
        if n < 10 {
            assert(old(out)@ + nat_text(n as nat) =~= old(out)@.push(digit_char(n as int)));
        }
    }
}

/// Returns the decimal text of a natural number.
pub fn nat_to_string(n: u64) -> (s: String)
    ensures
        s@ == nat_text(n as nat),
{
    let mut out: Vec<char> = Vec::new();
    push_nat_text(&mut out, n);
    proof {
        assert(out@ =~= nat_text(n as nat));
    }
    string_from_chars(&out)
}

/// Returns the decimal text of an integer (as `Display` writes it).
pub fn int_to_string(i: i64) -> (s: String)
    ensures
        s@ == int_text(i as int),
{
    let mut out: Vec<char> = Vec::new();
    if i < 0 {
        out.push('-');
        let m: u64 = if i == i64::MIN {
            0x8000_0000_0000_0000u64
        } else {
            (-i) as u64
        };
        push_nat_text(&mut out, m);
    } else {
        push_nat_text(&mut out, i as u64);
    }
    proof {
        assert(out@ =~= int_text(i as int));
    }
    string_from_chars(&out)
}

/// Whether a character is an ASCII decimal digit.
pub open spec fn is_digit(c: char) -> bool {
    48 <= c as u32 && c as u32 <= 57
}

/// The value of a sequence of decimal digits.
pub open spec fn digits_value(s: Seq<char>) -> nat
    decreases s.len(),
{
    if s.len() == 0 {
        0
    } else {
        digits_value(s.drop_last()) * 10 + ((s.last() as u32) - 48) as nat
    }
}

/// What `str::parse` gives for an integer type with the range `min..=max`
/// (`signed` says whether a leading `-` is accepted): an optional sign, then
/// at least one ASCII digit and nothing else, with a value in range.
pub open spec fn parsed_int(s: Seq<char>, min: int, max: int, signed: bool) -> Option<int> {
    let has_sign = s.len() > 0 && (s[0] == '+' || (signed && s[0] == '-'));
    let negative = s.len() > 0 && signed && s[0] == '-';
    let digits = if has_sign {
        s.drop_first()
    } else {
        s
    };
    let magnitude = digits_value(digits) as int;
    let value = if negative {
        -magnitude
    } else {
        magnitude
    };
    if digits.len() > 0 && all_digits(digits) && min <= value <= max {
        Some(value)
    } else {
        None
    }
}

/// The largest value a parse keeps track of; anything above it is out of
/// range for every integer type parsed here.
pub const PARSE_CAP: u64 = 0x1_0000_0000;

/// A natural number, or `PARSE_CAP` if it is larger.
pub open spec fn capped(n: nat) -> nat {
    if n < PARSE_CAP {
        n
    } else {
        PARSE_CAP as nat
    }
}

/// Whether every character of `s` is an ASCII digit.
pub open spec fn all_digits(s: Seq<char>) -> bool {
    forall|i: int| 0 <= i < s.len() ==> is_digit(#[trigger] s[i])
}

/// Reads the digits of `s` from `start` on: their value (capped), or `None`
/// if a character there is not a digit.
fn capped_digits_value(s: &[char], start: usize) -> (r: Option<u64>)
    requires
        start <= s@.len(),
    ensures
        r is Some <==> all_digits(s@.skip(start as int)),
        r matches Some(v) ==> v as nat == capped(digits_value(s@.skip(start as int))),
{
    let mut value: u64 = 0;
    let mut i: usize = start;
    proof {
        assert(s@.subrange(start as int, i as int) =~= Seq::<char>::empty());
    }
    while i < s.len()
        invariant
            start <= i <= s.len(),
            all_digits(s@.subrange(start as int, i as int)),
            value as nat == capped(digits_value(s@.subrange(start as int, i as int))),
        decreases s.len() - i,
    {
        let c = s[i];
        if !(48 <= c as u32 && c as u32 <= 57) {
            proof {
                assert(s@.skip(start as int)[i - start] == c);
            }
            return None;
        }
        let d = (c as u32 - 48) as u64;
        proof {
            let sub = s@.subrange(start as int, i + 1);
            assert(sub.drop_last() =~= s@.subrange(start as int, i as int));
            assert(sub.last() == c);
            assert forall|j: int| 0 <= j < sub.len() implies is_digit(#[trigger] sub[j]) by {
                if j < sub.len() - 1 {
                    assert(sub[j] == s@.subrange(start as int, i as int)[j]);
                }
            }
        }
        if value >= PARSE_CAP {
            value = PARSE_CAP;
        } else {
            let next = value * 10 + d;
            value = if next >= PARSE_CAP {
                PARSE_CAP
            } else {
                next
            };
        }
        i = i + 1;
    }
    proof {
        assert(s@.subrange(start as int, s@.len() as int) =~= s@.skip(start as int));
    }
    Some(value)
}

/// Parses text as an integer in `min..=max`, the way `str::parse` does for
/// the integer types of at most 32 bits.
pub fn parse_int(s: &[char], min: i64, max: i64, signed: bool) -> (r: Option<i64>)
    requires
        -0x1_0000_0000 < min <= max < 0x1_0000_0000,
    ensures
        r matches Some(v) ==> parsed_int(s@, min as int, max as int, signed) == Some(v as int),
        r is None ==> parsed_int(s@, min as int, max as int, signed) is None,
{
    let has_sign = s.len() > 0 && (s[0] == '+' || (signed && s[0] == '-'));
    let negative = s.len() > 0 && signed && s[0] == '-';
    let start: usize = if has_sign {
        1
    } else {
        0
    };
    let ghost digits = if has_sign {
        s@.drop_first()
    } else {
        s@
    };
    proof {
        assert(digits =~= s@.skip(start as int));
    }
    if start >= s.len() {
        return None;
    }
    match capped_digits_value(s, start) {
        None => None,
        Some(value) => {
            if value >= PARSE_CAP {
                return None;
            }
            let v: i64 = if negative {
                -(value as i64)
            } else {
                value as i64
            };
            if min <= v && v <= max {
                Some(v)
            } else {
                None
            }
        },
    }
}

/// The decimal text of a number is one or more digits whose value is the
/// number.
pub proof fn lemma_nat_text_digits(n: nat)
    ensures
        nat_text(n).len() > 0,
        all_digits(nat_text(n)),
        digits_value(nat_text(n)) == n,
    decreases n,
{
    if n >= 10 {
        lemma_nat_text_digits(n / 10);
        let t = nat_text(n);
        assert(t == nat_text(n / 10).push(digit_char((n % 10) as int)));
        assert(t.drop_last() =~= nat_text(n / 10));
        assert(t.last() == digit_char((n % 10) as int));
        assert(((digit_char((n % 10) as int) as u32) - 48) as nat == n % 10);
        assert(digits_value(t) == digits_value(t.drop_last()) * 10 + ((t.last() as u32) - 48) as nat);
        assert((n / 10) * 10 + n % 10 == n) by (nonlinear_arith);
        assert(digits_value(t) == n);
        assert forall|i: int| 0 <= i < t.len() implies is_digit(#[trigger] t[i]) by {
            if i < t.len() - 1 {
                assert(t[i] == nat_text(n / 10)[i]);
            }
        }
    } else {
        let t = nat_text(n);
        assert(t == seq![digit_char(n as int)]);
        assert(((digit_char(n as int) as u32) - 48) as nat == n);
        assert(t.drop_last() =~= Seq::<char>::empty());
        assert(digits_value(Seq::<char>::empty()) == 0);
        assert(digits_value(t) == digits_value(t.drop_last()) * 10 + ((t.last() as u32) - 48) as nat);
        assert(is_digit(t[0]));
    }
}

} // verus!
