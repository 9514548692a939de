//! Decimal text of unsigned numbers, read and written as `usize`'s `FromStr`
//! and `Display` do.
use vstd::prelude::*;
use crate::text::{chars_of, push_char};

verus! {

/// Whether `c` is an ASCII decimal digit.
pub open spec fn is_digit(c: char) -> bool {
    '0' <= c && c <= '9'
}

/// The value of an ASCII digit.
pub open spec fn digit_value(c: char) -> nat {
    (c as int - '0' as int) as nat
}

/// The digit for a value below ten.
pub open spec fn digit_char(d: nat) -> char {
    (d + '0' as int) as char
}

/// Whether every character is a digit.
pub open spec fn all_digits(d: Seq<char>) -> bool {
    forall|i: int| 0 <= i < d.len() ==> is_digit(#[trigger] d[i])
}

/// The number a run of digits writes, most significant first.
pub open spec fn digits_value(d: Seq<char>) -> nat
    decreases d.len(),
{
    if d.len() == 0 {
        0
    } else {
        digits_value(d.drop_last()) * 10 + digit_value(d.last())
    }
}

/// What `str::parse::<usize>` gives: an optional leading `+`, then one or more
/// ASCII digits whose value fits in `usize`.
pub open spec fn parsed_usize(t: Seq<char>) -> Option<nat> {
    let d = if t.len() > 0 && t[0] == '+' {
        t.drop_first()
    } else {
        t
    };
    if d.len() > 0 && all_digits(d) && digits_value(d) <= usize::MAX {
        Some(digits_value(d))
    } else {
        None
    }
}

/// The decimal text of a number, without leading zeros.
pub open spec fn decimal(n: nat) -> Seq<char>
    decreases n,
{
    if n < 10 {
        seq![digit_char(n)]
    } else {
        decimal(n / 10).push(digit_char(n % 10))
    }
}

proof fn lemma_digits_value_grows(d: Seq<char>, i: int)
    requires
        0 <= i <= d.len(),
    ensures
        digits_value(d.take(i)) <= digits_value(d),
    decreases d.len() - i,
{
    if i < d.len() {
        lemma_digits_value_grows(d, i + 1);
        assert(d.take(i + 1).drop_last() =~= d.take(i));
    } else {
        assert(d.take(i) =~= d);
    }
}

/// Parses a decimal `usize` as `str::parse` does.
pub fn parse_usize(t: &str) -> (r: Option<usize>)
    ensures
        match r {
            Some(n) => parsed_usize(t@) == Some(n as nat),
            None => parsed_usize(t@) is None,
        },
{
    let cs = chars_of(t);
    let start: usize = if cs.len() > 0 && cs[0] == '+' {
        1
    } else {
        0
    };
    let ghost d = if t@.len() > 0 && t@[0] == '+' {
        t@.drop_first()
    } else {
        t@
    };
    assert(d =~= cs@.skip(start as int));
    if start >= cs.len() {
        return None;
    }
    let mut v: usize = 0;
    let mut i: usize = start;
    while i < cs.len()
        invariant
            cs@ == t@,
            start <= i <= cs.len(),
            d == cs@.skip(start as int),
            d == (if t@.len() > 0 && t@[0] == '+' { t@.drop_first() } else { t@ }),
            v == digits_value(d.take(i - start)),
            forall|j: int| 0 <= j < i - start ==> is_digit(#[trigger] d[j]),
        decreases cs.len() - i,
    {
        let c = cs[i];
        if !('0' <= c && c <= '9') {
            assert(!is_digit(d[i - start]));
            assert(!all_digits(d));
            return None;
        }
        let dv: usize = (c as u32 - '0' as u32) as usize;
        assert(d.take(i - start + 1).drop_last() =~= d.take(i - start));
        assert(d.take(i - start + 1).last() == c);
        match v.checked_mul(10) {
            Some(m) => match m.checked_add(dv) {
                Some(nv) => {
                    v = nv;
                },
                None => {
                    proof {
                        lemma_digits_value_grows(d, i - start + 1);
                        assert(digits_value(d.take(i - start + 1)) == v * 10 + dv);
                    }
                    return None;
                },
            },
            None => {
                proof {
                    lemma_digits_value_grows(d, i - start + 1);
                    assert(digits_value(d.take(i - start + 1)) >= v * 10) by (nonlinear_arith)
                        requires
                            digits_value(d.take(i - start + 1)) == digits_value(d.take(i - start)) * 10 + digit_value(c),
                            v == digits_value(d.take(i - start)),
                    ;
                }
                return None;
            },
        }
        i += 1;
    }
    assert(d.take(cs.len() - start) =~= d);
    Some(v)
}

proof fn lemma_decimal_shape(n: nat)
    ensures
        decimal(n).len() > 0,
        all_digits(decimal(n)),
        decimal(n)[0] != '+',
        digits_value(decimal(n)) == n,
    decreases n,
{
    assert(digit_value(digit_char(n % 10)) == n % 10);
    if n >= 10 {
        lemma_decimal_shape(n / 10);
        let s = decimal(n);
        assert(s.drop_last() =~= decimal(n / 10));
        assert(s.last() == digit_char(n % 10));
        assert(digits_value(s) == digits_value(decimal(n / 10)) * 10 + n % 10);
        assert(n == (n / 10) * 10 + n % 10) by (nonlinear_arith);
    } else {
        assert(decimal(n).drop_last() =~= Seq::<char>::empty());
        assert(n % 10 == n);
        assert(digits_value(Seq::<char>::empty()) == 0);
        assert(decimal(n).last() == digit_char(n));
        assert(digits_value(decimal(n)) == digits_value(decimal(n).drop_last()) * 10 + digit_value(decimal(n).last()));
    }
}

/// Reading back the decimal text of a `usize` gives the number.
pub proof fn law_parse_decimal(n: usize)
    ensures
        parsed_usize(decimal(n as nat)) == Some(n as nat),
{
    lemma_decimal_shape(n as nat);
}

fn digit_of(d: usize) -> (c: char)
    requires
        d < 10,
    ensures
        c == digit_char(d as nat),
{
    match d {
        0 => '0',
        1 => '1',
        2 => '2',
        3 => '3',
        4 => '4',
        5 => '5',
        6 => '6',
        7 => '7',
        8 => '8',
        _ => '9',
    }
}

fn push_decimal(s: &mut String, n: usize)
    ensures
        final(s)@ == old(s)@ + decimal(n as nat),
    decreases n,
{
    if n >= 10 {
        push_decimal(s, n / 10);
    }
    push_char(s, digit_of(n % 10));
    assert(decimal(n as nat) =~= if n >= 10 { decimal((n / 10) as nat).push(digit_char((n % 10) as nat)) } else { seq![digit_char(n as nat)] });
}

/// Writes a `usize` in decimal, as its `Display` does.
pub fn format_usize(n: usize) -> (s: String)
    ensures
        s@ == decimal(n as nat),
{
    let mut s = String::new();
    push_decimal(&mut s, n);
    assert(s@ =~= decimal(n as nat));
    s
}


/// What `str::parse::<u32>` gives: as for `usize`, within `u32`.
pub open spec fn parsed_u32(t: Seq<char>) -> Option<nat> {
    match parsed_usize(t) {
        Some(n) => if n <= u32::MAX {
            Some(n)
        } else {
            None
        },
        None => None,
    }
}

/// Parses a decimal `u32` as `str::parse` does.
pub fn parse_u32(t: &str) -> (r: Option<u32>)
    ensures
        match r {
            Some(n) => parsed_u32(t@) == Some(n as nat),
            None => parsed_u32(t@) is None,
        },
{
    match parse_usize(t) {
        Some(n) => if n <= u32::MAX as usize {
            Some(n as u32)
        } else {
            None
        },
        None => None,
    }
}

} // verus!
