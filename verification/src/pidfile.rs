//! The pid file of the local web interface: its contents and how they are read back.

use vstd::prelude::*;
use crate::text::{
    digit_char, i64_to_decimal, int_decimal, is_white_space, nat_decimal, push_char,
    strip_leading, strip_trailing, trim, trim_spec, CharClass,
};

verus! {

pub open spec fn is_digit(c: char) -> bool {
    48 <= (c as u32) <= 57
}

pub open spec fn all_digits(s: Seq<char>) -> bool {
    forall|i: int| 0 <= i < s.len() ==> is_digit(#[trigger] s[i])
}

/// The string without a leading `+` or `-`.
pub open spec fn unsigned_part(s: Seq<char>) -> Seq<char> {
    if s.len() > 0 && (s[0] == '-' || s[0] == '+') {
        s.drop_first()
    } else {
        s
    }
}

/// Value of a string of decimal digits.
pub open spec fn digits_value(s: Seq<char>) -> nat
    decreases s.len(),
{
    if s.len() == 0 {
        0
    } else {
        digits_value(s.drop_last()) * 10 + ((s.last() as u32) - 48) as nat
    }
}

/// What `str::parse::<i32>` accepts: an optional `+` or `-`, then one or more decimal digits,
/// with a value in the range of `i32`.
pub open spec fn parse_i32_spec(s: Seq<char>) -> Option<i32> {
    let body = unsigned_part(s);
    if body.len() == 0 || !all_digits(body) {
        None
    } else {
        let v: int = if s[0] == '-' {
            -(digits_value(body) as int)
        } else {
            digits_value(body) as int
        };
        if i32::MIN <= v <= i32::MAX {
            Some(v as i32)
        } else {
            None
        }
    }
}

/// The pid file holds the pid in decimal and a line break.
pub open spec fn pid_file_contents_spec(pid: i32) -> Seq<char> {
    int_decimal(pid as int).push('\n')
}

/// The pid read from the file's trimmed contents.
pub open spec fn parse_pid_file_spec(contents: Seq<char>) -> Option<i32> {
    parse_i32_spec(trim_spec(contents))
}

spec fn cap() -> int {
    2147483649
}

spec fn min_cap(v: int) -> int {
    if v < cap() {
        v
    } else {
        cap()
    }
}

/// Parses a decimal `i32` the way `str::parse::<i32>` does.
pub fn parse_i32(s: &str) -> (r: Option<i32>)
    ensures
        r == parse_i32_spec(s@),
{
    let n = s.unicode_len();
    if n == 0 {
        return None;
    }
    let c0 = s.get_char(0);
    let neg = c0 == '-';
    let start: usize = if c0 == '-' || c0 == '+' {
        1
    } else {
        0
    };
    proof {
        assert(c0 == s@[0]);
    }
    let ghost body = if start == 1 {
        s@.drop_first()
    } else {
        s@
    };
    if start == n {
        return None;
    }
    let mut acc: i64 = 0;
    let mut i: usize = start;
    while i < n
        invariant
            n == s@.len(),
            n > 0,
            start <= i <= n,
            start < n,
            start == (if s@[0] == '-' || s@[0] == '+' {
                1usize
            } else {
                0usize
            }),
            neg == (s@[0] == '-'),
            body == s@.skip(start as int),
            forall|k: int| 0 <= k < i - start ==> is_digit(#[trigger] body[k]),
            acc == min_cap(digits_value(body.take(i - start) ) as int),
        decreases n - i,
    {
        let c = s.get_char(i);
        let u = c as u32;
        if u < 48 || u > 57 {
            proof {
                assert(body[i - start] == c);
                assert(!is_digit(body[i - start]));
                if start == 1 {
                    assert(s@.drop_first() =~= s@.skip(1));
                } else {
                    assert(s@.skip(0) =~= s@);
                }
                assert(unsigned_part(s@) == body);
                assert(!all_digits(body));
            }
            return None;
        }
        let d = (u - 48) as i64;
        proof {
            let p = body.take(i - start);
            let q = body.take(i - start + 1);
            assert(q.drop_last() =~= p);
            assert(q.last() == c);
            assert(digits_value(q) == digits_value(p) * 10 + d);
        }
        acc = acc * 10 + d;
        if acc > 2147483649 {
            acc = 2147483649;
        }
        i = i + 1;
    }
    proof {
        assert(body.take(n - start) =~= body);
        assert(body =~= s@.skip(start as int));
        if start == 1 {
            assert(s@.drop_first() =~= s@.skip(1));
        } else {
            assert(s@.skip(0) =~= s@);
        }
    }
    let v: i64 = if neg {
        -acc
    } else {
        acc
    };
    if v < -2147483648 || v > 2147483647 {
        None
    } else {
        Some(v as i32)
    }
}

/// The pid file's contents for `pid`.
pub fn pid_file_contents(pid: i32) -> (r: String)
    ensures
        r@ == pid_file_contents_spec(pid),
{
    let mut s = i64_to_decimal(pid as i64);
    push_char(&mut s, '\n');
    s
}

/// The pid that a pid file's contents name, if they name one.
pub fn parse_pid_file(contents: &str) -> (r: Option<i32>)
    ensures
        r == parse_pid_file_spec(contents@),
{
    parse_i32(trim(contents))
}

proof fn lemma_digit_value(d: nat)
    requires
        d < 10,
    ensures
        is_digit(digit_char(d)),
        (digit_char(d) as u32) - 48 == d,
{
    assert('0' as u32 == 48);
    assert('1' as u32 == 49);
    assert('9' as u32 == 57);
}

proof fn lemma_nat_decimal_digits(n: nat)
    ensures
        nat_decimal(n).len() > 0,
        forall|i: int| 0 <= i < nat_decimal(n).len() ==> is_digit(#[trigger] nat_decimal(n)[i]),
        digits_value(nat_decimal(n)) == n,
    decreases n,
{
    lemma_digit_value(n % 10);
    if n < 10 {
        assert(nat_decimal(n) =~= seq![digit_char(n)]);
        assert(nat_decimal(n).drop_last() =~= Seq::<char>::empty());
        assert(digits_value(Seq::<char>::empty()) == 0);
        assert(digits_value(nat_decimal(n)) == digits_value(nat_decimal(n).drop_last()) * 10 + ((
        nat_decimal(n).last() as u32) - 48) as nat);
    } else {
        lemma_nat_decimal_digits(n / 10);
        let d = nat_decimal(n);
        assert(d =~= nat_decimal(n / 10).push(digit_char(n % 10)));
        assert(d.drop_last() =~= nat_decimal(n / 10));
        assert((n / 10) * 10 + n % 10 == n) by (nonlinear_arith);
        assert(digits_value(d) == digits_value(d.drop_last()) * 10 + ((d.last() as u32) - 48) as nat);
        assert forall|i: int| 0 <= i < d.len() implies is_digit(#[trigger] d[i]) by {
            if i < d.len() - 1 {
                assert(d[i] == nat_decimal(n / 10)[i]);
            }
        }
    }
}

/// Reading back a written pid file gives the pid that was written.
pub proof fn lemma_pid_file_roundtrip(pid: i32)
    ensures
        parse_pid_file_spec(pid_file_contents_spec(pid)) == Some(pid),
{
    let x = int_decimal(pid as int);
    let c = x.push('\n');
    let mag: nat = if pid < 0 {
        (-(pid as int)) as nat
    } else {
        pid as nat
    };
    lemma_nat_decimal_digits(mag);
    assert(x.len() > 0);
    assert(!is_white_space(x[0]));
    assert(!is_white_space(x.last()));
    assert(c.drop_last() =~= x);
    assert(strip_leading(c, CharClass::WhiteSpace) == c);
    assert(strip_trailing(c, CharClass::WhiteSpace) == strip_trailing(x, CharClass::WhiteSpace));
    assert(strip_trailing(x, CharClass::WhiteSpace) == x);
    assert(trim_spec(c) == x);
    if pid < 0 {
        assert(x.drop_first() =~= nat_decimal(mag));
    }
}

} // verus!
