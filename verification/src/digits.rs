//! Numbers written in decimal, and read back.

use vstd::prelude::*;
use vstd::string::*;

use crate::text::{chars_of, code_point};

verus! {

/// The digit that stands for `n`, a number below ten.
pub open spec fn digit(n: nat) -> char {
    (n + '0' as int) as char
}

/// Whether `c` is a decimal digit.
pub open spec fn is_digit(c: char) -> bool {
    '0' as int <= c as int <= '9' as int
}

/// `n` in decimal, without leading zeros.
pub open spec fn decimal(n: nat) -> Seq<char>
    decreases n,
{
    if n < 10 {
        seq![digit(n)]
    } else {
        decimal(n / 10).push(digit(n % 10))
    }
}

/// `n` in decimal, with leading zeros up to `width` digits.
pub open spec fn zero_padded(n: nat, width: nat) -> Seq<char> {
    let d = decimal(n);
    if d.len() < width {
        Seq::new((width - d.len()) as nat, |i: int| '0') + d
    } else {
        d
    }
}

/// Whether `s` is made of decimal digits, at least one.
pub open spec fn all_digits(s: Seq<char>) -> bool {
    &&& s.len() > 0
    &&& forall|i: int| 0 <= i < s.len() ==> is_digit(#[trigger] s[i])
}

/// The number that the digits of `s` write.
pub open spec fn digits_value(s: Seq<char>) -> nat
    decreases s.len(),
{
    if s.len() == 0 {
        0
    } else {
        digits_value(s.drop_last()) * 10 + (s.last() as int - '0' as int) as nat
    }
}

/// The digits of `s` behind the plus sign that may stand before them.
pub open spec fn unsigned_part(s: Seq<char>) -> Seq<char> {
    if s.len() > 0 && s[0] == '+' {
        s.skip(1)
    } else {
        s
    }
}

/// The number that `s` writes: digits, behind a plus sign or not, where it is
/// no greater than `max`.
pub open spec fn parsed(s: Seq<char>, max: nat) -> Option<nat> {
    let d = unsigned_part(s);
    if all_digits(d) && digits_value(d) <= max {
        Some(digits_value(d))
    } else {
        None
    }
}

/// What `decimal` writes are digits, and they write the number.
pub proof fn lemma_decimal(n: nat)
    ensures
        all_digits(decimal(n)),
        digits_value(decimal(n)) == n,
    decreases n,
{
    if n < 10 {
        assert(decimal(n).drop_last() =~= Seq::<char>::empty());
        assert(digits_value(decimal(n).drop_last()) == 0);
    } else {
        lemma_decimal(n / 10);
        assert(decimal(n).drop_last() =~= decimal(n / 10));
    }
}

/// Reading a number in decimal gives back the number that was written.
pub proof fn decimal_reads_back(n: nat, max: nat)
    requires
        n <= max,
    ensures
        parsed(decimal(n), max) == Some(n),
{
    lemma_decimal(n);
    assert(is_digit(decimal(n)[0]));
}

/// Leading zeros do not change what digits write.
proof fn lemma_leading_zeros(k: nat, s: Seq<char>)
    ensures
        digits_value(Seq::new(k, |i: int| '0') + s) == digits_value(s),
    decreases k + s.len(),
{
    let z = Seq::new(k, |i: int| '0');
    if s.len() == 0 {
        assert(z + s =~= z);
        if k > 0 {
            let y = Seq::new((k - 1) as nat, |i: int| '0');
            assert(z.drop_last() =~= y + s);
            lemma_leading_zeros((k - 1) as nat, s);
        }
    } else {
        assert((z + s).drop_last() =~= z + s.drop_last());
        lemma_leading_zeros(k, s.drop_last());
    }
}

/// What `zero_padded` writes are digits, and they write the number.
pub proof fn lemma_zero_padded(n: nat, width: nat)
    ensures
        all_digits(zero_padded(n, width)),
        digits_value(zero_padded(n, width)) == n,
{
    lemma_decimal(n);
    let d = decimal(n);
    if d.len() < width {
        let k = (width - d.len()) as nat;
        lemma_leading_zeros(k, d);
        let z = Seq::new(k, |i: int| '0');
        assert forall|i: int| 0 <= i < (z + d).len() implies is_digit(#[trigger] (z + d)[i]) by {
            if i >= k {
                assert(is_digit(d[i - k]));
            }
        }
    }
}

/// The text of a digit.
fn digit_text(n: u64) -> (r: &'static str)
    requires
        n < 10,
    ensures
        r@ == seq![digit(n as nat)],
{
    proof {
        reveal_strlit("0");
        reveal_strlit("1");
        reveal_strlit("2");
        reveal_strlit("3");
        reveal_strlit("4");
        reveal_strlit("5");
        reveal_strlit("6");
        reveal_strlit("7");
        reveal_strlit("8");
        reveal_strlit("9");
    }
    let r = if n == 0 {
        "0"
    } else if n == 1 {
        "1"
    } else if n == 2 {
        "2"
    } else if n == 3 {
        "3"
    } else if n == 4 {
        "4"
    } else if n == 5 {
        "5"
    } else if n == 6 {
        "6"
    } else if n == 7 {
        "7"
    } else if n == 8 {
        "8"
    } else {
        "9"
    };
    assert(r@ =~= seq![digit(n as nat)]);
    r
}

/// Writes `n` in decimal.
pub fn write_decimal(n: u64) -> (r: String)
    ensures
        r@ == decimal(n as nat),
    decreases n,
{
    if n < 10 {
        digit_text(n).to_owned()
    } else {
        let mut out = write_decimal(n / 10);
        out.append(digit_text(n % 10));
        assert(out@ =~= decimal(n as nat));
        out
    }
}

/// Writes `n` in decimal.
pub fn write_usize(n: usize) -> (r: String)
    ensures
        r@ == decimal(n as nat),
{
    write_decimal(n as u64)
}

/// Writes `n` in decimal, with leading zeros up to `width` digits.
pub fn write_padded(n: usize, width: usize) -> (r: String)
    ensures
        r@ == zero_padded(n as nat, width as nat),
{
    let d = write_usize(n);
    let len = d.as_str().unicode_len();
    let mut out = String::new();
    let mut i: usize = len;
    assert(out@ =~= Seq::new(0, |i: int| '0'));
    while i < width
        invariant
            len <= i,
            i == len || i <= width,
            out@ == Seq::new((i - len) as nat, |j: int| '0'),
        decreases width - i,
    {
        proof {
            reveal_strlit("0");
        }
        out.append("0");
        assert(out@ =~= Seq::new((i + 1 - len) as nat, |j: int| '0'));
        i += 1;
    }
    out.append(d.as_str());
    assert(i == len ==> out@ =~= d@);
    out
}

/// Reads a number in decimal that fits in a `usize`.
pub fn parse_usize(s: &str) -> (r: Option<usize>)
    ensures
        match r {
            Some(n) => parsed(s@, usize::MAX as nat) == Some(n as nat),
            None => parsed(s@, usize::MAX as nat) is None,
        },
{
    let v = chars_of(s);
    let start: usize = if v.len() > 0 && v[0] == '+' {
        1
    } else {
        0
    };
    let ghost d = unsigned_part(s@);
    assert(d =~= s@.skip(start as int));
    if start == v.len() {
        return None;
    }
    let mut i: usize = start;
    let mut n: usize = 0;
    assert(d.take(0) =~= Seq::<char>::empty());
    while i < v.len()
        invariant
            v@ == s@,
            d == s@.skip(start as int),
            d == unsigned_part(s@),
            start <= i <= v@.len(),
            forall|k: int| 0 <= k < i - start ==> is_digit(#[trigger] d[k]),
            n == digits_value(d.take(i - start)),
        decreases v.len() - i,
    {
        let c: char = v[i];
        assert(d[i - start] == c);
        let code: u32 = code_point(c);
        if code < 48 || code > 57 {
            return None;
        }
        let value: usize = (code - 48) as usize;
        let ghost longer = d.take(i + 1 - start);
        assert(longer.drop_last() =~= d.take(i - start));
        assert(digits_value(longer) == n * 10 + value);
        match n.checked_mul(10) {
            None => {
                proof {
                    lemma_prefix_value(d, i + 1 - start);
                }
                return None;
            },
            Some(tens) => {
                match tens.checked_add(value) {
                    None => {
                        proof {
                            lemma_prefix_value(d, i + 1 - start);
                        }
                        return None;
                    },
                    Some(next) => {
                        n = next;
                    },
                }
            },
        }
        i += 1;
    }
    assert(d.take(d.len() as int) =~= d);
    Some(n)
}

/// The digits at the start of a text write no more than all of them.
proof fn lemma_prefix_value(s: Seq<char>, n: int)
    requires
        0 <= n <= s.len(),
    ensures
        digits_value(s.take(n)) <= digits_value(s),
    decreases s.len(),
{
    if n < s.len() {
        lemma_prefix_value(s.drop_last(), n);
        assert(s.drop_last().take(n) =~= s.take(n));
    } else {
        assert(s.take(n) =~= s);
    }
}

/// A number below ten is one digit; any other is the tens, and behind them the
/// digit that is left, so that no number but zero begins with a zero.
pub proof fn decimals_are_written_digit_by_digit(n: nat)
    ensures
        n < 10 ==> decimal(n).len() == 1 && decimal(n)[0] as int == '0' as int + n,
        n >= 10 ==> {
            &&& decimal(n).drop_last() == decimal(n / 10)
            &&& decimal(n).last() as int == '0' as int + n % 10
        },
        n > 0 ==> decimal(n)[0] != '0',
    decreases n,
{
    if n >= 10 {
        decimals_are_written_digit_by_digit(n / 10);
        lemma_decimal(n / 10);
        assert(decimal(n).drop_last() =~= decimal(n / 10));
    }
}

/// Different numbers are written differently.
pub proof fn decimals_differ(a: nat, b: nat)
    requires
        a != b,
    ensures
        decimal(a) != decimal(b),
{
    lemma_decimal(a);
    lemma_decimal(b);
}

/// A number that is filled up ends as it is written, is as wide as asked, and has
/// zeros in front; one that is wide enough stays as it is.
pub proof fn zeros_fill_up(n: nat, width: nat)
    ensures
        decimal(n).len() >= width ==> zero_padded(n, width) == decimal(n),
        decimal(n).len() < width ==> {
            &&& zero_padded(n, width).len() == width
            &&& zero_padded(n, width).skip(width - decimal(n).len()) == decimal(n)
            &&& forall|i: int|
                0 <= i < width - decimal(n).len() ==> #[trigger] zero_padded(n, width)[i] == '0'
        },
{
    if decimal(n).len() < width {
        assert(zero_padded(n, width).skip(width - decimal(n).len()) =~= decimal(n));
    }
}

/// What is read as a number are digits, behind a plus sign at most, and nothing
/// else is; every digit counts ten times what follows it.
pub proof fn numbers_are_read_digit_by_digit(s: Seq<char>, c: char, max: nat)
    ensures
        parsed(s, max) is Some ==> s.len() > 0 && forall|i: int|
            0 <= i < s.len() ==> ('0' as int <= (#[trigger] s[i]) as int <= '9' as int) || (i == 0
                && s[i] == '+'),
        parsed(s, max) is Some ==> parsed(s, max)->0 <= max,
        parsed(Seq::empty(), max) is None,
        s.len() > 0 && s[0] != '+' && parsed(s, max) is Some ==> parsed(seq!['+'] + s, max)
            == parsed(s, max),
        s.len() > 0 && parsed(s, max) is Some && '0' as int <= c as int <= '9' as int ==> {
            let n = parsed(s, max)->0 * 10 + (c as int - '0' as int);
            parsed(s.push(c), max) == if n <= max {
                Some(n as nat)
            } else {
                None::<nat>
            }
        },
        '0' as int <= c as int <= '9' as int && c as int - '0' as int <= max ==> parsed(
            seq![c],
            max,
        ) == Some((c as int - '0' as int) as nat),
{
    let d = unsigned_part(s);
    if parsed(s, max) is Some {
        assert forall|i: int| 0 <= i < s.len() implies ('0' as int <= (#[trigger] s[i]) as int
            <= '9' as int) || (i == 0 && s[i] == '+') by {
            if s[0] == '+' {
                if i > 0 {
                    assert(is_digit(d[i - 1]));
                }
            } else {
                assert(is_digit(d[i]));
            }
        }
        if s.len() > 0 && s[0] != '+' {
            assert((seq!['+'] + s).skip(1) =~= s);
        }
        if s.len() > 0 && '0' as int <= c as int <= '9' as int {
            let e = unsigned_part(s.push(c));
            assert(e =~= d.push(c));
            assert(e.drop_last() =~= d);
            assert forall|i: int| 0 <= i < e.len() implies is_digit(#[trigger] e[i]) by {
                if i < d.len() {
                    assert(is_digit(d[i]));
                }
            }
        }
    }
    if '0' as int <= c as int <= '9' as int {
        assert(seq![c].drop_last() =~= Seq::<char>::empty());
        assert(digits_value(seq![c].drop_last()) == 0);
    }
}

} // verus!
