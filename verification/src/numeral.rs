//! Decimal numerals of process-group handles.

use vstd::prelude::*;
use vstd::string::*;

verus! {

/// Whether the character is a decimal digit.
pub open spec fn is_digit(c: char) -> bool {
    '0' <= c <= '9'
}

/// The value of a decimal digit.
pub open spec fn digit_value(c: char) -> int {
    c as int - '0' as int
}

/// The digit that stands for `d`, where `d` is below ten.
pub open spec fn digit(d: int) -> char {
    (d + '0' as int) as char
}

/// Whether the sequence holds decimal digits only.
pub open spec fn all_digits(s: Seq<char>) -> bool {
    forall|i: int| 0 <= i < s.len() ==> is_digit(#[trigger] s[i])
}

/// The number that a sequence of digits stands for, the last digit counting least.
pub open spec fn value(s: Seq<char>) -> int
    decreases s.len(),
{
    if s.len() == 0 {
        0
    } else {
        value(s.drop_last()) * 10 + digit_value(s.last())
    }
}

/// The digits of a natural number, without leading zeros.
pub open spec fn numeral(n: nat) -> Seq<char>
    decreases n,
{
    if n < 10 {
        seq![digit(n as int)]
    } else {
        numeral(n / 10).push(digit((n % 10) as int))
    }
}

/// The decimal numeral of an integer, with a minus sign where it is negative.
pub open spec fn decimal(n: int) -> Seq<char> {
    if n < 0 {
        seq!['-'] + numeral((-n) as nat)
    } else {
        numeral(n as nat)
    }
}

/// The handle that a text stands for: an optional sign, then one digit or
/// more, and a value that a 32-bit handle can hold.
pub open spec fn parse(s: Seq<char>) -> Option<i32> {
    let negative = s.len() > 0 && s[0] == '-';
    let signed = s.len() > 0 && (s[0] == '-' || s[0] == '+');
    let body = if signed {
        s.skip(1)
    } else {
        s
    };
    let v = if negative {
        -value(body)
    } else {
        value(body)
    };
    if body.len() > 0 && all_digits(body) && i32::MIN <= v <= i32::MAX {
        Some(v as i32)
    } else {
        None
    }
}

/// A numeral holds digits only, at least one, and stands for its number.
pub proof fn lemma_numeral(n: nat)
    ensures
        numeral(n).len() > 0,
        all_digits(numeral(n)),
        value(numeral(n)) == n,
    decreases n,
{
    if n < 10 {
        let s = numeral(n);
        assert(s.drop_last() =~= Seq::<char>::empty());
        assert(value(s.drop_last()) == 0);
    } else {
        lemma_numeral(n / 10);
        let s = numeral(n);
        assert(s.drop_last() =~= numeral(n / 10));
    }
}

/// A number that is written and read again is the same number.
pub proof fn lemma_parse_decimal(n: i32)
    ensures
        parse(decimal(n as int)) == Some(n),
{
    if n < 0 {
        let m = (-n) as nat;
        lemma_numeral(m);
        assert(decimal(n as int).skip(1) =~= numeral(m));
    } else {
        lemma_numeral(n as nat);
        let s = numeral(n as nat);
        assert(is_digit(s[0]));
    }
}

/// The value of digits is not negative.
pub proof fn lemma_value_nonnegative(s: Seq<char>)
    requires
        all_digits(s),
    ensures
        0 <= value(s),
    decreases s.len(),
{
    if s.len() > 0 {
        lemma_value_nonnegative(s.drop_last());
        assert(is_digit(s[s.len() - 1]));
    }
}

/// The text of one digit.
fn digit_text(d: u32) -> (r: &'static str)
    requires
        d < 10,
    ensures
        r@ == seq![digit(d as int)],
{
    proof {
        reveal_strlit("0");
        reveal_strlit("1");
        reveal_strlit("2");
        reveal_strlit("3");
        reveal_strlit("4");
        reveal_strlit("5");
        reveal_strlit("6");
        reveal_strlit("7");
        reveal_strlit("8");
        reveal_strlit("9");
    }
    let r = if d == 0 {
        "0"
    } else if d == 1 {
        "1"
    } else if d == 2 {
        "2"
    } else if d == 3 {
        "3"
    } else if d == 4 {
        "4"
    } else if d == 5 {
        "5"
    } else if d == 6 {
        "6"
    } else if d == 7 {
        "7"
    } else if d == 8 {
        "8"
    } else {
        "9"
    };
    assert(r@ =~= seq![digit(d as int)]);
    r
}

/// Appends the digits of `n`.
fn push_numeral(n: u32, out: &mut String)
    ensures
        final(out)@ == old(out)@ + numeral(n as nat),
    decreases n,
{
    if n >= 10 {
        push_numeral(n / 10, out);
        let ghost mid = out@;
        out.append(digit_text(n % 10));
        assert(out@ =~= old(out)@ + numeral(n as nat));
    } else {
        out.append(digit_text(n));
    }
}

/// The decimal numeral of a handle.
pub fn render(n: i32) -> (r: String)
    ensures
        r@ == decimal(n as int),
{
    let mut out = String::new();
    if n < 0 {
        proof {
            reveal_strlit("-");
        }
        out.append("-");
        assert(out@ =~= seq!['-']);
        let m: u32 = if n == i32::MIN {
            2147483648u32
        } else {
            (-n) as u32
        };
        push_numeral(m, &mut out);
    } else {
        push_numeral(n as u32, &mut out);
        assert(out@ =~= numeral(n as nat));
    }
    out
}

/// Reads a handle from its text.
pub fn read(s: &str) -> (r: Option<i32>)
    ensures
        r == parse(s@),
{
    let n = s.unicode_len();
    if n == 0 {
        return None;
    }
    let c0 = s.get_char(0);
    let negative = c0 == '-';
    let start: usize = if c0 == '-' || c0 == '+' {
        1
    } else {
        0
    };
    if start == n {
        return None;
    }
    let ghost body = s@.skip(start as int);
    let mut acc: u64 = 0;
    let mut over = false;
    let mut i: usize = start;
    assert(body.take(0) =~= Seq::<char>::empty());
    while i < n
        invariant
            start <= i <= n,
            start < n,
            n == s@.len(),
            body == s@.skip(start as int),
            negative == (s@[0] == '-'),
            start == if s@[0] == '-' || s@[0] == '+' { 1int } else { 0int },
            all_digits(body.take(i - start)),
            !over ==> acc == value(body.take(i - start)) && acc <= 2147483648,
            over ==> value(body.take(i - start)) > 2147483648,
        decreases n - i,
    {
        let c = s.get_char(i);
        let ghost k = i - start;
        assert(body[k] == c);
        assert(body.take(k + 1).drop_last() =~= body.take(k));
        assert(body.take(k + 1).last() == c);
        if !(c >= '0' && c <= '9') {
            assert(!is_digit(body[k]));
            assert(!all_digits(body));
            assert(s@.skip(0) =~= s@);
            return None;
        }
        assert(all_digits(body.take(k + 1))) by {
            assert forall|x: int| 0 <= x < k + 1 implies is_digit(#[trigger] body.take(k + 1)[x]) by {
                if x < k {
                    assert(body.take(k)[x] == body.take(k + 1)[x]);
                }
            }
        }
        let dv: u64 = (c as u32 - '0' as u32) as u64;
        proof {
            lemma_value_nonnegative(body.take(k));
            assert(dv == digit_value(c));
        }
        if !over {
            acc = acc * 10 + dv;
            if acc > 2147483648 {
                over = true;
            }
        }
        i += 1;
    }
    assert(body.take(n - start) =~= body);
    assert(s@.skip(0) =~= s@);
    if over {
        return None;
    }
    if negative {
        if acc == 2147483648 {
            Some(i32::MIN)
        } else {
            Some(-(acc as i32))
        }
    } else {
        if acc > 2147483647 {
            None
        } else {
            Some(acc as i32)
        }
    }
}

} // verus!
