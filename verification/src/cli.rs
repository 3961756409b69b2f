//! The command line.

use vstd::prelude::*;
use vstd::string::*;

use crate::strings;

verus! {

/// The display to serve if none is named.
pub const DEFAULT_DISPLAY: u16 = 7;

/// Whether `s` holds nothing but decimal digits.
pub open spec fn all_digits(s: Seq<char>) -> bool {
    forall|i: int| 0 <= i < s.len() ==> '0' <= #[trigger] s[i] && s[i] <= '9'
}

/// The value of a sequence of decimal digits.
pub open spec fn digits_value(s: Seq<char>) -> int
    decreases s.len(),
{
    if s.len() == 0 {
        0
    } else {
        10 * digits_value(s.drop_last()) + (s.last() as u32 - 48)
    }
}

/// The number that `s` writes in decimal, if it does and the number has 16 bits.
/// A plus sign may stand in front.
pub open spec fn parsed_u16(s: Seq<char>) -> Option<u16> {
    let digits = if s.len() > 0 && s[0] == '+' {
        s.skip(1)
    } else {
        s
    };
    if digits.len() > 0 && all_digits(digits) && digits_value(digits) <= 0xffff {
        Some(digits_value(digits) as u16)
    } else {
        None
    }
}

proof fn lemma_value_grows(s: Seq<char>, n: int)
    requires
        0 <= n <= s.len(),
        all_digits(s),
    ensures
        0 <= digits_value(s.take(n)) <= digits_value(s),
    decreases s.len() - n,
{
    if n < s.len() {
        lemma_value_grows(s, n + 1);
        assert(s.take(n + 1).drop_last() =~= s.take(n));
        lemma_value_nonnegative(s.take(n));
        assert('0' <= s[n] && s[n] <= '9');
    } else {
        assert(s.take(n) =~= s);
        lemma_value_nonnegative(s);
    }
}

proof fn lemma_value_nonnegative(s: Seq<char>)
    requires
        all_digits(s),
    ensures
        0 <= digits_value(s),
    decreases s.len(),
{
    if s.len() > 0 {
        assert('0' <= s[s.len() - 1] && s[s.len() - 1] <= '9');
        lemma_value_nonnegative(s.drop_last());
    }
}

/// Reads a number of 16 bits.
pub fn parse_u16(s: &str) -> (r: Option<u16>)
    ensures
        r == parsed_u16(s@),
{
    let len: usize = s.unicode_len();
    let start: usize = if len > 0 && s.get_char(0) == '+' {
        1
    } else {
        0
    };
    let ghost digits = s@.skip(start as int);
    assert(start == 0 ==> digits =~= s@);
    if start == len {
        assert(digits.len() == 0);
        return None;
    }
    let mut value: u32 = 0;
    assert(digits.take(0) =~= Seq::<char>::empty());
    for i in start..len
        invariant
            len == s@.len(),
            start <= 1,
            start < len,
            digits == s@.skip(start as int),
            digits == (if s@.len() > 0 && s@[0] == '+' {
                s@.skip(1)
            } else {
                s@
            }),
            all_digits(digits.take(i - start)),
            value == digits_value(digits.take(i - start)),
            value <= 0xffff,
    {
        let c: char = s.get_char(i);
        assert(c == digits[i - start]);
        if c < '0' || c > '9' {
            assert(!('0' <= digits[i - start] && digits[i - start] <= '9'));
            return None;
        }
        value = 10 * value + (c as u32 - 48);
        assert(digits.take(i - start + 1).drop_last() =~= digits.take(i - start));
        if value > 0xffff {
            proof {
                if all_digits(digits) {
                    lemma_value_grows(digits, i - start + 1);
                }
            }
            return None;
        }
    }
    assert(digits.take(len - start) =~= digits);
    Some(value as u16)
}

pub open spec fn arg_views(args: Seq<String>) -> Seq<Seq<char>> {
    args.map_values(|s: String| s@)
}

/// The first argument at or after `i` that is not a display number.
pub open spec fn first_bad(args: Seq<Seq<char>>, i: int) -> Option<Seq<char>>
    decreases args.len() - i,
{
    if i >= args.len() {
        None
    } else if parsed_u16(args[i]) is None {
        Some(args[i])
    } else {
        first_bad(args, i + 1)
    }
}

/// Which display to serve: the last one named, or the default. Fails on the
/// first argument that is not a display number.
pub fn parse_display(args: &Vec<String>) -> (r: Result<u16, String>)
    ensures
        ({
            let views = arg_views(args@);
            match r {
                Ok(n) => first_bad(views, 0) is None && n == (if views.len() == 0 {
                    DEFAULT_DISPLAY
                } else {
                    parsed_u16(views.last())->0
                }),
                Err(message) => first_bad(views, 0) is Some && message@
                    == "unrecognized argument: "@ + first_bad(views, 0)->0,
            }
        }),
{
    let mut out: u16 = DEFAULT_DISPLAY;
    let n: usize = args.len();
    let ghost views = arg_views(args@);
    for i in 0..n
        invariant
            n == args@.len(),
            views == arg_views(args@),
            first_bad(views, 0) == first_bad(views, i as int),
            out == (if i == 0 {
                DEFAULT_DISPLAY
            } else {
                parsed_u16(views[i - 1])->0
            }),
    {
        assert(views[i as int] == args@[i as int]@);
        match parse_u16(args[i].as_str()) {
            Some(number) => {
                out = number;
            },
            None => {
                let mut message: String = String::new();
                message.append("unrecognized argument: ");
                message.append(args[i].as_str());
                assert(message@ =~= "unrecognized argument: "@ + views[i as int]);
                return Err(message);
            },
        }
    }
    Ok(out)
}

/// A number reads back as written in decimal, with a plus sign in front or not. What is
/// too large or holds anything but digits is no number.
pub proof fn lemma_numbers_read_back(n: nat, s: Seq<char>, i: int)
    ensures
        n <= 0xffff ==> parsed_u16(strings::decimal(n)) == Some(n as u16),
        n <= 0xffff ==> parsed_u16(seq!['+'] + strings::decimal(n)) == Some(n as u16),
        n > 0xffff ==> parsed_u16(strings::decimal(n)) is None,
        0 < i < s.len() && !('0' <= s[i] && s[i] <= '9') ==> parsed_u16(s) is None,
        s.len() == 0 ==> parsed_u16(s) is None,
{
    let d = strings::decimal(n);
    lemma_decimal_value(n);
    assert('0' <= d[0] && d[0] <= '9');
    assert((seq!['+'] + d).skip(1) =~= d);
    if 0 < i < s.len() && !('0' <= s[i] && s[i] <= '9') {
        let t = s.skip(1);
        assert(t[i - 1] == s[i]);
    }
}

proof fn lemma_decimal_value(n: nat)
    ensures
        strings::decimal(n).len() > 0,
        all_digits(strings::decimal(n)),
        digits_value(strings::decimal(n)) == n,
    decreases n,
{
    let d = strings::decimal(n);
    if n >= 10 {
        lemma_decimal_value(n / 10);
        assert(d.drop_last() =~= strings::decimal(n / 10));
        assert forall|i: int| 0 <= i < d.len() implies '0' <= #[trigger] d[i] && d[i] <= '9' by {
            if i < d.len() - 1 {
                assert(d[i] == strings::decimal(n / 10)[i]);
            }
        }
    } else {
        assert(d.drop_last() =~= Seq::<char>::empty());
        assert(digits_value(Seq::<char>::empty()) == 0);
    }
}

/// The argument complained about is no number, and every one before it is; without a
/// complaint all are.
pub proof fn lemma_first_bad_argument_is_reported(args: Seq<Seq<char>>, i: int)
    requires
        0 <= i <= args.len(),
    ensures
        match first_bad(args, i) {
            Some(bad) => exists|k: int| #![trigger args[k]]
                i <= k < args.len() && args[k] == bad && parsed_u16(bad) is None && forall|j: int|
                    i <= j < k ==> parsed_u16(#[trigger] args[j]) is Some,
            None => forall|j: int| i <= j < args.len() ==> parsed_u16(#[trigger] args[j]) is Some,
        },
    decreases args.len() - i,
{
    if i < args.len() {
        if parsed_u16(args[i]) is None {
            assert(args[i] == first_bad(args, i)->0);
        } else {
            lemma_first_bad_argument_is_reported(args, i + 1);
            if first_bad(args, i + 1) is Some {
                let k = choose|k: int| #![trigger args[k]]
                    i + 1 <= k < args.len() && args[k] == first_bad(args, i + 1)->0 && parsed_u16(
                        args[k],
                    ) is None && forall|j: int|
                        i + 1 <= j < k ==> parsed_u16(#[trigger] args[j]) is Some;
                assert(args[k] == first_bad(args, i)->0);
            }
        }
    }
}

} // verus!
