//! Numbers as text.

use vstd::prelude::*;

use crate::text;

verus! {

/// The digit for `n`, `0 <= n < 10`.
pub open spec fn digit(n: int) -> char {
    (48 + n) as char
}

/// `c` is a decimal digit.
pub open spec fn is_digit(c: char) -> bool {
    '0' <= c <= '9'
}

/// `n` in decimal, without leading zeros.
pub open spec fn dec_text(n: nat) -> Seq<char>
    decreases n,
{
    if n < 10 {
        seq![digit(n as int)]
    } else {
        dec_text(n / 10).push(digit((n % 10) as int))
    }
}

/// The number that a text of decimal digits stands for.
pub open spec fn dec_value(s: Seq<char>) -> nat
    decreases s.len(),
{
    if s.len() == 0 {
        0
    } else {
        dec_value(s.drop_last()) * 10 + (s.last() as nat - 48) as nat
    }
}

/// Every character is a decimal digit.
pub open spec fn all_digits(s: Seq<char>) -> bool {
    forall|i: int| 0 <= i < s.len() ==> is_digit(#[trigger] s[i])
}

/// What `str::parse` makes of `s` as an unsigned number up to `max`: an optional
/// plus sign and at least one digit.
pub open spec fn parsed(s: Seq<char>, max: nat) -> Option<nat> {
    let d = if s.len() > 0 && s[0] == '+' {
        s.drop_first()
    } else {
        s
    };
    if d.len() > 0 && all_digits(d) && dec_value(d) <= max {
        Some(dec_value(d))
    } else {
        None
    }
}

/// Decimal text consists of digits, and at least one.
pub proof fn lemma_dec_text_digits(n: nat)
    ensures
        all_digits(dec_text(n)),
        dec_text(n).len() > 0,
    decreases n,
{
    if n >= 10 {
        lemma_dec_text_digits(n / 10);
    }
}

/// Reading decimal text gives back the number.
pub proof fn lemma_dec_round_trip(n: nat)
    ensures
        dec_value(dec_text(n)) == n,
    decreases n,
{
    if n >= 10 {
        lemma_dec_round_trip(n / 10);
        let t = dec_text(n);
        assert(t.drop_last() =~= dec_text(n / 10));
        assert(t.last() == digit((n % 10) as int));
    } else {
        let t = dec_text(n);
        assert(t.drop_last().len() == 0);
        assert(dec_value(t.drop_last()) == 0);
        assert(t.last() == digit(n as int));
    }
}

/// A longer run of digits stands for no smaller number.
proof fn lemma_dec_value_grows(s: Seq<char>, i: int)
    requires
        0 <= i <= s.len(),
        all_digits(s),
    ensures
        dec_value(s.subrange(0, i)) <= dec_value(s),
    decreases s.len() - i,
{
    if i < s.len() {
        lemma_dec_value_grows(s, i + 1);
        let u = s.subrange(0, i + 1);
        assert(u.drop_last() =~= s.subrange(0, i));
        assert(is_digit(s[i]));
        assert(u.last() == s[i]);
    } else {
        assert(s.subrange(0, i) =~= s);
    }
}

/// `n` in decimal.
pub fn u64_text(n: u64) -> (r: String)
    ensures
        r@ == dec_text(n as nat),
    decreases n,
{
    if n < 10 {
        let mut s: String = String::new();
        s.push(digit_char(n as u8));
        assert(s@ =~= dec_text(n as nat));
        s
    } else {
        let mut s = u64_text(n / 10);
        s.push(digit_char((n % 10) as u8));
        s
    }
}

fn digit_char(n: u8) -> (c: char)
    requires
        n < 10,
    ensures
        c == digit(n as int),
{
    (48 + n) as char
}

/// `n` in decimal, with a minus sign where it is negative.
pub open spec fn i64_text_spec(n: int) -> Seq<char> {
    if n < 0 {
        seq!['-'] + dec_text((-n) as nat)
    } else {
        dec_text(n as nat)
    }
}

/// `n` in decimal, with a minus sign where it is negative.
pub fn i64_text(n: i64) -> (r: String)
    ensures
        r@ == i64_text_spec(n as int),
{
    if n >= 0 {
        u64_text(n as u64)
    } else {
        let m: u64 = (-(n + 1)) as u64 + 1;
        let t = u64_text(m);
        let mut s: String = String::new();
        s.push('-');
        s.append(t.as_str());
        assert(s@ =~= i64_text_spec(n as int));
        s
    }
}

/// `str::parse::<u64>`.
pub fn parse_u64(s: &str) -> (r: Option<u64>)
    ensures
        match r {
            Some(n) => parsed(s@, u64::MAX as nat) == Some(n as nat),
            None => parsed(s@, u64::MAX as nat) is None,
        },
{
    let cs = text::chars_of(s);
    let n: usize = cs.len();
    let from: usize = if n > 0 && cs[0] == '+' {
        1
    } else {
        0
    };
    let ghost d = if s@.len() > 0 && s@[0] == '+' {
        s@.drop_first()
    } else {
        s@
    };
    assert(d =~= cs@.subrange(from as int, n as int));
    if from == n {
        assert(d.len() == 0);
        return None;
    }
    let mut v: u64 = 0;
    let mut i: usize = from;
    while i < n
        invariant
            from <= i <= n == cs@.len(),
            d == cs@.subrange(from as int, n as int),
            d.len() > 0,
            parsed(s@, u64::MAX as nat) == (if d.len() > 0 && all_digits(d) && dec_value(d)
                <= u64::MAX as nat {
                Some(dec_value(d))
            } else {
                None
            }),
            forall|k: int| from <= k < i ==> is_digit(#[trigger] cs@[k]),
            v == dec_value(d.subrange(0, i - from)),
        decreases n - i,
    {
        let c = cs[i];
        assert(d[i - from] == c);
        if !('0' <= c && c <= '9') {
            return None;
        }
        let x: u64 = c as u64 - 48;
        proof {
            let u = d.subrange(0, i - from + 1);
            assert(u.drop_last() =~= d.subrange(0, i - from));
            assert(u.last() == c);
            assert(dec_value(u) == v * 10 + x);
        }
        let over = match v.checked_mul(10) {
            Some(m) => match m.checked_add(x) {
                Some(y) => {
                    v = y;
                    false
                },
                None => true,
            },
            None => true,
        };
        if over {
            proof {
                if all_digits(d) {
                    lemma_dec_value_grows(d, i - from + 1);
                }
            }
            return None;
        }
        i = i + 1;
    }
    proof {
        assert(d.subrange(0, d.len() as int) =~= d);
        assert forall|k: int| 0 <= k < d.len() implies is_digit(#[trigger] d[k]) by {
            assert(d[k] == cs@[k + from]);
        }
    }
    Some(v)
}

/// `str::parse::<usize>`.
pub fn parse_usize(s: &str) -> (r: Option<usize>)
    ensures
        match r {
            Some(n) => parsed(s@, usize::MAX as nat) == Some(n as nat),
            None => parsed(s@, usize::MAX as nat) is None,
        },
{
    match parse_u64(s) {
        Some(n) => if n <= usize::MAX as u64 {
            Some(n as usize)
        } else {
            None
        },
        None => None,
    }
}

/// Different numbers have different decimal texts.
pub proof fn law_dec_text_is_injective(a: nat, b: nat)
    requires
        dec_text(a) == dec_text(b),
    ensures
        a == b,
{
    lemma_dec_round_trip(a);
    lemma_dec_round_trip(b);
}

/// A number printed and parsed again is the same number.
pub proof fn law_print_then_parse(n: nat, max: nat)
    requires
        n <= max,
    ensures
        parsed(dec_text(n), max) == Some(n),
{
    lemma_dec_text_digits(n);
    lemma_dec_round_trip(n);
    assert(is_digit(dec_text(n)[0]));
}

/// Only digits, with or without one plus sign in front, read as a number, and a
/// further digit counts ten times the rest.
pub proof fn law_parsing_is_decimal(s: Seq<char>, c: char, max: nat)
    ensures
        parsed(s, max) is Some ==> {
            &&& s.len() > 0
            &&& forall|i: int| 0 < i < s.len() ==> '0' <= #[trigger] s[i] <= '9'
            &&& '0' <= s[0] <= '9' || (s[0] == '+' && s.len() > 1)
            &&& parsed(s, max)->0 <= max
        },
        '0' <= c <= '9' ==> parsed(seq![c], max) == (if c as nat - 48 <= max {
            Some((c as nat - 48) as nat)
        } else {
            None
        }),
        parsed(s, max) is Some && '0' <= c <= '9' && parsed(s, max)->0 * 10 + (c as nat - 48) <= max
            ==> parsed(s.push(c), max) == Some(
            (parsed(s, max)->0 * 10 + (c as nat - 48)) as nat,
        ),
        parsed(s, max) is Some && parsed(s, max)->0 * 10 + (c as nat - 48) > max ==> parsed(
            s.push(c),
            max,
        ) is None,
        !('0' <= c <= '9') ==> parsed(s.push(c), max) is None,
        s.len() == 0 ==> parsed(s, max) is None,
        s.len() > 0 && '0' <= s[0] <= '9' ==> parsed(seq!['+'] + s, max) == parsed(s, max),
{
    let one = seq![c];
    assert(one.drop_last().len() == 0);
    assert(dec_value(one.drop_last()) == 0);
    assert(one.last() == c);
    let t = s.push(c);
    let d = if s.len() > 0 && s[0] == '+' {
        s.drop_first()
    } else {
        s
    };
    let e = if t[0] == '+' {
        t.drop_first()
    } else {
        t
    };
    if parsed(s, max) is Some {
        assert forall|i: int| 0 < i < s.len() implies '0' <= #[trigger] s[i] <= '9' by {
            if s[0] == '+' {
                assert(is_digit(d[i - 1]));
            } else {
                assert(is_digit(d[i]));
            }
        }
        assert(is_digit(d[0]));
        assert(t[0] == s[0]);
        assert(e =~= d.push(c));
        assert(e.drop_last() =~= d);
        assert(e.last() == c);
        if '0' <= c <= '9' {
            assert forall|i: int| 0 <= i < e.len() implies is_digit(#[trigger] e[i]) by {
                if i < d.len() {
                    assert(is_digit(d[i]));
                }
            }
        }
    }
    if !('0' <= c <= '9') && e.len() > 0 && all_digits(e) {
        assert(is_digit(e[e.len() - 1]));
        assert(e.last() == t.last());
    }
    let u = seq!['+'] + s;
    assert(u.drop_first() =~= s);
}

/// A number is printed in decimal: its last digit is the remainder by ten, and the
/// digits before it are those of the tenth.
pub proof fn law_printing_is_decimal(n: nat)
    ensures
        n < 10 ==> dec_text(n) == seq![(48 + n) as char],
        n >= 10 ==> dec_text(n) == dec_text(n / 10) + dec_text(n % 10),
{
    if n >= 10 {
        assert(dec_text(n) =~= dec_text(n / 10) + dec_text(n % 10));
    }
}

/// A number that was printed reads as itself, and what reads as a number is at most
/// a sign and zeros away from how that number is printed.
pub proof fn law_numbers_survive_a_file(n: u64, s: String, doc: &str, r: Option<u64>)
    requires
        call_ensures(u64_text, (n,), s),
        call_ensures(parse_u64, (doc,), r),
    ensures
        n < 10 ==> s@ == seq![(48 + n) as char],
        s@.len() > 0,
        forall|i: int| 0 <= i < s@.len() ==> '0' <= #[trigger] s@[i] <= '9',
        doc@ == s@ ==> r == Some(n),
        r is Some ==> doc@.len() > 0 && forall|i: int|
            0 < i < doc@.len() ==> '0' <= #[trigger] doc@[i] <= '9',
{
    law_print_then_parse(n as nat, u64::MAX as nat);
    law_printing_is_decimal(n as nat);
    lemma_dec_text_digits(n as nat);
    law_parsing_is_decimal(doc@, '0', u64::MAX as nat);
    assert forall|i: int| 0 <= i < s@.len() implies '0' <= #[trigger] s@[i] <= '9' by {
        assert(is_digit(s@[i]));
    }
}

/// A count reads as the number that it is printed as, up to the largest count.
pub proof fn law_counts_are_read(n: nat, doc: &str, r: Option<usize>)
    requires
        call_ensures(parse_usize, (doc,), r),
        doc@ == dec_text(n),
    ensures
        n <= usize::MAX ==> r is Some && r->0 == n,
        n > usize::MAX ==> r is None,
{
    lemma_dec_text_digits(n);
    lemma_dec_round_trip(n);
    assert(is_digit(dec_text(n)[0]));
}

} // verus!
