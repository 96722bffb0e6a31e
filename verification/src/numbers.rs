use vstd::prelude::*;

use crate::chars::push_char;

verus! {

pub open spec fn spec_is_digit(c: char) -> bool {
    '0' <= c && c <= '9'
}

pub open spec fn spec_digit_val(c: char) -> int {
    if c == '0' {
        0
    } else if c == '1' {
        1
    } else if c == '2' {
        2
    } else if c == '3' {
        3
    } else if c == '4' {
        4
    } else if c == '5' {
        5
    } else if c == '6' {
        6
    } else if c == '7' {
        7
    } else if c == '8' {
        8
    } else {
        9
    }
}

pub open spec fn spec_digit_char(d: int) -> char {
    if d == 0 {
        '0'
    } else if d == 1 {
        '1'
    } else if d == 2 {
        '2'
    } else if d == 3 {
        '3'
    } else if d == 4 {
        '4'
    } else if d == 5 {
        '5'
    } else if d == 6 {
        '6'
    } else if d == 7 {
        '7'
    } else if d == 8 {
        '8'
    } else {
        '9'
    }
}

fn is_digit(c: char) -> (r: bool)
    ensures
        r == spec_is_digit(c),
{
    '0' <= c && c <= '9'
}

fn digit_val(c: char) -> (r: u64)
    requires
        spec_is_digit(c),
    ensures
        r == spec_digit_val(c),
        r <= 9,
{
    if c == '0' {
        0
    } else if c == '1' {
        1
    } else if c == '2' {
        2
    } else if c == '3' {
        3
    } else if c == '4' {
        4
    } else if c == '5' {
        5
    } else if c == '6' {
        6
    } else if c == '7' {
        7
    } else if c == '8' {
        8
    } else {
        9
    }
}

fn digit_char(d: u64) -> (r: char)
    requires
        d <= 9,
    ensures
        r == spec_digit_char(d as int),
{
    if d == 0 {
        '0'
    } else if d == 1 {
        '1'
    } else if d == 2 {
        '2'
    } else if d == 3 {
        '3'
    } else if d == 4 {
        '4'
    } else if d == 5 {
        '5'
    } else if d == 6 {
        '6'
    } else if d == 7 {
        '7'
    } else if d == 8 {
        '8'
    } else {
        '9'
    }
}

/// Every character is a decimal digit.
pub open spec fn spec_all_digits(s: Seq<char>) -> bool
    decreases s.len(),
{
    if s.len() == 0 {
        true
    } else {
        spec_is_digit(s[0]) && spec_all_digits(s.drop_first())
    }
}

pub proof fn lemma_all_digits_iff(s: Seq<char>)
    ensures
        spec_all_digits(s) <==> (forall|j: int| 0 <= j < s.len() ==> spec_is_digit(#[trigger] s[j])),
    decreases s.len(),
{
    if s.len() > 0 {
        lemma_all_digits_iff(s.drop_first());
        if spec_is_digit(s[0]) && spec_all_digits(s.drop_first()) {
            assert forall|j: int| 0 <= j < s.len() implies spec_is_digit(#[trigger] s[j]) by {
                if j >= 1 {
                    assert(s[j] == s.drop_first()[j - 1]);
                }
            }
        }
        if forall|j: int| 0 <= j < s.len() ==> spec_is_digit(#[trigger] s[j]) {
            assert forall|j: int|
                0 <= j < s.drop_first().len() implies spec_is_digit(
                #[trigger] s.drop_first()[j],
            ) by {
                assert(s.drop_first()[j] == s[j + 1]);
            }
        }
    }
}

/// Value of a digit string, most significant digit first.
pub open spec fn spec_dec_val(s: Seq<char>) -> int
    decreases s.len(),
{
    if s.len() == 0 {
        0
    } else {
        spec_dec_val(s.drop_last()) * 10 + spec_digit_val(s[s.len() - 1])
    }
}

pub proof fn lemma_dec_val_push(s: Seq<char>, c: char)
    ensures
        spec_dec_val(s.push(c)) == spec_dec_val(s) * 10 + spec_digit_val(c),
{
    assert(s.push(c).drop_last() =~= s);
}

/// A non-empty all-digit string denotes a natural number.
pub open spec fn spec_parse_nat(s: Seq<char>) -> Option<int> {
    if s.len() > 0 && spec_all_digits(s) {
        Option::Some(spec_dec_val(s))
    } else {
        Option::None
    }
}

/// An optional sign followed by at least one digit denotes an integer.
pub open spec fn spec_parse_int(s: Seq<char>) -> Option<int> {
    if s.len() == 0 {
        Option::None
    } else if s[0] == '-' {
        match spec_parse_nat(s.drop_first()) {
            Option::Some(v) => Option::Some(-v),
            Option::None => Option::None,
        }
    } else if s[0] == '+' {
        spec_parse_nat(s.drop_first())
    } else {
        spec_parse_nat(s)
    }
}

/// Integer parse, rejected when out of the i32 range.
pub open spec fn spec_parse_i32(s: Seq<char>) -> Option<i32> {
    match spec_parse_int(s) {
        Option::Some(v) => if -0x8000_0000 <= v <= 0x7fff_ffff {
            Option::Some(v as i32)
        } else {
            Option::None
        },
        Option::None => Option::None,
    }
}

/// Unsigned parse ('+' allowed, '-' not), rejected when out of the
/// u32 range.
pub open spec fn spec_parse_u32(s: Seq<char>) -> Option<u32> {
    if s.len() == 0 {
        Option::None
    } else {
        let body = if s[0] == '+' {
            s.drop_first()
        } else {
            s
        };
        match spec_parse_nat(body) {
            Option::Some(v) => if v <= 0xffff_ffff {
                Option::Some(v as u32)
            } else {
                Option::None
            },
            Option::None => Option::None,
        }
    }
}

/// Scan an all-digit body; reports the value, or that it exceeds the
/// u32 range.
fn scan_digits(s: &str, start: usize) -> (r: Option<(u64, bool)>)
    requires
        start <= s@.len(),
    ensures
        ({
            let body = s@.subrange(start as int, s@.len() as int);
            match r {
                Option::None => spec_parse_nat(body) is None,
                Option::Some((acc, over)) => {
                    &&& body.len() > 0
                    &&& spec_all_digits(body)
                    &&& (!over ==> acc == spec_dec_val(body) && acc <= 0xffff_ffff)
                    &&& (over ==> spec_dec_val(body) > 0xffff_ffff)
                },
            }
        }),
{
    let len = s.unicode_len();
    if start >= len {
        return Option::None;
    }
    let ghost body = s@.subrange(start as int, len as int);
    let mut acc: u64 = 0;
    let mut over = false;
    let mut i: usize = start;
    while i < len
        invariant
            start <= i <= len == s@.len(),
            body == s@.subrange(start as int, len as int),
            spec_all_digits(s@.subrange(start as int, i as int)),
            !over ==> acc == spec_dec_val(s@.subrange(start as int, i as int)) && acc
                <= 0xffff_ffff,
            over ==> spec_dec_val(s@.subrange(start as int, i as int)) > 0xffff_ffff,
        decreases len - i,
    {
        let c = s.get_char(i);
        let ghost pre = s@.subrange(start as int, i as int);
        proof {
            assert(s@.subrange(start as int, i + 1) =~= pre.push(s@[i as int]));
            lemma_all_digits_iff(pre);
        }
        if !is_digit(c) {
            proof {
                lemma_all_digits_iff(body);
                assert(body[i - start] == s@[i as int]);
            }
            return Option::None;
        }
        let d = digit_val(c);
        proof {
            lemma_dec_val_push(pre, s@[i as int]);
            lemma_all_digits_iff(pre.push(s@[i as int]));
            assert forall|j: int| 0 <= j < pre.push(s@[i as int]).len() implies spec_is_digit(
                #[trigger] pre.push(s@[i as int])[j],
            ) by {
                if j < pre.len() {
                    assert(pre.push(s@[i as int])[j] == pre[j]);
                }
            }
        }
        if !over {
            if acc > (0xffff_ffffu64 - d) / 10 {
                if acc * 10 > 0xffff_ffffu64 - d {
                    over = true;
                } else {
                    acc = acc * 10 + d;
                }
            } else {
                acc = acc * 10 + d;
            }
        }
        i += 1;
    }
    proof {
        assert(s@.subrange(start as int, i as int) =~= body);
    }
    Option::Some((acc, over))
}

/// Parse a signed decimal integer; out-of-range text is rejected, as
/// a machine-width parse would reject it.
pub fn parse_i32(s: &str) -> (r: Option<i32>)
    ensures
        r == spec_parse_i32(s@),
{
    let len = s.unicode_len();
    if len == 0 {
        return Option::None;
    }
    let first = s.get_char(0);
    let neg = first == '-';
    let start: usize = if first == '-' || first == '+' {
        1
    } else {
        0
    };
    let scanned = scan_digits(s, start);
    proof {
        if start == 1 {
            assert(s@.drop_first() =~= s@.subrange(1, len as int));
        } else {
            assert(s@.subrange(0, len as int) =~= s@);
        }
    }
    match scanned {
        Option::None => Option::None,
        Option::Some((acc, over)) => {
            if over {
                Option::None
            } else if neg {
                if acc <= 0x8000_0000 {
                    Option::Some((-(acc as i64)) as i32)
                } else {
                    Option::None
                }
            } else {
                if acc <= 0x7fff_ffff {
                    Option::Some(acc as i32)
                } else {
                    Option::None
                }
            }
        },
    }
}

/// Parse an unsigned decimal integer; '+' is allowed, '-' and
/// out-of-range text are rejected.
pub fn parse_u32(s: &str) -> (r: Option<u32>)
    ensures
        r == spec_parse_u32(s@),
{
    let len = s.unicode_len();
    if len == 0 {
        return Option::None;
    }
    let first = s.get_char(0);
    if first == '-' {
        proof {
            lemma_all_digits_iff(s@);
        }
        return Option::None;
    }
    let start: usize = if first == '+' {
        1
    } else {
        0
    };
    let scanned = scan_digits(s, start);
    proof {
        if start == 1 {
            assert(s@.drop_first() =~= s@.subrange(1, len as int));
        } else {
            assert(s@.subrange(0, len as int) =~= s@);
        }
    }
    match scanned {
        Option::None => Option::None,
        Option::Some((acc, over)) => {
            if over {
                Option::None
            } else {
                Option::Some(acc as u32)
            }
        },
    }
}

/// Decimal digits of a natural number, most significant first.
pub open spec fn spec_fmt_nat(n: int) -> Seq<char>
    decreases n,
{
    if n < 10 {
        seq![spec_digit_char(n)]
    } else {
        spec_fmt_nat(n / 10).push(spec_digit_char(n % 10))
    }
}

/// Decimal rendering of an integer, with a leading minus sign when
/// negative.
pub open spec fn spec_fmt_int(v: int) -> Seq<char> {
    if v < 0 {
        seq!['-'] + spec_fmt_nat(-v)
    } else {
        spec_fmt_nat(v)
    }
}

pub fn fmt_u64(n: u64) -> (r: String)
    ensures
        r@ == spec_fmt_nat(n as int),
    decreases n,
{
    if n < 10 {
        let mut s = String::new();
        push_char(&mut s, digit_char(n));
        proof {
            assert(s@ =~= spec_fmt_nat(n as int));
        }
        s
    } else {
        let mut s = fmt_u64(n / 10);
        push_char(&mut s, digit_char(n % 10));
        s
    }
}

/// Decimal rendering of a signed 32-bit value.
pub fn fmt_i32(v: i32) -> (r: String)
    ensures
        r@ == spec_fmt_int(v as int),
{
    if v >= 0 {
        fmt_u64(v as u64)
    } else {
        let mag = (-(v as i64)) as u64;
        let mut s = String::from_str("-");
        let digits = fmt_u64(mag);
        s.append(digits.as_str());
        proof {
            reveal_strlit("-");
            assert(s@ =~= seq!['-'] + spec_fmt_nat(mag as int));
        }
        s
    }
}

/// Every character of a formatted natural number is a decimal digit,
/// and there is at least one.
pub proof fn lemma_fmt_nat_digits(n: int)
    requires
        n >= 0,
    ensures
        spec_fmt_nat(n).len() >= 1,
        forall|j: int| 0 <= j < spec_fmt_nat(n).len() ==> spec_is_digit(#[trigger] spec_fmt_nat(n)[j]),
    decreases n,
{
    if n >= 10 {
        lemma_fmt_nat_digits(n / 10);
        let s = spec_fmt_nat(n);
        let p = spec_fmt_nat(n / 10);
        assert forall|j: int| 0 <= j < s.len() implies spec_is_digit(#[trigger] s[j]) by {
            if j < p.len() {
                assert(s[j] == p[j]);
            }
        }
    }
}

/// Reading back a formatted natural number gives the number.
pub proof fn lemma_dec_val_fmt(n: int)
    requires
        n >= 0,
    ensures
        spec_dec_val(spec_fmt_nat(n)) == n,
    decreases n,
{
    if n < 10 {
        let s = spec_fmt_nat(n);
        assert(s.drop_last() =~= Seq::<char>::empty());
        assert(s[s.len() - 1] == spec_digit_char(n));
        assert(spec_digit_val(spec_digit_char(n)) == n);
        assert(spec_dec_val(s) == spec_dec_val(s.drop_last()) * 10 + spec_digit_val(
            s[s.len() - 1],
        ));
        assert(spec_dec_val(Seq::<char>::empty()) == 0);
        assert(spec_dec_val(s) == n);
    } else {
        lemma_dec_val_fmt(n / 10);
        let s = spec_fmt_nat(n);
        assert(s.drop_last() =~= spec_fmt_nat(n / 10));
        assert(s[s.len() - 1] == spec_digit_char(n % 10));
        assert(spec_digit_val(spec_digit_char(n % 10)) == n % 10);
        assert(spec_dec_val(s) == spec_dec_val(spec_fmt_nat(n / 10)) * 10 + n % 10);
        vstd::arithmetic::div_mod::lemma_fundamental_div_mod(n, 10);
    }
}

/// Formatting then parsing a 32-bit value is the identity.
pub proof fn lemma_parse_fmt_i32(v: i32)
    ensures
        spec_parse_i32(spec_fmt_int(v as int)) == Option::Some(v),
{
    if v >= 0 {
        let s = spec_fmt_nat(v as int);
        lemma_fmt_nat_digits(v as int);
        lemma_all_digits_iff(s);
        lemma_dec_val_fmt(v as int);
        assert(!(s[0] == '-') && !(s[0] == '+')) by {
            assert(spec_is_digit(s[0]));
        }
    } else {
        let m = -(v as int);
        let s = spec_fmt_int(v as int);
        let body = spec_fmt_nat(m);
        lemma_fmt_nat_digits(m);
        lemma_all_digits_iff(body);
        lemma_dec_val_fmt(m);
        assert(s.drop_first() =~= body);
        lemma_all_digits_iff(s.drop_first());
    }
}

/// A formatted integer has no separator, no whitespace, and does not
/// start with whitespace; so table cells survive the trip through a
/// rendered line.
pub proof fn lemma_fmt_int_clean(v: int)
    ensures
        spec_fmt_int(v).len() >= 1,
        forall|j: int|
            0 <= j < spec_fmt_int(v).len() ==> (#[trigger] spec_fmt_int(v)[j] == '-'
                || spec_is_digit(spec_fmt_int(v)[j])),
{
    let s = spec_fmt_int(v);
    if v < 0 {
        let body = spec_fmt_nat(-v);
        lemma_fmt_nat_digits(-v);
        assert forall|j: int| 0 <= j < s.len() implies (#[trigger] s[j] == '-' || spec_is_digit(
            s[j],
        )) by {
            if j >= 1 {
                assert(s[j] == body[j - 1]);
            }
        }
    } else {
        lemma_fmt_nat_digits(v);
    }
}

} // verus!
