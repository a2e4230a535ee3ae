//! Unsigned decimal integers in text: parsing with the error kinds and
//! precedence of the standard `FromStr` of the unsigned integer types, and
//! the shortest decimal rendering that their `Display` produces.
use vstd::prelude::*;
use vstd::string::*;

verus! {

/// Why a text is not an unsigned decimal integer of the wanted width.
#[derive(Debug, Clone, Copy, PartialEq, Eq, Structural)]
pub enum IntErrorKind {
    /// The text is empty.
    Empty,
    /// A character other than an ASCII digit (after an optional `+`).
    InvalidDigit,
    /// The value is greater than the type's maximum.
    PosOverflow,
}

pub open spec fn is_digit(c: char) -> bool {
    '0' <= c <= '9'
}

pub open spec fn digit_value(c: char) -> nat {
    (c as int - '0' as int) as nat
}

pub open spec fn digit_char(d: nat) -> char {
    (d + '0' as int) as char
}

/// The digits of `d` read left to right: the first character that is not a
/// digit, or the first prefix whose value exceeds `max`, decides the error.
pub open spec fn parse_digits(d: Seq<char>, max: nat) -> Result<nat, IntErrorKind>
    decreases d.len(),
{
    if d.len() == 0 {
        Ok(0)
    } else {
        match parse_digits(d.drop_last(), max) {
            Err(e) => Err(e),
            Ok(v) => if !is_digit(d.last()) {
                Err(IntErrorKind::InvalidDigit)
            } else if v * 10 + digit_value(d.last()) > max {
                Err(IntErrorKind::PosOverflow)
            } else {
                Ok(v * 10 + digit_value(d.last()))
            },
        }
    }
}

/// An unsigned integer no greater than `max`, in decimal, with an optional
/// leading `+`.
pub open spec fn parse_unsigned(s: Seq<char>, max: nat) -> Result<nat, IntErrorKind> {
    if s.len() == 0 {
        Err(IntErrorKind::Empty)
    } else if s[0] == '+' {
        if s.len() == 1 {
            Err(IntErrorKind::InvalidDigit)
        } else {
            parse_digits(s.drop_first(), max)
        }
    } else {
        parse_digits(s, max)
    }
}

/// `r`, a machine result, is `spec`, a mathematical one.
pub open spec fn matches_u64(r: Result<u64, IntErrorKind>, spec: Result<nat, IntErrorKind>) -> bool {
    match r {
        Ok(v) => spec == Ok::<nat, IntErrorKind>(v as nat),
        Err(e) => spec == Err::<nat, IntErrorKind>(e),
    }
}

/// The shortest decimal rendering of `n`.
pub open spec fn decimal(n: nat) -> Seq<char>
    decreases n,
{
    if n < 10 {
        seq![digit_char(n)]
    } else {
        decimal(n / 10).push(digit_char(n % 10))
    }
}

/// The text of each kind of error, as its `Display` writes it.
pub open spec fn int_error_text(e: IntErrorKind) -> Seq<char> {
    match e {
        IntErrorKind::Empty => "cannot parse integer from empty string"@,
        IntErrorKind::InvalidDigit => "invalid digit found in string"@,
        IntErrorKind::PosOverflow => "number too large to fit in target type"@,
    }
}

impl IntErrorKind {
    /// The error's description, as `ParseIntError` displays it.
    pub fn description(&self) -> (r: String)
        ensures
            r@ == int_error_text(*self),
    {
        match self {
            IntErrorKind::Empty => String::from_str("cannot parse integer from empty string"),
            IntErrorKind::InvalidDigit => String::from_str("invalid digit found in string"),
            IntErrorKind::PosOverflow => String::from_str("number too large to fit in target type"),
        }
    }
}

/// Parsing the rendering of `n` gives `n` back, for every bound `max` that
/// `n` does not exceed.
pub proof fn law_decimal_round_trip(n: nat, max: nat)
    requires
        n <= max,
    ensures
        parse_unsigned(decimal(n), max) == Ok::<nat, IntErrorKind>(n),
        decimal(n).len() >= 1,
        forall|i: int| 0 <= i < decimal(n).len() ==> is_digit(#[trigger] decimal(n)[i]),
    decreases n,
{
    lemma_parse_digits_decimal(n, max);
    let d = decimal(n);
    if n >= 10 {
        law_decimal_round_trip(n / 10, max);
        assert forall|i: int| 0 <= i < d.len() implies is_digit(#[trigger] d[i]) by {
            if i < d.len() - 1 {
                assert(d[i] == decimal(n / 10)[i]);
            }
        }
    }
    assert(is_digit(d[0]));
}

proof fn lemma_parse_digits_decimal(n: nat, max: nat)
    requires
        n <= max,
    ensures
        parse_digits(decimal(n), max) == Ok::<nat, IntErrorKind>(n),
    decreases n,
{
    let d = decimal(n);
    if n < 10 {
        assert(d.drop_last() =~= Seq::<char>::empty());
    } else {
        lemma_parse_digits_decimal(n / 10, max);
        assert(d.drop_last() =~= decimal(n / 10));
    }
}

/// Once a prefix of the digits fails, the whole text fails the same way.
proof fn lemma_parse_digits_prefix_err(d: Seq<char>, k: int, max: nat)
    requires
        0 <= k <= d.len(),
        parse_digits(d.take(k), max) is Err,
    ensures
        parse_digits(d, max) == parse_digits(d.take(k), max),
    decreases d.len() - k,
{
    if k == d.len() {
        assert(d.take(k) =~= d);
    } else {
        let e = d.take(d.len() - 1);
        assert(e =~= d.drop_last());
        assert(e.take(k) =~= d.take(k));
        lemma_parse_digits_prefix_err(e, k, max);
    }
}

/// Parses `s` as an unsigned decimal integer no greater than `max`.
pub fn parse_unsigned_str(s: &str, max: u64) -> (r: Result<u64, IntErrorKind>)
    ensures
        matches_u64(r, parse_unsigned(s@, max as nat)),
{
    let n = s.unicode_len();
    if n == 0 {
        return Err(IntErrorKind::Empty);
    }
    let mut i: usize = 0;
    if s.get_char(0) == '+' {
        if n == 1 {
            return Err(IntErrorKind::InvalidDigit);
        }
        i = 1;
    }
    let ghost start = i as int;
    let mut acc: u64 = 0;
    assert(s@.subrange(start, start) =~= Seq::<char>::empty());
    while i < n
        invariant
            n == s@.len(),
            0 <= start <= 1,
            start <= i <= n,
            start == 1 ==> s@[0] == '+',
            start == 0 ==> s@[0] != '+',
            acc <= max,
            parse_digits(s@.subrange(start, i as int), max as nat) == Ok::<nat, IntErrorKind>(
                acc as nat,
            ),
        decreases n - i,
    {
        let c = s.get_char(i);
        let ghost pre = s@.subrange(start, i as int);
        let ghost next = s@.subrange(start, i + 1);
        assert(next.drop_last() =~= pre);
        assert(next.last() == c);
        let ghost whole = if start == 1 { s@.drop_first() } else { s@ };
        assert(whole =~= s@.subrange(start, n as int));
        assert(whole.take(i + 1 - start) =~= next);
        if c < '0' || c > '9' {
            proof {
                lemma_parse_digits_prefix_err(whole, i + 1 - start, max as nat);
            }
            return Err(IntErrorKind::InvalidDigit);
        }
        let dv = (c as u32 - '0' as u32) as u64;
        let wide = (acc as u128) * 10 + (dv as u128);
        if wide > max as u128 {
            proof {
                lemma_parse_digits_prefix_err(whole, i + 1 - start, max as nat);
            }
            return Err(IntErrorKind::PosOverflow);
        }
        acc = wide as u64;
        i = i + 1;
    }
    assert(s@.subrange(start, n as int) =~= if start == 1 { s@.drop_first() } else { s@ });
    Ok(acc)
}

/// `str::parse::<u16>`.
pub fn parse_u16(s: &str) -> (r: Result<u16, IntErrorKind>)
    ensures
        match r {
            Ok(v) => parse_unsigned(s@, u16::MAX as nat) == Ok::<nat, IntErrorKind>(v as nat),
            Err(e) => parse_unsigned(s@, u16::MAX as nat) == Err::<nat, IntErrorKind>(e),
        },
{
    match parse_unsigned_str(s, 0xFFFF) {
        Ok(v) => Ok(v as u16),
        Err(e) => Err(e),
    }
}

/// `str::parse::<u32>`.
pub fn parse_u32(s: &str) -> (r: Result<u32, IntErrorKind>)
    ensures
        match r {
            Ok(v) => parse_unsigned(s@, u32::MAX as nat) == Ok::<nat, IntErrorKind>(v as nat),
            Err(e) => parse_unsigned(s@, u32::MAX as nat) == Err::<nat, IntErrorKind>(e),
        },
{
    match parse_unsigned_str(s, 0xFFFF_FFFF) {
        Ok(v) => Ok(v as u32),
        Err(e) => Err(e),
    }
}

/// `str::parse::<u64>`.
pub fn parse_u64(s: &str) -> (r: Result<u64, IntErrorKind>)
    ensures
        matches_u64(r, parse_unsigned(s@, u64::MAX as nat)),
{
    parse_unsigned_str(s, 0xFFFF_FFFF_FFFF_FFFF)
}

fn digit_str(d: u64) -> (r: &'static str)
    requires
        d < 10,
    ensures
        r@ == seq![digit_char(d as nat)],
{
    proof {
        reveal_strlit("0");
        reveal_strlit("1");
        reveal_strlit("2");
        reveal_strlit("3");
        reveal_strlit("4");
        reveal_strlit("5");
        reveal_strlit("6");
        reveal_strlit("7");
        reveal_strlit("8");
        reveal_strlit("9");
    }
    let r = if d == 0 {
        "0"
    } else if d == 1 {
        "1"
    } else if d == 2 {
        "2"
    } else if d == 3 {
        "3"
    } else if d == 4 {
        "4"
    } else if d == 5 {
        "5"
    } else if d == 6 {
        "6"
    } else if d == 7 {
        "7"
    } else if d == 8 {
        "8"
    } else {
        "9"
    };
    assert(r@ =~= seq![digit_char(d as nat)]);
    r
}

/// The decimal rendering of `n`, as its `Display` writes it.
pub fn format_u64(n: u64) -> (r: String)
    ensures
        r@ == decimal(n as nat),
    decreases n,
{
    if n < 10 {
        String::from_str(digit_str(n))
    } else {
        let mut s = format_u64(n / 10);
        s.append(digit_str(n % 10));
        s
    }
}

} // verus!
