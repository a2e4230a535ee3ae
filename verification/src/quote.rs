//! The wire format of a quote: `<TICKER>|<PRICE>|<VOLUME>|<TIMESTAMP>\n`.
//!
//! The price travels as decimal text; turning that text into a float and
//! back is left to the caller, so that a quote here holds the price as the
//! text that is sent.
use vstd::prelude::*;
use vstd::string::*;

use crate::decimal::{
    decimal, format_u64, int_error_text, is_digit, law_decimal_round_trip, parse_u32, parse_u64,
    parse_unsigned,
};
use crate::error::{ParsedFieldError, ParsedFieldErrorView, QuoteError, QuoteErrorView};
use crate::text::{
    find_char, first_index, is_first_index, is_whitespace, lemma_trimmed_starts_without_whitespace, lemma_split_on_concat, lemma_split_on_no_sep,
    lemma_trim_end_take, lemma_trim_start_skip, split_on, split_str, trim, trim_str,
};

verus! {

/// A quote as it travels on the wire.
#[derive(Debug, Clone, PartialEq)]
pub struct WireQuote {
    /// The ticker, such as `SBER`.
    pub ticker: String,
    /// The price, as decimal text.
    pub price: String,
    /// The traded volume.
    pub volume: u32,
    /// Seconds since the Unix epoch.
    pub timestamp: u64,
}

/// `WireQuote` as values.
pub struct WireQuoteView {
    pub ticker: Seq<char>,
    pub price: Seq<char>,
    pub volume: nat,
    pub timestamp: nat,
}

impl View for WireQuote {
    type V = WireQuoteView;

    open spec fn view(&self) -> WireQuoteView {
        WireQuoteView {
            ticker: self.ticker@,
            price: self.price@,
            volume: self.volume as nat,
            timestamp: self.timestamp as nat,
        }
    }
}

// ----- The float literal grammar -------------------------------------------
/// Every character of `s` is an ASCII digit.
pub open spec fn all_digits(s: Seq<char>) -> bool {
    forall|i: int| 0 <= i < s.len() ==> is_digit(#[trigger] s[i])
}

/// `c` with ASCII upper case turned to lower case.
pub open spec fn ascii_lower(c: char) -> char {
    if 'A' <= c <= 'Z' {
        (c as int + 32) as char
    } else {
        c
    }
}

/// `s` is `word` (given in lower case) up to ASCII case.
pub open spec fn eq_ignore_case(s: Seq<char>, word: Seq<char>) -> bool {
    s.len() == word.len() && forall|i: int| 0 <= i < s.len() ==> ascii_lower(#[trigger] s[i]) == word[i]
}

/// `s` without one leading `+` or `-`.
pub open spec fn strip_sign(s: Seq<char>) -> Seq<char> {
    if s.len() > 0 && (s[0] == '+' || s[0] == '-') {
        s.drop_first()
    } else {
        s
    }
}

/// `Digit+ | Digit+ '.' Digit* | Digit* '.' Digit+`.
pub open spec fn is_mantissa(m: Seq<char>) -> bool {
    let p = first_index(m, '.');
    if p < 0 {
        m.len() > 0 && all_digits(m)
    } else {
        all_digits(m.take(p)) && all_digits(m.skip(p + 1)) && m.len() > 1
    }
}

/// `Sign? Digit+`, what follows the `e` of an exponent.
pub open spec fn is_exponent_digits(x: Seq<char>) -> bool {
    strip_sign(x).len() > 0 && all_digits(strip_sign(x))
}

/// `i` is the position of the first `e` or `E` in `s`.
pub open spec fn is_first_e(s: Seq<char>, i: int) -> bool {
    0 <= i < s.len() && ascii_lower(s[i]) == 'e' && forall|j: int|
        0 <= j < i ==> ascii_lower(#[trigger] s[j]) != 'e'
}

/// The position of the first `e` or `E` in `s`, or -1.
pub open spec fn first_e(s: Seq<char>) -> int {
    if exists|i: int| is_first_e(s, i) {
        choose|i: int| is_first_e(s, i)
    } else {
        -1
    }
}

/// `Number ::= Mantissa Exp?` with `Exp ::= 'e' Sign? Digit+`.
pub open spec fn is_number(b: Seq<char>) -> bool {
    let e = first_e(b);
    if e < 0 {
        is_mantissa(b)
    } else {
        is_mantissa(b.take(e)) && is_exponent_digits(b.skip(e + 1))
    }
}

/// The texts that the standard `f64` parser accepts, by its documented
/// grammar: `Sign? ('inf' | 'infinity' | 'nan' | Number)`, letters in any
/// case.
pub open spec fn is_float_literal(s: Seq<char>) -> bool {
    let b = strip_sign(s);
    ||| eq_ignore_case(b, "inf"@)
    ||| eq_ignore_case(b, "infinity"@)
    ||| eq_ignore_case(b, "nan"@)
    ||| is_number(b)
}

/// The description of the float parser's error for a text it refuses.
pub open spec fn float_error_text(s: Seq<char>) -> Seq<char> {
    if s.len() == 0 {
        "cannot parse float from empty string"@
    } else {
        "invalid float literal"@
    }
}

fn lower_is(c: char, w: char) -> (r: bool)
    ensures
        r == (ascii_lower(c) == w),
{
    if 'A' <= c && c <= 'Z' {
        (c as u32) + 32 == (w as u32)
    } else {
        c == w
    }
}

fn all_digits_str(s: &str) -> (r: bool)
    ensures
        r == all_digits(s@),
{
    let n = s.unicode_len();
    let mut i: usize = 0;
    while i < n
        invariant
            n == s@.len(),
            i <= n,
            forall|j: int| 0 <= j < i ==> is_digit(#[trigger] s@[j]),
        decreases n - i,
    {
        let c = s.get_char(i);
        if c < '0' || c > '9' {
            assert(!is_digit(s@[i as int]));
            return false;
        }
        i = i + 1;
    }
    true
}

fn eq_ignore_case_str(s: &str, word: &str) -> (r: bool)
    ensures
        r == eq_ignore_case(s@, word@),
{
    let n = s.unicode_len();
    if n != word.unicode_len() {
        return false;
    }
    let mut i: usize = 0;
    while i < n
        invariant
            n == s@.len(),
            n == word@.len(),
            i <= n,
            forall|j: int| 0 <= j < i ==> ascii_lower(#[trigger] s@[j]) == word@[j],
        decreases n - i,
    {
        if !lower_is(s.get_char(i), word.get_char(i)) {
            return false;
        }
        i = i + 1;
    }
    true
}

fn strip_sign_str<'a>(s: &'a str) -> (r: &'a str)
    ensures
        r@ == strip_sign(s@),
{
    let n = s.unicode_len();
    if n > 0 {
        let c = s.get_char(0);
        if c == '+' || c == '-' {
            let r = s.substring_char(1, n);
            assert(r@ =~= s@.drop_first());
            return r;
        }
    }
    s
}

fn is_mantissa_str(m: &str) -> (r: bool)
    ensures
        r == is_mantissa(m@),
{
    let n = m.unicode_len();
    match find_char(m, '.') {
        None => n > 0 && all_digits_str(m),
        Some(p) => {
            let before = m.substring_char(0, p);
            let after = m.substring_char(p + 1, n);
            assert(before@ =~= m@.take(p as int));
            assert(after@ =~= m@.skip(p + 1));
            all_digits_str(before) && all_digits_str(after) && n > 1
        },
    }
}

fn find_e(s: &str) -> (r: Option<usize>)
    ensures
        match r {
            Some(i) => is_first_e(s@, i as int) && first_e(s@) == i,
            None => first_e(s@) == -1,
        },
{
    let n = s.unicode_len();
    let mut i: usize = 0;
    while i < n
        invariant
            n == s@.len(),
            i <= n,
            forall|j: int| 0 <= j < i ==> ascii_lower(#[trigger] s@[j]) != 'e',
        decreases n - i,
    {
        if lower_is(s.get_char(i), 'e') {
            assert(is_first_e(s@, i as int));
            let ghost k = choose|k: int| is_first_e(s@, k);
            assert(k == i) by {
                if k < i {
                    assert(ascii_lower(s@[k]) != 'e');
                } else if k > i {
                    assert(ascii_lower(s@[i as int]) != 'e');
                }
            }
            return Some(i);
        }
        i = i + 1;
    }
    assert(!exists|k: int| is_first_e(s@, k)) by {
        if exists|k: int| is_first_e(s@, k) {
            let k = choose|k: int| is_first_e(s@, k);
            assert(ascii_lower(s@[k]) != 'e');
        }
    }
    None
}

/// Whether the standard `f64` parser accepts `s`, by its documented grammar.
pub fn is_float_literal_str(s: &str) -> (r: bool)
    ensures
        r == is_float_literal(s@),
{
    let b = strip_sign_str(s);
    if eq_ignore_case_str(b, "inf") || eq_ignore_case_str(b, "infinity") || eq_ignore_case_str(
        b,
        "nan",
    ) {
        return true;
    }
    let n = b.unicode_len();
    let number = match find_e(b) {
        None => is_mantissa_str(b),
        Some(e) => {
            let m = b.substring_char(0, e);
            let x = b.substring_char(e + 1, n);
            assert(m@ =~= b@.take(e as int));
            assert(x@ =~= b@.skip(e + 1));
            let xd = strip_sign_str(x);
            is_mantissa_str(m) && xd.unicode_len() > 0 && all_digits_str(xd)
        },
    };
    number
}

/// An optional sign: nothing, `+` or `-`.
pub open spec fn is_sign(s: Seq<char>) -> bool {
    s == Seq::<char>::empty() || s == seq!['+'] || s == seq!['-']
}

/// Every character of `s` is a digit or a point.
spec fn digits_or_point(s: Seq<char>) -> bool {
    forall|i: int| 0 <= i < s.len() ==> is_digit(#[trigger] s[i]) || s[i] == '.'
}

proof fn lemma_strip_given_sign(sign: Seq<char>, r: Seq<char>)
    requires
        is_sign(sign),
        r.len() > 0,
        r[0] != '+' && r[0] != '-',
    ensures
        strip_sign(sign + r) == r,
{
    if sign.len() == 0 {
        assert(sign + r =~= r);
    } else {
        assert((sign + r).drop_first() =~= r);
    }
}

proof fn lemma_no_e(s: Seq<char>)
    requires
        digits_or_point(s),
    ensures
        first_e(s) == -1,
{
    if exists|i: int| is_first_e(s, i) {
        let i = choose|i: int| is_first_e(s, i);
        assert(is_digit(s[i]) || s[i] == '.');
    }
}

proof fn lemma_first_e_is(s: Seq<char>, i: int)
    requires
        is_first_e(s, i),
    ensures
        first_e(s) == i,
{
    let k = choose|k: int| is_first_e(s, k);
    assert(k == i) by {
        if k < i {
            assert(ascii_lower(s[k]) != 'e');
        } else if k > i {
            assert(ascii_lower(s[i]) != 'e');
        }
    }
}

proof fn lemma_mantissa_forms(a: Seq<char>, b: Seq<char>)
    requires
        all_digits(a),
        all_digits(b),
    ensures
        a.len() + b.len() > 0 ==> is_mantissa(a + seq!['.'] + b),
        a.len() > 0 ==> is_mantissa(a),
        digits_or_point(a + seq!['.'] + b),
        digits_or_point(a),
{
    let m = a + seq!['.'] + b;
    assert(is_first_index(m, '.', a.len() as int)) by {
        assert forall|j: int| 0 <= j < a.len() implies m[j] != '.' by {
            assert(m[j] == a[j]);
        }
    }
    crate::text::lemma_first_index_is(m, '.', a.len() as int);
    assert(m.take(a.len() as int) =~= a);
    assert(m.skip(a.len() as int + 1) =~= b);
    assert forall|i: int| 0 <= i < m.len() implies is_digit(#[trigger] m[i]) || m[i] == '.' by {
        if i < a.len() {
            assert(m[i] == a[i]);
        } else if i > a.len() {
            assert(m[i] == b[i - a.len() - 1]);
        }
    }
    if !(first_index(a, '.') < 0) {
        let k = choose|k: int| is_first_index(a, '.', k);
        assert(is_digit(a[k]));
    }
}

/// Decimal texts are float literals, whatever the number of digits on
/// either side of the point: an optional sign, then digits, a point and
/// digits with at least one digit in all, or digits alone.
pub proof fn law_decimal_literals_accepted(sign: Seq<char>, a: Seq<char>, b: Seq<char>)
    requires
        is_sign(sign),
        all_digits(a),
        all_digits(b),
    ensures
        a.len() + b.len() > 0 ==> is_float_literal(sign + a + seq!['.'] + b),
        a.len() > 0 ==> is_float_literal(sign + a),
{
    lemma_mantissa_forms(a, b);
    let m = a + seq!['.'] + b;
    if a.len() + b.len() > 0 {
        if a.len() > 0 {
            assert(m[0] == a[0]);
        }
        lemma_strip_given_sign(sign, m);
        assert(sign + m =~= sign + a + seq!['.'] + b);
        lemma_no_e(m);
    }
    if a.len() > 0 {
        lemma_strip_given_sign(sign, a);
        lemma_no_e(a);
    }
}

/// A decimal text followed by an exponent, `e` or `E`, an optional sign
/// and at least one digit, is a float literal.
pub proof fn law_exponent_literals_accepted(
    sign: Seq<char>,
    a: Seq<char>,
    b: Seq<char>,
    e: char,
    exp_sign: Seq<char>,
    d: Seq<char>,
)
    requires
        is_sign(sign),
        all_digits(a),
        all_digits(b),
        e == 'e' || e == 'E',
        is_sign(exp_sign),
        all_digits(d),
        d.len() > 0,
    ensures
        a.len() + b.len() > 0 ==> is_float_literal(sign + a + seq!['.'] + b + seq![e] + exp_sign + d),
        a.len() > 0 ==> is_float_literal(sign + a + seq![e] + exp_sign + d),
{
    lemma_mantissa_forms(a, b);
    lemma_strip_given_sign(exp_sign, d);
    if a.len() + b.len() > 0 {
        let m = a + seq!['.'] + b;
        lemma_exponent_form(sign, m, e, exp_sign, d);
        assert(sign + m + seq![e] + exp_sign + d =~= sign + a + seq!['.'] + b + seq![e] + exp_sign + d);
    }
    if a.len() > 0 {
        lemma_exponent_form(sign, a, e, exp_sign, d);
    }
}

proof fn lemma_exponent_form(sign: Seq<char>, m: Seq<char>, e: char, exp_sign: Seq<char>, d: Seq<char>)
    requires
        is_sign(sign),
        is_mantissa(m),
        digits_or_point(m),
        m.len() > 0,
        e == 'e' || e == 'E',
        is_exponent_digits(exp_sign + d),
    ensures
        is_float_literal(sign + m + seq![e] + exp_sign + d),
{
    let r = m + seq![e] + exp_sign + d;
    assert(r[0] == m[0]);
    assert(is_digit(m[0]) || m[0] == '.');
    lemma_strip_given_sign(sign, r);
    assert(sign + r =~= sign + m + seq![e] + exp_sign + d);
    assert(is_first_e(r, m.len() as int)) by {
        assert forall|j: int| 0 <= j < m.len() implies ascii_lower(#[trigger] r[j]) != 'e' by {
            assert(r[j] == m[j]);
            assert(is_digit(m[j]) || m[j] == '.');
        }
    }
    lemma_first_e_is(r, m.len() as int);
    assert(r.take(m.len() as int) =~= m);
    assert(r.skip(m.len() as int + 1) =~= exp_sign + d);
}

/// The exponent text `e`, then `sign`, then the digits `d`.
pub open spec fn exponent_text(e: char, sign: Seq<char>, d: Seq<char>) -> Seq<char> {
    seq![e] + sign + d
}

/// `x` is an exponent: `e` or `E`, an optional sign, at least one digit.
pub open spec fn is_exponent(x: Seq<char>) -> bool {
    exists|e: char, sign: Seq<char>, d: Seq<char>|
        (e == 'e' || e == 'E') && is_sign(sign) && all_digits(d) && d.len() > 0 && x
            == #[trigger] exponent_text(e, sign, d)
}

/// `sign`, digits `a`, then an optional exponent `x`.
pub open spec fn integer_text(sign: Seq<char>, a: Seq<char>, x: Seq<char>) -> Seq<char> {
    sign + a + x
}

/// `sign`, digits `a`, a point, digits `b`, then an optional exponent `x`.
pub open spec fn point_text(sign: Seq<char>, a: Seq<char>, b: Seq<char>, x: Seq<char>) -> Seq<
    char,
> {
    sign + a + seq!['.'] + b + x
}

/// The leading sign of `s`, if it has one.
spec fn sign_of(s: Seq<char>) -> Seq<char> {
    if s.len() > 0 && (s[0] == '+' || s[0] == '-') {
        seq![s[0]]
    } else {
        Seq::<char>::empty()
    }
}

proof fn lemma_sign_split(s: Seq<char>)
    ensures
        is_sign(sign_of(s)),
        s == sign_of(s) + strip_sign(s),
{
    if s.len() > 0 && (s[0] == '+' || s[0] == '-') {
        if s[0] == '+' {
            assert(sign_of(s) =~= seq!['+']);
        } else {
            assert(sign_of(s) =~= seq!['-']);
        }
        assert(s =~= sign_of(s) + strip_sign(s));
    } else {
        assert(s =~= sign_of(s) + strip_sign(s));
    }
}

proof fn lemma_lower_e(c: char)
    requires
        ascii_lower(c) == 'e',
    ensures
        c == 'e' || c == 'E',
{
    if 'A' <= c <= 'Z' {
        assert(c as int + 32 == 'e' as int);
        assert(c as int == 'E' as int);
    }
}

/// Every float literal is a word (`inf`, `infinity` or `nan`, in any case,
/// after an optional sign), or an optional sign followed by digits, or by
/// digits, a point and digits with at least one digit in all; either of the
/// two last may end with an exponent.
pub proof fn law_float_literal_forms(s: Seq<char>)
    requires
        is_float_literal(s),
    ensures
        eq_ignore_case(strip_sign(s), "inf"@) || eq_ignore_case(strip_sign(s), "infinity"@)
            || eq_ignore_case(strip_sign(s), "nan"@) || (exists|sign: Seq<char>, a: Seq<char>, x: Seq<char>|
            is_sign(sign) && all_digits(a) && a.len() > 0 && (x.len() == 0 || is_exponent(x)) && s
                == #[trigger] integer_text(sign, a, x)) || (exists|
            sign: Seq<char>,
            a: Seq<char>,
            b: Seq<char>,
            x: Seq<char>,
        |
            is_sign(sign) && all_digits(a) && all_digits(b) && a.len() + b.len() > 0 && (x.len()
                == 0 || is_exponent(x)) && s == #[trigger] point_text(sign, a, b, x)),
{
    let b = strip_sign(s);
    if !(eq_ignore_case(b, "inf"@) || eq_ignore_case(b, "infinity"@) || eq_ignore_case(
        b,
        "nan"@,
    )) {
        lemma_sign_split(s);
        let sign = sign_of(s);
        let e = first_e(b);
        let mant = if e < 0 {
            b
        } else {
            b.take(e)
        };
        let x = if e < 0 {
            Seq::<char>::empty()
        } else {
            b.skip(e)
        };
        assert(b =~= mant + x);
        if e >= 0 {
            assert(is_first_e(b, e));
            lemma_lower_e(b[e]);
            let xr = b.skip(e + 1);
            lemma_sign_split(xr);
            let d = strip_sign(xr);
            assert(x =~= exponent_text(b[e], sign_of(xr), d));
            assert(is_exponent(x));
        }
        let p = first_index(mant, '.');
        if p < 0 {
            assert(s =~= integer_text(sign, mant, x));
        } else {
            assert(is_first_index(mant, '.', p));
            let a = mant.take(p);
            let bb = mant.skip(p + 1);
            assert(mant =~= a + seq!['.'] + bb);
            assert(s =~= point_text(sign, a, bb, x));
        }
    }
}

// ----- Decoding and encoding ------------------------------------------------
/// The four fields of a quote line, when it has exactly four.
pub open spec fn quote_fields(line: Seq<char>) -> Seq<Seq<char>> {
    split_on(trim(line), '|')
}

/// The error for field `index`, of text `value`, with the parser's `reason`.
pub open spec fn field_error(value: Seq<char>, index: nat, reason: Seq<char>) -> QuoteErrorView {
    QuoteErrorView::ParseError(ParsedFieldErrorView { value, index, reason })
}

/// What decoding a quote line gives: the fields are checked in order, the
/// count first, then the ticker, the price, the volume and the timestamp.
pub open spec fn decode_result(line: Seq<char>) -> Result<WireQuoteView, QuoteErrorView> {
    let f = quote_fields(line);
    if f.len() != 4 {
        Err(QuoteErrorView::InvalidFormat("Количество блоков больше или меньше 4"@))
    } else if f[0].contains(' ') {
        Err(QuoteErrorView::InvalidQuote("Котировка содержит пробелы!"@))
    } else if !is_float_literal(f[1]) {
        Err(field_error(f[1], 1, float_error_text(f[1])))
    } else {
        match parse_unsigned(f[2], u32::MAX as nat) {
            Err(k) => Err(field_error(f[2], 2, int_error_text(k))),
            Ok(volume) => match parse_unsigned(f[3], u64::MAX as nat) {
                Err(k) => Err(field_error(f[3], 3, int_error_text(k))),
                Ok(timestamp) => Ok(
                    WireQuoteView { ticker: f[0], price: f[1], volume, timestamp },
                ),
            },
        }
    }
}

/// The line that carries `q`.
pub open spec fn wire_line(q: WireQuoteView) -> Seq<char> {
    q.ticker + "|"@ + q.price + "|"@ + decimal(q.volume) + "|"@ + decimal(q.timestamp) + "\n"@
}

fn field_parse_error(value: &str, index: usize, reason: String) -> (r: QuoteError)
    ensures
        r@ == field_error(value@, index as nat, reason@),
{
    QuoteError::ParseError(
        ParsedFieldError { value: String::from_str(value), index, reason },
    )
}

impl WireQuote {
    /// A quote of the given fields.
    pub fn new(ticker: String, price: String, volume: u32, timestamp: u64) -> (r: WireQuote)
        ensures
            r.ticker == ticker,
            r.price == price,
            r.volume == volume,
            r.timestamp == timestamp,
    {
        WireQuote { ticker, price, volume, timestamp }
    }

    /// The line that carries this quote:
    /// `<TICKER>|<PRICE>|<VOLUME>|<TIMESTAMP>\n`.
    pub fn to_wire_line(&self) -> (r: String)
        ensures
            r@ == wire_line(self@),
    {
        proof {
            reveal_strlit("|");
            reveal_strlit("\n");
        }
        let volume = format_u64(self.volume as u64);
        let timestamp = format_u64(self.timestamp);
        let mut r = String::from_str(self.ticker.as_str());
        r.append("|");
        r.append(self.price.as_str());
        r.append("|");
        r.append(volume.as_str());
        r.append("|");
        r.append(timestamp.as_str());
        r.append("\n");
        r
    }

    /// Decodes a quote line. Whitespace around the line is ignored; the
    /// line must hold four `|`-separated fields, a ticker without spaces,
    /// a price that the `f64` parser accepts, a `u32` volume and a `u64`
    /// timestamp.
    pub fn from_wire_line(line: &str) -> (r: Result<WireQuote, QuoteError>)
        ensures
            match r {
                Ok(q) => decode_result(line@) == Ok::<WireQuoteView, QuoteErrorView>(q@),
                Err(e) => decode_result(line@) == Err::<WireQuoteView, QuoteErrorView>(e@),
            },
    {
        let parts = split_str(trim_str(line), '|');
        let ghost f = quote_fields(line@);
        assert(parts@.map_values(|p: &str| p@) == f);
        if parts.len() != 4 {
            return Err(
                QuoteError::InvalidFormat(
                    String::from_str("Количество блоков больше или меньше 4"),
                ),
            );
        }
        assert(parts@[0]@ == f[0] && parts@[1]@ == f[1] && parts@[2]@ == f[2] && parts@[3]@
            == f[3]);
        if find_char(parts[0], ' ').is_some() {
            return Err(QuoteError::InvalidQuote(String::from_str("Котировка содержит пробелы!")));
        }
        proof {
            if f[0].contains(' ') {
                let j = choose|j: int| 0 <= j < f[0].len() && f[0][j] == ' ';
                assert(parts@[0]@[j] == ' ');
            }
        }
        if !is_float_literal_str(parts[1]) {
            let reason = if parts[1].unicode_len() == 0 {
                String::from_str("cannot parse float from empty string")
            } else {
                String::from_str("invalid float literal")
            };
            return Err(field_parse_error(parts[1], 1, reason));
        }
        let volume = match parse_u32(parts[2]) {
            Ok(v) => v,
            Err(k) => {
                return Err(field_parse_error(parts[2], 2, k.description()));
            },
        };
        let timestamp = match parse_u64(parts[3]) {
            Ok(v) => v,
            Err(k) => {
                return Err(field_parse_error(parts[3], 3, k.description()));
            },
        };
        Ok(
            WireQuote {
                ticker: String::from_str(parts[0]),
                price: String::from_str(parts[1]),
                volume,
                timestamp,
            },
        )
    }
}

/// A ticker that can travel on the wire and come back unchanged: no `|`,
/// no space, and no whitespace at either end.
pub open spec fn wire_safe_ticker(t: Seq<char>) -> bool {
    !t.contains('|') && !t.contains(' ') && trim(t) == t
}

/// A float literal holds neither whitespace nor `|`, and is not empty.
proof fn lemma_float_literal_no_bar_no_space(p: Seq<char>)
    requires
        is_float_literal(p),
    ensures
        forall|i: int| 0 <= i < p.len() ==> !is_whitespace(#[trigger] p[i]) && p[i] != '|',
        p.len() > 0,
{
    let b = strip_sign(p);
    assert forall|i: int| 0 <= i < p.len() implies !is_whitespace(#[trigger] p[i]) && p[i]
        != '|' by {
        let off = if p.len() > 0 && (p[0] == '+' || p[0] == '-') {
            1int
        } else {
            0int
        };
        assert(b =~= p.skip(off));
        if i >= off {
            let k = i - off;
            assert(b[k] == p[i]);
            if eq_ignore_case(b, "inf"@) || eq_ignore_case(b, "infinity"@) || eq_ignore_case(
                b,
                "nan"@,
            ) {
                reveal_strlit("inf");
                reveal_strlit("infinity");
                reveal_strlit("nan");
                assert(ascii_lower(b[k]) != ' ' && ascii_lower(b[k]) != '|');
            } else {
                let e = first_e(b);
                let mant = if e < 0 {
                    b
                } else {
                    b.take(e)
                };
                if e >= 0 && k > e {
                    let x = b.skip(e + 1);
                    let xd = strip_sign(x);
                    assert(x[k - e - 1] == b[k]);
                    if x.len() > 0 && (x[0] == '+' || x[0] == '-') && k - e - 1 == 0 {
                        // the exponent's sign
                    } else {
                        let o2 = if x.len() > 0 && (x[0] == '+' || x[0] == '-') {
                            1int
                        } else {
                            0int
                        };
                        assert(xd =~= x.skip(o2));
                        assert(xd[k - e - 1 - o2] == b[k]);
                    }
                } else if e >= 0 && k == e {
                    // the `e` of the exponent
                } else {
                    assert(mant[k] == b[k]);
                    let d = first_index(mant, '.');
                    if d < 0 {
                        // a mantissa of digits only
                    } else if k < d {
                        assert(mant.take(d)[k] == b[k]);
                    } else if k > d {
                        assert(mant.skip(d + 1)[k - d - 1] == b[k]);
                    }
                }
            }
        }
    }
    reveal_strlit("inf");
    reveal_strlit("infinity");
    reveal_strlit("nan");
}

/// A quote whose ticker is wire-safe and whose price the `f64` parser
/// accepts decodes from its own line to itself.
pub proof fn law_wire_round_trip(q: WireQuoteView)
    requires
        wire_safe_ticker(q.ticker),
        is_float_literal(q.price),
        q.volume <= u32::MAX,
        q.timestamp <= u64::MAX,
    ensures
        decode_result(wire_line(q)) == Ok::<WireQuoteView, QuoteErrorView>(q),
{
    reveal_strlit("|");
    reveal_strlit("\n");
    lemma_float_literal_no_bar_no_space(q.price);
    law_decimal_round_trip(q.volume, u32::MAX as nat);
    law_decimal_round_trip(q.timestamp, u64::MAX as nat);
    let v = decimal(q.volume);
    let ts = decimal(q.timestamp);
    let body = q.ticker + seq!['|'] + q.price + seq!['|'] + v + seq!['|'] + ts;
    let line = wire_line(q);
    assert(line =~= body.push('\n'));
    // The line is its body with a line feed: trimming removes only that.
    assert(!is_whitespace(line[0])) by {
        if q.ticker.len() > 0 {
            lemma_trimmed_starts_without_whitespace(q.ticker);
            assert(line[0] == q.ticker[0]);
        } else {
            assert(line[0] == '|');
        }
    }
    assert(!is_whitespace(line[line.len() - 2])) by {
        assert(line[line.len() - 2] == ts[ts.len() - 1]);
    }
    lemma_trim_start_skip(line, 0);
    assert(line.skip(0) =~= line);
    assert forall|j: int| line.len() - 1 <= j < line.len() implies is_whitespace(
        #[trigger] line[j],
    ) by {
        assert(line[j] == '\n');
    }
    lemma_trim_end_take(line, line.len() - 1);
    assert(line.take(line.len() - 1) =~= body);
    assert(trim(line) == body);
    // Splitting at the bars gives the four fields back.
    assert(!q.ticker.contains('|'));
    assert(!q.price.contains('|'));
    assert(!v.contains('|')) by {
        if v.contains('|') {
            let j = choose|j: int| 0 <= j < v.len() && v[j] == '|';
            assert(is_digit(v[j]));
        }
    }
    assert(!ts.contains('|')) by {
        if ts.contains('|') {
            let j = choose|j: int| 0 <= j < ts.len() && ts[j] == '|';
            assert(is_digit(ts[j]));
        }
    }
    lemma_split_on_no_sep(q.ticker, '|');
    lemma_split_on_no_sep(q.price, '|');
    lemma_split_on_no_sep(v, '|');
    lemma_split_on_no_sep(ts, '|');
    lemma_split_on_concat(v, '|', ts);
    lemma_split_on_concat(q.price, '|', v + seq!['|'] + ts);
    lemma_split_on_concat(q.ticker, '|', q.price + seq!['|'] + (v + seq!['|'] + ts));
    assert(body =~= q.ticker + seq!['|'] + (q.price + seq!['|'] + (v + seq!['|'] + ts)));
    let f = quote_fields(line);
    assert(f =~= seq![q.ticker, q.price, v, ts]);
}

// ----- Random quotes --------------------------------------------------------
/// The seedable generator of the `rand` crate.
#[verifier::external_type_specification]
#[verifier::external_body]
pub struct ExStdRng(rand::rngs::StdRng);

/// A generator seeded from the operating system:
/// `<StdRng as SeedableRng>::try_from_rng(&mut SysRng)`. It fails, without
/// panicking, when the system's entropy source fails; nothing is claimed of
/// when that happens.
#[verifier::external_body]
fn seed_generator() -> (r: Option<rand::rngs::StdRng>) {
    match <rand::rngs::StdRng as rand::SeedableRng>::try_from_rng(&mut rand::rngs::SysRng) {
        Ok(g) => Some(g),
        Err(_) => None,
    }
}

/// A number drawn from `low..high` by `rand::RngExt::random_range` on a
/// seeded generator. The contract claims only that the draw lies in the
/// range, as the crate documents; the range must not be empty, as the call
/// panics on an empty one.
#[verifier::external_body]
fn random_in_range(g: &mut rand::rngs::StdRng, low: u64, high: u64) -> (r: u64)
    requires
        low < high,
    ensures
        low <= r < high,
{
    rand::RngExt::random_range(g, low..high)
}

/// A random quote of one of `tickers`, with a volume drawn from `10..1000`
/// and the given price text and timestamp; `None` when no generator could be
/// seeded from the operating system.
pub fn random_quote(tickers: &Vec<String>, price: String, timestamp: u64) -> (r: Option<
    WireQuote,
>)
    requires
        tickers.len() > 0,
    ensures
        r matches Some(q) ==> {
            &&& exists|i: int| 0 <= i < tickers.len() && q.ticker@ == #[trigger] tickers@[i]@
            &&& 10 <= q.volume < 1000
            &&& q.price == price
            &&& q.timestamp == timestamp
        },
{
    match seed_generator() {
        None => None,
        Some(mut g) => {
            let i = random_in_range(&mut g, 0, tickers.len() as u64) as usize;
            let volume = random_in_range(&mut g, 10, 1000) as u32;
            Some(quote_from_draw(tickers, i, volume, price, timestamp))
        },
    }
}

/// The quote of the ticker at `index` of `tickers`, with the given volume,
/// price text and timestamp: what `random_quote` builds from its draws.
pub fn quote_from_draw(
    tickers: &Vec<String>,
    index: usize,
    volume: u32,
    price: String,
    timestamp: u64,
) -> (r: WireQuote)
    requires
        index < tickers.len(),
    ensures
        r.ticker@ == tickers@[index as int]@,
        r.volume == volume,
        r.price == price,
        r.timestamp == timestamp,
{
    let ticker = String::from_str(tickers[index].as_str());
    WireQuote { ticker, price, volume, timestamp }
}

// ----- Running a stream -----------------------------------------------------
/// What a quote stream does next.
#[derive(Debug, Clone, Copy, PartialEq, Eq, Structural)]
pub enum StreamAction {
    /// The stream was stopped: it ends without error.
    Finish,
    /// The last quote could not be sent: it ends with that error.
    Fail,
    /// It sends the next quote.
    Send,
}

/// The next step of a stream whose running flag reads `streaming` and whose
/// last send succeeded or not (`last_send_ok`, true before the first send).
pub fn next_stream_action(streaming: bool, last_send_ok: bool) -> (r: StreamAction)
    ensures
        !last_send_ok ==> r == StreamAction::Fail,
        last_send_ok && !streaming ==> r == StreamAction::Finish,
        last_send_ok && streaming ==> r == StreamAction::Send,
{
    if !last_send_ok {
        StreamAction::Fail
    } else if !streaming {
        StreamAction::Finish
    } else {
        StreamAction::Send
    }
}

} // verus!
