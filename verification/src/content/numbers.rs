//! Numeric prop literals, read as decimal text.
//!
//! A number prop is kept as the canonical decimal form of its literal (sign,
//! integer digits without leading zeros, fraction digits without trailing
//! zeros), which is how it displays. Whether a literal is finite, integral or
//! in `i64` range is decided exactly on its digits: a literal is finite when
//! its value lies below 2^1024 - 2^970, the point from which a double rounds
//! to infinity.
use vstd::prelude::*;

use crate::text::{
    chars_of, compare_chars, find_char, first_index_of, head_chars, lemma_first_index_of,
    push_char, string_of, tail_chars, text_lt, Order,
};

verus! {

/// The smallest integer whose double rounds to infinity, in decimal.
pub const OVERFLOW_DIGITS: &'static str = "179769313486231580793728971405303415079934132710037826936173778980444968292764750946649017977587207096330286416692887910946555547851940402630657488671505820681908902000708383676273854845817711531764475730270069855571366959622842914819860834936475292719074168444365510704342711559699508093042880177904174497792";

/// A finite number literal, held in canonical decimal form.
#[derive(Debug, Clone, PartialEq)]
pub struct NumberValue {
    text: String,
}

impl View for NumberValue {
    type V = Seq<char>;

    closed spec fn view(&self) -> Seq<char> {
        self.text@
    }
}

pub open spec fn is_digit(c: char) -> bool {
    '0' <= c && c <= '9'
}

pub open spec fn all_digits(s: Seq<char>) -> bool {
    forall|i: int| 0 <= i < s.len() ==> is_digit(#[trigger] s[i])
}

pub open spec fn strip_leading_zeros(s: Seq<char>) -> Seq<char>
    decreases s.len(),
{
    if s.len() > 0 && s[0] == '0' {
        strip_leading_zeros(s.drop_first())
    } else {
        s
    }
}

pub open spec fn strip_trailing_zeros(s: Seq<char>) -> Seq<char>
    decreases s.len(),
{
    if s.len() > 0 && s.last() == '0' {
        strip_trailing_zeros(s.drop_last())
    } else {
        s
    }
}

/// An optional leading sign, split off: whether it was `-`, and the rest.
pub open spec fn sign_split(s: Seq<char>) -> (bool, Seq<char>) {
    if s.len() > 0 && s[0] == '-' {
        (true, s.drop_first())
    } else if s.len() > 0 && s[0] == '+' {
        (false, s.drop_first())
    } else {
        (false, s)
    }
}

/// Integer and fraction digits of an unsigned decimal: digits with at most
/// one point and at least one digit (`12`, `1.5`, `1.`, `.5`).
pub open spec fn decimal_parts(body: Seq<char>) -> Option<(Seq<char>, Seq<char>)> {
    match first_index_of(body, '.') {
        None => if body.len() > 0 && all_digits(body) {
            Some((body, Seq::empty()))
        } else {
            None
        },
        Some(i) => {
            let ip = body.take(i);
            let fp = body.skip(i + 1);
            if all_digits(ip) && all_digits(fp) && ip.len() + fp.len() > 0 {
                Some((ip, fp))
            } else {
                None
            }
        },
    }
}

/// Digits without leading zeros that stand for a value below the overflow
/// point.
pub open spec fn below_overflow(digits: Seq<char>) -> bool {
    digits.len() < 309 || (digits.len() == 309 && text_lt(digits, OVERFLOW_DIGITS@))
}

/// The canonical text of a decimal: `-` when negative, integer digits
/// without leading zeros (`0` when none are left), then `.` and the fraction
/// digits without trailing zeros, when any are left.
pub open spec fn canonical(neg: bool, ip: Seq<char>, fp: Seq<char>) -> Seq<char> {
    let i = strip_leading_zeros(ip);
    let f = strip_trailing_zeros(fp);
    (if neg { seq!['-'] } else { Seq::<char>::empty() }) + (if i.len() == 0 {
        seq!['0']
    } else {
        i
    }) + (if f.len() == 0 {
        Seq::<char>::empty()
    } else {
        seq!['.'] + f
    })
}

/// The canonical text of a braced number literal, when it is one: a signed
/// decimal without exponent whose value is finite.
pub open spec fn braced_number(s: Seq<char>) -> Option<Seq<char>> {
    let (neg, body) = sign_split(s);
    match decimal_parts(body) {
        None => None,
        Some((ip, fp)) => if below_overflow(strip_leading_zeros(ip)) {
            Some(canonical(neg, ip, fp))
        } else {
            None
        },
    }
}

/// The value of a digit string.
pub open spec fn digits_value(s: Seq<char>) -> nat
    decreases s.len(),
{
    if s.len() == 0 {
        0
    } else {
        digits_value(s.drop_last()) * 10 + (s.last() as nat - '0' as nat) as nat
    }
}

/// Whether `s` reads as an `i64` (`str::parse::<i64>`): an optional sign,
/// at least one digit, and a value in range.
pub open spec fn reads_as_i64(s: Seq<char>) -> bool {
    let (neg, d) = sign_split(s);
    &&& d.len() > 0
    &&& all_digits(d)
    &&& if neg {
        digits_value(d) <= 0x8000_0000_0000_0000
    } else {
        digits_value(d) <= 0x7fff_ffff_ffff_ffff
    }
}

/// `n` zero digits.
pub open spec fn zeros(n: nat) -> Seq<char> {
    Seq::new(n, |i: int| '0')
}

/// Whether the decimal `0.a × 10^k`-shaped value `a × 10^k` (with `a` the
/// significant digits, no leading zeros) is below the overflow point.
pub open spec fn scaled_below_overflow(a: Seq<char>, k: int) -> bool {
    let total = a.len() + k;
    ||| a.len() == 0
    ||| total < 309
    ||| (total == 309 && text_lt(
        (a + zeros(if k > 0 { k as nat } else { 0 })).take(309),
        OVERFLOW_DIGITS@,
    ))
}

/// The position of the exponent mark (`e` or `E`), if any.
pub open spec fn exp_mark(s: Seq<char>) -> Option<int>
    decreases s.len(),
{
    if s.len() == 0 {
        None
    } else if s[0] == 'e' || s[0] == 'E' {
        Some(0)
    } else {
        match exp_mark(s.drop_first()) {
            Some(i) => Some(i + 1),
            None => None,
        }
    }
}

/// Whether `s` reads as a finite double (`str::parse::<f64>` gives a finite
/// value): a signed decimal with an optional exponent. The words `inf`,
/// `infinity` and `nan` read as doubles but never as finite ones.
pub open spec fn reads_as_finite(s: Seq<char>) -> bool {
    let (_neg, body) = sign_split(s);
    let (mant, exp) = match exp_mark(body) {
        Some(i) => (body.take(i), Some(body.skip(i + 1))),
        None => (body, None),
    };
    match decimal_parts(mant) {
        None => false,
        Some((ip, fp)) => match exp {
            None => scaled_below_overflow(strip_leading_zeros(ip + fp), 0 - fp.len()),
            Some(e) => {
                let (eneg, ed) = sign_split(e);
                &&& ed.len() > 0
                &&& all_digits(ed)
                &&& scaled_below_overflow(
                    strip_leading_zeros(ip + fp),
                    (if eneg { -digits_value(ed) } else { digits_value(ed) as int }) - fp.len(),
                )
            },
        },
    }
}

/// The integer a canonical number text stands for, when it has no fraction
/// and lies in `i64` range.
pub open spec fn integral_value(t: Seq<char>) -> Option<int> {
    let (neg, d) = sign_split(t);
    if !all_digits(d) || d.len() == 0 {
        None
    } else if neg {
        if digits_value(d) <= 0x8000_0000_0000_0000 {
            Some(-digits_value(d))
        } else {
            None
        }
    } else if digits_value(d) <= 0x7fff_ffff_ffff_ffff {
        Some(digits_value(d) as int)
    } else {
        None
    }
}

proof fn lemma_strip_leading(s: Seq<char>, k: int)
    requires
        0 <= k <= s.len(),
        forall|j: int| 0 <= j < k ==> s[j] == '0',
        k == s.len() || s[k] != '0',
    ensures
        strip_leading_zeros(s) == s.skip(k),
    decreases k,
{
    if k > 0 {
        lemma_strip_leading(s.drop_first(), k - 1);
        assert(s.drop_first().skip(k - 1) =~= s.skip(k));
    } else {
        assert(s.skip(0) =~= s);
    }
}

proof fn lemma_strip_trailing(s: Seq<char>, k: int)
    requires
        0 <= k <= s.len(),
        forall|j: int| k <= j < s.len() ==> s[j] == '0',
        k == 0 || s[k - 1] != '0',
    ensures
        strip_trailing_zeros(s) == s.take(k),
    decreases s.len() - k,
{
    if k < s.len() {
        lemma_strip_trailing(s.drop_last(), k);
        assert(s.drop_last().take(k) =~= s.take(k));
    } else {
        assert(s.take(k) =~= s);
    }
}

fn strip_left(s: &[char]) -> (r: Vec<char>)
    ensures
        r@ == strip_leading_zeros(s@),
{
    let mut k: usize = 0;
    while k < s.len() && s[k] == '0'
        invariant
            k <= s@.len(),
            forall|j: int| 0 <= j < k ==> s@[j] == '0',
        decreases s@.len() - k,
    {
        k += 1;
    }
    proof {
        lemma_strip_leading(s@, k as int);
    }
    tail_chars(s, k)
}

fn strip_right(s: &[char]) -> (r: Vec<char>)
    ensures
        r@ == strip_trailing_zeros(s@),
{
    let mut k: usize = s.len();
    while k > 0 && s[k - 1] == '0'
        invariant
            k <= s@.len(),
            forall|j: int| k <= j < s@.len() ==> s@[j] == '0',
        decreases k,
    {
        k -= 1;
    }
    proof {
        lemma_strip_trailing(s@, k as int);
    }
    head_chars(s, k)
}

fn only_digits(s: &[char]) -> (r: bool)
    ensures
        r == all_digits(s@),
{
    let mut i: usize = 0;
    while i < s.len()
        invariant
            i <= s@.len(),
            forall|j: int| 0 <= j < i ==> is_digit(#[trigger] s@[j]),
        decreases s@.len() - i,
    {
        if !('0' <= s[i] && s[i] <= '9') {
            assert(!is_digit(s@[i as int]));
            return false;
        }
        i += 1;
    }
    true
}

fn split_sign(s: &[char]) -> (r: (bool, Vec<char>))
    ensures
        r.0 == sign_split(s@).0,
        r.1@ == sign_split(s@).1,
{
    if s.len() > 0 && s[0] == '-' {
        (true, tail_chars(s, 1))
    } else if s.len() > 0 && s[0] == '+' {
        (false, tail_chars(s, 1))
    } else {
        (false, tail_chars(s, 0))
    }
}

fn split_decimal(body: &[char]) -> (r: Option<(Vec<char>, Vec<char>)>)
    ensures
        match decimal_parts(body@) {
            None => r is None,
            Some((ip, fp)) => r matches Some((i, f)) && i@ == ip && f@ == fp,
        },
{
    match find_char(body, '.') {
        None => {
            if body.len() > 0 && only_digits(body) {
                Some((tail_chars(body, 0), Vec::new()))
            } else {
                None
            }
        },
        Some(i) => {
            let n = body.len();
            assert(i < n);
            let ip = head_chars(body, i);
            let fp = tail_chars(body, i + 1);
            if only_digits(&ip) && only_digits(&fp) && (ip.len() > 0 || fp.len() > 0) {
                Some((ip, fp))
            } else {
                None
            }
        },
    }
}

fn overflow_digits() -> (r: Vec<char>)
    ensures
        r@ == OVERFLOW_DIGITS@,
        r@.len() == 309,
{
    proof {
        reveal_strlit("179769313486231580793728971405303415079934132710037826936173778980444968292764750946649017977587207096330286416692887910946555547851940402630657488671505820681908902000708383676273854845817711531764475730270069855571366959622842914819860834936475292719074168444365510704342711559699508093042880177904174497792");
    }
    chars_of(OVERFLOW_DIGITS)
}

fn is_below_overflow(digits: &[char]) -> (r: bool)
    ensures
        r == below_overflow(digits@),
{
    if digits.len() < 309 {
        true
    } else if digits.len() > 309 {
        false
    } else {
        let max = overflow_digits();
        compare_chars(digits, &max) == Order::Less
    }
}

fn canonical_text(neg: bool, ip: &[char], fp: &[char]) -> (r: String)
    ensures
        r@ == canonical(neg, ip@, fp@),
{
    let i = strip_left(ip);
    let f = strip_right(fp);
    let mut r = String::new();
    if neg {
        push_char(&mut r, '-');
    }
    if i.len() == 0 {
        push_char(&mut r, '0');
    } else {
        let t = string_of(&i);
        crate::text::push_text(&mut r, &t);
    }
    if f.len() > 0 {
        push_char(&mut r, '.');
        let t = string_of(&f);
        crate::text::push_text(&mut r, &t);
    }
    assert(r@ =~= canonical(neg, ip@, fp@));
    r
}

impl NumberValue {
    /// Another value holding the same number.
    pub fn copy(&self) -> (r: NumberValue)
        ensures
            r@ == self@,
    {
        NumberValue { text: self.text.clone() }
    }

    /// The canonical text, which is how the number displays.
    pub fn text(&self) -> (r: &String)
        ensures
            r@ == self@,
    {
        &self.text
    }

    /// The number a braced prop literal (`{3}`, `{-1.5}`) stands for:
    /// a signed decimal without exponent, finite. Anything else is `None`.
    pub fn parse(raw: &str) -> (r: Option<NumberValue>)
        ensures
            match braced_number(raw@) {
                Some(t) => r matches Some(n) && n@ == t,
                None => r is None,
            },
    {
        let s = chars_of(raw);
        let (neg, body) = split_sign(&s);
        match split_decimal(&body) {
            None => None,
            Some((ip, fp)) => {
                let i = strip_left(&ip);
                if is_below_overflow(&i) {
                    Some(NumberValue { text: canonical_text(neg, &ip, &fp) })
                } else {
                    None
                }
            },
        }
    }

    /// The integer this number is, when it has no fraction and fits an
    /// `i64`.
    pub fn integral(&self) -> (r: Option<i64>)
        ensures
            match integral_value(self@) {
                Some(v) => r == Some(v as i64),
                None => r is None,
            },
    {
        let s = chars_of(&self.text);
        let (neg, d) = split_sign(&s);
        if d.len() == 0 || !only_digits(&d) {
            return None;
        }
        match digits_u64(&d) {
            None => None,
            Some(v) => {
                if neg {
                    if v <= 0x8000_0000_0000_0000 {
                        if v == 0x8000_0000_0000_0000 {
                            Some(i64::MIN)
                        } else {
                            Some(-(v as i64))
                        }
                    } else {
                        None
                    }
                } else if v <= 0x7fff_ffff_ffff_ffff {
                    Some(v as i64)
                } else {
                    None
                }
            },
        }
    }
}

proof fn lemma_digits_value_prefix(s: Seq<char>, j: int)
    requires
        0 <= j <= s.len(),
        all_digits(s),
    ensures
        digits_value(s.take(j)) <= digits_value(s),
    decreases s.len(),
{
    if j < s.len() {
        lemma_digits_value_prefix(s.drop_last(), j);
        assert(s.drop_last().take(j) =~= s.take(j));
    } else {
        assert(s.take(j) =~= s);
    }
}

/// The value of a digit string, when it is at most 2^63.
fn digits_u64(d: &[char]) -> (r: Option<u64>)
    requires
        all_digits(d@),
    ensures
        match r {
            Some(v) => v == digits_value(d@) && v <= 0x8000_0000_0000_0000,
            None => digits_value(d@) > 0x8000_0000_0000_0000,
        },
{
    let mut v: u64 = 0;
    let mut i: usize = 0;
    while i < d.len()
        invariant
            i <= d@.len(),
            all_digits(d@),
            v == digits_value(d@.take(i as int)),
            v <= 0x8000_0000_0000_0000,
        decreases d@.len() - i,
    {
        assert(d@.take(i + 1).drop_last() =~= d@.take(i as int));
        assert(is_digit(d@[i as int]));
        let digit = (d[i] as u32 - '0' as u32) as u64;
        if v > 0x0CCC_CCCC_CCCC_CCCC {
            proof {
                assert(digits_value(d@.take(i + 1)) > 0x8000_0000_0000_0000);
                lemma_digits_value_prefix(d@, i + 1);
            }
            return None;
        }
        let next = v * 10 + digit;
        if next > 0x8000_0000_0000_0000 {
            proof {
                lemma_digits_value_prefix(d@, i + 1);
            }
            return None;
        }
        v = next;
        i += 1;
    }
    assert(d@.take(d@.len() as int) =~= d@);
    Some(v)
}

/// Whether `s` reads as an `i64`.
pub fn reads_as_int(s: &str) -> (r: bool)
    ensures
        r == reads_as_i64(s@),
{
    let c = chars_of(s);
    let (neg, d) = split_sign(&c);
    if d.len() == 0 || !only_digits(&d) {
        return false;
    }
    match digits_u64(&d) {
        None => false,
        Some(v) => neg || v <= 0x7fff_ffff_ffff_ffff,
    }
}

proof fn lemma_exp_mark_skip(s: Seq<char>, i: int)
    requires
        0 <= i <= s.len(),
        forall|j: int| 0 <= j < i ==> s[j] != 'e' && s[j] != 'E',
    ensures
        exp_mark(s) == (match exp_mark(s.skip(i)) {
            Some(m) => Some(m + i),
            None => None::<int>,
        }),
    decreases i,
{
    if i == 0 {
        assert(s.skip(0) =~= s);
        match exp_mark(s) {
            Some(m) => {},
            None => {},
        }
    } else {
        lemma_exp_mark_skip(s.drop_first(), i - 1);
        assert(s.drop_first().skip(i - 1) =~= s.skip(i));
    }
}

proof fn lemma_exp_mark_bound(s: Seq<char>)
    ensures
        exp_mark(s) matches Some(m) ==> 0 <= m < s.len() && (s[m] == 'e' || s[m] == 'E'),
    decreases s.len(),
{
    if s.len() > 0 {
        lemma_exp_mark_bound(s.drop_first());
    }
}

fn find_exp_mark(s: &[char]) -> (r: Option<usize>)
    ensures
        r is Some <==> exp_mark(s@) is Some,
        r matches Some(m) ==> exp_mark(s@) == Some(m as int) && m < s@.len(),
        exp_mark(s@) matches Some(m) ==> 0 <= m < s@.len(),
{
    proof {
        lemma_exp_mark_bound(s@);
    }
    let mut i: usize = 0;
    while i < s.len()
        invariant
            i <= s@.len(),
            forall|j: int| 0 <= j < i ==> s@[j] != 'e' && s@[j] != 'E',
        decreases s@.len() - i,
    {
        if s[i] == 'e' || s[i] == 'E' {
            proof {
                lemma_exp_mark_skip(s@, i as int);
            }
            return Some(i);
        }
        i += 1;
    }
    proof {
        lemma_exp_mark_skip(s@, i as int);
    }
    None
}

/// The value of a digit string, capped at 2^66.
fn digits_capped(d: &[char]) -> (r: u128)
    requires
        all_digits(d@),
    ensures
        r == if digits_value(d@) < 0x4_0000_0000_0000_0000 {
            digits_value(d@)
        } else {
            0x4_0000_0000_0000_0000
        },
{
    let mut v: u128 = 0;
    let mut i: usize = 0;
    while i < d.len()
        invariant
            i <= d@.len(),
            all_digits(d@),
            v == if digits_value(d@.take(i as int)) < 0x4_0000_0000_0000_0000 {
                digits_value(d@.take(i as int))
            } else {
                0x4_0000_0000_0000_0000
            },
        decreases d@.len() - i,
    {
        assert(d@.take(i + 1).drop_last() =~= d@.take(i as int));
        assert(is_digit(d@[i as int]));
        let digit = (d[i] as u32 - '0' as u32) as u128;
        let next = v * 10 + digit;
        if next < 0x4_0000_0000_0000_0000 {
            v = next;
        } else {
            v = 0x4_0000_0000_0000_0000;
        }
        i += 1;
    }
    assert(d@.take(d@.len() as int) =~= d@);
    v
}

proof fn lemma_scaled_capped(a: Seq<char>, k_exact: int, k: int)
    requires
        a.len() < 0x1_0000_0000_0000_0000,
        (k_exact == k) || (k_exact >= k && k >= 0x4_0000_0000_0000_0000 - 0x1_0000_0000_0000_0000)
            || (k_exact <= k && k <= -0x4_0000_0000_0000_0000),
    ensures
        scaled_below_overflow(a, k_exact) == scaled_below_overflow(a, k),
{
}

fn scaled_check(a: &[char], k: i128) -> (r: bool)
    requires
        -0x5_0000_0000_0000_0000 <= k <= 0x5_0000_0000_0000_0000,
    ensures
        r == scaled_below_overflow(a@, k as int),
{
    if a.len() == 0 {
        return true;
    }
    let total: i128 = a.len() as i128 + k;
    if total < 309 {
        true
    } else if total > 309 {
        false
    } else {
        let m: usize = if a.len() < 309 { a.len() } else { 309 };
        let mut t = head_chars(a, m);
        while t.len() < 309
            invariant
                m <= t@.len() <= 309,
                t@ == a@.take(m as int) + zeros((t@.len() - m) as nat),
            decreases 309 - t@.len(),
        {
            t.push('0');
            assert(t@ =~= a@.take(m as int) + zeros((t@.len() - m) as nat));
        }
        assert(t@ =~= (a@ + zeros(if k > 0 { k as nat } else { 0 })).take(309));
        let max = overflow_digits();
        compare_chars(&t, &max) == Order::Less
    }
}

/// Whether `s` reads as a finite double.
pub fn reads_as_double(s: &str) -> (r: bool)
    ensures
        r == reads_as_finite(s@),
{
    let c = chars_of(s);
    let (_neg, body) = split_sign(&c);
    let mark = find_exp_mark(&body);
    let mant = match mark {
        Some(i) => head_chars(&body, i),
        None => tail_chars(&body, 0),
    };
    proof {
        assert(body@.skip(0) =~= body@);
        assert(body@ == sign_split(s@).1);
        match mark {
            Some(i) => {
                assert(exp_mark(body@) == Some(i as int));
                assert(mant@ == body@.take(i as int));
            },
            None => assert(mant@ == body@),
        }
    }
    match split_decimal(&mant) {
        None => false,
        Some((ip, fp)) => {
            let mut all = ip.clone();
            let mut j: usize = 0;
            while j < fp.len()
                invariant
                    j <= fp@.len(),
                    all@ == ip@ + fp@.take(j as int),
                decreases fp@.len() - j,
            {
                all.push(fp[j]);
                j += 1;
                assert(all@ =~= ip@ + fp@.take(j as int));
            }
            assert(fp@.take(fp@.len() as int) =~= fp@);
            let a = strip_left(&all);
            let flen: i128 = fp.len() as i128;
            match mark {
                None => scaled_check(&a, 0 - flen),
                Some(i) => {
                    let n = body.len();
                    assert(i < n);
                    let e = tail_chars(&body, i + 1);
                    assert(e@ == body@.skip(i + 1));
                    let (eneg, ed) = split_sign(&e);
                    if ed.len() == 0 || !only_digits(&ed) {
                        return false;
                    }
                    let ev = digits_capped(&ed);
                    let k: i128 = if eneg { 0 - (ev as i128) - flen } else { (ev as i128) - flen };
                    let alen = a.len();
                    proof {
                        let ghost ke: int = (if eneg { -digits_value(ed@) } else { digits_value(ed@) as int }) - fp@.len();
                        lemma_scaled_capped(a@, ke, k as int);
                    }
                    scaled_check(&a, k)
                },
            }
        },
    }
}

} // verus!
