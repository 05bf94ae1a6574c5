//! Small string and number helpers shared by the rest of the crate.

use vstd::prelude::*;

verus! {

/// The decimal digits of `n`, most significant first, with no sign and no leading zeros
/// (`0` is the single digit `0`).
pub open spec fn decimal(n: nat) -> Seq<char>
    decreases n,
{
    if n < 10 {
        seq![digit_char(n)]
    } else {
        decimal(n / 10).push(digit_char(n % 10))
    }
}

/// The ASCII character of a single decimal digit.
pub open spec fn digit_char(d: nat) -> char {
    if d == 0 { '0' }
    else if d == 1 { '1' }
    else if d == 2 { '2' }
    else if d == 3 { '3' }
    else if d == 4 { '4' }
    else if d == 5 { '5' }
    else if d == 6 { '6' }
    else if d == 7 { '7' }
    else if d == 8 { '8' }
    else { '9' }
}

fn digit_to_char(d: u64) -> (c: char)
    requires
        d < 10,
    ensures
        c == digit_char(d as nat),
{
    if d == 0 { '0' }
    else if d == 1 { '1' }
    else if d == 2 { '2' }
    else if d == 3 { '3' }
    else if d == 4 { '4' }
    else if d == 5 { '5' }
    else if d == 6 { '6' }
    else if d == 7 { '7' }
    else if d == 8 { '8' }
    else { '9' }
}

/// `n` written in decimal, as `n.to_string()` writes it.
pub fn decimal_string(n: u64) -> (s: String)
    ensures
        s@ == decimal(n as nat),
{
    let mut digits: Vec<char> = Vec::new();
    let mut m = n;
    // digits holds the low-order digits of n, least significant first
    while m >= 10
        invariant
            m <= n,
            decimal(n as nat) == decimal(m as nat) + rev_seq(digits@),
        decreases m,
    {
        let d = m % 10;
        let c = digit_to_char(d);
        proof {
            assert(decimal(m as nat) == decimal((m / 10) as nat).push(digit_char((m % 10) as nat)));
            let old_digits = digits@;
            assert(rev_seq(old_digits.push(c)) =~= seq![c] + rev_seq(old_digits)) by {
                lemma_rev_push(old_digits, c);
            }
            assert(decimal((m / 10) as nat).push(c) + rev_seq(old_digits) =~= decimal((m / 10) as nat) + (seq![c] + rev_seq(old_digits)));
        }
        digits.push(c);
        m = m / 10;
    }
    let last = digit_to_char(m);
    let mut s = String::new();
    s.push(last);
    let mut i = digits.len();
    while i > 0
        invariant
            i <= digits.len(),
            s@ == seq![last] + rev_seq(digits@.subrange(i as int, digits@.len() as int)),
        decreases i,
    {
        i = i - 1;
        proof {
            let tail_old = digits@.subrange((i + 1) as int, digits@.len() as int);
            let tail_new = digits@.subrange(i as int, digits@.len() as int);
            assert(tail_new =~= seq![digits@[i as int]] + tail_old);
            lemma_rev_prepend(tail_old, digits@[i as int]);
        }
        s.push(digits[i]);
    }
    proof {
        assert(digits@.subrange(0, digits@.len() as int) =~= digits@);
    }
    s
}

/// `String::push` appends one character to the end of the string.
pub assume_specification[ String::push ](s: &mut String, ch: char)
    ensures
        final(s)@ == old(s)@.push(ch),
;

/// `s` reversed.
pub open spec fn rev_seq<A>(s: Seq<A>) -> Seq<A>
    decreases s.len(),
{
    if s.len() == 0 {
        Seq::empty()
    } else {
        rev_seq(s.drop_first()).push(s[0])
    }
}

proof fn lemma_rev_push<A>(s: Seq<A>, a: A)
    ensures
        rev_seq(s.push(a)) =~= seq![a] + rev_seq(s),
    decreases s.len(),
{
    if s.len() == 0 {
        assert(s.push(a).drop_first() =~= Seq::<A>::empty());
        assert(rev_seq(s.push(a)) == rev_seq(s.push(a).drop_first()).push(a));
        assert(rev_seq(Seq::<A>::empty()) == Seq::<A>::empty());
    } else {
        assert(s.push(a).drop_first() =~= s.drop_first().push(a));
        lemma_rev_push(s.drop_first(), a);
        assert(rev_seq(s.push(a)) == rev_seq(s.drop_first().push(a)).push(s[0]));
        assert(rev_seq(s) == rev_seq(s.drop_first()).push(s[0]));
        assert((seq![a] + rev_seq(s.drop_first())).push(s[0]) =~= seq![a] + rev_seq(s.drop_first()).push(s[0]));
    }
}

proof fn lemma_rev_prepend<A>(s: Seq<A>, a: A)
    ensures
        rev_seq(seq![a] + s) =~= rev_seq(s).push(a),
{
    assert((seq![a] + s).drop_first() =~= s);
}

} // verus!

verus! {

/// The characters of `s`, in order.
pub fn chars_of(s: &str) -> (v: Vec<char>)
    ensures
        v@ == s@,
{
    broadcast use vstd::string::group_string_axioms;
    let mut v: Vec<char> = Vec::new();
    for c in it: s.chars()
        invariant
            v@ == it.seq().take(it.index() as int),
            it.seq() == s@,
    {
        v.push(c);
    }
    v
}

} // verus!

verus! {

/// Whether two strings hold the same characters.
pub fn str_eq(a: &str, b: &str) -> (r: bool)
    ensures
        r == (a@ == b@),
{
    let x: String = a.to_owned();
    let y: String = b.to_owned();
    x == y
}

} // verus!

verus! {

/// Whether `p` is a prefix of `s`.
pub open spec fn is_prefix(p: Seq<char>, s: Seq<char>) -> bool {
    p.len() <= s.len() && s.take(p.len() as int) == p
}

/// The characters `v[from..to]` as a string.
pub fn string_of_range(v: &Vec<char>, from: usize, to: usize) -> (s: String)
    requires
        from <= to <= v.len(),
    ensures
        s@ == v@.subrange(from as int, to as int),
{
    let mut s = String::new();
    let mut i: usize = from;
    while i < to
        invariant
            from <= i <= to,
            to <= v.len(),
            s@ == v@.subrange(from as int, i as int),
        decreases to - i,
    {
        proof {
            assert(v@.subrange(from as int, i as int + 1) =~= v@.subrange(from as int, i as int).push(v@[i as int]));
        }
        s.push(v[i]);
        i = i + 1;
    }
    s
}

/// `s` with the prefix `p` taken off, if `s` starts with `p`.
pub fn strip_prefix(s: &str, p: &str) -> (r: Option<String>)
    ensures
        r is Some <==> is_prefix(p@, s@),
        r matches Some(t) ==> t@ == s@.skip(p@.len() as int),
{
    let sc = chars_of(s);
    let pc = chars_of(p);
    if pc.len() > sc.len() {
        return None;
    }
    let mut i: usize = 0;
    while i < pc.len()
        invariant
            sc@ == s@,
            pc@ == p@,
            pc.len() <= sc.len(),
            i <= pc.len(),
            forall|m: int| 0 <= m < i ==> sc@[m] == pc@[m],
        decreases pc.len() - i,
    {
        if sc[i] != pc[i] {
            proof {
                assert(s@.take(p@.len() as int)[i as int] != p@[i as int]);
            }
            return None;
        }
        i = i + 1;
    }
    proof {
        assert(s@.take(p@.len() as int) =~= p@);
    }
    Some(string_of_range(&sc, pc.len(), sc.len()))
}

/// `a` followed by `b`.
pub fn concat_str(a: &str, b: &str) -> (s: String)
    ensures
        s@ == a@ + b@,
{
    let bc = chars_of(b);
    let mut s: String = a.to_owned();
    let mut i: usize = 0;
    while i < bc.len()
        invariant
            bc@ == b@,
            i <= bc.len(),
            s@ == a@ + bc@.take(i as int),
        decreases bc.len() - i,
    {
        proof {
            assert(bc@.take(i as int + 1) =~= bc@.take(i as int).push(bc@[i as int]));
        }
        s.push(bc[i]);
        i = i + 1;
    }
    proof {
        assert(bc@.take(i as int) =~= bc@);
    }
    s
}

} // verus!

verus! {

/// Whether `c` has the Unicode `White_Space` property, as `char::is_whitespace` documents.
pub open spec fn is_whitespace(c: char) -> bool {
    ('\u{9}' <= c && c <= '\u{d}') || c == ' ' || c == '\u{85}' || c == '\u{a0}' || c == '\u{1680}'
        || ('\u{2000}' <= c && c <= '\u{200a}') || c == '\u{2028}' || c == '\u{2029}' || c
        == '\u{202f}' || c == '\u{205f}' || c == '\u{3000}'
}

pub fn char_is_whitespace(c: char) -> (r: bool)
    ensures
        r == is_whitespace(c),
{
    ('\u{9}' <= c && c <= '\u{d}') || c == ' ' || c == '\u{85}' || c == '\u{a0}' || c == '\u{1680}'
        || ('\u{2000}' <= c && c <= '\u{200a}') || c == '\u{2028}' || c == '\u{2029}' || c
        == '\u{202f}' || c == '\u{205f}' || c == '\u{3000}'
}

/// `s` without its leading whitespace.
pub open spec fn trim_start(s: Seq<char>) -> Seq<char>
    decreases s.len(),
{
    if s.len() > 0 && is_whitespace(s[0]) {
        trim_start(s.drop_first())
    } else {
        s
    }
}

/// `s` without its trailing whitespace.
pub open spec fn trim_end(s: Seq<char>) -> Seq<char>
    decreases s.len(),
{
    if s.len() > 0 && is_whitespace(s.last()) {
        trim_end(s.drop_last())
    } else {
        s
    }
}

/// `s` without leading and trailing whitespace, as `str::trim` gives it.
pub open spec fn trim(s: Seq<char>) -> Seq<char> {
    trim_end(trim_start(s))
}

/// `str::trim`: `s` without leading and trailing whitespace.
pub fn trim_str(s: &str) -> (t: String)
    ensures
        t@ == trim(s@),
{
    let c = chars_of(s);
    let mut start: usize = 0;
    proof {
        assert(c@.skip(0) =~= c@);
    }
    while start < c.len() && char_is_whitespace(c[start])
        invariant
            c@ == s@,
            start <= c@.len(),
            trim_start(s@) == trim_start(c@.skip(start as int)),
        decreases c.len() - start,
    {
        proof {
            assert(c@.skip(start as int).drop_first() =~= c@.skip(start as int + 1));
        }
        start = start + 1;
    }
    let mut end: usize = c.len();
    proof {
        assert(c@.subrange(start as int, end as int) =~= c@.skip(start as int));
        if start < c.len() {
            assert(c@.skip(start as int)[0] == c@[start as int]);
        }
    }
    while end > start && char_is_whitespace(c[end - 1])
        invariant
            c@ == s@,
            start <= end <= c@.len(),
            trim(s@) == trim_end(c@.subrange(start as int, end as int)),
        decreases end - start,
    {
        proof {
            assert(c@.subrange(start as int, end as int).drop_last() =~= c@.subrange(start as int, end - 1));
        }
        end = end - 1;
    }
    string_of_range(&c, start, end)
}

/// Whether `s` is empty or all whitespace, as `s.trim().is_empty()` tells.
pub fn is_blank(s: &str) -> (r: bool)
    ensures
        r == (trim(s@).len() == 0),
{
    let t = trim_str(s);
    t.as_str().is_empty()
}

/// The lowercase form of `s`, as `str::to_lowercase` maps it (Unicode lowercase mapping,
/// independent of locale).
pub uninterp spec fn str_lowercase(s: Seq<char>) -> Seq<char>;

/// Calls `str::to_lowercase`. Trusted: the result depends on `s` alone, named
/// [`str_lowercase`]; nothing more of the Unicode mapping is stated.
#[verifier::external_body]
pub(crate) fn lowercase(s: &str) -> (r: String)
    ensures
        r@ == str_lowercase(s@),
{
    s.to_lowercase()
}

/// Whether `c` is an ASCII decimal digit.
pub open spec fn is_digit(c: char) -> bool {
    '0' <= c && c <= '9'
}

/// The value of the decimal digits `d`.
pub open spec fn digits_value(d: Seq<char>) -> nat
    decreases d.len(),
{
    if d.len() == 0 {
        0
    } else {
        digits_value(d.drop_last()) * 10 + ((d.last() as u32 - '0' as u32) as nat)
    }
}

/// The digits part of an unsigned number: `s` without one leading `+`.
pub open spec fn unsigned_digits(s: Seq<char>) -> Seq<char> {
    if s.len() > 0 && s[0] == '+' {
        s.drop_first()
    } else {
        s
    }
}

/// Whether every character of `d` is an ASCII digit.
pub open spec fn all_digits(d: Seq<char>) -> bool {
    forall|i: int| 0 <= i < d.len() ==> is_digit(#[trigger] d[i])
}

/// `s.parse::<u16>()`: an optional leading `+`, then one or more ASCII digits whose value
/// fits in a `u16`; anything else fails.
pub open spec fn parse_u16_spec(s: Seq<char>) -> Option<u16> {
    let digits = unsigned_digits(s);
    if digits.len() == 0 {
        None
    } else if all_digits(digits) && digits_value(digits) <= u16::MAX {
        Some(digits_value(digits) as u16)
    } else {
        None
    }
}

proof fn lemma_digits_value_grows(d: Seq<char>, n: int)
    requires
        0 <= n <= d.len(),
        all_digits(d),
    ensures
        digits_value(d.take(n)) <= digits_value(d),
    decreases d.len() - n,
{
    if n < d.len() {
        lemma_digits_value_grows(d, n + 1);
        assert(d.take(n + 1).drop_last() =~= d.take(n));
        assert(d.take(n + 1).last() == d[n]);
    } else {
        assert(d.take(n) =~= d);
    }
}

/// `s.parse::<u16>()` (see [`parse_u16_spec`]).
pub fn parse_u16(s: &str) -> (r: Option<u16>)
    ensures
        r == parse_u16_spec(s@),
{
    let c = chars_of(s);
    let mut i: usize = 0;
    if c.len() > 0 && c[0] == '+' {
        i = 1;
    }
    let ghost digits = unsigned_digits(s@);
    proof {
        assert(digits =~= c@.skip(i as int));
    }
    if i >= c.len() {
        return None;
    }
    let start = i;
    let mut value: u32 = 0;
    proof {
        assert(digits.take(0) =~= Seq::<char>::empty());
    }
    while i < c.len()
        invariant
            c@ == s@,
            digits == c@.skip(start as int),
            digits == unsigned_digits(s@),
            digits.len() > 0,
            start <= i <= c@.len(),
            value == digits_value(digits.take(i - start)),
            value <= u16::MAX,
            forall|m: int| 0 <= m < i - start ==> is_digit(#[trigger] digits[m]),
        decreases c.len() - i,
    {
        let ch = c[i];
        proof {
            assert(digits[i - start] == ch);
        }
        if !('0' <= ch && ch <= '9') {
            proof {
                assert(!is_digit(digits[i - start]));
                assert(!all_digits(digits));
            }
            return None;
        }
        let d: u32 = (ch as u32) - ('0' as u32);
        proof {
            assert(digits.take(i - start + 1).drop_last() =~= digits.take(i - start));
            assert(digits.take(i - start + 1).last() == ch);
        }
        value = value * 10 + d;
        if value > 65535 {
            proof {
                if all_digits(digits) {
                    lemma_digits_value_grows(digits, i - start + 1);
                }
            }
            return None;
        }
        i = i + 1;
    }
    proof {
        assert(digits.take(i - start) =~= digits);
    }
    Some(value as u16)
}


/// The digits part of a signed number: `s` without one leading `+` or `-`.
pub open spec fn signed_digits(s: Seq<char>) -> Seq<char> {
    if s.len() > 0 && (s[0] == '+' || s[0] == '-') {
        s.drop_first()
    } else {
        s
    }
}

/// `s.parse::<i64>()`: an optional leading `+` or `-`, then one or more ASCII digits whose
/// signed value fits in an `i64`; anything else fails.
pub open spec fn parse_i64_spec(s: Seq<char>) -> Option<i64> {
    let digits = signed_digits(s);
    let negative = s.len() > 0 && s[0] == '-';
    if digits.len() == 0 || !all_digits(digits) {
        None
    } else if negative {
        if digits_value(digits) <= 0x8000_0000_0000_0000 {
            Some((0 - digits_value(digits)) as i64)
        } else {
            None
        }
    } else if digits_value(digits) <= i64::MAX {
        Some(digits_value(digits) as i64)
    } else {
        None
    }
}

/// `s.parse::<i64>()` (see [`parse_i64_spec`]).
pub fn parse_i64(s: &str) -> (r: Option<i64>)
    ensures
        r == parse_i64_spec(s@),
{
    let c = chars_of(s);
    let mut i: usize = 0;
    let negative = c.len() > 0 && c[0] == '-';
    if c.len() > 0 && (c[0] == '+' || c[0] == '-') {
        i = 1;
    }
    let ghost digits = signed_digits(s@);
    proof {
        assert(digits =~= c@.skip(i as int));
    }
    if i >= c.len() {
        return None;
    }
    let bound: u64 = if negative { 0x8000_0000_0000_0000 } else { 0x7fff_ffff_ffff_ffff };
    let start = i;
    let mut value: u64 = 0;
    proof {
        assert(digits.take(0) =~= Seq::<char>::empty());
    }
    while i < c.len()
        invariant
            c@ == s@,
            digits == c@.skip(start as int),
            digits == signed_digits(s@),
            digits.len() > 0,
            negative == (s@.len() > 0 && s@[0] == '-'),
            bound == (if negative { 0x8000_0000_0000_0000u64 } else { 0x7fff_ffff_ffff_ffffu64 }),
            start <= i <= c@.len(),
            value == digits_value(digits.take(i - start)),
            value <= bound,
            forall|m: int| 0 <= m < i - start ==> is_digit(#[trigger] digits[m]),
        decreases c.len() - i,
    {
        let ch = c[i];
        proof {
            assert(digits[i - start] == ch);
        }
        if !('0' <= ch && ch <= '9') {
            proof {
                assert(!is_digit(digits[i - start]));
                assert(!all_digits(digits));
            }
            return None;
        }
        let d: u64 = (ch as u64) - ('0' as u64);
        proof {
            assert(digits.take(i - start + 1).drop_last() =~= digits.take(i - start));
            assert(digits.take(i - start + 1).last() == ch);
        }
        if value > (bound - d) / 10 {
            proof {
                assert(value * 10 + d > bound) by (nonlinear_arith)
                    requires
                        value > (bound - d) / 10,
                        d <= 9,
                        d <= bound,
                ;
                if all_digits(digits) {
                    lemma_digits_value_grows(digits, i - start + 1);
                }
            }
            return None;
        }
        proof {
            assert(value * 10 + d <= bound) by (nonlinear_arith)
                requires
                    value <= (bound - d) / 10,
                    d <= 9,
                    d <= bound,
            ;
        }
        value = value * 10 + d;
        i = i + 1;
    }
    proof {
        assert(digits.take(i - start) =~= digits);
    }
    if negative {
        if value == 0x8000_0000_0000_0000 {
            Some(i64::MIN)
        } else {
            Some(0 - (value as i64))
        }
    } else {
        Some(value as i64)
    }
}

} // verus!
