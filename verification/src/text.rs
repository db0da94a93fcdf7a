use vstd::prelude::*;

verus! {

/// The characters of `s`, in order.
pub fn chars_of(s: &str) -> (res: Vec<char>)
    ensures
        res@ == s@,
{
    let mut res: Vec<char> = Vec::new();
    for c in it: s.chars()
        invariant
            res@ == it.seq().take(it.index() as int),
            it.seq() == s@,
    {
        res.push(c);
    }
    res
}


/// The text made of `chars`, in order.
#[verifier::external_body]
pub fn string_from_chars(chars: &[char]) -> (res: String)
    ensures
        res@ == chars@,
{
    chars.iter().collect()
}

/// `a` followed by `b`.
pub fn concat(a: &str, b: &str) -> (res: String)
    ensures
        res@ == a@ + b@,
{
    let mut s = a.to_owned();
    s.append(b);
    s
}

/// Whether `a` and `b` hold the same text.
pub fn str_eq(a: &str, b: &str) -> (res: bool)
    ensures
        res == (a@ == b@),
{
    let ca = chars_of(a);
    let cb = chars_of(b);
    crate::path::chars_equal(&ca, &cb)
}

/// The ASCII letters `A`..`Z` map to `a`..`z`; every other character is unchanged.
pub open spec fn ascii_lower(c: char) -> char {
    if 'A' <= c && c <= 'Z' {
        ((c as u32) + 32) as char
    } else {
        c
    }
}

/// The ASCII letters `a`..`z` map to `A`..`Z`; every other character is unchanged.
pub open spec fn ascii_upper(c: char) -> char {
    if 'a' <= c && c <= 'z' {
        ((c as u32) - 32) as char
    } else {
        c
    }
}

pub open spec fn lower_all(s: Seq<char>) -> Seq<char> {
    Seq::new(s.len(), |i: int| ascii_lower(s[i]))
}

pub open spec fn upper_all(s: Seq<char>) -> Seq<char> {
    Seq::new(s.len(), |i: int| ascii_upper(s[i]))
}

pub fn ascii_lower_char(c: char) -> (res: char)
    ensures
        res == ascii_lower(c),
{
    if 'A' <= c && c <= 'Z' {
        ((c as u8) + 32) as char
    } else {
        c
    }
}

pub fn ascii_upper_char(c: char) -> (res: char)
    ensures
        res == ascii_upper(c),
{
    if 'a' <= c && c <= 'z' {
        ((c as u8) - 32) as char
    } else {
        c
    }
}

/// `s` with its ASCII letters in lower case.
pub fn to_ascii_lowercase(s: &str) -> (res: Vec<char>)
    ensures
        res@ == lower_all(s@),
{
    let chars = chars_of(s);
    let mut res: Vec<char> = Vec::new();
    for i in 0..chars.len()
        invariant
            chars@ == s@,
            res@ == lower_all(s@).take(i as int),
    {
        res.push(ascii_lower_char(chars[i]));
        assert(lower_all(s@).take(i + 1) =~= lower_all(s@).take(i as int).push(ascii_lower(s@[i as int])));
    }
    assert(lower_all(s@).take(chars.len() as int) =~= lower_all(s@));
    res
}

/// `s` with its ASCII letters in upper case.
pub fn to_ascii_uppercase(s: &Vec<char>) -> (res: Vec<char>)
    ensures
        res@ == upper_all(s@),
{
    let mut res: Vec<char> = Vec::new();
    for i in 0..s.len()
        invariant
            res@ == upper_all(s@).take(i as int),
    {
        res.push(ascii_upper_char(s[i]));
        assert(upper_all(s@).take(i + 1) =~= upper_all(s@).take(i as int).push(ascii_upper(s@[i as int])));
    }
    assert(upper_all(s@).take(s.len() as int) =~= upper_all(s@));
    res
}

/// The characters that Unicode classes as white space (the `White_Space` property).
pub open spec fn is_whitespace(c: char) -> bool {
    ('\u{9}' <= c && c <= '\u{d}') || c == ' ' || c == '\u{85}' || c == '\u{a0}' || c == '\u{1680}'
        || ('\u{2000}' <= c && c <= '\u{200a}') || c == '\u{2028}' || c == '\u{2029}' || c == '\u{202f}'
        || c == '\u{205f}' || c == '\u{3000}'
}

pub fn is_whitespace_char(c: char) -> (res: bool)
    ensures
        res == is_whitespace(c),
{
    ('\u{9}' <= c && c <= '\u{d}') || c == ' ' || c == '\u{85}' || c == '\u{a0}' || c == '\u{1680}'
        || ('\u{2000}' <= c && c <= '\u{200a}') || c == '\u{2028}' || c == '\u{2029}' || c == '\u{202f}'
        || c == '\u{205f}' || c == '\u{3000}'
}

/// Text that is empty once surrounding white space is trimmed.
pub open spec fn is_blank(s: Seq<char>) -> bool {
    forall|i: int| 0 <= i < s.len() ==> is_whitespace(#[trigger] s[i])
}

/// Whether `s` holds only white space.
pub fn blank(s: &str) -> (res: bool)
    ensures
        res == is_blank(s@),
{
    let chars = chars_of(s);
    for i in 0..chars.len()
        invariant
            chars@ == s@,
            forall|j: int| 0 <= j < i ==> is_whitespace(#[trigger] s@[j]),
    {
        if !is_whitespace_char(chars[i]) {
            return false;
        }
    }
    true
}

pub open spec fn is_ascii_digit(c: char) -> bool {
    '0' <= c && c <= '9'
}

pub open spec fn is_ascii_alphanumeric(c: char) -> bool {
    ('0' <= c && c <= '9') || ('a' <= c && c <= 'z') || ('A' <= c && c <= 'Z')
}

pub open spec fn is_ascii_hexdigit(c: char) -> bool {
    ('0' <= c && c <= '9') || ('a' <= c && c <= 'f') || ('A' <= c && c <= 'F')
}

pub fn ascii_alphanumeric(c: char) -> (res: bool)
    ensures
        res == is_ascii_alphanumeric(c),
{
    ('0' <= c && c <= '9') || ('a' <= c && c <= 'z') || ('A' <= c && c <= 'Z')
}

pub fn ascii_hexdigit(c: char) -> (res: bool)
    ensures
        res == is_ascii_hexdigit(c),
{
    ('0' <= c && c <= '9') || ('a' <= c && c <= 'f') || ('A' <= c && c <= 'F')
}

/// `needle` occurs in `hay` starting at position `at`.
pub open spec fn occurs_at(hay: Seq<char>, needle: Seq<char>, at: int) -> bool {
    0 <= at && at + needle.len() <= hay.len() && hay.subrange(at, at + needle.len()) == needle
}

/// `needle` occurs somewhere in `hay`.
pub open spec fn contains_text(hay: Seq<char>, needle: Seq<char>) -> bool {
    exists|at: int| occurs_at(hay, needle, at)
}

/// Whether `needle` occurs in `hay` at position `at`.
pub fn occurs_at_exec(hay: &Vec<char>, needle: &Vec<char>, at: usize) -> (res: bool)
    ensures
        res == occurs_at(hay@, needle@, at as int),
{
    if at > hay.len() || needle.len() > hay.len() - at {
        return false;
    }
    let mut k: usize = 0;
    while k < needle.len()
        invariant
            at + needle.len() <= hay.len(),
            k <= needle.len(),
            forall|j: int| 0 <= j < k ==> hay@[at + j] == needle@[j],
        decreases needle.len() - k,
    {
        if hay[at + k] != needle[k] {
            assert(hay@.subrange(at as int, at + needle.len())[k as int] != needle@[k as int]);
            return false;
        }
        k = k + 1;
    }
    assert(hay@.subrange(at as int, at + needle.len()) =~= needle@);
    true
}

/// Whether `needle` occurs somewhere in `hay`.
pub fn contains_chars(hay: &Vec<char>, needle: &Vec<char>) -> (res: bool)
    ensures
        res == contains_text(hay@, needle@),
{
    let mut at: usize = 0;
    while at < hay.len()
        invariant
            at <= hay.len(),
            forall|j: int| 0 <= j < at ==> !occurs_at(hay@, needle@, j),
        decreases hay.len() - at,
    {
        if occurs_at_exec(hay, needle, at) {
            return true;
        }
        at = at + 1;
    }
    if occurs_at_exec(hay, needle, at) {
        return true;
    }
    assert forall|j: int| !occurs_at(hay@, needle@, j) by {
        if 0 <= j && j + needle@.len() <= hay@.len() {
            assert(j <= at);
        }
    }
    false
}

/// Whether the text of `v` equals the text of `s`.
pub fn chars_match(v: &Vec<char>, s: &str) -> (res: bool)
    ensures
        res == (v@ == s@),
{
    let c = chars_of(s);
    crate::path::chars_equal(v, &c)
}

/// The decimal digit for `d`, which is below ten.
pub open spec fn digit_char(d: nat) -> char {
    ((d + 48) as u32) as char
}

/// The value of a decimal digit.
pub open spec fn digit_value(c: char) -> nat {
    ((c as u32) - 48) as nat
}

/// The decimal text of `n`, without leading zeros.
pub open spec fn decimal_text(n: nat) -> Seq<char>
    decreases n,
{
    if n < 10 {
        seq![digit_char(n)]
    } else {
        decimal_text(n / 10).push(digit_char(n % 10))
    }
}

/// The value of the decimal digits `s`.
pub open spec fn digits_value(s: Seq<char>) -> nat
    decreases s.len(),
{
    if s.len() == 0 {
        0
    } else {
        digits_value(s.drop_last()) * 10 + digit_value(s.last())
    }
}

/// `s` is one or more decimal digits.
pub open spec fn all_digits(s: Seq<char>) -> bool {
    s.len() > 0 && forall|i: int| 0 <= i < s.len() ==> is_ascii_digit(#[trigger] s[i])
}

/// The unsigned integer that `s` writes, with an optional leading `+`, as Rust's integer
/// parsers read it; `None` when `s` writes none.
pub open spec fn unsigned_value(s: Seq<char>) -> Option<nat> {
    let body = if s.len() > 0 && s[0] == '+' { s.drop_first() } else { s };
    if all_digits(body) { Some(digits_value(body)) } else { None }
}

/// The decimal text of `n`.
pub fn decimal(n: u64) -> (res: String)
    ensures
        res@ == decimal_text(n as nat),
{
    let mut digits: Vec<char> = Vec::new();
    let mut m: u64 = n;
    // digits collected least significant first
    while m >= 10
        invariant
            decimal_text(n as nat) == decimal_text(m as nat) + digits@.reverse(),
        decreases m,
    {
        let d = (m % 10) as u8;
        let c = (d + 48) as char;
        proof {
            assert(decimal_text(m as nat) == decimal_text((m / 10) as nat).push(digit_char((m % 10) as nat)));
            assert(c == digit_char((m % 10) as nat));
            assert(digits@.push(c).reverse() =~= seq![c] + digits@.reverse());
            assert(decimal_text((m / 10) as nat).push(c) + digits@.reverse() =~= decimal_text((m / 10) as nat) + (seq![c] + digits@.reverse()));
        }
        digits.push(c);
        m = m / 10;
    }
    let c = ((m as u8) + 48) as char;
    proof {
        assert(c == digit_char(m as nat));
    }
    digits.push(c);
    let mut out: Vec<char> = Vec::new();
    let mut k: usize = digits.len();
    assert(digits@.reverse() =~= seq![c] + digits@.drop_last().reverse());
    while k > 0
        invariant
            k <= digits@.len(),
            out@ == digits@.reverse().take((digits@.len() - k) as int),
        decreases k,
    {
        k = k - 1;
        out.push(digits[k]);
        assert(digits@.reverse().take((digits@.len() - k) as int) =~= digits@.reverse().take((digits@.len() - k - 1) as int).push(digits@[k as int]));
    }
    assert(digits@.reverse().take(digits@.len() as int) =~= digits@.reverse());
    assert(out@ =~= decimal_text(n as nat));
    string_from_chars(out.as_slice())
}

proof fn lemma_digits_value_prefix(s: Seq<char>, i: int)
    requires
        0 <= i < s.len(),
    ensures
        digits_value(s.take(i + 1)) == digits_value(s.take(i)) * 10 + digit_value(s[i]),
{
    assert(s.take(i + 1).drop_last() =~= s.take(i));
}

/// The unsigned integer that `s` writes, if it fits `limit`.
pub fn parse_unsigned(s: &str, limit: u64) -> (res: Option<u64>)
    ensures
        match unsigned_value(s@) {
            Some(v) => if v <= limit { res == Some(v as u64) } else { res is None },
            None => res is None,
        },
{
    let chars = chars_of(s);
    let start: usize = if chars.len() > 0 && chars[0] == '+' { 1 } else { 0 };
    let ghost body = if s@.len() > 0 && s@[0] == '+' { s@.drop_first() } else { s@ };
    assert(body =~= s@.skip(start as int));
    if start >= chars.len() {
        return None;
    }
    let mut value: u64 = 0;
    let mut over = false;
    let mut i: usize = start;
    while i < chars.len()
        invariant
            start <= i <= chars@.len(),
            start < chars@.len(),
            chars@ == s@,
            body == s@.skip(start as int),
            body == (if s@.len() > 0 && s@[0] == '+' { s@.drop_first() } else { s@ }),
            forall|k: int| start <= k < i ==> is_ascii_digit(#[trigger] chars@[k]),
            !over ==> value as nat == digits_value(body.take(i - start)) && value <= limit,
            over ==> digits_value(body.take(i - start)) > limit,
        decreases chars.len() - i,
    {
        let c = chars[i];
        if !('0' <= c && c <= '9') {
            proof {
                assert(body[i - start] == c);
                assert(0 <= i - start < body.len());
                assert(!is_ascii_digit(body[i - start]));
                assert(!all_digits(body));
            }
            return None;
        }
        let d = (c as u32 - 48) as u64;
        proof {
            lemma_digits_value_prefix(body, i - start);
            assert(body[i - start] == c);
            assert(d == digit_value(c));
        }
        if !over {
            let next: u128 = value as u128 * 10 + d as u128;
            if next > limit as u128 {
                over = true;
            } else {
                value = next as u64;
            }
        } else {
            proof {
                assert(digits_value(body.take(i - start + 1)) >= digits_value(body.take(i - start))) by (nonlinear_arith)
                    requires
                        digits_value(body.take(i - start + 1)) == digits_value(body.take(i - start)) * 10 + d,
                {
                }
            }
        }
        i = i + 1;
    }
    proof {
        assert(body.take(body.len() as int) =~= body);
        assert(all_digits(body)) by {
            assert forall|k: int| 0 <= k < body.len() implies is_ascii_digit(#[trigger] body[k]) by {
                assert(body[k] == chars@[k + start]);
            }
        }
    }
    if over { None } else { Some(value) }
}


/// `s` with every occurrence of the non-empty `pattern` replaced by `value`, scanning from the
/// left without overlaps, as `str::replace` does.
pub open spec fn replace_all(s: Seq<char>, pattern: Seq<char>, value: Seq<char>) -> Seq<char>
    decreases s.len(),
{
    if pattern.len() == 0 || s.len() < pattern.len() {
        s
    } else if s.take(pattern.len() as int) == pattern {
        value + replace_all(s.skip(pattern.len() as int), pattern, value)
    } else {
        seq![s[0]] + replace_all(s.drop_first(), pattern, value)
    }
}

/// `s` with every occurrence of `pattern` replaced by `value`.
pub fn replace_text(s: &str, pattern: &str, value: &str) -> (res: String)
    requires
        pattern@.len() > 0,
    ensures
        res@ == replace_all(s@, pattern@, value@),
{
    let chars = chars_of(s);
    let pat = chars_of(pattern);
    let val = chars_of(value);
    let mut out: Vec<char> = Vec::new();
    let mut i: usize = 0;
    assert(chars@.skip(0) =~= chars@);
    while i < chars.len()
        invariant
            i <= chars@.len(),
            chars@ == s@,
            pat@ == pattern@,
            val@ == value@,
            pat@.len() > 0,
            out@ + replace_all(chars@.skip(i as int), pat@, val@) == replace_all(s@, pattern@, value@),
        decreases chars.len() - i,
    {
        let ghost rest = chars@.skip(i as int);
        if occurs_at_exec(&chars, &pat, i) {
            assert(rest.take(pat@.len() as int) =~= chars@.subrange(i as int, i + pat@.len()));
            assert(rest.skip(pat@.len() as int) =~= chars@.skip(i + pat@.len()));
            let ghost before = out@;
            let mut k: usize = 0;
            while k < val.len()
                invariant
                    k <= val@.len(),
                    out@ == before + val@.take(k as int),
                decreases val.len() - k,
            {
                out.push(val[k]);
                assert(val@.take(k + 1) =~= val@.take(k as int).push(val@[k as int]));
                k = k + 1;
            }
            assert(val@.take(val@.len() as int) =~= val@);
            assert(out@ + replace_all(chars@.skip(i + pat@.len()), pat@, val@) =~= before + (val@ + replace_all(rest.skip(pat@.len() as int), pat@, val@)));
            i = i + pat.len();
        } else {
            proof {
                if rest.len() >= pat@.len() {
                    assert(rest.take(pat@.len() as int) =~= chars@.subrange(i as int, i + pat@.len()));
                }
            }
            let ghost before = out@;
            out.push(chars[i]);
            assert(rest.drop_first() =~= chars@.skip(i + 1));
            assert(rest[0] == chars@[i as int]);
            assert(out@ + replace_all(chars@.skip(i + 1), pat@, val@) =~= before + (seq![rest[0]] + replace_all(rest.drop_first(), pat@, val@)));
            i = i + 1;
        }
    }
    assert(chars@.skip(i as int) =~= Seq::<char>::empty());
    assert(out@ + Seq::<char>::empty() =~= out@);
    string_from_chars(out.as_slice())
}

} // verus!
