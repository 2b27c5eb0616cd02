//! Small text functions that the rest of the crate shares: cutting a text at
//! a separator, reading a decimal number and writing one.

use vstd::prelude::*;
use vstd::std_specs::iter::IteratorSpec;
use vstd::string::StringExecFns;

verus! {

/// The view of an optional text.
pub open spec fn text_of(s: Option<String>) -> Option<Seq<char>> {
    match s {
        Some(t) => Some(t@),
        None => None,
    }
}

/// Whether `p` is the place of the first `c` in `s`, or the length of `s`
/// where `s` holds no `c`.
pub open spec fn is_first(s: Seq<char>, c: char, p: int) -> bool {
    &&& 0 <= p <= s.len()
    &&& p < s.len() ==> s[p] == c
    &&& forall|k: int| 0 <= k < p ==> s[k] != c
}

/// The place of the first `c` in `s`, or the length of `s`.
pub open spec fn first_of(s: Seq<char>, c: char) -> int {
    choose|p: int| is_first(s, c, p)
}

/// Whether `p` is the place just behind the last `c` in `s`, or 0 where `s`
/// holds no `c`.
pub open spec fn is_tail_start(s: Seq<char>, c: char, p: int) -> bool {
    &&& 0 <= p <= s.len()
    &&& p > 0 ==> s[p - 1] == c
    &&& forall|k: int| p <= k < s.len() ==> s[k] != c
}

/// The place just behind the last `c` in `s`, or 0.
pub open spec fn tail_start(s: Seq<char>, c: char) -> int {
    choose|p: int| is_tail_start(s, c, p)
}

/// What stands before the first `c` in `s`: all of `s` where it holds none.
pub open spec fn before_first(s: Seq<char>, c: char) -> Seq<char> {
    s.take(first_of(s, c))
}

/// What stands behind the last `c` in `s`: all of `s` where it holds none.
pub open spec fn after_last(s: Seq<char>, c: char) -> Seq<char> {
    s.skip(tail_start(s, c))
}

/// Whether `s` begins with `prefix`.
pub open spec fn begins_with(s: Seq<char>, prefix: Seq<char>) -> bool {
    prefix.len() <= s.len() && s.take(prefix.len() as int) == prefix
}

/// Whether `c` is one of the ten decimal digits.
pub open spec fn is_digit(c: char) -> bool {
    '0' <= c <= '9'
}

/// The value of the digit `c`.
pub open spec fn digit_value(c: char) -> nat {
    (c as u32 - '0' as u32) as nat
}

/// Whether `s` holds digits only.
pub open spec fn all_digits(s: Seq<char>) -> bool {
    forall|i: int| 0 <= i < s.len() ==> is_digit(#[trigger] s[i])
}

/// The number that the digits `s` write in base ten.
pub open spec fn digits_value(s: Seq<char>) -> nat
    decreases s.len(),
{
    if s.len() == 0 {
        0
    } else {
        digits_value(s.drop_last()) * 10 + digit_value(s.last())
    }
}

/// `s` without a plus sign in front.
pub open spec fn unsigned_part(s: Seq<char>) -> Seq<char> {
    if s.len() > 0 && s[0] == '+' {
        s.skip(1)
    } else {
        s
    }
}

/// The number that `s` writes, as `str::parse::<u32>` reads it: an optional
/// plus sign and then one digit or more, nothing else, and a value that a
/// `u32` can hold.
pub open spec fn parsed_u32(s: Seq<char>) -> Option<u32> {
    let digits = unsigned_part(s);
    if digits.len() > 0 && all_digits(digits) && digits_value(digits) <= u32::MAX {
        Some(digits_value(digits) as u32)
    } else {
        None
    }
}

/// The digit that writes `d`.
pub open spec fn digit_char(d: nat) -> char {
    if d == 0 {
        '0'
    } else if d == 1 {
        '1'
    } else if d == 2 {
        '2'
    } else if d == 3 {
        '3'
    } else if d == 4 {
        '4'
    } else if d == 5 {
        '5'
    } else if d == 6 {
        '6'
    } else if d == 7 {
        '7'
    } else if d == 8 {
        '8'
    } else {
        '9'
    }
}

/// `n` written in base ten, without leading zeros.
pub open spec fn decimal(n: nat) -> Seq<char>
    decreases n,
{
    if n < 10 {
        seq![digit_char(n)]
    } else {
        decimal(n / 10).push(digit_char(n % 10))
    }
}

/// There is one first place only.
pub proof fn lemma_first_is_unique(s: Seq<char>, c: char, p: int)
    requires
        is_first(s, c, p),
    ensures
        first_of(s, c) == p,
{
    let q = first_of(s, c);
    assert(is_first(s, c, q));
    if q < p {
        assert(s[q] != c);
    } else if p < q {
        assert(s[p] != c);
    }
}

/// There is one tail only.
pub proof fn lemma_tail_is_unique(s: Seq<char>, c: char, p: int)
    requires
        is_tail_start(s, c, p),
    ensures
        tail_start(s, c) == p,
{
    let q = tail_start(s, c);
    assert(is_tail_start(s, c, q));
    if q < p {
        assert(s[p - 1] != c);
    } else if p < q {
        assert(s[q - 1] != c);
    }
}

/// The digits of a number are worth at least as much as any of their
/// prefixes.
pub proof fn lemma_prefix_value(s: Seq<char>, k: int)
    requires
        0 <= k <= s.len(),
    ensures
        digits_value(s.take(k)) <= digits_value(s),
    decreases s.len(),
{
    if k == s.len() {
        assert(s.take(k) =~= s);
    } else {
        assert(s.drop_last().take(k) =~= s.take(k));
        lemma_prefix_value(s.drop_last(), k);
    }
}

/// The characters of `text`.
pub fn chars_of(text: &str) -> (out: Vec<char>)
    ensures
        out@ == text@,
{
    broadcast use vstd::string::group_string_axioms;

    let mut out: Vec<char> = Vec::new();
    let mut rest = text.chars();
    loop
        invariant
            rest.obeys_prophetic_iter_laws(),
            rest.decrease() is Some,
            out@ + rest.remaining() == text@,
        decreases rest.decrease()->0,
    {
        match rest.next() {
            Some(c) => {
                out.push(c);
                assert(out@ + rest.remaining() =~= text@);
            },
            None => {
                assert(out@ =~= text@);
                return out;
            },
        }
    }
}

/// The place of the first `c` in `chars`, or their number.
pub fn find_first(chars: &Vec<char>, c: char) -> (p: usize)
    ensures
        p == first_of(chars@, c),
        is_first(chars@, c, p as int),
{
    let mut i: usize = 0;
    while i < chars.len() && chars[i] != c
        invariant
            i <= chars.len(),
            forall|k: int| 0 <= k < i ==> chars@[k] != c,
        decreases chars.len() - i,
    {
        i += 1;
    }
    proof {
        lemma_first_is_unique(chars@, c, i as int);
    }
    i
}

/// The place just behind the last `c` in `chars`, or 0.
pub fn find_tail(chars: &Vec<char>, c: char) -> (p: usize)
    ensures
        p == tail_start(chars@, c),
        is_tail_start(chars@, c, p as int),
{
    let mut i: usize = chars.len();
    while i > 0 && chars[i - 1] != c
        invariant
            i <= chars.len(),
            forall|k: int| i <= k < chars.len() ==> chars@[k] != c,
        decreases i,
    {
        i -= 1;
    }
    proof {
        lemma_tail_is_unique(chars@, c, i as int);
    }
    i
}

/// What stands before the first `c` in `text`.
pub fn text_before_first(text: &str, c: char) -> (out: String)
    ensures
        out@ == before_first(text@, c),
{
    let chars = chars_of(text);
    let p = find_first(&chars, c);
    text.substring_char(0, p).to_owned()
}

/// What stands behind the last `c` in `text`.
pub fn text_after_last(text: &str, c: char) -> (out: String)
    ensures
        out@ == after_last(text@, c),
{
    let chars = chars_of(text);
    let p = find_tail(&chars, c);
    text.substring_char(p, chars.len()).to_owned()
}

/// Whether `chars` begin with `prefix`.
pub fn starts_with(chars: &Vec<char>, prefix: &Vec<char>) -> (b: bool)
    ensures
        b == begins_with(chars@, prefix@),
{
    if prefix.len() > chars.len() {
        return false;
    }
    let mut i: usize = 0;
    while i < prefix.len()
        invariant
            i <= prefix.len() <= chars.len(),
            forall|k: int| 0 <= k < i ==> chars@[k] == prefix@[k],
        decreases prefix.len() - i,
    {
        if chars[i] != prefix[i] {
            assert(chars@.take(prefix@.len() as int)[i as int] != prefix@[i as int]);
            return false;
        }
        i += 1;
    }
    assert(chars@.take(prefix@.len() as int) =~= prefix@);
    true
}

/// Reads `text` as a decimal number, as `str::parse::<u32>` does.
pub fn parse_u32(text: &str) -> (number: Option<u32>)
    ensures
        number == parsed_u32(text@),
{
    let chars = chars_of(text);
    let start: usize = if chars.len() > 0 && chars[0] == '+' {
        1
    } else {
        0
    };
    let ghost digits = unsigned_part(text@);
    if start == chars.len() {
        return None;
    }
    let mut value: u64 = 0;
    let mut i: usize = start;
    assert(digits.take(0) =~= Seq::<char>::empty());
    while i < chars.len()
        invariant
            start <= i <= chars.len(),
            chars@ == text@,
            digits == unsigned_part(text@),
            digits == chars@.skip(start as int),
            all_digits(digits.take(i - start)),
            value == digits_value(digits.take(i - start)),
            value <= u32::MAX,
        decreases chars.len() - i,
    {
        let c = chars[i];
        assert(digits[i - start] == c);
        if c < '0' || c > '9' {
            assert(!is_digit(digits[i - start]));
            return None;
        }
        let digit: u64 = (c as u32 - '0' as u32) as u64;
        value = value * 10 + digit;
        proof {
            assert(digits.take(i - start + 1).drop_last() =~= digits.take(i - start));
            assert(digits.take(i - start + 1).last() == c);
            assert(value == digits_value(digits.take(i - start + 1)));
            assert forall|k: int| 0 <= k < i - start + 1 implies is_digit(
                #[trigger] digits.take(i - start + 1)[k],
            ) by {
                if k < i - start {
                    assert(digits.take(i - start)[k] == digits[k]);
                }
            }
        }
        if value > u32::MAX as u64 {
            proof {
                lemma_prefix_value(digits, i - start + 1);
            }
            return None;
        }
        i += 1;
    }
    assert(digits.take(i - start) =~= digits);
    Some(value as u32)
}

fn digit_text(d: u32) -> (out: &'static str)
    requires
        d < 10,
    ensures
        out@ == seq![digit_char(d as nat)],
{
    proof {
        reveal_strlit("0");
        reveal_strlit("1");
        reveal_strlit("2");
        reveal_strlit("3");
        reveal_strlit("4");
        reveal_strlit("5");
        reveal_strlit("6");
        reveal_strlit("7");
        reveal_strlit("8");
        reveal_strlit("9");
    }
    let out = if d == 0 {
        "0"
    } else if d == 1 {
        "1"
    } else if d == 2 {
        "2"
    } else if d == 3 {
        "3"
    } else if d == 4 {
        "4"
    } else if d == 5 {
        "5"
    } else if d == 6 {
        "6"
    } else if d == 7 {
        "7"
    } else if d == 8 {
        "8"
    } else {
        "9"
    };
    assert(out@ =~= seq![digit_char(d as nat)]);
    out
}

/// Writes `n` in base ten.
pub fn decimal_text(n: u32) -> (out: String)
    ensures
        out@ == decimal(n as nat),
    decreases n,
{
    if n < 10 {
        digit_text(n).to_owned()
    } else {
        let mut out = decimal_text(n / 10);
        out.append(digit_text(n % 10));
        assert(out@ =~= decimal(n as nat));
        out
    }
}


/// Whether `c` has the Unicode property `White_Space`, as
/// `char::is_whitespace` tells it.
pub uninterp spec fn white_space(c: char) -> bool;

/// `char::is_whitespace`. The contract only gives the answer its name: the
/// same character always gets the same answer.
#[verifier::external_body]
pub(crate) fn is_white_space(c: char) -> (b: bool)
    ensures
        b == white_space(c),
{
    c.is_whitespace()
}

/// Whether `p` is the place of the first character of `s` that is no white
/// space, or the length of `s` where there is none.
pub open spec fn is_word_start(s: Seq<char>, p: int) -> bool {
    &&& 0 <= p <= s.len()
    &&& p < s.len() ==> !white_space(s[p])
    &&& forall|k: int| 0 <= k < p ==> white_space(#[trigger] s[k])
}

/// Whether the characters of `s` from `from` up to `p` are no white space
/// and `p` is a white space or the end of `s`.
pub open spec fn is_word_end(s: Seq<char>, from: int, p: int) -> bool {
    &&& 0 <= from <= p <= s.len()
    &&& p < s.len() ==> white_space(s[p])
    &&& forall|k: int| from <= k < p ==> !white_space(#[trigger] s[k])
}

/// The first word of `s`: its first run of characters that are no white
/// space. There is none where `s` is empty or all white space.
pub open spec fn first_word(s: Seq<char>) -> Option<Seq<char>> {
    let from = choose|p: int| is_word_start(s, p);
    let to = choose|p: int| is_word_end(s, from, p);
    if from < s.len() {
        Some(s.subrange(from, to))
    } else {
        None
    }
}

/// The first word of `text`.
pub fn first_word_of(text: &str) -> (word: Option<String>)
    ensures
        text_of(word) == first_word(text@),
{
    let chars = chars_of(text);
    let mut from: usize = 0;
    while from < chars.len() && is_white_space(chars[from])
        invariant
            from <= chars.len(),
            forall|k: int| 0 <= k < from ==> white_space(#[trigger] chars@[k]),
        decreases chars.len() - from,
    {
        from += 1;
    }
    let mut to: usize = from;
    while to < chars.len() && !is_white_space(chars[to])
        invariant
            from <= to <= chars.len(),
            forall|k: int| from <= k < to ==> !white_space(#[trigger] chars@[k]),
        decreases chars.len() - to,
    {
        to += 1;
    }
    proof {
        let s = chars@;
        assert(is_word_start(s, from as int));
        let a = choose|p: int| is_word_start(s, p);
        if a < from {
            assert(white_space(s[a]));
        } else if from < a {
            assert(white_space(s[from as int]));
        }
        assert(is_word_end(s, a, to as int));
        let e = choose|p: int| is_word_end(s, a, p);
        if e < to {
            assert(!white_space(s[e]));
        } else if to < e {
            assert(!white_space(s[to as int]));
        }
    }
    if from < chars.len() {
        Some(text.substring_char(from, to).to_owned())
    } else {
        None
    }
}

/// `s` without a carriage return at its end.
pub open spec fn without_cr(s: Seq<char>) -> Seq<char> {
    if s.len() > 0 && s.last() == '\r' {
        s.drop_last()
    } else {
        s
    }
}

/// The lines of `s`, as `str::lines` cuts them: each ends at a line feed,
/// which is left out together with a carriage return before it; what stands
/// behind the last line feed is a line too, unless it is empty.
pub open spec fn lines_of(s: Seq<char>) -> Seq<Seq<char>>
    decreases s.len(),
{
    let p = first_of(s, '\n');
    if s.len() == 0 {
        Seq::empty()
    } else if 0 <= p < s.len() {
        seq![without_cr(s.take(p))] + lines_of(s.skip(p + 1))
    } else {
        seq![s]
    }
}

/// The contents of a list of texts.
pub open spec fn texts(list: Seq<String>) -> Seq<Seq<char>> {
    list.map_values(|t: String| t@)
}

/// The lines of `text`.
pub fn lines(text: &str) -> (out: Vec<String>)
    ensures
        texts(out@) == lines_of(text@),
{
    let chars = chars_of(text);
    let mut out: Vec<String> = Vec::new();
    let mut start: usize = 0;
    let mut i: usize = 0;
    assert(texts(out@) =~= Seq::<Seq<char>>::empty());
    assert(chars@.skip(0) =~= chars@);
    while i < chars.len()
        invariant
            start <= i <= chars.len(),
            chars@ == text@,
            forall|k: int| start <= k < i ==> chars@[k] != '\n',
            texts(out@) + lines_of(chars@.skip(start as int)) == lines_of(text@),
        decreases chars.len() - i,
    {
        if chars[i] == '\n' {
            let end: usize = if i > start && chars[i - 1] == '\r' {
                i - 1
            } else {
                i
            };
            let line = text.substring_char(start, end).to_owned();
            proof {
                let rest = chars@.skip(start as int);
                lemma_first_is_unique(rest, '\n', i - start);
                assert(rest.take(i - start) =~= chars@.subrange(start as int, i as int));
                assert(without_cr(rest.take(i - start)) =~= line@);
                assert(rest.skip(i - start + 1) =~= chars@.skip(i + 1));
                assert(texts(out@.push(line)) =~= texts(out@).push(line@));
                assert(texts(out@).push(line@) + lines_of(chars@.skip(i + 1)) =~= texts(out@)
                    + lines_of(rest));
            }
            out.push(line);
            start = i + 1;
        }
        i += 1;
    }
    if start < chars.len() {
        let line = text.substring_char(start, chars.len()).to_owned();
        proof {
            let rest = chars@.skip(start as int);
            lemma_first_is_unique(rest, '\n', rest.len() as int);
            assert(line@ =~= rest);
            assert(texts(out@.push(line)) =~= texts(out@).push(line@));
            assert(texts(out@).push(line@) =~= texts(out@) + lines_of(rest));
        }
        out.push(line);
    } else {
        assert(texts(out@) + lines_of(chars@.skip(start as int)) =~= texts(out@));
    }
    out
}


/// `host`, a colon and `port` in base ten.
pub open spec fn endpoint(host: Seq<char>, port: u16) -> Seq<char> {
    host + seq![':'] + decimal(port as nat)
}

/// The text that names `port` on `host`.
pub fn endpoint_text(host: &str, port: u16) -> (out: String)
    ensures
        out@ == endpoint(host@, port),
{
    proof {
        reveal_strlit(":");
    }
    let mut out = host.to_owned();
    out.append(":");
    let number = decimal_text(port as u32);
    out.append(number.as_str());
    assert(out@ =~= endpoint(host@, port));
    out
}

} // verus!
