//! Text primitives: characters in and out of strings, decimal numbers, trimming,
//! prefixes and searches, all stated over `Seq<char>`.
use vstd::prelude::*;
use vstd::string::*;
use vstd::utf8::*;

verus! {

/// `String::push` of std: the character goes to the end of the string.
pub assume_specification[ String::push ](s: &mut String, ch: char)
    ensures
        final(s)@ == old(s)@.push(ch),
;

/// Whether a character has Unicode's White_Space property.
pub open spec fn unicode_white_space(c: char) -> bool {
    ||| '\u{9}' <= c <= '\u{d}'
    ||| c == ' ' || c == '\u{85}' || c == '\u{a0}' || c == '\u{1680}'
    ||| '\u{2000}' <= c <= '\u{200a}'
    ||| c == '\u{2028}' || c == '\u{2029}' || c == '\u{202f}' || c == '\u{205f}'
    ||| c == '\u{3000}'
}

/// `char::is_whitespace` of std: whether the character has Unicode's White_Space property.
pub assume_specification[ char::is_whitespace ](c: char) -> (b: bool)
    ensures
        b == unicode_white_space(c),
;

/// `String::from_utf8` of std: a string exactly when the bytes are UTF-8, and then
/// the string that those bytes encode.
#[verifier::external_body]
pub(crate) fn utf8_text(bytes: &[u8]) -> (text: Option<String>)
    ensures
        text is Some <==> valid_utf8(bytes@),
        text matches Some(s) ==> s@ == decode_utf8(bytes@),
{
    String::from_utf8(bytes.to_vec()).ok()
}

/// The characters of a string.
pub fn chars_of(s: &str) -> (out: Vec<char>)
    ensures
        out@ == s@,
{
    let mut out: Vec<char> = Vec::new();
    for c in it: s.chars()
        invariant
            out@ == it.seq().take(it.index() as int),
            it.seq() == s@,
    {
        out.push(c);
    }
    out
}

/// The string made of the characters `from .. to`.
pub fn string_of(chars: &[char], from: usize, to: usize) -> (out: String)
    requires
        from <= to <= chars@.len(),
    ensures
        out@ == chars@.subrange(from as int, to as int),
{
    let mut out = String::new();
    let mut i: usize = from;
    while i < to
        invariant
            from <= i <= to <= chars@.len(),
            out@ == chars@.subrange(from as int, i as int),
        decreases to - i,
    {
        out.push(chars[i]);
        i += 1;
        proof {
            assert(chars@.subrange(from as int, i as int) =~= chars@.subrange(
                from as int,
                i - 1,
            ).push(chars@[i - 1]));
        }
    }
    out
}

/// An ASCII decimal digit.
pub open spec fn is_digit(c: char) -> bool {
    '0' <= c && c <= '9'
}

/// The number a digit stands for.
pub open spec fn digit_of(c: char) -> nat {
    (c as int - '0' as int) as nat
}

/// Whether every character is a decimal digit.
pub open spec fn all_digits(s: Seq<char>) -> bool {
    forall|i: int| 0 <= i < s.len() ==> is_digit(#[trigger] s[i])
}

/// The number that a row of digits writes, most significant first.
pub open spec fn digits_value(s: Seq<char>) -> nat
    decreases s.len(),
{
    if s.len() == 0 {
        0
    } else {
        digits_value(s.drop_last()) * 10 + digit_of(s.last())
    }
}

/// What `s` writes as an unsigned decimal number: an optional `+`, then at least
/// one digit and nothing else, and a value up to `max`.
pub open spec fn unsigned_decimal(s: Seq<char>, max: nat) -> Option<nat> {
    let body = if s.len() > 0 && s[0] == '+' {
        s.skip(1)
    } else {
        s
    };
    if body.len() > 0 && all_digits(body) && digits_value(body) <= max {
        Some(digits_value(body))
    } else {
        None
    }
}

/// What `s` writes as an `i32`: an optional sign, then at least one digit and
/// nothing else, and a value in range.
pub open spec fn signed_decimal(s: Seq<char>) -> Option<int> {
    if s.len() > 0 && s[0] == '-' {
        let body = s.skip(1);
        if body.len() > 0 && all_digits(body) && digits_value(body) <= 0x8000_0000 {
            Some(-(digits_value(body) as int))
        } else {
            None
        }
    } else {
        match unsigned_decimal(s, 0x7fff_ffff) {
            Some(n) => Some(n as int),
            None => None,
        }
    }
}

/// A longer row of digits never writes a smaller number.
proof fn lemma_digits_value_grows(s: Seq<char>, n: int)
    requires
        0 <= n <= s.len(),
        all_digits(s),
    ensures
        digits_value(s.take(n)) <= digits_value(s),
    decreases s.len() - n,
{
    if n == s.len() {
        assert(s.take(n) =~= s);
    } else {
        lemma_digits_value_grows(s, n + 1);
        assert(s.take(n + 1).drop_last() =~= s.take(n));
        assert(is_digit(s[n]));
    }
}

/// The value of a row of digits, unless it is empty, holds something else or
/// passes `max`.
fn parse_digits(chars: &[char], from: usize, max: u64) -> (value: Option<u64>)
    requires
        from <= chars@.len(),
        max <= 0xffff_ffff,
    ensures
        ({
            let body = chars@.skip(from as int);
            if body.len() > 0 && all_digits(body) && digits_value(body) <= max {
                value == Some(digits_value(body) as u64)
            } else {
                value is None
            }
        }),
{
    let ghost body = chars@.skip(from as int);
    if from == chars.len() {
        return None;
    }
    let mut value: u64 = 0;
    let mut i: usize = from;
    while i < chars.len()
        invariant
            from <= i <= chars@.len(),
            max <= 0xffff_ffff,
            value <= max,
            body == chars@.skip(from as int),
            forall|j: int| 0 <= j < i - from ==> is_digit(#[trigger] body[j]),
            value == digits_value(body.take(i - from)),
        decreases chars@.len() - i,
    {
        let c = chars[i];
        assert(body[i - from] == c);
        if !('0' <= c && c <= '9') {
            assert(!is_digit(body[i - from]));
            return None;
        }
        let digit: u64 = (c as u32 - '0' as u32) as u64;
        assert(body.take(i - from + 1).drop_last() =~= body.take(i - from));
        value = value * 10 + digit;
        i += 1;
        if value > max {
            proof {
                if all_digits(body) {
                    lemma_digits_value_grows(body, i - from);
                }
            }
            return None;
        }
    }
    assert(body.take(i - from) =~= body);
    Some(value)
}

/// The unsigned decimal number that the characters write, up to `max`.
pub fn parse_unsigned(chars: &[char], max: u64) -> (value: Option<u64>)
    requires
        max <= 0xffff_ffff,
    ensures
        value is Some <==> unsigned_decimal(chars@, max as nat) is Some,
        value matches Some(v) ==> unsigned_decimal(chars@, max as nat) == Some(v as nat),
{
    if chars.len() > 0 && chars[0] == '+' {
        parse_digits(chars, 1, max)
    } else {
        assert(chars@.skip(0) =~= chars@);
        parse_digits(chars, 0, max)
    }
}

/// The `i32` that the characters write in decimal.
pub fn parse_i32(chars: &[char]) -> (value: Option<i32>)
    ensures
        value is Some <==> signed_decimal(chars@) is Some,
        value matches Some(v) ==> signed_decimal(chars@) == Some(v as int),
{
    if chars.len() > 0 && chars[0] == '-' {
        match parse_digits(chars, 1, 0x8000_0000) {
            Some(v) => Some((-(v as i64)) as i32),
            None => None,
        }
    } else {
        match parse_unsigned(chars, 0x7fff_ffff) {
            Some(v) => Some(v as i32),
            None => None,
        }
    }
}

/// Where the text without surrounding white space starts.
pub open spec fn trim_start(s: Seq<char>) -> int
    decreases s.len(),
{
    if s.len() > 0 && unicode_white_space(s[0]) {
        1 + trim_start(s.skip(1))
    } else {
        0
    }
}

/// Where the text without surrounding white space ends.
pub open spec fn trim_end(s: Seq<char>) -> int
    decreases s.len(),
{
    if s.len() > 0 && unicode_white_space(s.last()) {
        trim_end(s.drop_last())
    } else {
        s.len() as int
    }
}

/// The text without the white space at its two ends.
pub open spec fn trimmed(s: Seq<char>) -> Seq<char> {
    let rest = s.skip(trim_start(s));
    rest.take(trim_end(rest))
}

/// The text without the white space at its two ends.
pub fn trim(chars: &[char]) -> (out: Vec<char>)
    ensures
        out@ == trimmed(chars@),
{
    let mut start: usize = 0;
    assert(chars@.skip(0) =~= chars@);
    while start < chars.len() && chars[start].is_whitespace()
        invariant
            start <= chars@.len(),
            trim_start(chars@) == start + trim_start(chars@.skip(start as int)),
        decreases chars@.len() - start,
    {
        assert(chars@.skip(start as int)[0] == chars@[start as int]);
        assert(chars@.skip(start as int).skip(1) =~= chars@.skip(start + 1));
        start += 1;
    }
    assert(trim_start(chars@) == start) by {
        if start < chars@.len() {
            assert(chars@.skip(start as int)[0] == chars@[start as int]);
        }
    }
    let ghost rest = chars@.skip(start as int);
    let mut end: usize = chars.len();
    assert(rest.take(end - start) =~= rest);
    while end > start && chars[end - 1].is_whitespace()
        invariant
            start <= end <= chars@.len(),
            rest == chars@.skip(start as int),
            trim_end(rest) == trim_end(rest.take(end - start)),
        decreases end - start,
    {
        assert(rest.take(end - start).last() == chars@[end - 1]);
        assert(rest.take(end - start).drop_last() =~= rest.take(end - start - 1));
        end -= 1;
    }
    assert(trim_end(rest) == end - start) by {
        if end > start {
            assert(rest.take(end - start).last() == chars@[end - 1]);
        }
    }
    let mut out: Vec<char> = Vec::new();
    let mut i: usize = start;
    while i < end
        invariant
            start <= i <= end <= chars@.len(),
            rest == chars@.skip(start as int),
            out@ == rest.take(i - start),
        decreases end - i,
    {
        out.push(chars[i]);
        assert(rest.take(i - start + 1) =~= rest.take(i - start).push(chars@[i as int]));
        i += 1;
    }
    out
}

/// Whether two strings hold the same characters.
pub fn same_text(a: &str, b: &str) -> (same: bool)
    ensures
        same == (a@ == b@),
{
    let left = chars_of(a);
    let right = chars_of(b);
    if left.len() != right.len() {
        return false;
    }
    let mut i: usize = 0;
    while i < left.len()
        invariant
            i <= left@.len() == right@.len(),
            forall|j: int| 0 <= j < i ==> left@[j] == right@[j],
            left@ == a@,
            right@ == b@,
        decreases left@.len() - i,
    {
        if left[i] != right[i] {
            return false;
        }
        i += 1;
    }
    assert(left@ =~= right@);
    true
}

/// Whether `needle` stands in `hay` at position `at`.
pub open spec fn stands_at<A>(hay: Seq<A>, needle: Seq<A>, at: int) -> bool {
    0 <= at && at + needle.len() <= hay.len() && hay.subrange(at, at + needle.len()) == needle
}

/// Whether `hay` contains `needle` anywhere.
pub open spec fn contains_seq<A>(hay: Seq<A>, needle: Seq<A>) -> bool {
    exists|at: int| stands_at(hay, needle, at)
}

/// Whether the characters from `at` on begin with `needle`.
pub fn found_at(hay: &[char], needle: &[char], at: usize) -> (found: bool)
    requires
        at <= hay@.len(),
    ensures
        found == stands_at(hay@, needle@, at as int),
{
    if hay.len() - at < needle.len() {
        return false;
    }
    let mut i: usize = 0;
    while i < needle.len()
        invariant
            i <= needle@.len(),
            at + needle@.len() <= hay.len(),
            forall|j: int| 0 <= j < i ==> hay@[at + j] == #[trigger] needle@[j],
        decreases needle@.len() - i,
    {
        if hay[at + i] != needle[i] {
            assert(hay@.subrange(at as int, at + needle@.len())[i as int] != needle@[i as int]);
            return false;
        }
        i += 1;
    }
    assert(hay@.subrange(at as int, at + needle@.len()) =~= needle@);
    true
}

/// Whether `hay` contains `needle` anywhere.
pub fn contains_chars(hay: &[char], needle: &[char]) -> (found: bool)
    ensures
        found == contains_seq(hay@, needle@),
{
    let mut at: usize = 0;
    while at < hay.len()
        invariant
            at <= hay@.len(),
            forall|j: int| 0 <= j < at ==> !#[trigger] stands_at(hay@, needle@, j),
        decreases hay@.len() - at,
    {
        if found_at(hay, needle, at) {
            return true;
        }
        at += 1;
    }
    let last = found_at(hay, needle, at);
    assert(last ==> stands_at(hay@, needle@, at as int));
    assert forall|j: int| stands_at(hay@, needle@, j) implies last by {
        assert(j <= hay@.len());
    }
    last
}

/// Where a character first stands, or the end.
pub open spec fn first_pos(s: Seq<char>, c: char) -> int
    decreases s.len(),
{
    if s.len() == 0 || s[0] == c {
        0
    } else {
        1 + first_pos(s.skip(1), c)
    }
}

/// Where a character last stands, or -1.
pub open spec fn last_pos(s: Seq<char>, c: char) -> int
    decreases s.len(),
{
    if s.len() == 0 || s.last() == c {
        s.len() - 1
    } else {
        last_pos(s.drop_last(), c)
    }
}

/// What [`first_pos`] finds.
pub proof fn lemma_first_pos(s: Seq<char>, c: char)
    ensures
        0 <= first_pos(s, c) <= s.len(),
        first_pos(s, c) < s.len() ==> s[first_pos(s, c)] == c,
        forall|j: int| 0 <= j < first_pos(s, c) ==> #[trigger] s[j] != c,
    decreases s.len(),
{
    if s.len() > 0 && s[0] != c {
        lemma_first_pos(s.skip(1), c);
        assert forall|j: int| 0 <= j < first_pos(s, c) implies #[trigger] s[j] != c by {
            if j > 0 {
                assert(s.skip(1)[j - 1] == s[j]);
            }
        }
    }
}

/// Where a character first stands, if it does.
pub fn find_char(chars: &[char], c: char) -> (at: Option<usize>)
    ensures
        match at {
            Some(i) => i < chars@.len() && i == first_pos(chars@, c),
            None => first_pos(chars@, c) == chars@.len(),
        },
{
    let mut i: usize = 0;
    assert(chars@.skip(0) =~= chars@);
    while i < chars.len()
        invariant
            i <= chars@.len(),
            first_pos(chars@, c) == i + first_pos(chars@.skip(i as int), c),
        decreases chars@.len() - i,
    {
        assert(chars@.skip(i as int)[0] == chars@[i as int]);
        if chars[i] == c {
            return Some(i);
        }
        assert(chars@.skip(i as int).skip(1) =~= chars@.skip(i + 1));
        i += 1;
    }
    None
}

/// Where a character last stands, if it does.
pub fn rfind_char(chars: &[char], c: char) -> (at: Option<usize>)
    ensures
        match at {
            Some(i) => i < chars@.len() && i == last_pos(chars@, c),
            None => last_pos(chars@, c) == -1,
        },
{
    let mut i: usize = chars.len();
    assert(chars@.take(i as int) =~= chars@);
    while i > 0
        invariant
            i <= chars@.len(),
            last_pos(chars@, c) == last_pos(chars@.take(i as int), c),
        decreases i,
    {
        let ghost head = chars@.take(i as int);
        assert(head.last() == chars@[i - 1]);
        assert(head.drop_last() =~= chars@.take(i - 1));
        i -= 1;
        if chars[i] == c {
            return Some(i);
        }
    }
    None
}

/// The text that std's Unicode lowercasing makes of a text.
pub uninterp spec fn lowercase(s: Seq<char>) -> Seq<char>;

/// `str::to_lowercase` of std: the result depends on the text alone.
#[verifier::external_body]
pub(crate) fn lowered(s: &str) -> (out: String)
    ensures
        out@ == lowercase(s@),
{
    s.to_lowercase()
}

/// The decimal digits of a number, without leading zeros.
pub open spec fn decimal_text(n: nat) -> Seq<char>
    decreases n,
{
    if n < 10 {
        seq![(n + '0' as nat) as char]
    } else {
        decimal_text(n / 10).push((n % 10 + '0' as nat) as char)
    }
}

/// The decimal digits of a number.
pub fn decimal_chars(n: u64) -> (out: Vec<char>)
    ensures
        out@ == decimal_text(n as nat),
    decreases n,
{
    if n < 10 {
        let mut out: Vec<char> = Vec::new();
        out.push((n as u8 + 0x30u8) as char);
        assert(out@ =~= decimal_text(n as nat));
        out
    } else {
        let mut out = decimal_chars(n / 10);
        out.push(((n % 10) as u8 + 0x30u8) as char);
        out
    }
}

/// A number read back from its decimal digits is that number.
pub proof fn law_decimal_text_reads_back(n: nat)
    ensures
        decimal_text(n).len() > 0,
        all_digits(decimal_text(n)),
        digits_value(decimal_text(n)) == n,
    decreases n,
{
    if n < 10 {
        assert(decimal_text(n).drop_last() =~= Seq::<char>::empty());
        assert(digits_value(Seq::<char>::empty()) == 0);
        assert(decimal_text(n).last() == (n + '0' as nat) as char);
    } else {
        law_decimal_text_reads_back(n / 10);
        assert(decimal_text(n).drop_last() =~= decimal_text(n / 10));
    }
}

/// Appends the characters of `n` in decimal to a string.
pub fn push_decimal(out: &mut String, n: u64)
    ensures
        final(out)@ == old(out)@ + decimal_text(n as nat),
{
    let digits = decimal_chars(n);
    let mut i: usize = 0;
    while i < digits.len()
        invariant
            i <= digits@.len(),
            digits@ == decimal_text(n as nat),
            out@ == old(out)@ + digits@.take(i as int),
        decreases digits@.len() - i,
    {
        out.push(digits[i]);
        assert(digits@.take(i + 1) =~= digits@.take(i as int).push(digits@[i as int]));
        i += 1;
    }
    assert(digits@.take(i as int) =~= digits@);
}

/// Whether `a` comes strictly before `b`, character by character.
pub open spec fn text_before(a: Seq<char>, b: Seq<char>) -> bool
    decreases a.len(),
{
    if b.len() == 0 {
        false
    } else if a.len() == 0 {
        true
    } else if a[0] != b[0] {
        a[0] < b[0]
    } else {
        text_before(a.skip(1), b.skip(1))
    }
}

/// The order on text is total and never holds both ways.
pub proof fn lemma_text_order(a: Seq<char>, b: Seq<char>)
    ensures
        a == b ==> !text_before(a, b),
        a != b ==> (text_before(a, b) <==> !text_before(b, a)),
    decreases a.len(),
{
    if a.len() > 0 && b.len() > 0 && a[0] == b[0] {
        lemma_text_order(a.skip(1), b.skip(1));
        if a.skip(1) == b.skip(1) {
            assert(a =~= seq![a[0]] + a.skip(1));
            assert(b =~= seq![b[0]] + b.skip(1));
        }
    } else if a.len() == 0 && b.len() == 0 {
        assert(a =~= b);
    }
}

/// The order on text is transitive.
pub proof fn lemma_text_order_transitive(a: Seq<char>, b: Seq<char>, c: Seq<char>)
    requires
        text_before(a, b),
        text_before(b, c),
    ensures
        text_before(a, c),
    decreases a.len(),
{
    if a.len() > 0 && a[0] == b[0] && b[0] == c[0] {
        lemma_text_order_transitive(a.skip(1), b.skip(1), c.skip(1));
    }
}

/// Whether `a` comes strictly before `b`.
pub fn comes_before(a: &[char], b: &[char]) -> (before: bool)
    ensures
        before == text_before(a@, b@),
{
    let mut i: usize = 0;
    assert(a@.skip(0) =~= a@ && b@.skip(0) =~= b@);
    while i < a.len() && i < b.len()
        invariant
            i <= a@.len(),
            i <= b@.len(),
            text_before(a@, b@) == text_before(a@.skip(i as int), b@.skip(i as int)),
        decreases a@.len() - i,
    {
        assert(a@.skip(i as int)[0] == a@[i as int]);
        assert(b@.skip(i as int)[0] == b@[i as int]);
        if a[i] != b[i] {
            return a[i] < b[i];
        }
        assert(a@.skip(i as int).skip(1) =~= a@.skip(i + 1));
        assert(b@.skip(i as int).skip(1) =~= b@.skip(i + 1));
        i += 1;
    }
    i < b.len()
}

/// Trimming takes the white space off both ends and nothing else.
pub proof fn law_trimming_takes_the_white_space_at_the_ends(
    before: Seq<char>,
    body: Seq<char>,
    behind: Seq<char>,
)
    requires
        forall|i: int| 0 <= i < before.len() ==> unicode_white_space(#[trigger] before[i]),
        forall|i: int| 0 <= i < behind.len() ==> unicode_white_space(#[trigger] behind[i]),
        body.len() > 0 ==> !unicode_white_space(body[0]) && !unicode_white_space(body.last()),
    ensures
        trimmed(before + body + behind) == body,
    decreases before.len() + behind.len(),
{
    let s = before + body + behind;
    if body.len() == 0 {
        assert forall|i: int| 0 <= i < s.len() implies unicode_white_space(#[trigger] s[i]) by {
            if i >= before.len() {
                assert(s[i] == behind[i - before.len()]);
            }
        }
        lemma_trim_start_at(s, s.len() as int);
        assert(s.skip(trim_start(s)) =~= Seq::<char>::empty());
        assert(trimmed(s) =~= body);
    } else {
        assert forall|i: int| 0 <= i < before.len() implies unicode_white_space(
            #[trigger] s[i],
        ) by {
            assert(s[i] == before[i]);
        }
        assert(s[before.len() as int] == body[0]);
        lemma_trim_start_at(s, before.len() as int);
        let rest = s.skip(before.len() as int);
        assert(rest =~= body + behind);
        assert forall|i: int| body.len() <= i < rest.len() implies unicode_white_space(
            #[trigger] rest[i],
        ) by {
            assert(rest[i] == behind[i - body.len()]);
        }
        assert(rest[body.len() - 1] == body.last());
        lemma_trim_end_at(rest, body.len() as int);
        assert(rest.take(body.len() as int) =~= body);
    }
}

proof fn lemma_trim_start_at(s: Seq<char>, at: int)
    requires
        0 <= at <= s.len(),
        forall|i: int| 0 <= i < at ==> unicode_white_space(#[trigger] s[i]),
        at < s.len() ==> !unicode_white_space(s[at]),
    ensures
        trim_start(s) == at,
    decreases s.len(),
{
    if at > 0 {
        let rest = s.skip(1);
        assert forall|i: int| 0 <= i < at - 1 implies unicode_white_space(#[trigger] rest[i]) by {
            assert(rest[i] == s[i + 1]);
        }
        assert(unicode_white_space(s[0]));
        lemma_trim_start_at(rest, at - 1);
    }
}

proof fn lemma_trim_end_at(s: Seq<char>, at: int)
    requires
        0 < at <= s.len(),
        forall|i: int| at <= i < s.len() ==> unicode_white_space(#[trigger] s[i]),
        !unicode_white_space(s[at - 1]),
    ensures
        trim_end(s) == at,
    decreases s.len(),
{
    if at < s.len() {
        assert(unicode_white_space(s[s.len() - 1]));
        let rest = s.drop_last();
        assert forall|i: int| at <= i < rest.len() implies unicode_white_space(
            #[trigger] rest[i],
        ) by {
            assert(rest[i] == s[i]);
        }
        lemma_trim_end_at(rest, at);
    }
}

/// White space is what the Unicode standard lists as such: every character up to U+3000 that is
/// none of these is none, and so is every one beyond.
pub proof fn law_white_space_is_listed(c: char)
    ensures
        unicode_white_space(c) <==> (c as u32 == 0x20 || (0x9 <= c as u32 && c as u32 <= 0xd) || c
            as u32 == 0x85 || c as u32 == 0xa0 || c as u32 == 0x1680 || (0x2000 <= c as u32 && c
            as u32 <= 0x200a) || c as u32 == 0x2028 || c as u32 == 0x2029 || c as u32 == 0x202f
            || c as u32 == 0x205f || c as u32 == 0x3000),
{
}

/// The digits are the ten ASCII ones, each worth its distance from zero.
pub proof fn law_digits_are_worth_their_distance(c: char)
    ensures
        is_digit(c) <==> 0x30 <= c as u32 && c as u32 <= 0x39,
        is_digit(c) ==> digit_of(c) == c as u32 - 0x30,
{
}

/// Each further digit makes the number before it ten times as large and adds to it.
pub proof fn law_digits_count_in_tens(s: Seq<char>, c: char)
    ensures
        digits_value(Seq::<char>::empty()) == 0,
        is_digit(c) ==> digits_value(s.push(c)) == 10 * digits_value(s) + (c as u32 - 0x30),
{
    assert(s.push(c).drop_last() =~= s);
}

/// A number that is written in decimal is read, with a plus sign before it or without, unless it
/// passes the limit.
pub proof fn law_unsigned_numbers_are_read(n: nat, max: nat)
    ensures
        unsigned_decimal(decimal_text(n), max) == (if n <= max {
            Some(n)
        } else {
            None
        }),
        unsigned_decimal(seq!['+'] + decimal_text(n), max) == (if n <= max {
            Some(n)
        } else {
            None
        }),
{
    law_decimal_text_reads_back(n);
    assert(is_digit(decimal_text(n)[0]));
    assert((seq!['+'] + decimal_text(n)).skip(1) =~= decimal_text(n));
}

/// A text that is empty, a lone sign, or holds anything but digits behind its sign is no number.
pub proof fn law_other_text_is_no_number(s: Seq<char>, max: nat, at: int)
    requires
        s.len() == 0 || (s.len() == 1 && (s[0] == '+' || s[0] == '-')) || (0 <= at < s.len()
            && !is_digit(s[at]) && (at > 0 || (s[0] != '+' && s[0] != '-'))),
    ensures
        unsigned_decimal(s, max) is None,
        signed_decimal(s) is None,
{
    if s.len() > 1 {
        if at > 0 {
            assert(s.skip(1)[at - 1] == s[at]);
        }
    }
}

/// A signed number is read with its sign, within the range of 32 bits.
pub proof fn law_signed_numbers_are_read(n: nat)
    ensures
        signed_decimal(decimal_text(n)) == (if n <= 2_147_483_647 {
            Some(n as int)
        } else {
            None
        }),
        signed_decimal(seq!['-'] + decimal_text(n)) == (if n <= 2_147_483_648 {
            Some(-(n as int))
        } else {
            None
        }),
        unsigned_decimal(seq!['-'] + decimal_text(n), n) is None,
{
    law_decimal_text_reads_back(n);
    law_unsigned_numbers_are_read(n, 0x7fff_ffff);
    assert(is_digit(decimal_text(n)[0]));
    let negative = seq!['-'] + decimal_text(n);
    assert(negative.skip(1) =~= decimal_text(n));
    assert(!is_digit(negative[0]));
}

/// A text is contained in another one just where that is something before it, the text, and
/// something behind it.
pub proof fn law_contained_text_stands_between<A>(before: Seq<A>, needle: Seq<A>, behind: Seq<A>)
    ensures
        stands_at(before + needle + behind, needle, before.len() as int),
        contains_seq(before + needle + behind, needle),
{
    let hay = before + needle + behind;
    assert(hay.subrange(before.len() as int, (before.len() + needle.len()) as int) =~= needle);
}

/// Where a text stands in another one, the other one falls into what is before it, the text, and
/// what is behind it.
pub proof fn law_text_falls_apart_where_it_is_found<A>(hay: Seq<A>, needle: Seq<A>, at: int)
    requires
        stands_at(hay, needle, at),
    ensures
        0 <= at <= hay.len() - needle.len(),
        hay == hay.take(at) + needle + hay.skip(at + needle.len()),
{
    assert(hay =~= hay.take(at) + needle + hay.skip(at + needle.len()));
}

/// The first place of a character has none before it, and the last place none behind it.
pub proof fn law_first_and_last_place(before: Seq<char>, c: char, behind: Seq<char>)
    ensures
        !before.contains(c) ==> first_pos(before.push(c) + behind, c) == before.len(),
        !behind.contains(c) ==> last_pos(before.push(c) + behind, c) == before.len(),
        !before.contains(c) ==> first_pos(before, c) == before.len() && last_pos(before, c) == -1,
    decreases before.len() + behind.len(),
{
    let s = before.push(c) + behind;
    if !before.contains(c) {
        lemma_first_pos(s, c);
        let at = first_pos(s, c);
        if at < before.len() {
            assert(before[at] == s[at]);
        }
        if at > before.len() {
            assert(s[before.len() as int] == c);
        }
        lemma_first_pos(before, c);
        lemma_last_pos_at(before, c, -1);
    }
    if !behind.contains(c) {
        assert forall|i: int| before.len() < i < s.len() implies #[trigger] s[i] != c by {
            assert(s[i] == behind[i - before.len() - 1]);
        }
        assert(s[before.len() as int] == c);
        lemma_last_pos_at(s, c, before.len() as int);
    }
}

proof fn lemma_last_pos_at(s: Seq<char>, c: char, at: int)
    requires
        -1 <= at < s.len(),
        at >= 0 ==> s[at] == c,
        forall|i: int| at < i < s.len() ==> #[trigger] s[i] != c,
    ensures
        last_pos(s, c) == at,
    decreases s.len(),
{
    if at < s.len() - 1 {
        assert(s[s.len() - 1] != c);
        lemma_last_pos_at(s.drop_last(), c, at);
    }
}

/// Text is ordered as in a dictionary: by the first characters that differ, and a text comes before
/// every longer one that starts with it.
pub proof fn law_text_is_ordered_by_the_first_difference(
    common: Seq<char>,
    a: Seq<char>,
    b: Seq<char>,
)
    ensures
        a.len() > 0 && b.len() > 0 && a[0] != b[0] ==> (text_before(common + a, common + b) <==> (
        a[0] as int) < (b[0] as int)),
        b.len() > 0 ==> text_before(common, common + b) && !text_before(common + b, common),
    decreases common.len(),
{
    if common.len() > 0 {
        let rest = common.skip(1);
        law_text_is_ordered_by_the_first_difference(rest, a, b);
        assert((common + a).skip(1) =~= rest + a);
        assert((common + b).skip(1) =~= rest + b);
        assert((common + a)[0] == common[0] && (common + b)[0] == common[0]);
    } else {
        assert(common + a =~= a);
        assert(common + b =~= b);
    }
}

} // verus!
