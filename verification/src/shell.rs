//! Quoting of shell words.
use crate::text::chars_of;
use vstd::prelude::*;

verus! {

/// A text inside single quotes: each single quote in it ends the quotes, stands escaped, and
/// begins them again.
pub open spec fn quoted_body(s: Seq<char>) -> Seq<char>
    decreases s.len(),
{
    if s.len() == 0 {
        Seq::empty()
    } else if s.last() == '\'' {
        quoted_body(s.drop_last()) + seq!['\'', '\\', '\'', '\'']
    } else {
        quoted_body(s.drop_last()).push(s.last())
    }
}

/// A text in single quotes.
pub open spec fn quoted(s: Seq<char>) -> Seq<char> {
    seq!['\''] + quoted_body(s) + seq!['\'']
}

/// Whether a text has one of some characters.
pub open spec fn has_any(s: Seq<char>, special: Seq<char>) -> bool {
    exists|i: int| 0 <= i < s.len() && special.contains(#[trigger] s[i])
}

/// A shell word for a text: an empty text and one with special characters go in quotes, any other
/// stands for itself.
pub open spec fn shell_word(s: Seq<char>, special: Seq<char>) -> Seq<char> {
    if s.len() == 0 || has_any(s, special) {
        quoted(s)
    } else {
        s
    }
}

/// A shell word for a text, given which characters are special.
pub(crate) fn escape(s: &str, special: &[char]) -> (word: String)
    ensures
        word@ == shell_word(s@, special@),
{
    let chars = chars_of(s);
    let mut needs_quotes = chars.len() == 0;
    let mut i: usize = 0;
    while i < chars.len()
        invariant
            i <= chars@.len(),
            chars@ == s@,
            needs_quotes <==> (chars@.len() == 0 || exists|k: int|
                0 <= k < i && special@.contains(#[trigger] s@[k])),
        decreases chars@.len() - i,
    {
        let mut j: usize = 0;
        let mut found = false;
        while j < special.len()
            invariant
                j <= special@.len(),
                i < chars@.len(),
                found <==> exists|k: int| 0 <= k < j && special@[k] == chars@[i as int],
            decreases special@.len() - j,
        {
            if special[j] == chars[i] {
                assert(special@[j as int] == chars@[i as int]);
                found = true;
            }
            j += 1;
        }
        assert(found <==> special@.contains(s@[i as int]));
        if found {
            needs_quotes = true;
        }
        i += 1;
    }
    if !needs_quotes {
        let word = crate::text::string_of(chars.as_slice(), 0, chars.len());
        assert(word@ =~= s@);
        return word;
    }
    let mut word = String::new();
    word.push('\'');
    let mut k: usize = 0;
    assert(s@.take(0) =~= Seq::<char>::empty());
    assert(word@ =~= seq!['\''] + quoted_body(s@.take(0)));
    while k < chars.len()
        invariant
            k <= chars@.len(),
            chars@ == s@,
            word@ == seq!['\''] + quoted_body(s@.take(k as int)),
        decreases chars@.len() - k,
    {
        assert(s@.take(k + 1).drop_last() =~= s@.take(k as int));
        assert(s@.take(k + 1).last() == s@[k as int]);
        if chars[k] == '\'' {
            word.push('\'');
            word.push('\\');
            word.push('\'');
            word.push('\'');
        } else {
            word.push(chars[k]);
        }
        assert(word@ =~= seq!['\''] + quoted_body(s@.take(k + 1)));
        k += 1;
    }
    assert(s@.take(k as int) =~= s@);
    word.push('\'');
    assert(word@ =~= quoted(s@));
    word
}

/// Whether a character that stands bare ends a shell word or is more than itself in it: a blank,
/// an operator, or the begin of an expansion, a pattern, a comment or a double-quoted part.
pub open spec fn is_meta(c: char) -> bool {
    ||| c == ' ' || c == '\t' || c == '\n'
    ||| c == '|' || c == '&' || c == ';' || c == '<' || c == '>' || c == '(' || c == ')'
    ||| c == '$' || c == '`' || c == '"'
    ||| c == '*' || c == '?' || c == '[' || c == '~' || c == '#'
}

/// What a shell reads from a place in or outside single quotes on, if everything up to the end
/// belongs to one word of known text. Single quotes enclose literal text; outside them a
/// backslash makes the next character literal, and a bare character must not be special. No
/// text holds a NUL.
pub open spec fn read_on(text: Seq<char>, inside: bool) -> Option<Seq<char>>
    decreases text.len(),
{
    if text.len() == 0 {
        if inside {
            None
        } else {
            Some(Seq::empty())
        }
    } else if text[0] == '\0' {
        None
    } else if text[0] == '\'' {
        read_on(text.skip(1), !inside)
    } else if inside {
        put_before(text[0], read_on(text.skip(1), true))
    } else if text[0] == '\\' {
        if text.len() > 1 && text[1] != '\n' && text[1] != '\0' {
            put_before(text[1], read_on(text.skip(2), false))
        } else {
            None
        }
    } else if is_meta(text[0]) {
        None
    } else {
        put_before(text[0], read_on(text.skip(1), false))
    }
}

/// A character in front of a text that may be missing.
pub open spec fn put_before(c: char, rest: Option<Seq<char>>) -> Option<Seq<char>> {
    match rest {
        Some(rest) => Some(seq![c] + rest),
        None => None,
    }
}

/// What a shell reads where a text stands as an argument, if it is one word of known text.
pub open spec fn read_word(text: Seq<char>) -> Option<Seq<char>> {
    if text.len() == 0 {
        None
    } else {
        read_on(text, false)
    }
}

/// A text in front of another that may be missing.
spec fn put_all_before(s: Seq<char>, rest: Option<Seq<char>>) -> Option<Seq<char>> {
    match rest {
        Some(rest) => Some(s + rest),
        None => None,
    }
}

/// Inside quotes, the quoted form of a text reads as the text.
proof fn lemma_quoted_body_reads_back(s: Seq<char>, tail: Seq<char>)
    requires
        !s.contains('\0'),
    ensures
        read_on(quoted_body(s) + tail, true) == put_all_before(s, read_on(tail, true)),
    decreases s.len(),
{
    let rest = read_on(tail, true);
    if s.len() == 0 {
        assert(quoted_body(s) + tail =~= tail);
        if rest is Some {
            assert(s + rest->0 =~= rest->0);
        }
    } else {
        let head = s.drop_last();
        let c = s.last();
        assert(s[s.len() - 1] != '\0');
        assert forall|i: int| 0 <= i < head.len() implies head[i] != '\0' by {
            assert(s[i] != '\0');
        }
        if c == '\'' {
            let mid = seq!['\'', '\\', '\'', '\''] + tail;
            lemma_quoted_body_reads_back(head, mid);
            assert(quoted_body(s) + tail =~= quoted_body(head) + mid);
            assert(mid.skip(1)[0] == '\\' && mid.skip(1)[1] == '\'');
            assert(mid.skip(1).skip(2)[0] == '\'');
            assert(mid.skip(1).skip(2).skip(1) =~= tail);
            assert(read_on(mid.skip(1).skip(2), false) == rest);
            assert(read_on(mid.skip(1), false) == put_before('\'', rest));
            assert(read_on(mid, true) == put_before('\'', rest));
        } else {
            let mid = seq![c] + tail;
            lemma_quoted_body_reads_back(head, mid);
            assert(quoted_body(s) + tail =~= quoted_body(head) + mid);
            assert(mid.skip(1) =~= tail);
            assert(read_on(mid, true) == put_before(c, rest));
        }
        if rest is Some {
            assert(head + (seq![c] + rest->0) =~= s + rest->0);
        }
    }
}

proof fn lemma_plain_reads_back(s: Seq<char>)
    requires
        forall|i: int|
            0 <= i < s.len() ==> #[trigger] s[i] != '\'' && s[i] != '\\' && s[i] != '\0'
                && !is_meta(s[i]),
    ensures
        read_on(s, false) == Some(s),
    decreases s.len(),
{
    if s.len() > 0 {
        assert(s[0] != '\'' && s[0] != '\\' && s[0] != '\0' && !is_meta(s[0]));
        let rest = s.skip(1);
        assert forall|i: int| 0 <= i < rest.len() implies #[trigger] rest[i] != '\'' && rest[i]
            != '\\' && rest[i] != '\0' && !is_meta(rest[i]) by {
            assert(rest[i] == s[i + 1]);
        }
        lemma_plain_reads_back(rest);
        assert(seq![s[0]] + rest =~= s);
    } else {
        assert(s =~= Seq::<char>::empty());
    }
}

/// A shell reads the word for a text as exactly one word, which is this text, as long as the
/// quote, the backslash and everything that a shell takes for more than itself count as special.
pub proof fn law_shell_word_reads_back(s: Seq<char>, special: Seq<char>)
    requires
        !s.contains('\0'),
        special.contains('\''),
        special.contains('\\'),
        forall|c: char| #[trigger] is_meta(c) ==> special.contains(c),
    ensures
        read_word(shell_word(s, special)) == Some(s),
{
    if s.len() == 0 || has_any(s, special) {
        let word = quoted(s);
        let tail = seq!['\''];
        assert(word.skip(1) =~= quoted_body(s) + tail);
        lemma_quoted_body_reads_back(s, tail);
        assert(tail.skip(1) =~= Seq::<char>::empty());
        assert(read_on(tail.skip(1), false) == Some(Seq::<char>::empty()));
        assert(read_on(tail, true) == read_on(tail.skip(1), false));
        assert(s + Seq::<char>::empty() =~= s);
    } else {
        assert forall|i: int| 0 <= i < s.len() implies #[trigger] s[i] != '\'' && s[i] != '\\'
            && s[i] != '\0' && !is_meta(s[i]) by {
            assert(!special.contains(s[i]));
            assert(s.contains(s[i]));
        }
        lemma_plain_reads_back(s);
    }
}

/// A word without special characters stands as it is, and any other is quoted.
pub proof fn law_plain_word_stands_as_it_is(s: Seq<char>, special: Seq<char>, at: int)
    ensures
        s.len() > 0 && (forall|i: int| 0 <= i < s.len() ==> !special.contains(#[trigger] s[i]))
            ==> shell_word(s, special) == s,
        0 <= at < s.len() && special.contains(s[at]) ==> shell_word(s, special).len() >= s.len() + 2
            && shell_word(s, special)[0] == '\'' && shell_word(s, special).last() == '\'',
        s.len() == 0 ==> shell_word(s, special) == seq!['\'', '\''],
{
    if s.len() == 0 {
        assert(quoted(s) =~= seq!['\'', '\'']);
    }
    if 0 <= at < s.len() && special.contains(s[at]) {
        lemma_quoted_body_len(s);
        assert(has_any(s, special));
    }
}

proof fn lemma_quoted_body_len(s: Seq<char>)
    ensures
        quoted_body(s).len() >= s.len(),
    decreases s.len(),
{
    if s.len() > 0 {
        lemma_quoted_body_len(s.drop_last());
    }
}

} // verus!
