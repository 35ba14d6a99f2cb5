//! Text as the tags and paths of audio files need it.

use vstd::prelude::*;
use vstd::string::StrSliceExecFns;

verus! {

/// The place of the last dot in a text, if it has one.
pub open spec fn last_dot(s: Seq<char>) -> Option<int>
    decreases s.len(),
{
    if s.len() == 0 {
        None
    } else if s.last() == '.' {
        Some(s.len() - 1)
    } else {
        last_dot(s.drop_last())
    }
}

/// What follows the last dot of a path; the whole path where it has no dot.
pub open spec fn suffix(path: Seq<char>) -> Seq<char> {
    match last_dot(path) {
        Some(i) => path.subrange(i + 1, path.len() as int),
        None => path,
    }
}

/// The last dot stands in the text, and no dot follows it.
pub proof fn lemma_last_dot(s: Seq<char>)
    ensures
        match last_dot(s) {
            Some(i) => 0 <= i < s.len() && s[i] == '.' && forall|j: int|
                i < j < s.len() ==> s[j] != '.',
            None => forall|j: int| 0 <= j < s.len() ==> s[j] != '.',
        },
    decreases s.len(),
{
    if s.len() > 0 && s.last() != '.' {
        lemma_last_dot(s.drop_last());
        assert(forall|j: int| 0 <= j < s.len() - 1 ==> s.drop_last()[j] == s[j]);
    }
}

/// What follows the last dot of a path; the whole path where it has no dot.
pub fn suffix_of(path: &str) -> (r: String)
    ensures
        r@ == suffix(path@),
{
    let len = path.unicode_len();
    let mut last: Option<usize> = None;
    let mut i: usize = 0;
    for c in it: path.chars()
        invariant
            it.seq() == path@,
            i == it.index(),
            i <= len,
            len == path@.len(),
            match last {
                Some(d) => last_dot(path@.take(i as int)) == Some(d as int) && d < i,
                None => last_dot(path@.take(i as int)) is None,
            },
    {
        proof {
            assert(path@.take(i + 1).drop_last() =~= path@.take(i as int));
            assert(path@.take(i + 1).last() == c);
        }
        if c == '.' {
            last = Some(i);
        }
        i = i + 1;
    }
    proof {
        assert(path@.take(i as int) =~= path@);
    }
    match last {
        Some(d) => path.substring_char(d + 1, len).to_owned(),
        None => path.to_owned(),
    }
}

/// Whether a text ends in another.
pub open spec fn is_tail(s: Seq<char>, tail: Seq<char>) -> bool {
    s.len() >= tail.len() && s.subrange(s.len() - tail.len(), s.len() as int) == tail
}

/// Whether a text ends in another.
pub fn ends_with(s: &str, tail: &str) -> (r: bool)
    ensures
        r == is_tail(s@, tail@),
{
    let n = s.unicode_len();
    let m = tail.unicode_len();
    if n < m {
        return false;
    }
    let end = s.substring_char(n - m, n).to_owned();
    let want = tail.to_owned();
    end == want
}

/// The text with every `from` in it replaced by the text `to`.
pub open spec fn replaced(s: Seq<char>, from: char, to: Seq<char>) -> Seq<char>
    decreases s.len(),
{
    if s.len() == 0 {
        Seq::empty()
    } else if s.last() == from {
        replaced(s.drop_last(), from, to) + to
    } else {
        replaced(s.drop_last(), from, to).push(s.last())
    }
}

/// Calls `str::replace` with a character as the pattern. As the documentation of std
/// says, every occurrence of the character gives way to the text `to`, and all else
/// stays.
#[verifier::external_body]
fn replace_char(s: &str, from: char, to: &str) -> (r: String)
    ensures
        r@ == replaced(s@, from, to@),
{
    s.replace(from, to)
}

/// The text as it is safe to store: with a question mark in place of every null
/// character.
pub open spec fn clean(s: Seq<char>) -> Seq<char> {
    replaced(s, '\0', seq!['?'])
}

/// The text as it is safe to store: with a question mark in place of every null
/// character.
pub fn sanitize(s: &str) -> (r: String)
    ensures
        r@ == clean(s@),
{
    proof {
        reveal_strlit("?");
        assert("?"@ =~= seq!['?']);
    }
    replace_char(s, '\0', "?")
}

/// A clean text has as many characters as the text it comes from, and no null among
/// them.
pub proof fn lemma_clean(s: Seq<char>)
    ensures
        clean(s).len() == s.len(),
        forall|i: int| 0 <= i < s.len() ==> clean(s)[i] == if s[i] == '\0' {
            '?'
        } else {
            s[i]
        },
    decreases s.len(),
{
    if s.len() > 0 {
        lemma_clean(s.drop_last());
        assert(forall|i: int| 0 <= i < s.len() - 1 ==> s.drop_last()[i] == s[i]);
    }
}

/// What a decimal digit counts for; nothing for any other character.
pub open spec fn digit_value(c: char) -> Option<int> {
    if '0' <= c <= '9' {
        Some(c as int - '0' as int)
    } else {
        None
    }
}

/// The number that a run of decimal digits writes; nothing for an empty run and for a
/// run that holds anything but digits.
pub open spec fn digits_value(s: Seq<char>) -> Option<int>
    decreases s.len(),
{
    if s.len() == 0 {
        None
    } else {
        match digit_value(s.last()) {
            None => None,
            Some(d) => if s.len() == 1 {
                Some(d)
            } else {
                match digits_value(s.drop_last()) {
                    Some(v) => Some(v * 10 + d),
                    None => None,
                }
            },
        }
    }
}

/// The number that a text writes in decimal digits, with or without a sign before them.
pub open spec fn signed_value(s: Seq<char>) -> Option<int> {
    if s.len() > 0 && s[0] == '-' {
        match digits_value(s.drop_first()) {
            Some(v) => Some(-v),
            None => None,
        }
    } else if s.len() > 0 && s[0] == '+' {
        digits_value(s.drop_first())
    } else {
        digits_value(s)
    }
}

/// The 32-bit number that a text writes; nothing where it writes none, or one that does
/// not fit.
pub open spec fn parsed_i32(s: Seq<char>) -> Option<i32> {
    match signed_value(s) {
        Some(v) => if i32::MIN <= v <= i32::MAX {
            Some(v as i32)
        } else {
            None
        },
        None => None,
    }
}

/// A run of digits writes no smaller number than any of its beginnings, and a run that
/// writes a number holds digits only.
pub proof fn lemma_digits_prefix(s: Seq<char>, k: int)
    requires
        1 <= k <= s.len(),
        digits_value(s) is Some,
    ensures
        digits_value(s.take(k)) is Some,
        0 <= digits_value(s.take(k))->0 <= digits_value(s)->0,
        digit_value(s[k - 1]) is Some,
    decreases s.len(),
{
    if k == s.len() {
        assert(s.take(k) =~= s);
        if s.len() > 1 {
            lemma_digits_prefix(s.drop_last(), k - 1);
        }
    } else {
        lemma_digits_prefix(s.drop_last(), k);
        assert(s.drop_last().take(k) =~= s.take(k));
    }
}

/// The 32-bit number that a text writes in decimal digits, with or without a sign
/// before them; nothing where it writes none, or one that does not fit.
pub fn parse_i32(s: &str) -> (r: Option<i32>)
    ensures
        r == parsed_i32(s@),
{
    let len = s.unicode_len();
    if len == 0 {
        return None;
    }
    let first = s.get_char(0);
    let signed = first == '-' || first == '+';
    let negative = first == '-';
    let ghost body = if signed {
        s@.drop_first()
    } else {
        s@
    };
    let ghost skip: int = if signed {
        1
    } else {
        0
    };
    let mut acc: i64 = 0;
    let mut i: usize = 0;
    for c in it: s.chars()
        invariant
            it.seq() == s@,
            i == it.index(),
            i <= len,
            len == s@.len(),
            len > 0,
            signed == (s@[0] == '-' || s@[0] == '+'),
            body == if signed {
                s@.drop_first()
            } else {
                s@
            },
            skip == if signed {
                1int
            } else {
                0int
            },
            0 <= acc <= 2147483648,
            i > skip ==> digits_value(body.take(i - skip)) == Some(acc as int),
            i <= skip ==> acc == 0,
    {
        if !(signed && i == 0) {
            let ghost k = i - skip + 1;
            proof {
                assert(body[k - 1] == c);
                assert(body.take(k).last() == c);
                assert(body.take(k).drop_last() =~= body.take(k - 1));
            }
            if c < '0' || c > '9' {
                proof {
                    if digits_value(body) is Some {
                        lemma_digits_prefix(body, k);
                    }
                }
                return None;
            }
            let d: i64 = (c as u32 - '0' as u32) as i64;
            let next: i64 = acc * 10 + d;
            if next > 2147483648 {
                proof {
                    if digits_value(body) is Some {
                        lemma_digits_prefix(body, k);
                    }
                }
                return None;
            }
            acc = next;
        }
        i = i + 1;
    }
    proof {
        assert(body.take(i - skip) =~= body);
    }
    if len == 1 && signed {
        return None;
    }
    if negative {
        Some((0 - acc) as i32)
    } else if acc > 2147483647 {
        None
    } else {
        Some(acc as i32)
    }
}

/// The number that a tag's text writes, and 0 where there is no text or it writes none.
pub open spec fn number_or_zero(text: Option<Seq<char>>) -> i32 {
    match text {
        Some(s) => match parsed_i32(s) {
            Some(v) => v,
            None => 0,
        },
        None => 0,
    }
}

} // verus!
