//! The relative-time normalizer: "3 minutes ago" becomes "3m ago".

use vstd::prelude::*;
use vstd::slice::slice_subrange;
use crate::number::{is_unsigned_text, unsigned_text};
use crate::text::{
    chars_of, contains, find, find_first, is_space, is_word, lemma_concat_lacks,
    lemma_find_first, lemma_tokens_are_words, push_all, split_tokens, string_of, tokens,
};

verus! {

/// Number of duration phrases that are recognised.
pub const PHRASES: usize = 10;

/// The `k`-th duration phrase. The plural of a unit comes before its
/// singular, and shorter units before longer ones.
pub open spec fn phrase(k: int) -> Seq<char> {
    if k == 0 {
        "seconds ago"@
    } else if k == 1 {
        "second ago"@
    } else if k == 2 {
        "minutes ago"@
    } else if k == 3 {
        "minute ago"@
    } else if k == 4 {
        "hours ago"@
    } else if k == 5 {
        "hour ago"@
    } else if k == 6 {
        "days ago"@
    } else if k == 7 {
        "day ago"@
    } else if k == 8 {
        "weeks ago"@
    } else {
        "week ago"@
    }
}

/// The one-letter unit that stands for the `k`-th phrase.
pub open spec fn unit(k: int) -> char {
    if k < 2 {
        's'
    } else if k < 4 {
        'm'
    } else if k < 6 {
        'h'
    } else if k < 8 {
        'd'
    } else {
        'w'
    }
}

/// The first phrase, at or after the `k`-th, that occurs in `line`.
pub open spec fn first_phrase_from(line: Seq<char>, k: int) -> Option<int>
    decreases PHRASES - k,
{
    if k < 0 || k >= PHRASES {
        None
    } else if contains(line, phrase(k)) {
        Some(k)
    } else {
        first_phrase_from(line, k + 1)
    }
}

/// The short form of the duration that `line` mentions.
///
/// The first recognised phrase that occurs in `line` decides: the result is
/// the token in front of its first occurrence, the phrase's unit and " ago",
/// provided that token reads as an unsigned integer. In every other case the
/// result is "now".
pub open spec fn relative_time(line: Seq<char>) -> Seq<char> {
    match first_phrase_from(line, 0) {
        None => "now"@,
        Some(k) => {
            let at = find_first(line, phrase(k)).unwrap();
            let words = tokens(line.take(at));
            if words.len() > 0 && unsigned_text(words.last()) {
                words.last().push(unit(k)) + " ago"@
            } else {
                "now"@
            }
        },
    }
}

/// The short form of a duration holds no line feed.
pub proof fn lemma_relative_time_is_plain(line: Seq<char>)
    ensures
        !relative_time(line).contains('\n'),
{
    reveal_strlit("now");
    reveal_strlit(" ago");
    let now = "now"@;
    let ago = " ago"@;
    assert(!now.contains('\n')) by {
        if now.contains('\n') {
            let j = choose|j: int| 0 <= j < now.len() && now[j] == '\n';
        }
    }
    assert(!ago.contains('\n')) by {
        if ago.contains('\n') {
            let j = choose|j: int| 0 <= j < ago.len() && ago[j] == '\n';
        }
    }
    if let Some(k) = first_phrase_from(line, 0) {
        let at = find_first(line, phrase(k)).unwrap();
        let words = tokens(line.take(at));
        if words.len() > 0 && unsigned_text(words.last()) {
            lemma_tokens_are_words(line.take(at));
            let number = words.last();
            assert(is_word(number));
            assert(!number.contains('\n')) by {
                if number.contains('\n') {
                    let j = choose|j: int| 0 <= j < number.len() && number[j] == '\n';
                    assert(is_space(number[j]));
                }
            }
            let letter = seq![unit(k)];
            assert(!letter.contains('\n')) by {
                if letter.contains('\n') {
                    let j = choose|j: int| 0 <= j < letter.len() && letter[j] == '\n';
                }
            }
            assert(number.push(unit(k)) == number + letter);
            lemma_concat_lacks(number, letter, '\n');
            lemma_concat_lacks(number + letter, ago, '\n');
        }
    }
}

/// A line that holds none of the recognised phrases gives "now".
pub proof fn lemma_no_phrase_gives_now(line: Seq<char>)
    requires
        forall|k: int| 0 <= k < PHRASES ==> !contains(line, #[trigger] phrase(k)),
    ensures
        relative_time(line) == "now"@,
{
    lemma_no_phrase_from(line, 0);
}

proof fn lemma_no_phrase_from(line: Seq<char>, k: int)
    requires
        0 <= k,
        forall|j: int| 0 <= j < PHRASES ==> !contains(line, #[trigger] phrase(j)),
    ensures
        first_phrase_from(line, k) is None,
    decreases PHRASES - k,
{
    if k < PHRASES {
        assert(!contains(line, phrase(k)));
        lemma_no_phrase_from(line, k + 1);
    }
}

fn phrase_text(k: usize) -> (r: (&'static str, char))
    requires
        k < PHRASES,
    ensures
        r.0@ == phrase(k as int),
        r.1 == unit(k as int),
{
    if k == 0 {
        ("seconds ago", 's')
    } else if k == 1 {
        ("second ago", 's')
    } else if k == 2 {
        ("minutes ago", 'm')
    } else if k == 3 {
        ("minute ago", 'm')
    } else if k == 4 {
        ("hours ago", 'h')
    } else if k == 5 {
        ("hour ago", 'h')
    } else if k == 6 {
        ("days ago", 'd')
    } else if k == 7 {
        ("day ago", 'd')
    } else if k == 8 {
        ("weeks ago", 'w')
    } else {
        ("week ago", 'w')
    }
}

/// The normalizer on characters.
pub fn relative_time_of(line: &[char]) -> (out: Vec<char>)
    ensures
        out@ == relative_time(line@),
{
    let mut k: usize = 0;
    while k < PHRASES
        invariant
            k <= PHRASES,
            first_phrase_from(line@, 0) == first_phrase_from(line@, k as int),
        decreases PHRASES - k,
    {
        let (text, letter) = phrase_text(k);
        let pattern = chars_of(text);
        proof {
            lemma_find_first(line@, pattern@);
        }
        match find(line, pattern.as_slice()) {
            Some(at) => {
                let words = split_tokens(slice_subrange(line, 0, at));
                if words.len() > 0 && is_unsigned_text(words[words.len() - 1].as_slice()) {
                    let mut out: Vec<char> = Vec::new();
                    push_all(&mut out, words[words.len() - 1].as_slice());
                    out.push(letter);
                    push_all(&mut out, chars_of(" ago").as_slice());
                    proof {
                        assert(tokens(line@.take(at as int)).last() == words@.last()@);
                    }
                    return out;
                }
                proof {
                    if words.len() > 0 {
                        assert(tokens(line@.take(at as int)).last() == words@.last()@);
                    }
                }
                return chars_of("now");
            },
            None => {},
        }
        k += 1;
    }
    chars_of("now")
}

/// Shortens the duration that `line` mentions: "3 minutes ago" gives
/// "3m ago". A line that mentions none gives "now".
pub fn extract_relative_time(line: &str) -> (out: String)
    ensures
        out@ == relative_time(line@),
{
    let chars = chars_of(line);
    string_of(relative_time_of(chars.as_slice()).as_slice())
}

} // verus!
