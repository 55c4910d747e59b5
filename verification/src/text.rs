//! Whitespace, tokens and lines: what they are, and how a line is split.

use vstd::prelude::*;

verus! {

/// Whether `c` has the Unicode property `White_Space`.
pub open spec fn is_space(c: char) -> bool {
    let u = c as u32;
    ||| 0x09 <= u <= 0x0D
    ||| u == 0x20
    ||| u == 0x85
    ||| u == 0xA0
    ||| u == 0x1680
    ||| 0x2000 <= u <= 0x200A
    ||| u == 0x2028
    ||| u == 0x2029
    ||| u == 0x202F
    ||| u == 0x205F
    ||| u == 0x3000
}

/// A token is a non-empty run of characters none of which is whitespace.
pub open spec fn is_token(s: Seq<char>) -> bool {
    &&& s.len() > 0
    &&& forall|i: int| 0 <= i < s.len() ==> !is_space(#[trigger] s[i])
}

/// A blank text holds nothing but whitespace; the empty text is blank.
pub open spec fn is_blank(s: Seq<char>) -> bool {
    forall|i: int| 0 <= i < s.len() ==> is_space(#[trigger] s[i])
}

/// The length of the longest prefix of `text` that holds no whitespace.
pub open spec fn word_len(text: Seq<char>) -> nat
    decreases text.len(),
{
    if text.len() == 0 || is_space(text[0]) {
        0
    } else {
        1 + word_len(text.skip(1))
    }
}

/// The tokens of `text`, from left to right: its maximal runs of characters
/// that are not whitespace.
pub open spec fn tokens_of(text: Seq<char>) -> Seq<Seq<char>>
    decreases text.len(),
    via tokens_of_terminates
{
    if text.len() == 0 {
        Seq::empty()
    } else if is_space(text[0]) {
        tokens_of(text.skip(1))
    } else {
        seq![text.take(word_len(text) as int)] + tokens_of(text.skip(word_len(text) as int))
    }
}

#[via_fn]
proof fn tokens_of_terminates(text: Seq<char>) {
    lemma_word_len(text);
}

/// The longest whitespace-free prefix lies within the text, holds no
/// whitespace, and is followed by whitespace or by the end of the text.
pub proof fn lemma_word_len(text: Seq<char>)
    ensures
        word_len(text) <= text.len(),
        forall|i: int| 0 <= i < word_len(text) ==> !is_space(#[trigger] text[i]),
        word_len(text) < text.len() ==> is_space(text[word_len(text) as int]),
        text.len() > 0 && !is_space(text[0]) ==> word_len(text) >= 1,
    decreases text.len(),
{
    if text.len() == 0 || is_space(text[0]) {
    } else {
        let rest = text.skip(1);
        lemma_word_len(rest);
        assert forall|i: int| 0 <= i < word_len(text) implies !is_space(#[trigger] text[i]) by {
            if i > 0 {
                assert(text[i] == rest[i - 1]);
            }
        }
    }
}

/// A run without whitespace that is followed by whitespace, or by the end of
/// the text, is the longest whitespace-free prefix.
pub proof fn lemma_word_len_of_prefix(word: Seq<char>, rest: Seq<char>)
    requires
        forall|i: int| 0 <= i < word.len() ==> !is_space(#[trigger] word[i]),
        rest.len() == 0 || is_space(rest[0]),
    ensures
        word_len(word + rest) == word.len(),
    decreases word.len(),
{
    if word.len() > 0 {
        assert((word + rest).skip(1) =~= word.skip(1) + rest);
        lemma_word_len_of_prefix(word.skip(1), rest);
    }
}

/// A token that is followed by whitespace, or by the end of the text, is the
/// first token of the text, and the others are those of what follows it.
pub proof fn lemma_tokens_of_token_then(word: Seq<char>, rest: Seq<char>)
    requires
        is_token(word),
        rest.len() == 0 || is_space(rest[0]),
    ensures
        tokens_of(word + rest) == seq![word] + tokens_of(rest),
{
    let text = word + rest;
    lemma_word_len_of_prefix(word, rest);
    assert(text.take(word.len() as int) =~= word);
    assert(text.skip(word.len() as int) =~= rest);
}

/// A text that holds nothing but whitespace has no token, and a text without
/// a token holds nothing but whitespace.
pub proof fn lemma_tokens_of_blank(text: Seq<char>)
    ensures
        is_blank(text) <==> tokens_of(text).len() == 0,
    decreases text.len(),
{
    if text.len() == 0 {
    } else if is_space(text[0]) {
        let rest = text.skip(1);
        lemma_tokens_of_blank(rest);
        if is_blank(text) {
            assert(is_blank(rest));
        }
        if is_blank(rest) {
            assert forall|i: int| 0 <= i < text.len() implies is_space(#[trigger] text[i]) by {
                if i > 0 {
                    assert(text[i] == rest[i - 1]);
                }
            }
        }
    }
}

/// Where a text is cut behind a whitespace character, its tokens are those
/// of the first part followed by those of the second.
pub proof fn lemma_tokens_of_concat(a: Seq<char>, b: Seq<char>)
    requires
        a.len() == 0 || is_space(a.last()),
    ensures
        tokens_of(a + b) == tokens_of(a) + tokens_of(b),
    decreases a.len(),
{
    let text = a + b;
    if a.len() == 0 {
        assert(text =~= b);
    } else if is_space(a[0]) {
        assert(text.skip(1) =~= a.skip(1) + b);
        lemma_tokens_of_concat(a.skip(1), b);
    } else {
        let n = word_len(a) as int;
        lemma_word_len(a);
        let word = a.take(n);
        let tail = a.skip(n);
        assert(word + (tail + b) =~= text);
        lemma_tokens_of_token_then(word, tail + b);
        lemma_tokens_of_token_then(word, tail);
        lemma_tokens_of_concat(tail, b);
    }
}

/// Every token of a text is non-empty and holds no whitespace.
pub proof fn lemma_tokens_are_tokens(text: Seq<char>)
    ensures
        forall|i: int| 0 <= i < tokens_of(text).len() ==> is_token(#[trigger] tokens_of(text)[i]),
    decreases text.len(),
{
    if text.len() == 0 {
    } else if is_space(text[0]) {
        lemma_tokens_are_tokens(text.skip(1));
        assert(tokens_of(text) == tokens_of(text.skip(1)));
    } else {
        let n = word_len(text) as int;
        lemma_word_len(text);
        let rest = tokens_of(text.skip(n));
        lemma_tokens_are_tokens(text.skip(n));
        assert forall|i: int| 0 <= i < tokens_of(text).len() implies is_token(
            #[trigger] tokens_of(text)[i],
        ) by {
            if i > 0 {
                assert(tokens_of(text)[i] == rest[i - 1]);
            }
        }
    }
}

/// The text that holds `words` from left to right with `gaps` around them:
/// a gap, then each word followed by a gap.
pub open spec fn spaced(gaps: Seq<Seq<char>>, words: Seq<Seq<char>>) -> Seq<char>
    recommends
        gaps.len() == words.len() + 1,
    decreases words.len(),
{
    if words.len() == 0 {
        gaps[0]
    } else {
        gaps[0] + words[0] + spaced(gaps.skip(1), words.skip(1))
    }
}

/// Whether `gaps` separate `words`: every word is a token, every gap is
/// blank, and the gaps between two words are not empty.
pub open spec fn separates(gaps: Seq<Seq<char>>, words: Seq<Seq<char>>) -> bool {
    &&& gaps.len() == words.len() + 1
    &&& forall|i: int| 0 <= i < words.len() ==> is_token(#[trigger] words[i])
    &&& forall|i: int| 0 <= i < gaps.len() ==> is_blank(#[trigger] gaps[i])
    &&& forall|i: int| 0 < i < words.len() ==> (#[trigger] gaps[i]).len() > 0
}

/// How much whitespace stands between the words of a text, of which kind,
/// and how the words are spread over lines, makes no difference: the tokens
/// of the text are its words.
pub proof fn lemma_tokens_of_spaced(gaps: Seq<Seq<char>>, words: Seq<Seq<char>>)
    requires
        separates(gaps, words),
    ensures
        tokens_of(spaced(gaps, words)) == words,
    decreases words.len(),
{
    lemma_tokens_of_blank(gaps[0]);
    if words.len() > 0 {
        let more_gaps = gaps.skip(1);
        let more_words = words.skip(1);
        let rest = spaced(more_gaps, more_words);
        assert(separates(more_gaps, more_words));
        lemma_tokens_of_spaced(more_gaps, more_words);
        assert(rest.len() == 0 || is_space(rest[0])) by {
            assert(is_blank(more_gaps[0]));
            assert(more_words.len() > 0 ==> more_gaps[0].len() > 0);
        }
        lemma_tokens_of_token_then(words[0], rest);
        lemma_tokens_of_concat(gaps[0], words[0] + rest);
        assert(spaced(gaps, words) =~= gaps[0] + (words[0] + rest));
        assert(seq![words[0]] + more_words =~= words);
    }
}

/// The length of the first line of `text`: up to and including its first
/// line feed, or all of the text where it holds none.
pub open spec fn line_len(text: Seq<char>) -> nat
    decreases text.len(),
{
    if text.len() == 0 {
        0
    } else if text[0] == '\n' {
        1
    } else {
        1 + line_len(text.skip(1))
    }
}

/// The first line of `text`, with its line feed where it has one.
pub open spec fn first_line(text: Seq<char>) -> Seq<char> {
    text.take(line_len(text) as int)
}

/// What follows the first line of `text`.
pub open spec fn after_first_line(text: Seq<char>) -> Seq<char> {
    text.skip(line_len(text) as int)
}

/// The first line lies within the text, is empty only where the text is,
/// holds no line feed before its last character, and ends in a line feed
/// unless it is the whole text.
pub proof fn lemma_line_len(text: Seq<char>)
    ensures
        line_len(text) <= text.len(),
        text.len() > 0 ==> line_len(text) >= 1,
        forall|i: int| 0 <= i < line_len(text) - 1 ==> #[trigger] text[i] != '\n',
        line_len(text) < text.len() ==> text[line_len(text) - 1] == '\n',
    decreases text.len(),
{
    if text.len() == 0 || text[0] == '\n' {
    } else {
        let rest = text.skip(1);
        lemma_line_len(rest);
        assert forall|i: int| 0 <= i < line_len(text) - 1 implies #[trigger] text[i] != '\n' by {
            if i > 0 {
                assert(text[i] == rest[i - 1]);
            }
        }
    }
}

/// Reading line by line loses no token and makes none: the tokens of a text
/// are those of its first line followed by those of the rest.
pub proof fn lemma_tokens_by_line(text: Seq<char>)
    ensures
        tokens_of(text) == tokens_of(first_line(text)) + tokens_of(after_first_line(text)),
{
    let line = first_line(text);
    let rest = after_first_line(text);
    lemma_line_len(text);
    assert(line + rest =~= text);
    if line_len(text) < text.len() {
        lemma_tokens_of_concat(line, rest);
    } else {
        assert(line =~= text);
        assert(rest =~= Seq::<char>::empty());
    }
}

/// The tokens of the first line of `text` that holds any; none, where no
/// line holds one.
pub open spec fn token_line(text: Seq<char>) -> Seq<Seq<char>>
    decreases text.len(),
    via token_line_terminates
{
    if text.len() == 0 {
        Seq::empty()
    } else if tokens_of(first_line(text)).len() > 0 {
        tokens_of(first_line(text))
    } else {
        token_line(after_first_line(text))
    }
}

#[via_fn]
proof fn token_line_terminates(text: Seq<char>) {
    lemma_line_len(text);
}

/// What follows the first line of `text` that holds a token; nothing,
/// where no line holds one.
pub open spec fn after_token_line(text: Seq<char>) -> Seq<char>
    decreases text.len(),
    via after_token_line_terminates
{
    if text.len() == 0 {
        text
    } else if tokens_of(first_line(text)).len() > 0 {
        after_first_line(text)
    } else {
        after_token_line(after_first_line(text))
    }
}

#[via_fn]
proof fn after_token_line_terminates(text: Seq<char>) {
    lemma_line_len(text);
}

/// The tokens of a text are those of its first line that holds any,
/// followed by those of what follows that line; where no line holds a
/// token, nothing follows.
pub proof fn lemma_tokens_by_token_line(text: Seq<char>)
    ensures
        tokens_of(text) == token_line(text) + tokens_of(after_token_line(text)),
        token_line(text).len() == 0 ==> after_token_line(text).len() == 0,
    decreases text.len(),
{
    if text.len() > 0 {
        lemma_line_len(text);
        lemma_tokens_by_line(text);
        if tokens_of(first_line(text)).len() == 0 {
            lemma_tokens_by_token_line(after_first_line(text));
        }
    }
}

/// Taken on trust, as std documents it: `String::push` appends the
/// character to the end of the string, and changes nothing else of it.
pub assume_specification[ String::push ](s: &mut String, c: char)
    ensures
        final(s)@ == old(s)@.push(c),
;

/// Decides `is_space`.
pub fn is_whitespace(c: char) -> (b: bool)
    ensures
        b == is_space(c),
{
    let u: u32 = c as u32;
    (0x09 <= u && u <= 0x0D) || u == 0x20 || u == 0x85 || u == 0xA0 || u == 0x1680 || (0x2000 <= u
        && u <= 0x200A) || u == 0x2028 || u == 0x2029 || u == 0x202F || u == 0x205F || u == 0x3000
}

/// Splits a line into its tokens, from left to right.
pub fn split_whitespace(line: &str) -> (tokens: Vec<String>)
    ensures
        tokens.deep_view() == tokens_of(line@),
{
    let mut tokens: Vec<String> = Vec::new();
    let mut word = String::new();
    proof {
        assert(word@ + line@.skip(0) =~= line@);
    }
    for c in it: line.chars()
        invariant
            it.seq() == line@,
            forall|i: int| 0 <= i < word@.len() ==> !is_space(#[trigger] word@[i]),
            tokens.deep_view() + tokens_of(word@ + line@.skip(it.index() as int)) == tokens_of(
                line@,
            ),
    {
        let ghost k = it.index() as int;
        let ghost rest = line@.skip(k + 1);
        if is_whitespace(c) {
            if word.as_str().is_empty() {
                proof {
                    assert(line@.skip(k).skip(1) =~= rest);
                }
            } else {
                proof {
                    assert(word@ + line@.skip(k) =~= word@ + (seq![c] + rest));
                    lemma_tokens_of_token_then(word@, seq![c] + rest);
                    assert((seq![c] + rest).skip(1) =~= rest);
                }
                tokens.push(word);
                word = String::new();
            }
        } else {
            proof {
                assert(word@.push(c) + rest =~= word@ + line@.skip(k));
            }
            word.push(c);
        }
    }
    if !word.as_str().is_empty() {
        proof {
            lemma_tokens_of_token_then(word@, Seq::empty());
        }
        tokens.push(word);
    }
    tokens
}

} // verus!
