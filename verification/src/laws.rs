//! What holds of reading: of one read, and of reads in a row.

use crate::parse::{decimal, is_digit, lemma_decimal_denotes, lemma_not_decimal, FromToken};
use crate::scanner::{after_read, read_spec, ScanError};
use crate::text::{
    is_blank, is_token, lemma_tokens_of_blank, lemma_tokens_of_spaced, separates, spaced,
    tokens_of,
};
use vstd::prelude::*;

verus! {

/// The tokens that are still to come after `n` reads in a row.
pub open spec fn after_reads(tokens: Seq<Seq<char>>, n: nat) -> Seq<Seq<char>>
    decreases n,
{
    if n == 0 {
        tokens
    } else {
        after_reads(after_read(tokens), (n - 1) as nat)
    }
}

/// What `n` reads of a `T` in a row give, the first read first.
pub open spec fn reads<T: FromToken>(tokens: Seq<Seq<char>>, n: nat) -> Seq<
    Result<T::V, ScanError>,
>
    decreases n,
{
    if n == 0 {
        Seq::empty()
    } else {
        seq![read_spec::<T>(tokens)] + reads::<T>(after_read(tokens), (n - 1) as nat)
    }
}

/// Reads consume the tokens from the left, one each, as long as there are
/// any.
pub proof fn lemma_after_reads(tokens: Seq<Seq<char>>, n: nat)
    ensures
        n <= tokens.len() ==> after_reads(tokens, n) == tokens.skip(n as int),
        n >= tokens.len() ==> after_reads(tokens, n).len() == 0,
    decreases n,
{
    if n > 0 {
        lemma_after_reads(after_read(tokens), (n - 1) as nat);
        if n <= tokens.len() {
            assert(tokens.skip(1).skip(n - 1) =~= tokens.skip(n as int));
        }
    }
}

/// The `k`-th of `n` reads in a row is a read of what the reads before it
/// have left.
pub proof fn lemma_reads<T: FromToken>(tokens: Seq<Seq<char>>, n: nat)
    ensures
        reads::<T>(tokens, n).len() == n,
        forall|k: int|
            0 <= k < n ==> #[trigger] reads::<T>(tokens, n)[k] == read_spec::<T>(
                after_reads(tokens, k as nat),
            ),
    decreases n,
{
    if n > 0 {
        let rest = after_read(tokens);
        lemma_reads::<T>(rest, (n - 1) as nat);
        assert forall|k: int| 0 <= k < n implies #[trigger] reads::<T>(tokens, n)[k] == read_spec::<
            T,
        >(after_reads(tokens, k as nat)) by {
            if k > 0 {
                assert(reads::<T>(tokens, n)[k] == reads::<T>(rest, (n - 1) as nat)[k - 1]);
            }
        }
    }
}

/// A read fails with `Exhausted` when, and only when, no token is left;
/// it gives no value then, whatever the type asked for.
pub proof fn lemma_exhausted<T: FromToken>(tokens: Seq<Seq<char>>)
    ensures
        read_spec::<T>(tokens) == Err::<T::V, ScanError>(ScanError::Exhausted) <==> tokens.len()
            == 0,
{
}

/// A text that holds nothing but whitespace is exhausted from the start.
pub proof fn lemma_blank_is_exhausted<T: FromToken>(text: Seq<char>)
    requires
        is_blank(text),
    ensures
        read_spec::<T>(tokens_of(text)) == Err::<T::V, ScanError>(ScanError::Exhausted),
{
    lemma_tokens_of_blank(text);
}

/// A read fails with `Malformed` when, and only when, there is a next
/// token and it denotes no value of the type asked for; no value comes
/// back in its place.
pub proof fn lemma_malformed<T: FromToken>(tokens: Seq<Seq<char>>)
    ensures
        read_spec::<T>(tokens) == Err::<T::V, ScanError>(ScanError::Malformed) <==> tokens.len() > 0
            && T::value_of(tokens[0]) is None,
{
}

/// A token that holds a character that is no digit, and that is not its
/// sign either, cannot be read as an integer of any width: the read fails
/// with `Malformed`, and gives no number in its place.
pub proof fn lemma_no_integer_is_malformed(tokens: Seq<Seq<char>>, i: int)
    requires
        tokens.len() > 0,
        0 <= i < tokens[0].len(),
        !is_digit(tokens[0][i]),
        i > 0 || tokens[0][0] != '+',
    ensures
        read_spec::<u8>(tokens) == Err::<u8, ScanError>(ScanError::Malformed),
        read_spec::<u16>(tokens) == Err::<u16, ScanError>(ScanError::Malformed),
        read_spec::<u32>(tokens) == Err::<u32, ScanError>(ScanError::Malformed),
        read_spec::<u64>(tokens) == Err::<u64, ScanError>(ScanError::Malformed),
        read_spec::<u128>(tokens) == Err::<u128, ScanError>(ScanError::Malformed),
        read_spec::<usize>(tokens) == Err::<usize, ScanError>(ScanError::Malformed),
        i > 0 || tokens[0][0] != '-' ==> {
            &&& read_spec::<i8>(tokens) == Err::<i8, ScanError>(ScanError::Malformed)
            &&& read_spec::<i16>(tokens) == Err::<i16, ScanError>(ScanError::Malformed)
            &&& read_spec::<i32>(tokens) == Err::<i32, ScanError>(ScanError::Malformed)
            &&& read_spec::<i64>(tokens) == Err::<i64, ScanError>(ScanError::Malformed)
            &&& read_spec::<i128>(tokens) == Err::<i128, ScanError>(ScanError::Malformed)
            &&& read_spec::<isize>(tokens) == Err::<isize, ScanError>(ScanError::Malformed)
        },
{
    lemma_not_decimal(tokens[0], false, i);
    if i > 0 || tokens[0][0] != '-' {
        lemma_not_decimal(tokens[0], true, i);
    }
}

/// Words that stand in a text with whitespace around them, of whatever
/// kind and length and over however many lines, are read back one by one
/// from left to right, each as the value it denotes; the read after the
/// last finds the input exhausted.
pub proof fn lemma_reads_in_order<T: FromToken>(
    gaps: Seq<Seq<char>>,
    words: Seq<Seq<char>>,
    values: Seq<T::V>,
)
    requires
        separates(gaps, words),
        values.len() == words.len(),
        forall|i: int| 0 <= i < words.len() ==> T::value_of(#[trigger] words[i]) == Some(values[i]),
    ensures
        reads::<T>(tokens_of(spaced(gaps, words)), words.len()) == Seq::new(
            words.len(),
            |i: int| Ok::<T::V, ScanError>(values[i]),
        ),
        read_spec::<T>(after_reads(tokens_of(spaced(gaps, words)), words.len())) == Err::<
            T::V,
            ScanError,
        >(ScanError::Exhausted),
{
    let tokens = tokens_of(spaced(gaps, words));
    let n = words.len();
    lemma_tokens_of_spaced(gaps, words);
    lemma_reads::<T>(tokens, n);
    lemma_after_reads(tokens, n);
    assert forall|k: int| 0 <= k < n implies #[trigger] reads::<T>(tokens, n)[k] == Ok::<
        T::V,
        ScanError,
    >(values[k]) by {
        lemma_after_reads(tokens, k as nat);
    }
}

/// Integers written in the usual way, with whitespace around them, are
/// read back as those integers, in their order.
pub proof fn lemma_reads_integers_in_order(gaps: Seq<Seq<char>>, values: Seq<i64>)
    requires
        gaps.len() == values.len() + 1,
        forall|i: int| 0 <= i < gaps.len() ==> is_blank(#[trigger] gaps[i]),
        forall|i: int| 0 < i < values.len() ==> (#[trigger] gaps[i]).len() > 0,
    ensures
        reads::<i64>(
            tokens_of(spaced(gaps, Seq::new(values.len(), |i: int| decimal(values[i] as int)))),
            values.len(),
        ) == Seq::new(values.len(), |i: int| Ok::<i64, ScanError>(values[i])),
{
    let words = Seq::new(values.len(), |i: int| decimal(values[i] as int));
    assert forall|i: int| 0 <= i < words.len() implies is_token(#[trigger] words[i])
        && i64::value_of(words[i]) == Some(values[i]) by {
        lemma_decimal_denotes(values[i] as int);
    }
    lemma_reads_in_order::<i64>(gaps, words, values);
}

} // verus!
