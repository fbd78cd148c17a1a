//! N-grams: runs of adjacent tokens, joined by single spaces.
//!
//! The runs are taken from the whole token stream. Stopwords take part in
//! forming them, and a run is dropped afterwards if any of its members is a
//! stopword. For runs of one token this is plain stopword removal.

use vstd::prelude::*;
use crate::filter::WordFilter;
use crate::filter::stop_set;

verus! {

/// The number of runs of `size` adjacent tokens among `len` tokens.
pub open spec fn window_count(len: nat, size: nat) -> nat {
    if 1 <= size <= len {
        (len - size + 1) as nat
    } else {
        0
    }
}

/// The run of `size` adjacent tokens that starts at `start`.
pub open spec fn window_at(tokens: Seq<Seq<char>>, start: int, size: nat) -> Seq<Seq<char>> {
    tokens.subrange(start, start + size)
}

/// The first `upto` runs of `size` adjacent tokens.
pub open spec fn windows_upto(tokens: Seq<Seq<char>>, size: nat, upto: nat) -> Seq<Seq<Seq<char>>> {
    Seq::new(upto, |i: int| window_at(tokens, i, size))
}

/// All runs of `size` adjacent tokens, by the place where they start.
pub open spec fn windows_of(tokens: Seq<Seq<char>>, size: nat) -> Seq<Seq<Seq<char>>> {
    windows_upto(tokens, size, window_count(tokens.len(), size))
}

/// Whether no member of `window` is a stopword. Without a stopword set every
/// window is clear.
pub open spec fn is_clear(window: Seq<Seq<char>>, stop: Option<Set<Seq<char>>>) -> bool {
    match stop {
        Some(words) => forall|k: int| 0 <= k < window.len() ==> !words.contains(#[trigger] window[k]),
        None => true,
    }
}

/// The test for a clear window, as a function value.
pub open spec fn clear_test(stop: Option<Set<Seq<char>>>) -> spec_fn(Seq<Seq<char>>) -> bool {
    |window: Seq<Seq<char>>| is_clear(window, stop)
}

/// The words of a sequence with one space between neighbours.
pub open spec fn joined(words: Seq<Seq<char>>) -> Seq<char>
    decreases words.len(),
{
    if words.len() == 0 {
        Seq::<char>::empty()
    } else if words.len() == 1 {
        words[0]
    } else {
        joined(words.drop_last()) + seq![' '] + words.last()
    }
}

/// Joining, as a function value.
pub open spec fn joining() -> spec_fn(Seq<Seq<char>>) -> Seq<char> {
    |window: Seq<Seq<char>>| joined(window)
}

/// The clear windows among the first `upto`, each joined.
pub open spec fn ngrams_upto(
    tokens: Seq<Seq<char>>,
    size: nat,
    stop: Option<Set<Seq<char>>>,
    upto: nat,
) -> Seq<Seq<char>> {
    windows_upto(tokens, size, upto).filter(clear_test(stop)).map_values(joining())
}

/// The n-grams of order `size` of a token stream, in the order in which they
/// start: every run of `size` adjacent tokens none of which is a stopword.
pub open spec fn ngrams_of(tokens: Seq<Seq<char>>, size: nat, stop: Option<Set<Seq<char>>>) -> Seq<
    Seq<char>,
> {
    ngrams_upto(tokens, size, stop, window_count(tokens.len(), size))
}

/// One more window adds its joined form if it is clear, and nothing otherwise.
pub proof fn lemma_ngrams_upto_next(
    tokens: Seq<Seq<char>>,
    size: nat,
    stop: Option<Set<Seq<char>>>,
    upto: nat,
)
    ensures
        ngrams_upto(tokens, size, stop, upto + 1) == if is_clear(
            window_at(tokens, upto as int, size),
            stop,
        ) {
            ngrams_upto(tokens, size, stop, upto).push(joined(window_at(tokens, upto as int, size)))
        } else {
            ngrams_upto(tokens, size, stop, upto)
        },
{
    let window = window_at(tokens, upto as int, size);
    let before = windows_upto(tokens, size, upto);
    assert(windows_upto(tokens, size, upto + 1) =~= before.push(window));
    Seq::lemma_filter_push(before, window, clear_test(stop));
    let kept = before.filter(clear_test(stop));
    assert(kept.push(window).map_values(joining()) =~= kept.map_values(joining()).push(
        joined(window),
    ));
}

/// Whether none of the `size` tokens from `start` on is a stopword.
pub fn window_is_clear(
    tokens: &Vec<String>,
    start: usize,
    size: usize,
    filter: &Option<WordFilter>,
) -> (clear: bool)
    requires
        start + size <= tokens.len(),
    ensures
        clear == is_clear(window_at(tokens.deep_view(), start as int, size as nat), stop_set(*filter)),
{
    let ghost window = window_at(tokens.deep_view(), start as int, size as nat);
    match filter {
        None => true,
        Some(words) => {
            for k in 0..size
                invariant
                    start + size <= tokens.len(),
                    window == window_at(tokens.deep_view(), start as int, size as nat),
                    stop_set(*filter) == Some(words@),
                    forall|n: int| 0 <= n < k ==> !words@.contains(#[trigger] window[n]),
            {
                if words.contains(tokens[start + k].as_str()) {
                    proof {
                        assert(window[k as int] == tokens[start + k]@);
                        assert(words@.contains(window[k as int]));
                    }
                    return false;
                }
                proof {
                    assert(window[k as int] == tokens[start + k]@);
                }
            }
            true
        },
    }
}

/// The `size` tokens from `start` on, with one space between neighbours.
pub fn join_window(tokens: &Vec<String>, start: usize, size: usize) -> (text: String)
    requires
        start + size <= tokens.len(),
    ensures
        text@ == joined(window_at(tokens.deep_view(), start as int, size as nat)),
{
    let ghost window = window_at(tokens.deep_view(), start as int, size as nat);
    let mut text = String::new();
    proof {
        assert(window.take(0) =~= Seq::<Seq<char>>::empty());
    }
    for k in 0..size
        invariant
            start + size <= tokens.len(),
            window == window_at(tokens.deep_view(), start as int, size as nat),
            text@ == joined(window.take(k as int)),
    {
        proof {
            assert(window.take(k + 1).drop_last() =~= window.take(k as int));
            assert(window.take(k + 1).last() == tokens[start + k]@);
        }
        if k > 0 {
            text.push(' ');
            proof {
                assert(text@ =~= joined(window.take(k as int)) + seq![' ']);
            }
        } else {
            proof {
                assert(window.take(1)[0] == tokens[start + k]@);
                assert(Seq::<char>::empty() + tokens[start + k]@ =~= tokens[start + k]@);
            }
        }
        text.append(tokens[start + k].as_str());
    }
    proof {
        assert(window.take(size as int) =~= window);
    }
    text
}

/// The words with one space between neighbours.
pub fn join_words(words: &Vec<String>) -> (text: String)
    ensures
        text@ == joined(words.deep_view()),
{
    proof {
        assert(window_at(words.deep_view(), 0, words.len() as nat) =~= words.deep_view());
    }
    join_window(words, 0, words.len())
}

/// The n-grams of order `size` of `tokens`, in the order in which they start.
/// With a filter, a run is left out if any of its members is in the filter.
pub fn ngrams(tokens: &Vec<String>, size: usize, filter: &Option<WordFilter>) -> (items: Vec<String>)
    ensures
        items.deep_view() == ngrams_of(tokens.deep_view(), size as nat, stop_set(*filter)),
{
    let mut items: Vec<String> = Vec::new();
    if size == 0 || size > tokens.len() {
        proof {
            assert(items.deep_view() =~= ngrams_of(
                tokens.deep_view(),
                size as nat,
                stop_set(*filter),
            ));
        }
        return items;
    }
    let count = tokens.len() - size + 1;
    proof {
        assert(items.deep_view() =~= ngrams_upto(
            tokens.deep_view(),
            size as nat,
            stop_set(*filter),
            0,
        ));
    }
    for i in 0..count
        invariant
            1 <= size <= tokens.len(),
            count == tokens.len() - size + 1,
            items.deep_view() == ngrams_upto(
                tokens.deep_view(),
                size as nat,
                stop_set(*filter),
                i as nat,
            ),
    {
        let ghost before = items.deep_view();
        proof {
            lemma_ngrams_upto_next(tokens.deep_view(), size as nat, stop_set(*filter), i as nat);
        }
        if window_is_clear(tokens, i, size, filter) {
            let text = join_window(tokens, i, size);
            items.push(text);
            proof {
                assert(items.deep_view() =~= before.push(text@));
            }
        }
    }
    items
}

} // verus!
