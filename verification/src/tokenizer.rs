//! Splitting a text into pieces and normalizing the pieces into word tokens.
//!
//! Two splittings live side by side on purpose. Frequency analysis breaks the
//! text at whitespace and at a few punctuation marks, lowercases each piece and
//! keeps the pieces that are words. The concordance breaks at whitespace only
//! and keeps every non-empty piece as it stands.

use vstd::prelude::*;
use crate::unicode::char_is_whitespace;
use crate::unicode::char_is_alphabetic;
use crate::unicode::lowercase_of;
use crate::ngram::joined;

verus! {

/// The characters at which a text is broken.
#[derive(Clone, Copy, Debug)]
pub enum Separators {
    /// Whitespace and the marks `, . " ! ? -` and the em dash.
    WordBreaks,
    /// Whitespace alone.
    Whitespace,
}

/// Whether frequency analysis breaks the text at `c`. The space is listed by
/// itself: it is the break that joins n-grams, whatever the Unicode tables say.
pub open spec fn is_word_break(c: char) -> bool {
    c == ' ' || char_is_whitespace(c) || c == ',' || c == '.' || c == '"' || c == '!' || c == '?'
        || c == '-' || c == '\u{2014}'
}

impl Separators {
    /// Whether the text is broken at `c`.
    pub open spec fn holds(self, c: char) -> bool {
        match self {
            Separators::WordBreaks => is_word_break(c),
            Separators::Whitespace => char_is_whitespace(c),
        }
    }

    /// Whether the text is broken at `c`.
    pub fn separates(&self, c: char) -> (b: bool)
        ensures
            b == self.holds(c),
    {
        match self {
            Separators::WordBreaks => {
                c == ' ' || c.is_whitespace() || c == ',' || c == '.' || c == '"' || c == '!'
                    || c == '?' || c == '-' || c == '\u{2014}'
            },
            Separators::Whitespace => c.is_whitespace(),
        }
    }
}

/// The pieces between the separators of `text`, in order. Every separator ends
/// one piece and starts the next, so two separators in a row enclose an empty
/// piece, and a text with `k` separators has `k + 1` pieces.
pub open spec fn pieces_of(text: Seq<char>, seps: Separators) -> Seq<Seq<char>>
    decreases text.len(),
{
    if text.len() == 0 {
        seq![Seq::<char>::empty()]
    } else {
        let before = pieces_of(text.drop_last(), seps);
        if seps.holds(text.last()) {
            before.push(Seq::<char>::empty())
        } else {
            before.drop_last().push(before.last().push(text.last()))
        }
    }
}

/// A word is a non-empty run of alphabetic characters.
pub open spec fn is_word(s: Seq<char>) -> bool {
    s.len() > 0 && forall|i: int| 0 <= i < s.len() ==> char_is_alphabetic(#[trigger] s[i])
}

/// Lowercasing, as a function value.
pub open spec fn lowering() -> spec_fn(Seq<char>) -> Seq<char> {
    |piece: Seq<char>| lowercase_of(piece)
}

/// The test for a word, as a function value.
pub open spec fn word_test() -> spec_fn(Seq<char>) -> bool {
    |piece: Seq<char>| is_word(piece)
}

/// The test for a non-empty piece, as a function value.
pub open spec fn nonempty_test() -> spec_fn(Seq<char>) -> bool {
    |piece: Seq<char>| piece.len() > 0
}

/// The lowercased pieces that are words, in order. A piece with any character
/// that is not alphabetic is dropped whole.
pub open spec fn words_among(pieces: Seq<Seq<char>>) -> Seq<Seq<char>> {
    pieces.map_values(lowering()).filter(word_test())
}

/// The word tokens of a text.
pub open spec fn tokens_of(text: Seq<char>) -> Seq<Seq<char>> {
    words_among(pieces_of(text, Separators::WordBreaks))
}

/// The non-empty pieces between runs of whitespace, unchanged.
pub open spec fn whitespace_words_of(text: Seq<char>) -> Seq<Seq<char>> {
    pieces_of(text, Separators::Whitespace).filter(nonempty_test())
}

/// Adding one piece adds its lowercase form if that is a word, and nothing otherwise.
pub proof fn lemma_words_among_push(pieces: Seq<Seq<char>>, piece: Seq<char>)
    ensures
        words_among(pieces.push(piece)) == if is_word(lowercase_of(piece)) {
            words_among(pieces).push(lowercase_of(piece))
        } else {
            words_among(pieces)
        },
{
    let lowered = pieces.map_values(lowering());
    assert(pieces.push(piece).map_values(lowering()) =~= lowered.push(lowercase_of(piece)));
    Seq::lemma_filter_push(lowered, lowercase_of(piece), word_test());
}

/// Breaks `text` at every separator.
pub fn split(text: &str, seps: Separators) -> (pieces: Vec<String>)
    ensures
        pieces.deep_view() == pieces_of(text@, seps),
{
    let mut pieces: Vec<String> = Vec::new();
    let mut current = String::new();
    proof {
        assert(text@.take(0) =~= Seq::<char>::empty());
        assert(pieces.deep_view().push(current@) =~= seq![Seq::<char>::empty()]);
    }
    for c in it: text.chars()
        invariant
            it.seq() == text@,
            pieces_of(text@.take(it.index()), seps) == pieces.deep_view().push(current@),
    {
        let ghost i = it.index();
        let ghost before = pieces.deep_view().push(current@);
        proof {
            assert(text@.take(i + 1).drop_last() =~= text@.take(i));
            assert(text@.take(i + 1).last() == c);
        }
        if seps.separates(c) {
            pieces.push(current);
            current = String::new();
            proof {
                assert(pieces.deep_view() =~= before);
                assert(pieces_of(text@.take(i + 1), seps) == before.push(Seq::<char>::empty()));
            }
        } else {
            let ghost grown = current@.push(c);
            current.push(c);
            proof {
                assert(before.drop_last() =~= pieces.deep_view());
                assert(before.last() == grown.drop_last());
                assert(grown.drop_last().push(c) =~= grown);
            }
        }
    }
    proof {
        assert(text@.take(text@.len() as int) =~= text@);
    }
    let ghost done = pieces.deep_view();
    pieces.push(current);
    proof {
        assert(pieces.deep_view() =~= done.push(current@));
    }
    pieces
}

/// Whether `s` is a word: not empty, and alphabetic throughout.
pub fn is_word_str(s: &str) -> (b: bool)
    ensures
        b == is_word(s@),
{
    let mut any = false;
    for c in it: s.chars()
        invariant
            it.seq() == s@,
            any == (it.index() > 0),
            forall|i: int| 0 <= i < it.index() ==> char_is_alphabetic(#[trigger] s@[i]),
    {
        if !c.is_alphabetic() {
            return false;
        }
        any = true;
    }
    any
}

/// The word tokens of `text`, in the order in which they stand in it: the text
/// is broken at the word breaks, each piece is lowercased, and the pieces that
/// are words are kept.
pub fn tokenize(text: &str) -> (tokens: Vec<String>)
    ensures
        tokens.deep_view() == tokens_of(text@),
{
    let pieces = split(text, Separators::WordBreaks);
    let mut tokens: Vec<String> = Vec::new();
    proof {
        assert(pieces.deep_view().take(0) =~= Seq::<Seq<char>>::empty());
        assert(tokens.deep_view() =~= words_among(Seq::<Seq<char>>::empty()));
    }
    for i in 0..pieces.len()
        invariant
            tokens.deep_view() == words_among(pieces.deep_view().take(i as int)),
    {
        let lowered = pieces[i].as_str().to_lowercase();
        let ghost kept = tokens.deep_view();
        proof {
            assert(pieces.deep_view().take(i + 1) =~= pieces.deep_view().take(i as int).push(
                pieces[i as int]@,
            ));
            lemma_words_among_push(pieces.deep_view().take(i as int), pieces[i as int]@);
        }
        if is_word_str(lowered.as_str()) {
            tokens.push(lowered);
            proof {
                assert(tokens.deep_view() =~= kept.push(lowered@));
            }
        }
    }
    proof {
        assert(pieces.deep_view().take(pieces.len() as int) =~= pieces.deep_view());
    }
    tokens
}

/// The non-empty pieces of `text` between runs of whitespace, unchanged.
pub fn split_whitespace(text: &str) -> (words: Vec<String>)
    ensures
        words.deep_view() == whitespace_words_of(text@),
{
    let pieces = split(text, Separators::Whitespace);
    let ghost all = pieces.deep_view();
    let mut words: Vec<String> = Vec::new();
    proof {
        assert(all.take(0) =~= Seq::<Seq<char>>::empty());
        assert(words.deep_view() =~= Seq::<Seq<char>>::empty().filter(nonempty_test()));
    }
    for i in 0..pieces.len()
        invariant
            pieces.deep_view() == all,
            words.deep_view() == all.take(i as int).filter(nonempty_test()),
    {
        let ghost kept = words.deep_view();
        proof {
            assert(all.take(i + 1) =~= all.take(i as int).push(all[i as int]));
            Seq::lemma_filter_push(all.take(i as int), all[i as int], nonempty_test());
        }
        if !pieces[i].as_str().is_empty() {
            let word = pieces[i].clone();
            words.push(word);
            proof {
                assert(words.deep_view() =~= kept.push(all[i as int]));
            }
        }
    }
    proof {
        assert(all.take(pieces.len() as int) =~= all);
    }
    words
}

/// Every token is a word: it is not empty, and nothing but letters is left in it.
pub proof fn lemma_tokens_are_words(text: Seq<char>)
    ensures
        forall|i: int| 0 <= i < tokens_of(text).len() ==> is_word(#[trigger] tokens_of(text)[i]),
{
    let lowered = pieces_of(text, Separators::WordBreaks).map_values(lowering());
    assert forall|i: int| 0 <= i < tokens_of(text).len() implies is_word(
        #[trigger] tokens_of(text)[i],
    ) by {
        lowered.lemma_filter_pred(word_test(), i);
    }
}

/// A text always has a piece, if only an empty one.
pub proof fn lemma_pieces_nonempty(text: Seq<char>, seps: Separators)
    ensures
        pieces_of(text, seps).len() >= 1,
    decreases text.len(),
{
    if text.len() > 0 {
        lemma_pieces_nonempty(text.drop_last(), seps);
    }
}

/// Characters without a separator among them lengthen the last piece.
pub proof fn lemma_pieces_extend(text: Seq<char>, more: Seq<char>, seps: Separators)
    requires
        forall|i: int| 0 <= i < more.len() ==> !seps.holds(#[trigger] more[i]),
    ensures
        pieces_of(text + more, seps) == pieces_of(text, seps).drop_last().push(
            pieces_of(text, seps).last() + more,
        ),
    decreases more.len(),
{
    lemma_pieces_nonempty(text, seps);
    let pieces = pieces_of(text, seps);
    if more.len() == 0 {
        assert(text + more =~= text);
        assert(pieces.last() + more =~= pieces.last());
        assert(pieces.drop_last().push(pieces.last()) =~= pieces);
    } else {
        let init = more.drop_last();
        lemma_pieces_extend(text, init, seps);
        assert((text + more).drop_last() =~= text + init);
        assert((text + more).last() == more[more.len() - 1]);
        let before = pieces_of(text + init, seps);
        assert(before.drop_last() =~= pieces.drop_last());
        assert(before.last().push(more.last()) =~= pieces.last() + more);
    }
}

/// A word that tokenizing leaves as it is: it holds no word break, it is a
/// word, and lowercasing does not change it.
pub open spec fn is_settled(word: Seq<char>) -> bool {
    &&& is_word(word)
    &&& lowercase_of(word) == word
    &&& forall|i: int| 0 <= i < word.len() ==> !is_word_break(#[trigger] word[i])
}

/// The pieces of settled words joined by spaces are the words.
pub proof fn lemma_pieces_of_joined(words: Seq<Seq<char>>)
    requires
        words.len() >= 1,
        forall|i: int| 0 <= i < words.len() ==> is_settled(#[trigger] words[i]),
    ensures
        pieces_of(joined(words), Separators::WordBreaks) == words,
    decreases words.len(),
{
    let seps = Separators::WordBreaks;
    let last = words.last();
    assert(is_settled(words[words.len() - 1]));
    if words.len() == 1 {
        let none = Seq::<char>::empty();
        lemma_pieces_extend(none, last, seps);
        assert(none + last =~= last);
        assert(pieces_of(none, seps) =~= seq![none]);
        assert(seq![none].drop_last().push(none + last) =~= words);
    } else {
        let init = words.drop_last();
        assert forall|i: int| 0 <= i < init.len() implies is_settled(#[trigger] init[i]) by {
            assert(init[i] == words[i]);
        }
        lemma_pieces_of_joined(init);
        let head = joined(init).push(' ');
        assert(head.drop_last() =~= joined(init));
        assert(is_word_break(' '));
        assert(pieces_of(head, seps) == init.push(Seq::<char>::empty()));
        lemma_pieces_extend(head, last, seps);
        assert(head + last =~= joined(init) + seq![' '] + last);
        assert(init.push(Seq::<char>::empty()).drop_last() =~= init);
        assert(Seq::<char>::empty() + last =~= last);
        assert(init.push(last) =~= words);
    }
}

/// Settled words are all kept, and kept as they are.
pub proof fn lemma_words_among_settled(words: Seq<Seq<char>>)
    requires
        forall|i: int| 0 <= i < words.len() ==> is_settled(#[trigger] words[i]),
    ensures
        words_among(words) == words,
    decreases words.len(),
{
    if words.len() == 0 {
        assert(words.map_values(lowering()) =~= words);
        assert(words.filter(word_test()) =~= words) by {
            reveal(Seq::filter);
        }
    } else {
        let init = words.drop_last();
        assert forall|i: int| 0 <= i < init.len() implies is_settled(#[trigger] init[i]) by {
            assert(init[i] == words[i]);
        }
        lemma_words_among_settled(init);
        assert(is_settled(words[words.len() - 1]));
        lemma_words_among_push(init, words.last());
        assert(init.push(words.last()) =~= words);
    }
}

/// Tokenizing is at rest on its own output: for words that hold no word break
/// and that lowercasing leaves alone, the tokens of the words joined by single
/// spaces are the words themselves, in the same order.
pub proof fn lemma_tokens_of_joined(words: Seq<Seq<char>>)
    requires
        words.len() >= 1,
        forall|i: int| 0 <= i < words.len() ==> is_settled(#[trigger] words[i]),
    ensures
        tokens_of(joined(words)) == words,
{
    lemma_pieces_of_joined(words);
    lemma_words_among_settled(words);
}

} // verus!
