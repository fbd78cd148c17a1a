//! Keyword in context: the places where a search string occurs in a text, each
//! with up to three words before and after it.
//!
//! The text is broken at whitespace only, so punctuation stays on the words.
//! A word is a hit when its lowercase form contains the search string as it
//! was given.

use vstd::prelude::*;
use crate::ngram::join_words;
use crate::ngram::joined;
use crate::text::chars_of;
use crate::tokenizer::split_whitespace;
use crate::tokenizer::whitespace_words_of;
use crate::unicode::lowercase_of;

verus! {

/// The number of words shown on each side of a hit.
pub const CONTEXT: usize = 3;

/// Whether `needle` stands in `hay` at `start`.
pub open spec fn occurs_at(hay: Seq<char>, needle: Seq<char>, start: int) -> bool {
    0 <= start && start + needle.len() <= hay.len() && hay.subrange(start, start + needle.len())
        == needle
}

/// Whether `needle` stands somewhere in `hay`. The empty string stands everywhere.
pub open spec fn has_run(hay: Seq<char>, needle: Seq<char>) -> bool {
    exists|start: int| occurs_at(hay, needle, start)
}

/// Whether `word` is a hit for `needle`.
pub open spec fn is_hit(word: Seq<char>, needle: Seq<char>) -> bool {
    has_run(lowercase_of(word), needle)
}

/// The places of the hits among the first `upto` words, in rising order.
pub open spec fn hits_upto(words: Seq<Seq<char>>, needle: Seq<char>, upto: int) -> Seq<int>
    decreases upto,
{
    if upto <= 0 {
        Seq::<int>::empty()
    } else if is_hit(words[upto - 1], needle) {
        hits_upto(words, needle, upto - 1).push(upto - 1)
    } else {
        hits_upto(words, needle, upto - 1)
    }
}

/// The places of all hits, in rising order.
pub open spec fn hits_of(words: Seq<Seq<char>>, needle: Seq<char>) -> Seq<int> {
    hits_upto(words, needle, words.len() as int)
}

/// The number of hits that are shown under an optional limit.
pub open spec fn shown_count(hits: nat, limit: Option<usize>) -> nat {
    match limit {
        Some(most) => if most < hits {
            most as nat
        } else {
            hits
        },
        None => hits,
    }
}

/// One hit with its context.
#[derive(Clone, Debug, PartialEq, Eq)]
pub struct ConcordanceLine {
    /// The place of the hit among the words of the text.
    pub position: usize,
    /// Whether words of the text stand before the window.
    pub leading: bool,
    /// The words of the window, the hit among them.
    pub words: Vec<String>,
    /// The place of the hit within the window.
    pub focus: usize,
    /// Whether words of the text stand after the window.
    pub trailing: bool,
}

/// What a `ConcordanceLine` stands for.
pub struct Window {
    pub position: int,
    pub leading: bool,
    pub words: Seq<Seq<char>>,
    pub focus: int,
    pub trailing: bool,
}

impl View for ConcordanceLine {
    type V = Window;

    open spec fn view(&self) -> Window {
        Window {
            position: self.position as int,
            leading: self.leading,
            words: self.words.deep_view(),
            focus: self.focus as int,
            trailing: self.trailing,
        }
    }
}

impl DeepView for ConcordanceLine {
    type V = Window;

    open spec fn deep_view(&self) -> Window {
        self@
    }
}

/// Where the window round the word at `position` starts.
pub open spec fn window_start(position: int) -> int {
    if position >= CONTEXT {
        position - CONTEXT
    } else {
        0
    }
}

/// Where the window round the word at `position` ends, among `len` words.
pub open spec fn window_end(position: int, len: int) -> int {
    if position + CONTEXT + 1 <= len {
        position + CONTEXT + 1
    } else {
        len
    }
}

/// The window round the word at `position`: up to three words on each side,
/// cut off at the ends of the text.
pub open spec fn window_round(words: Seq<Seq<char>>, position: int) -> Window {
    let start = window_start(position);
    let end = window_end(position, words.len() as int);
    Window {
        position,
        leading: start > 0,
        words: words.subrange(start, end),
        focus: position - start,
        trailing: end < words.len(),
    }
}

/// The window round a word holds the word at its focus, and at most three
/// words on each side of it.
pub proof fn lemma_window_round(words: Seq<Seq<char>>, position: int)
    requires
        0 <= position < words.len(),
    ensures
        ({
            let window = window_round(words, position);
            &&& 0 <= window.focus <= CONTEXT
            &&& window.focus < window.words.len() <= window.focus + CONTEXT + 1
            &&& window.words[window.focus] == words[position]
            &&& !window.leading ==> window.focus == position
            &&& !window.trailing ==> window.words.len() - window.focus == words.len() - position
        }),
{
}

/// The hits of a search, each in its window.
#[derive(Clone, Debug, PartialEq, Eq)]
pub struct Concordance {
    /// The hits that are shown, in the order of the text.
    pub lines: Vec<ConcordanceLine>,
    /// The number of further hits that the limit cut off.
    pub suppressed: usize,
}

impl Concordance {
    /// `self` is the concordance of `needle` in `text`, with at most `limit` hits shown.
    pub open spec fn describes(&self, text: Seq<char>, needle: Seq<char>, limit: Option<usize>) -> bool {
        let words = whitespace_words_of(text);
        let hits = hits_of(words, needle);
        let shown = shown_count(hits.len(), limit);
        &&& self.lines.len() == shown
        &&& self.suppressed == hits.len() - shown
        &&& forall|k: int|
            0 <= k < shown ==> (#[trigger] self.lines[k])@ == window_round(words, hits[k])
    }
}

/// The words of a window with the hit between two asterisks.
pub open spec fn marked(words: Seq<Seq<char>>, focus: int) -> Seq<Seq<char>> {
    Seq::new(
        words.len(),
        |i: int|
            if i == focus {
                seq!['*'] + words[i] + seq!['*']
            } else {
                words[i]
            },
    )
}

/// The three dots that stand for text left out.
pub open spec fn ellipsis() -> Seq<char> {
    seq!['.', '.', '.']
}

/// A window as one line of text: the words with single spaces between them,
/// the hit between asterisks, and three dots at each side where the text goes on.
pub open spec fn rendered(window: Window) -> Seq<char> {
    (if window.leading {
        ellipsis()
    } else {
        Seq::<char>::empty()
    }) + joined(marked(window.words, window.focus)) + (if window.trailing {
        ellipsis()
    } else {
        Seq::<char>::empty()
    })
}

impl ConcordanceLine {
    /// The line as text: the words with single spaces between them, the hit
    /// between asterisks, and three dots at each side where the text goes on.
    pub fn render(&self) -> (text: String)
        ensures
            text@ == rendered(self@),
    {
        let ghost words = self.words.deep_view();
        let mut shown: Vec<String> = Vec::new();
        for i in 0..self.words.len()
            invariant
                words == self.words.deep_view(),
                shown.deep_view() == marked(words, self.focus as int).take(i as int),
        {
            let ghost before = shown.deep_view();
            let mut word = String::new();
            if i == self.focus {
                word.push('*');
                word.append(self.words[i].as_str());
                word.push('*');
                proof {
                    assert(word@ =~= seq!['*'] + words[i as int] + seq!['*']);
                }
            } else {
                word.append(self.words[i].as_str());
                proof {
                    assert(word@ =~= words[i as int]);
                }
            }
            shown.push(word);
            proof {
                assert(shown.deep_view() =~= before.push(word@));
                assert(marked(words, self.focus as int).take(i + 1) =~= marked(
                    words,
                    self.focus as int,
                ).take(i as int).push(word@));
            }
        }
        proof {
            assert(marked(words, self.focus as int).take(self.words.len() as int) =~= marked(
                words,
                self.focus as int,
            ));
        }
        let mut text = String::new();
        if self.leading {
            text.push('.');
            text.push('.');
            text.push('.');
        }
        proof {
            assert(text@ =~= if self.leading {
                ellipsis()
            } else {
                Seq::<char>::empty()
            });
        }
        let body = join_words(&shown);
        text.append(body.as_str());
        let ghost head = text@;
        if self.trailing {
            text.push('.');
            text.push('.');
            text.push('.');
        }
        proof {
            assert(text@ =~= head + if self.trailing {
                ellipsis()
            } else {
                Seq::<char>::empty()
            });
        }
        text
    }
}

/// Whether `needle` stands in `hay` at `start`.
fn matches_at(hay: &Vec<char>, needle: &Vec<char>, start: usize) -> (found: bool)
    requires
        start + needle.len() <= hay.len(),
    ensures
        found == occurs_at(hay@, needle@, start as int),
{
    for k in 0..needle.len()
        invariant
            start + needle.len() <= hay.len(),
            forall|n: int| 0 <= n < k ==> hay[start + n] == needle[n],
    {
        if hay[start + k] != needle[k] {
            proof {
                assert(hay@.subrange(start as int, start + needle.len())[k as int] == hay[start + k]);
            }
            return false;
        }
    }
    proof {
        assert(hay@.subrange(start as int, start + needle.len()) =~= needle@);
    }
    true
}

/// Whether `needle` stands somewhere in `hay`.
pub fn contains_run(hay: &Vec<char>, needle: &Vec<char>) -> (found: bool)
    ensures
        found == has_run(hay@, needle@),
{
    if needle.len() > hay.len() {
        return false;
    }
    let last = hay.len() - needle.len();
    let mut start: usize = 0;
    loop
        invariant
            last == hay.len() - needle.len(),
            start <= last,
            forall|s: int| 0 <= s < start ==> !occurs_at(hay@, needle@, s),
        decreases last - start,
    {
        if matches_at(hay, needle, start) {
            return true;
        }
        if start == last {
            return false;
        }
        start = start + 1;
    }
}

/// Whether the lowercase form of `word` contains `needle`.
pub fn word_is_hit(word: &str, needle: &Vec<char>) -> (hit: bool)
    ensures
        hit == is_hit(word@, needle@),
{
    let lowered = word.to_lowercase();
    let hay = chars_of(lowered.as_str());
    contains_run(&hay, needle)
}

/// The window round the word at `position`.
pub fn window_of(words: &Vec<String>, position: usize) -> (line: ConcordanceLine)
    requires
        position < words.len(),
    ensures
        line@ == window_round(words.deep_view(), position as int),
{
    let start: usize = if position >= CONTEXT {
        position - CONTEXT
    } else {
        0
    };
    let end: usize = if words.len() - position > CONTEXT {
        position + CONTEXT + 1
    } else {
        words.len()
    };
    let mut window: Vec<String> = Vec::new();
    for i in start..end
        invariant
            start <= end <= words.len(),
            window.deep_view() == words.deep_view().subrange(start as int, i as int),
    {
        let ghost before = window.deep_view();
        window.push(words[i].clone());
        proof {
            assert(window.deep_view() =~= before.push(words[i as int]@));
            assert(words.deep_view().subrange(start as int, i + 1) =~= words.deep_view().subrange(
                start as int,
                i as int,
            ).push(words[i as int]@));
        }
    }
    ConcordanceLine {
        position,
        leading: start > 0,
        words: window,
        focus: position - start,
        trailing: end < words.len(),
    }
}

/// The concordance of `needle` in `haystack`: every word whose lowercase form
/// contains `needle`, in its window. With a limit, only the first `limit` hits
/// are shown, and the rest are counted.
pub fn find_in_context(haystack: &str, needle: &str, limit: Option<usize>) -> (found: Concordance)
    ensures
        found.describes(haystack@, needle@, limit),
{
    let words = split_whitespace(haystack);
    let pattern = chars_of(needle);
    let ghost all = words.deep_view();
    let mut lines: Vec<ConcordanceLine> = Vec::new();
    let mut suppressed: usize = 0;
    for i in 0..words.len()
        invariant
            all == words.deep_view(),
            pattern@ == needle@,
            lines.len() == shown_count(hits_upto(all, needle@, i as int).len(), limit),
            suppressed == hits_upto(all, needle@, i as int).len() - lines.len(),
            hits_upto(all, needle@, i as int).len() <= i,
            forall|k: int|
                0 <= k < lines.len() ==> (#[trigger] lines[k])@ == window_round(
                    all,
                    hits_upto(all, needle@, i as int)[k],
                ),
    {
        proof {
            assert(all[i as int] == words[i as int]@);
        }
        if word_is_hit(words[i].as_str(), &pattern) {
            let full = match limit {
                Some(most) => lines.len() >= most,
                None => false,
            };
            if full {
                suppressed = suppressed + 1;
            } else {
                let line = window_of(&words, i);
                lines.push(line);
            }
        }
    }
    Concordance { lines, suppressed }
}

} // verus!
