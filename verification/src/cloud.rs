//! The word cloud: the most frequent words of a text, scattered over lines of
//! a given width in an order drawn by chance.
//!
//! The thirty most frequent words take part. The ten most frequent of them are
//! written in capitals. Once more than three capitalized words stand on a
//! line, the next word is drawn from the others, as long as any are left.
//! The layout itself is no matter of chance: it is a function of the order in
//! which the words are drawn, and that function is what this module proves.

use vstd::prelude::*;
use crate::frequency::Entry;
use crate::frequency::WordData;
use crate::unicode::uppercase_of;

verus! {

/// The number of words that take part in the cloud.
pub const CLOUD_SIZE: usize = 30;

/// The number of words that are written in capitals.
pub const EMPHASIZED: usize = 10;

/// The number of capitalized words on a line after which the others are preferred.
pub const STREAK_LIMIT: usize = 3;

/// A word that waits to be placed.
#[derive(Clone, Debug, PartialEq, Eq)]
pub struct CloudWord {
    /// The place of the word in the frequency table, counted from zero.
    pub rank: usize,
    pub text: String,
}

/// What a `CloudWord` stands for.
pub struct Candidate {
    pub rank: nat,
    pub text: Seq<char>,
}

impl View for CloudWord {
    type V = Candidate;

    open spec fn view(&self) -> Candidate {
        Candidate { rank: self.rank as nat, text: self.text@ }
    }
}

impl DeepView for CloudWord {
    type V = Candidate;

    open spec fn deep_view(&self) -> Candidate {
        self@
    }
}

/// A word cloud while it is laid out.
#[derive(Clone, Debug, PartialEq, Eq)]
pub struct WordCloud {
    /// The width to which finished lines are centered.
    pub width: usize,
    /// The words that are not placed yet.
    pub remaining: Vec<CloudWord>,
    /// The line that is being filled.
    pub line: String,
    /// The number of capitalized words on the line that is being filled.
    pub streak: usize,
    /// The finished lines.
    pub lines: Vec<String>,
}

/// What a `WordCloud` stands for.
pub struct Layout {
    pub width: nat,
    pub remaining: Seq<Candidate>,
    pub line: Seq<char>,
    pub streak: nat,
    pub lines: Seq<Seq<char>>,
}

impl View for WordCloud {
    type V = Layout;

    open spec fn view(&self) -> Layout {
        Layout {
            width: self.width as nat,
            remaining: self.remaining.deep_view(),
            line: self.line@,
            streak: self.streak as nat,
            lines: self.lines.deep_view(),
        }
    }
}

/// The words that take part in the cloud of a table: its first thirty
/// entries, or all of them if there are fewer.
pub open spec fn candidates_of(table: Seq<Entry>) -> Seq<Candidate> {
    Seq::new(
        if table.len() < CLOUD_SIZE {
            table.len()
        } else {
            CLOUD_SIZE as nat
        },
        |i: int| Candidate { rank: i as nat, text: table[i].text },
    )
}

/// The layout before any word is placed.
pub open spec fn start_of(table: Seq<Entry>, width: nat) -> Layout {
    Layout {
        width,
        remaining: candidates_of(table),
        line: Seq::<char>::empty(),
        streak: 0,
        lines: Seq::<Seq<char>>::empty(),
    }
}

/// A run of `count` spaces.
pub open spec fn spaces(count: nat) -> Seq<char> {
    Seq::new(count, |i: int| ' ')
}

/// A line centered to `width`: the missing width is filled with spaces, half
/// of it on the left, rounded down, and the rest on the right. A line that is
/// as wide as `width` or wider stays as it is.
pub open spec fn centered(line: Seq<char>, width: nat) -> Seq<char> {
    if line.len() >= width {
        line
    } else {
        let missing = (width - line.len()) as nat;
        spaces(missing / 2) + line + spaces((missing - missing / 2) as nat)
    }
}

/// A centered line is as wide as the width, or as the line where the line is wider.
pub proof fn lemma_centered_len(line: Seq<char>, width: nat)
    ensures
        centered(line, width).len() == if line.len() >= width {
            line.len()
        } else {
            width
        },
{
}

/// What a word adds to its line: the word, in capitals if it is among the ten
/// most frequent, and one space.
pub open spec fn piece_of(word: Candidate) -> Seq<char> {
    (if word.rank < EMPHASIZED {
        uppercase_of(word.text)
    } else {
        word.text
    }).push(' ')
}

impl Layout {
    /// Whether a word is left that is not written in capitals.
    pub open spec fn has_plain(self) -> bool {
        exists|i: int| 0 <= i < self.remaining.len() && (#[trigger] self.remaining[i]).rank >= EMPHASIZED
    }

    /// Whether the next word must be one that is not written in capitals.
    pub open spec fn avoids_emphasis(self) -> bool {
        self.streak > STREAK_LIMIT && self.has_plain()
    }

    /// Whether the word at `index` may be placed next.
    pub open spec fn allows(self, index: int) -> bool {
        &&& 0 <= index < self.remaining.len()
        &&& self.avoids_emphasis() ==> self.remaining[index].rank >= EMPHASIZED
    }

    /// Whether the line is finished before `word` is placed: it is when the
    /// line and the word together reach the width.
    pub open spec fn breaks_before(self, word: Candidate) -> bool {
        self.line.len() + word.text.len() >= self.width
    }

    /// The layout after the word at `index` is placed.
    pub open spec fn place(self, index: int) -> Layout {
        let word = self.remaining[index];
        let fresh = self.breaks_before(word);
        let line = if fresh {
            Seq::<char>::empty()
        } else {
            self.line
        };
        let streak = if fresh {
            0
        } else {
            self.streak
        };
        Layout {
            width: self.width,
            remaining: self.remaining.remove(index),
            line: line + piece_of(word),
            streak: if word.rank < EMPHASIZED {
                streak + 1
            } else {
                streak
            },
            lines: if fresh {
                self.lines.push(centered(self.line, self.width))
            } else {
                self.lines
            },
        }
    }

    /// The layout after the words at `picks` are placed one after the other,
    /// each index taken among the words that are left at its turn.
    pub open spec fn place_all(self, picks: Seq<int>) -> Layout
        decreases picks.len(),
    {
        if picks.len() == 0 {
            self
        } else {
            self.place_all(picks.drop_last()).place(picks.last())
        }
    }

    /// Whether each of `picks` may be placed at its turn.
    pub open spec fn allows_all(self, picks: Seq<int>) -> bool
        decreases picks.len(),
    {
        picks.len() == 0 || (self.allows_all(picks.drop_last()) && self.place_all(
            picks.drop_last(),
        ).allows(picks.last()))
    }
}

/// `rand::Rng::random_range` over `0..bound`, on the generator of the current
/// thread. The number drawn lies in the range; nothing else is known of it,
/// and two draws need not agree.
#[verifier::external_body]
fn random_index(bound: usize) -> (index: usize)
    requires
        bound > 0,
    ensures
        index < bound,
{
    rand::Rng::random_range(&mut rand::rng(), 0..bound)
}

/// A string of `count` spaces.
pub fn blank(count: usize) -> (text: String)
    ensures
        text@ == spaces(count as nat),
{
    let mut text = String::new();
    for i in 0..count
        invariant
            text@ == spaces(i as nat),
    {
        text.push(' ');
        proof {
            assert(spaces(i as nat).push(' ') =~= spaces((i + 1) as nat));
        }
    }
    text
}

/// `line` centered to `width`.
pub fn center(line: &str, width: usize) -> (text: String)
    ensures
        text@ == centered(line@, width as nat),
{
    let length = line.unicode_len();
    if length >= width {
        return line.to_owned();
    }
    let missing = width - length;
    let left = missing / 2;
    let mut text = blank(left);
    text.append(line);
    let right = blank(missing - left);
    text.append(right.as_str());
    text
}

impl WordCloud {
    /// The streak counts words that were placed, so it and the words that are
    /// left never exceed the size of the cloud.
    pub open spec fn wf(&self) -> bool {
        self.remaining.len() + self.streak <= CLOUD_SIZE
    }

    /// The cloud of a frequency table before any word is placed.
    pub fn new(words: &Vec<WordData>, width: usize) -> (cloud: WordCloud)
        ensures
            cloud@ == start_of(words.deep_view(), width as nat),
            cloud.wf(),
    {
        let count = if words.len() < CLOUD_SIZE {
            words.len()
        } else {
            CLOUD_SIZE
        };
        let mut remaining: Vec<CloudWord> = Vec::new();
        for i in 0..count
            invariant
                count <= words.len(),
                remaining.len() == i,
                forall|k: int|
                    0 <= k < i ==> (#[trigger] remaining[k])@ == (Candidate {
                        rank: k as nat,
                        text: words[k].text@,
                    }),
        {
            remaining.push(CloudWord { rank: i, text: words[i].text.clone() });
        }
        let cloud = WordCloud { width, remaining, line: String::new(), streak: 0, lines: Vec::new() };
        proof {
            assert(cloud@.remaining =~= candidates_of(words.deep_view()));
            assert(cloud@.lines =~= Seq::<Seq<char>>::empty());
        }
        cloud
    }

    /// Whether every word is placed.
    pub fn is_done(&self) -> (done: bool)
        ensures
            done == (self@.remaining.len() == 0),
    {
        self.remaining.len() == 0
    }

    /// The places, among the words that are left, of those that are not
    /// written in capitals, in rising order.
    pub fn plain_places(&self) -> (places: Vec<usize>)
        ensures
            forall|k: int|
                0 <= k < places.len() ==> (#[trigger] places[k]) < self.remaining.len()
                    && self@.remaining[places[k] as int].rank >= EMPHASIZED,
            forall|i: int|
                0 <= i < self.remaining.len() && self@.remaining[i].rank >= EMPHASIZED
                    ==> places@.contains(i as usize),
            forall|a: int, b: int| 0 <= a < b < places.len() ==> places[a] < places[b],
            places.len() > 0 <==> self@.has_plain(),
    {
        let mut places: Vec<usize> = Vec::new();
        for i in 0..self.remaining.len()
            invariant
                forall|k: int|
                    0 <= k < places.len() ==> (#[trigger] places[k]) < i
                        && self.remaining[places[k] as int].rank >= EMPHASIZED,
                forall|n: int|
                    0 <= n < i && self.remaining[n].rank >= EMPHASIZED ==> places@.contains(
                        n as usize,
                    ),
                forall|a: int, b: int| 0 <= a < b < places.len() ==> places[a] < places[b],
        {
            if self.remaining[i].rank >= EMPHASIZED {
                let ghost before = places@;
                places.push(i);
                proof {
                    assert(places@[before.len() as int] == i);
                    assert forall|n: int|
                        0 <= n < i + 1 && self.remaining[n].rank >= EMPHASIZED implies places@.contains(
                        n as usize,
                    ) by {
                        if n < i {
                            assert(before.contains(n as usize));
                            let k = choose|k: int| 0 <= k < before.len() && before[k] == n as usize;
                            assert(places@[k] == n as usize);
                        }
                    }
                }
            }
        }
        proof {
            let left = self@.remaining;
            assert forall|n: int| 0 <= n < left.len() implies (#[trigger] left[n])
                == self.remaining[n]@ by {}
            if places.len() > 0 {
                assert(left[places[0] as int].rank >= EMPHASIZED);
            }
            if self@.has_plain() {
                let i = choose|i: int| 0 <= i < left.len() && (#[trigger] left[i]).rank >= EMPHASIZED;
                assert(places@.contains(i as usize));
            }
        }
        places
    }

    /// Whether the next word must be one that is not written in capitals: the
    /// line holds more than three capitalized words, and a word of the other
    /// kind is left.
    pub fn avoids_emphasis(&self) -> (avoids: bool)
        ensures
            avoids == self@.avoids_emphasis(),
    {
        if self.streak > STREAK_LIMIT {
            let places = self.plain_places();
            places.len() > 0
        } else {
            false
        }
    }

    /// Whether the word at `index` may be placed next.
    pub fn allows(&self, index: usize) -> (allowed: bool)
        ensures
            allowed == self@.allows(index as int),
    {
        if index >= self.remaining.len() {
            return false;
        }
        proof {
            assert(self@.remaining[index as int] == self.remaining[index as int]@);
        }
        self.remaining[index].rank >= EMPHASIZED || !self.avoids_emphasis()
    }

    /// Places the word at `index`, if it may be placed, and says whether it
    /// did. The line is finished first, and centered, if it and the word
    /// together reach the width.
    pub fn place(&mut self, index: usize) -> (placed: bool)
        requires
            old(self).wf(),
        ensures
            final(self).wf(),
            placed == old(self)@.allows(index as int),
            placed ==> final(self)@ == old(self)@.place(index as int),
            !placed ==> *final(self) == *old(self),
    {
        if !self.allows(index) {
            return false;
        }
        let ghost before = self@;
        let word = self.remaining.remove(index);
        proof {
            assert(word@ == before.remaining[index as int]);
            assert(self.remaining.deep_view() =~= before.remaining.remove(index as int));
        }
        let line_length = self.line.as_str().unicode_len();
        let word_length = word.text.as_str().unicode_len();
        if line_length as u128 + word_length as u128 >= self.width as u128 {
            let finished = center(self.line.as_str(), self.width);
            let ghost lines = self.lines.deep_view();
            self.lines.push(finished);
            proof {
                assert(self.lines.deep_view() =~= lines.push(centered(before.line, before.width)));
            }
            self.line = String::new();
            self.streak = 0;
        }
        let ghost line = self.line@;
        if word.rank < EMPHASIZED {
            let raised = word.text.as_str().to_uppercase();
            self.line.append(raised.as_str());
            self.streak = self.streak + 1;
        } else {
            self.line.append(word.text.as_str());
        }
        self.line.push(' ');
        proof {
            assert(self.line@ =~= line + piece_of(word@));
        }
        true
    }

    /// Lays out the cloud of a frequency table, the words drawn by chance.
    /// Each word is drawn from all that are left; where that gives a
    /// capitalized word although the others are to be preferred, the word is
    /// drawn again from the others. Whatever is drawn, the result is the
    /// layout of some order of the words in which every word was allowed at
    /// its turn, and no word is left.
    pub fn scatter(words: &Vec<WordData>, width: usize) -> (cloud: WordCloud)
        ensures
            cloud.wf(),
            cloud@.remaining.len() == 0,
            exists|picks: Seq<int>|
                #![trigger start_of(words.deep_view(), width as nat).place_all(picks)]
                {
                    &&& picks.len() == candidates_of(words.deep_view()).len()
                    &&& start_of(words.deep_view(), width as nat).allows_all(picks)
                    &&& cloud@ == start_of(words.deep_view(), width as nat).place_all(picks)
                },
    {
        let mut cloud = WordCloud::new(words, width);
        let ghost start = cloud@;
        let ghost mut picks: Seq<int> = Seq::empty();
        while cloud.remaining.len() > 0
            invariant
                cloud.wf(),
                start == start_of(words.deep_view(), width as nat),
                start.allows_all(picks),
                cloud@ == start.place_all(picks),
                picks.len() + cloud.remaining.len() == start.remaining.len(),
            decreases cloud.remaining.len(),
        {
            let mut index = random_index(cloud.remaining.len());
            if !cloud.allows(index) {
                let plain = cloud.plain_places();
                index = plain[random_index(plain.len())];
                proof {
                    assert(cloud@.remaining[index as int] == cloud.remaining[index as int]@);
                }
            }
            let ghost before = cloud@;
            proof {
                assert(before.remaining.len() == cloud.remaining.len());
                assert(before.allows(index as int));
            }
            cloud.place(index);
            proof {
                assert(cloud@.remaining.len() == cloud.remaining.len());
                assert(before.place(index as int).remaining.len() == before.remaining.len() - 1);
                let longer = picks.push(index as int);
                assert(longer.drop_last() =~= picks);
                picks = longer;
            }
        }
        cloud
    }
}

} // verus!
