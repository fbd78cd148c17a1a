//! Frequency tables: how often each distinct item occurs in a sequence, and
//! the ranking of a table by count.

use vstd::prelude::*;

verus! {

/// One line of a frequency table: a unigram, bigram or trigram and the number
/// of times it occurs.
#[derive(Clone, Debug, PartialEq, Eq)]
pub struct WordData {
    pub text: String,
    pub count: usize,
}

/// What a `WordData` stands for.
pub struct Entry {
    pub text: Seq<char>,
    pub count: nat,
}

impl View for WordData {
    type V = Entry;

    open spec fn view(&self) -> Entry {
        Entry { text: self.text@, count: self.count as nat }
    }
}

impl DeepView for WordData {
    type V = Entry;

    open spec fn deep_view(&self) -> Entry {
        self@
    }
}

/// What the lines of a table stand for, line by line.
pub open spec fn entries_of(table: Seq<WordData>) -> Seq<Entry> {
    Seq::new(table.len(), |i: int| table[i]@)
}

/// How many times `text` occurs among `items`.
pub open spec fn occurrences(items: Seq<Seq<char>>, text: Seq<char>) -> nat {
    items.to_multiset().count(text)
}

/// Whether some entry is about `text`.
pub open spec fn has_entry(entries: Seq<Entry>, text: Seq<char>) -> bool {
    exists|i: int| 0 <= i < entries.len() && (#[trigger] entries[i]).text == text
}

/// `entries` is the frequency table of `items`: one entry for each distinct
/// item and for nothing else, no text twice, each count the number of
/// occurrences of its text. The order of the entries is left open.
pub open spec fn is_tally(entries: Seq<Entry>, items: Seq<Seq<char>>) -> bool {
    &&& forall|i: int|
        0 <= i < entries.len() ==> (#[trigger] entries[i]).count >= 1 && entries[i].count
            == occurrences(items, entries[i].text)
    &&& forall|i: int, j: int|
        0 <= i < j < entries.len() ==> (#[trigger] entries[i]).text != (#[trigger] entries[j]).text
    &&& forall|k: int| 0 <= k < items.len() ==> has_entry(entries, #[trigger] items[k])
}

/// Counts never rise from one entry to the next.
pub open spec fn is_ranked(entries: Seq<Entry>) -> bool {
    forall|i: int, j: int|
        0 <= i <= j < entries.len() ==> (#[trigger] entries[i]).count >= (#[trigger] entries[j]).count
}

/// The place of the first occurrence of `text` among `items`, or the number of
/// items where it does not occur.
pub open spec fn first_place(items: Seq<Seq<char>>, text: Seq<char>) -> int
    decreases items.len(),
{
    if items.len() == 0 {
        0
    } else {
        let before = first_place(items.drop_last(), text);
        if before < items.len() - 1 {
            before
        } else if items.last() == text {
            items.len() - 1
        } else {
            items.len() as int
        }
    }
}

/// The entries stand in the order in which their texts first occur among `items`.
pub open spec fn in_order_of_first_place(entries: Seq<Entry>, items: Seq<Seq<char>>) -> bool {
    forall|a: int, b: int|
        0 <= a < b < entries.len() ==> first_place(items, (#[trigger] entries[a]).text)
            < first_place(items, (#[trigger] entries[b]).text)
}

/// Of two entries with the same count, the one whose text occurs first among
/// `items` comes first.
pub open spec fn ties_by_first_place(entries: Seq<Entry>, items: Seq<Seq<char>>) -> bool {
    forall|a: int, b: int|
        0 <= a < b < entries.len() && (#[trigger] entries[a]).count == (#[trigger] entries[b]).count
            ==> first_place(items, entries[a].text) < first_place(items, entries[b].text)
}

/// `to` is `from` in order of falling count, entries of equal count in the
/// order in which they stand in `from`; `places[i]` is where the entry at `i`
/// came from.
pub open spec fn is_stable_ranking(from: Seq<WordData>, to: Seq<WordData>, places: Seq<int>) -> bool {
    &&& places.len() == to.len()
    &&& to.len() == from.len()
    &&& forall|i: int|
        0 <= i < to.len() ==> 0 <= #[trigger] places[i] < from.len() && to[i] == from[places[i]]
    &&& forall|i: int, j: int|
        0 <= i < j < to.len() ==> (#[trigger] to[i]).count > (#[trigger] to[j]).count || (
        to[i].count == to[j].count && places[i] < places[j])
}

/// The sum of the counts of `entries`.
pub open spec fn total_count(entries: Seq<Entry>) -> nat
    decreases entries.len(),
{
    if entries.len() == 0 {
        0
    } else {
        total_count(entries.drop_last()) + entries.last().count
    }
}

/// One more item raises the count of its own text by one and no other.
pub proof fn lemma_occurrences_push(items: Seq<Seq<char>>, item: Seq<char>, text: Seq<char>)
    ensures
        occurrences(items.push(item), text) == occurrences(items, text) + if item == text {
            1nat
        } else {
            0nat
        },
{
    vstd::seq_lib::to_multiset_build(items, item);
}

/// Nothing occurs in the empty sequence, and what occurs in a sequence is one of its items.
pub proof fn lemma_occurrences_positive(items: Seq<Seq<char>>, text: Seq<char>)
    ensures
        occurrences(items, text) > 0 <==> items.contains(text),
        occurrences(items, text) <= items.len(),
{
    items.to_multiset_ensures();
}

/// The first place of a text lies among the items exactly when the text
/// occurs, and holds the text then.
pub proof fn lemma_first_place(items: Seq<Seq<char>>, text: Seq<char>)
    ensures
        0 <= first_place(items, text) <= items.len(),
        first_place(items, text) < items.len() <==> items.contains(text),
        first_place(items, text) < items.len() ==> items[first_place(items, text)] == text,
        forall|i: int| 0 <= i < first_place(items, text) && i < items.len() ==> items[i] != text,
    decreases items.len(),
{
    if items.len() > 0 {
        let init = items.drop_last();
        lemma_first_place(init, text);
        let before = first_place(init, text);
        if before < init.len() {
            assert(items[before] == init[before]);
        } else if items.last() == text {
            assert(items[items.len() - 1] == text);
        } else {
            if items.contains(text) {
                let i = choose|i: int| 0 <= i < items.len() && items[i] == text;
                assert(init[i] == text);
            }
        }
        assert forall|i: int| 0 <= i < first_place(items, text) && i < items.len() implies items[i]
            != text by {
            if i < init.len() {
                assert(init[i] == items[i]);
            }
        }
    }
}

/// One more item leaves the first place of every text that occurred before.
pub proof fn lemma_first_place_push(items: Seq<Seq<char>>, item: Seq<char>, text: Seq<char>)
    ensures
        first_place(items.push(item), text) == if first_place(items, text) < items.len() {
            first_place(items, text)
        } else if item == text {
            items.len() as int
        } else {
            items.len() as int + 1
        },
{
    lemma_first_place(items, text);
    assert(items.push(item).drop_last() =~= items);
}

/// The index of the first entry for `text`, if the table has one.
pub fn find_entry(table: &Vec<WordData>, text: &str) -> (found: Option<usize>)
    ensures
        match found {
            Some(j) => j < table.len() && table[j as int].text@ == text@ && forall|i: int|
                0 <= i < j ==> (#[trigger] table[i]).text@ != text@,
            None => !has_entry(table.deep_view(), text@),
        },
{
    for j in 0..table.len()
        invariant
            forall|i: int| 0 <= i < j ==> (#[trigger] table[i]).text@ != text@,
    {
        if table[j].text.as_str().eq(text) {
            return Some(j);
        }
    }
    proof {
        assert forall|i: int| 0 <= i < table.deep_view().len() implies (
        #[trigger] table.deep_view()[i]).text != text@ by {
            assert(table.deep_view()[i] == table[i]@);
        }
    }
    None
}

/// The frequency table of `items`, each distinct item at the place of its
/// first occurrence.
pub fn tally(items: &Vec<String>) -> (table: Vec<WordData>)
    ensures
        is_tally(table.deep_view(), items.deep_view()),
        in_order_of_first_place(table.deep_view(), items.deep_view()),
{
    let mut table: Vec<WordData> = Vec::new();
    proof {
        assert(items.deep_view().take(0) =~= Seq::<Seq<char>>::empty());
        items.deep_view().take(0).to_multiset_ensures();
    }
    for k in 0..items.len()
        invariant
            is_tally(table.deep_view(), items.deep_view().take(k as int)),
            in_order_of_first_place(table.deep_view(), items.deep_view().take(k as int)),
    {
        let ghost seen = items.deep_view().take(k as int);
        let ghost before = table.deep_view();
        let ghost item = items[k as int]@;
        proof {
            assert(items.deep_view().take(k + 1) =~= seen.push(item));
            assert forall|text: Seq<char>|
                occurrences(seen.push(item), text) == occurrences(seen, text) + if item == text {
                    1nat
                } else {
                    0nat
                } by {
                lemma_occurrences_push(seen, item, text);
            }
            lemma_occurrences_positive(seen, item);
            assert forall|i: int| 0 <= i < before.len() implies first_place(
                seen.push(item),
                (#[trigger] before[i]).text,
            ) == first_place(seen, before[i].text) && first_place(seen, before[i].text)
                < seen.len() by {
                lemma_occurrences_positive(seen, before[i].text);
                lemma_first_place(seen, before[i].text);
                lemma_first_place_push(seen, item, before[i].text);
            }
        }
        match find_entry(&table, items[k].as_str()) {
            Some(j) => {
                proof {
                    assert(before[j as int] == table[j as int]@);
                    assert(table[j as int].count <= seen.len());
                }
                let ghost counted = table@;
                table[j].count = table[j].count + 1;
                proof {
                    let after = table.deep_view();
                    assert(after.len() == before.len());
                    assert forall|i: int| 0 <= i < after.len() implies before[i] == counted[i]@ by {}
                    assert forall|i: int| 0 <= i < after.len() implies (#[trigger] after[i]).text
                        == before[i].text && after[i].count == before[i].count + if i == j {
                        1nat
                    } else {
                        0nat
                    } by {
                        if i != j {
                            assert(after[i] == before[i]);
                        }
                    }
                    assert forall|n: int| 0 <= n < seen.push(item).len() implies has_entry(
                        after,
                        #[trigger] seen.push(item)[n],
                    ) by {
                        if n < seen.len() {
                            assert(has_entry(before, seen[n]));
                            let i = choose|i: int|
                                0 <= i < before.len() && (#[trigger] before[i]).text == seen[n];
                            assert(after[i].text == seen[n]);
                        } else {
                            assert(after[j as int].text == item);
                        }
                    }
                    assert forall|a: int, b: int| 0 <= a < b < after.len() implies first_place(
                        seen.push(item),
                        (#[trigger] after[a]).text,
                    ) < first_place(seen.push(item), (#[trigger] after[b]).text) by {
                        assert(after[a].text == before[a].text);
                        assert(after[b].text == before[b].text);
                    }
                }
            },
            None => {
                proof {
                    if seen.contains(item) {
                        let n = choose|n: int| 0 <= n < seen.len() && seen[n] == item;
                        assert(has_entry(before, seen[n]));
                    }
                }
                table.push(WordData { text: items[k].clone(), count: 1 });
                proof {
                    let after = table.deep_view();
                    assert(after =~= before.push(Entry { text: item, count: 1 }));
                    assert forall|n: int| 0 <= n < seen.push(item).len() implies has_entry(
                        after,
                        #[trigger] seen.push(item)[n],
                    ) by {
                        if n < seen.len() {
                            assert(has_entry(before, seen[n]));
                            let i = choose|i: int|
                                0 <= i < before.len() && (#[trigger] before[i]).text == seen[n];
                            assert(after[i].text == seen[n]);
                        } else {
                            assert(after[before.len() as int].text == item);
                        }
                    }
                    assert forall|i: int, j: int| 0 <= i < j < after.len() implies (
                    #[trigger] after[i]).text != (#[trigger] after[j]).text by {
                        if j == before.len() {
                            assert(before[i].text != item);
                        }
                    }
                    lemma_first_place(seen, item);
                    lemma_first_place_push(seen, item, item);
                    assert forall|a: int, b: int| 0 <= a < b < after.len() implies first_place(
                        seen.push(item),
                        (#[trigger] after[a]).text,
                    ) < first_place(seen.push(item), (#[trigger] after[b]).text) by {
                        assert(after[a] == before[a]);
                        if b < before.len() {
                            assert(after[b] == before[b]);
                        }
                    }
                }
            },
        }
    }
    proof {
        assert(items.deep_view().take(items.len() as int) =~= items.deep_view());
    }
    table
}

/// A table put in another order is still the table of the same items.
pub proof fn lemma_tally_reordered(from: Seq<WordData>, to: Seq<WordData>, items: Seq<Seq<char>>)
    requires
        from.to_multiset() == to.to_multiset(),
        is_tally(entries_of(from), items),
    ensures
        is_tally(entries_of(to), items),
{
    let a = entries_of(from);
    let b = entries_of(to);
    from.to_multiset_ensures();
    to.to_multiset_ensures();
    assert forall|i: int, j: int| 0 <= i < j < from.len() implies from[i] != from[j] by {
        assert(a[i].text != a[j].text);
    }
    assert(from.no_duplicates());
    from.lemma_multiset_has_no_duplicates();
    to.lemma_multiset_has_no_duplicates_conv();
    assert forall|i: int| 0 <= i < to.len() implies from.contains(#[trigger] to[i]) by {
        assert(to.contains(to[i]));
        vstd::seq_lib::to_multiset_contains(to, to[i]);
        vstd::seq_lib::to_multiset_contains(from, to[i]);
    }
    assert forall|n: int| 0 <= n < from.len() implies to.contains(#[trigger] from[n]) by {
        assert(from.contains(from[n]));
        vstd::seq_lib::to_multiset_contains(from, from[n]);
        vstd::seq_lib::to_multiset_contains(to, from[n]);
    }
    assert forall|i: int| 0 <= i < b.len() implies (#[trigger] b[i]).count >= 1 && b[i].count
        == occurrences(items, b[i].text) by {
        assert(from.contains(to[i]));
        let n = choose|n: int| 0 <= n < from.len() && from[n] == to[i];
        assert(a[n] == b[i]);
    }
    assert forall|i: int, j: int| 0 <= i < j < b.len() implies (#[trigger] b[i]).text != (
    #[trigger] b[j]).text by {
        assert(from.contains(to[i]));
        assert(from.contains(to[j]));
        let n = choose|n: int| 0 <= n < from.len() && from[n] == to[i];
        let m = choose|m: int| 0 <= m < from.len() && from[m] == to[j];
        assert(to[i] != to[j]);
        assert(n != m);
        if n < m {
            assert(a[n].text != a[m].text);
        } else {
            assert(a[m].text != a[n].text);
        }
    }
    assert forall|k: int| 0 <= k < items.len() implies has_entry(b, #[trigger] items[k]) by {
        assert(has_entry(a, items[k]));
        let n = choose|n: int| 0 <= n < a.len() && (#[trigger] a[n]).text == items[k];
        assert(to.contains(from[n]));
        let i = choose|i: int| 0 <= i < to.len() && to[i] == from[n];
        assert(b[i].text == items[k]);
    }
}

/// Puts a table in order of falling count. Entries with equal counts keep the
/// order in which they came.
pub fn rank(table: Vec<WordData>) -> (ranked: Vec<WordData>)
    ensures
        ranked@.to_multiset() == table@.to_multiset(),
        ranked.len() == table.len(),
        is_ranked(ranked.deep_view()),
        exists|places: Seq<int>| is_stable_ranking(table@, ranked@, places),
{
    let mut ranked = table;
    let ghost first = ranked@;
    let ghost mut places: Seq<int> = Seq::new(first.len(), |x: int| x);
    let mut i: usize = 0;
    while i < ranked.len()
        invariant
            i <= ranked.len(),
            ranked.len() == first.len(),
            places.len() == first.len(),
            ranked@.to_multiset() == first.to_multiset(),
            forall|x: int|
                0 <= x < ranked.len() ==> 0 <= #[trigger] places[x] < first.len() && ranked[x]
                    == first[places[x]],
            forall|x: int| i <= x < ranked.len() ==> #[trigger] places[x] == x,
            forall|x: int| 0 <= x < i ==> #[trigger] places[x] < i,
            forall|a: int, b: int|
                0 <= a < b < i ==> (#[trigger] ranked[a]).count > (#[trigger] ranked[b]).count || (
                ranked[a].count == ranked[b].count && places[a] < places[b]),
        decreases ranked.len() - i,
    {
        let count = ranked[i].count;
        let mut k: usize = 0;
        while k < i && ranked[k].count >= count
            invariant
                k <= i < ranked.len(),
                forall|a: int| 0 <= a < k ==> (#[trigger] ranked[a]).count >= count,
            decreases i - k,
        {
            k = k + 1;
        }
        if k < i {
            let ghost before = ranked@;
            let ghost came = places;
            let entry = ranked.remove(i);
            let ghost without = ranked@;
            ranked.insert(k, entry);
            proof {
                places = came.remove(i as int).insert(k as int, i as int);
                vstd::seq_lib::to_multiset_remove(before, i as int);
                vstd::seq_lib::to_multiset_insert(without, k as int, entry);
                before.to_multiset_ensures();
                assert(ranked@.to_multiset() =~= before.to_multiset());
                assert forall|x: int| 0 <= x < ranked.len() implies 0 <= #[trigger] places[x]
                    < first.len() && ranked[x] == first[places[x]] by {
                    if x < k {
                        assert(places[x] == came[x]);
                        assert(ranked[x] == before[x]);
                    } else if x == k {
                        assert(places[x] == i);
                        assert(came[i as int] == i);
                    } else if x <= i {
                        assert(places[x] == came[x - 1]);
                        assert(ranked[x] == before[x - 1]);
                    } else {
                        assert(places[x] == came[x]);
                        assert(ranked[x] == before[x]);
                    }
                }
                assert forall|x: int| i + 1 <= x < ranked.len() implies #[trigger] places[x] == x by {
                    assert(places[x] == came[x]);
                }
                assert forall|x: int| 0 <= x < i + 1 implies #[trigger] places[x] < i + 1 by {
                    if x < k {
                        assert(places[x] == came[x]);
                    } else if x > k {
                        assert(places[x] == came[x - 1]);
                    }
                }
                assert forall|a: int, b: int| 0 <= a < b < i + 1 implies (#[trigger] ranked[a]).count
                    > (#[trigger] ranked[b]).count || (ranked[a].count == ranked[b].count
                    && places[a] < places[b]) by {
                    let pa = if a < k { a } else { a - 1 };
                    let pb = if b < k { b } else { b - 1 };
                    if a == k {
                        assert(ranked[b] == before[pb]);
                        if pb > k {
                            assert(before[k as int].count > before[pb].count || (before[k as int].count
                                == before[pb].count && came[k as int] < came[pb]));
                        }
                    } else if b == k {
                        assert(ranked[a] == before[a]);
                        assert(before[a].count >= count);
                        assert(places[a] == came[a]);
                        assert(came[a] < i);
                    } else {
                        assert(ranked[a] == before[pa]);
                        assert(ranked[b] == before[pb]);
                        assert(places[a] == came[pa]);
                        assert(places[b] == came[pb]);
                        assert(before[pa].count > before[pb].count || (before[pa].count
                            == before[pb].count && came[pa] < came[pb]));
                    }
                }
            }
        } else {
            proof {
                assert forall|a: int, b: int| 0 <= a < b < i + 1 implies (#[trigger] ranked[a]).count
                    > (#[trigger] ranked[b]).count || (ranked[a].count == ranked[b].count
                    && places[a] < places[b]) by {
                    if b == i {
                        assert(ranked[a].count >= count);
                        assert(places[a] < i);
                        assert(places[b] == i);
                    }
                }
                assert forall|x: int| 0 <= x < i + 1 implies #[trigger] places[x] < i + 1 by {
                    if x == i {
                        assert(places[x] == x);
                    }
                }
            }
        }
        i = i + 1;
    }
    proof {
        assert forall|a: int, b: int| 0 <= a <= b < ranked.deep_view().len() implies (
        #[trigger] ranked.deep_view()[a]).count >= (#[trigger] ranked.deep_view()[b]).count by {
            assert(ranked.deep_view()[a] == ranked[a]@);
            assert(ranked.deep_view()[b] == ranked[b]@);
            if a < b {
                assert(ranked[a].count > ranked[b].count || ranked[a].count == ranked[b].count);
            }
        }
        assert(is_stable_ranking(first, ranked@, places));
    }
    ranked
}

/// The frequency table of `items` in order of falling count: one entry for
/// each distinct item, with the number of its occurrences. Among entries with
/// equal counts the item that occurs first in `items` comes first.
pub fn frequency_table(items: &Vec<String>) -> (table: Vec<WordData>)
    ensures
        is_tally(table.deep_view(), items.deep_view()),
        is_ranked(table.deep_view()),
        ties_by_first_place(table.deep_view(), items.deep_view()),
{
    let counted = tally(items);
    let ghost unranked = counted@;
    let table = rank(counted);
    proof {
        assert(entries_of(unranked) =~= counted.deep_view());
        lemma_tally_reordered(unranked, table@, items.deep_view());
        assert(entries_of(table@) =~= table.deep_view());
        let places = choose|places: Seq<int>| is_stable_ranking(unranked, table@, places);
        let before = counted.deep_view();
        let after = table.deep_view();
        assert forall|a: int, b: int|
            0 <= a < b < after.len() && (#[trigger] after[a]).count == (
            #[trigger] after[b]).count implies first_place(items.deep_view(), after[a].text)
            < first_place(items.deep_view(), after[b].text) by {
            assert(table@[a].count > table@[b].count || (table@[a].count == table@[b].count
                && places[a] < places[b]));
            assert(after[a] == before[places[a]]);
            assert(after[b] == before[places[b]]);
        }
    }
    table
}

/// The test that an item is not `text`, as a function value.
pub open spec fn other_than(text: Seq<char>) -> spec_fn(Seq<char>) -> bool {
    |item: Seq<char>| item != text
}

/// Taking every occurrence of one text away shortens a sequence by the number
/// of its occurrences.
pub proof fn lemma_without_len(items: Seq<Seq<char>>, text: Seq<char>)
    ensures
        items.filter(other_than(text)).len() + occurrences(items, text) == items.len(),
    decreases items.len(),
{
    if items.len() == 0 {
        assert(items.filter(other_than(text)).len() == 0);
        items.to_multiset_ensures();
        lemma_occurrences_positive(items, text);
    } else {
        let init = items.drop_last();
        assert(init.push(items.last()) =~= items);
        lemma_without_len(init, text);
        Seq::lemma_filter_push(init, items.last(), other_than(text));
        lemma_occurrences_push(init, items.last(), text);
    }
}

/// Taking every occurrence of one text away leaves the occurrences of every
/// other text as they were.
pub proof fn lemma_without_occurrences(items: Seq<Seq<char>>, text: Seq<char>, other: Seq<char>)
    requires
        other != text,
    ensures
        occurrences(items.filter(other_than(text)), other) == occurrences(items, other),
    decreases items.len(),
{
    if items.len() == 0 {
        assert(items.filter(other_than(text)) =~= items);
    } else {
        let init = items.drop_last();
        assert(init.push(items.last()) =~= items);
        lemma_without_occurrences(init, text, other);
        Seq::lemma_filter_push(init, items.last(), other_than(text));
        lemma_occurrences_push(init, items.last(), other);
        if items.last() != text {
            lemma_occurrences_push(init.filter(other_than(text)), items.last(), other);
        }
    }
}

/// The counts of a frequency table add up to the number of items counted.
pub proof fn lemma_tally_total(entries: Seq<Entry>, items: Seq<Seq<char>>)
    requires
        is_tally(entries, items),
    ensures
        total_count(entries) == items.len(),
    decreases entries.len(),
{
    if entries.len() == 0 {
        if items.len() > 0 {
            assert(has_entry(entries, items[0]));
        }
    } else {
        let last = entries.last();
        let rest = entries.drop_last();
        let others = items.filter(other_than(last.text));
        lemma_without_len(items, last.text);
        assert forall|i: int| 0 <= i < rest.len() implies (#[trigger] rest[i]).count >= 1
            && rest[i].count == occurrences(others, rest[i].text) by {
            assert(rest[i] == entries[i]);
            assert(entries[i].text != entries[entries.len() - 1].text);
            lemma_without_occurrences(items, last.text, rest[i].text);
        }
        assert forall|i: int, j: int| 0 <= i < j < rest.len() implies (#[trigger] rest[i]).text != (
        #[trigger] rest[j]).text by {
            assert(rest[i] == entries[i]);
            assert(rest[j] == entries[j]);
        }
        assert forall|k: int| 0 <= k < others.len() implies has_entry(rest, #[trigger] others[k]) by {
            items.lemma_filter_pred(other_than(last.text), k);
            assert(others.contains(others[k]));
            items.lemma_filter_contains_rev(other_than(last.text), others[k]);
            let n = choose|n: int| 0 <= n < items.len() && items[n] == others[k];
            assert(has_entry(entries, items[n]));
            let i = choose|i: int| 0 <= i < entries.len() && (#[trigger] entries[i]).text == items[n];
            assert(i < rest.len());
            assert(rest[i].text == others[k]);
        }
        lemma_tally_total(rest, others);
    }
}

} // verus!
