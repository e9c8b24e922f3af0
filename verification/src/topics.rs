//! The topic extractor: from a text to its ordered set of topics.
//!
//! A topic is a pair of neighbouring words, both longer than three characters,
//! written with one space between them. The extractor is a plain lexical rule:
//! the same text always gives the same topics.

use vstd::prelude::*;
use vstd::string::*;
use crate::text::{
    chars_of, insert_in_order, lemma_ordered_set, lemma_precedes_irreflexive, lines_view,
    ordered_set, precedes, split_chars, strictly_ordered, string_from_chars, strings_view, words,
};

verus! {

/// Whether a word is long enough to be part of a topic.
pub open spec fn long_word(w: Seq<char>) -> bool {
    w.len() > 3
}

/// The topic made of the neighbouring words `a` and `b`.
pub open spec fn pair_topic(a: Seq<char>, b: Seq<char>) -> Seq<char> {
    a + seq![' '] + b
}

/// The topic candidates of a list of words, in the order of the text: one for
/// every pair of neighbouring words that are both long.
pub open spec fn candidates(w: Seq<Seq<char>>) -> Seq<Seq<char>>
    decreases w.len(),
{
    if w.len() < 2 {
        Seq::empty()
    } else {
        let before = candidates(w.drop_last());
        if long_word(w[w.len() - 2]) && long_word(w[w.len() - 1]) {
            before.push(pair_topic(w[w.len() - 2], w[w.len() - 1]))
        } else {
            before
        }
    }
}

/// The topics of `text`: its candidates, each once, in dictionary order.
pub open spec fn topics_of(text: Seq<char>) -> Seq<Seq<char>> {
    ordered_set(candidates(words(text)))
}

/// Every pair of neighbouring long words is among the candidates.
pub proof fn lemma_pair_is_candidate(w: Seq<Seq<char>>, i: int)
    requires
        0 <= i,
        i + 1 < w.len(),
        long_word(w[i]),
        long_word(w[i + 1]),
    ensures
        candidates(w).contains(pair_topic(w[i], w[i + 1])),
    decreases w.len(),
{
    let c = candidates(w);
    if i + 2 == w.len() {
        assert(c[c.len() - 1] == pair_topic(w[i], w[i + 1]));
    } else {
        let init = w.drop_last();
        lemma_pair_is_candidate(init, i);
        let t = pair_topic(init[i], init[i + 1]);
        let k = choose|k: int| 0 <= k < candidates(init).len() && candidates(init)[k] == t;
        assert(c[k] == t);
    }
}

/// Every candidate comes from a pair of neighbouring long words.
pub proof fn lemma_candidate_is_pair(w: Seq<Seq<char>>, t: Seq<char>)
    requires
        candidates(w).contains(t),
    ensures
        exists|i: int|
            0 <= i && i + 1 < w.len() && long_word(w[i]) && long_word(w[i + 1]) && t
                == pair_topic(#[trigger] w[i], w[i + 1]),
    decreases w.len(),
{
    let c = candidates(w);
    let k = choose|k: int| 0 <= k < c.len() && c[k] == t;
    if w.len() >= 2 {
        let init = w.drop_last();
        let last_pair = long_word(w[w.len() - 2]) && long_word(w[w.len() - 1]);
        if last_pair && k == c.len() - 1 {
            let i = w.len() - 2;
            assert(t == pair_topic(w[i], w[i + 1]));
        } else {
            assert(candidates(init)[k] == t);
            assert(candidates(init).contains(t));
            lemma_candidate_is_pair(init, t);
            let i = choose|i: int|
                0 <= i && i + 1 < init.len() && long_word(init[i]) && long_word(init[i + 1]) && t
                    == pair_topic(#[trigger] init[i], init[i + 1]);
            assert(w[i] == init[i] && w[i + 1] == init[i + 1]);
        }
    }
}

/// Two neighbouring words of four or more characters give exactly one topic:
/// the pair is among the topics of the text, and it stands there once.
pub proof fn lemma_adjacent_long_words_give_one_topic(text: Seq<char>, i: int)
    requires
        0 <= i,
        i + 1 < words(text).len(),
        words(text)[i].len() >= 4,
        words(text)[i + 1].len() >= 4,
    ensures
        topics_of(text).contains(pair_topic(words(text)[i], words(text)[i + 1])),
        forall|j: int, k: int|
            0 <= j < topics_of(text).len() && 0 <= k < topics_of(text).len() && topics_of(text)[j]
                == pair_topic(words(text)[i], words(text)[i + 1]) && topics_of(text)[k]
                == pair_topic(words(text)[i], words(text)[i + 1]) ==> j == k,
{
    let w = words(text);
    let t = pair_topic(w[i], w[i + 1]);
    lemma_pair_is_candidate(w, i);
    lemma_ordered_set(candidates(w));
    lemma_topics_are_distinct(text);
}

/// The topics of a text stand in strictly rising dictionary order, none of
/// them twice, and they are exactly its candidates.
pub proof fn lemma_topics_are_distinct(text: Seq<char>)
    ensures
        strictly_ordered(topics_of(text)),
        topics_of(text).no_duplicates(),
        forall|t: Seq<char>|
            topics_of(text).contains(t) <==> candidates(words(text)).contains(t),
{
    let topics = topics_of(text);
    lemma_ordered_set(candidates(words(text)));
    assert forall|j: int, k: int| 0 <= j < topics.len() && 0 <= k < topics.len() && j != k implies topics[j]
        != topics[k] by {
        if j < k {
            assert(precedes(topics[j], topics[k]));
            lemma_precedes_irreflexive(topics[j]);
        } else {
            assert(precedes(topics[k], topics[j]));
            lemma_precedes_irreflexive(topics[j]);
        }
    }
}

/// Appends the characters of `src` to `out`.
fn push_chars(out: &mut Vec<char>, src: &Vec<char>)
    ensures
        final(out)@ == old(out)@ + src@,
{
    for i in 0..src.len()
        invariant
            out@ == old(out)@ + src@.take(i as int),
    {
        out.push(src[i]);
        assert(src@.take(i + 1) == src@.take(i as int).push(src@[i as int]));
    }
    assert(src@.take(src.len() as int) == src@);
}

/// Extracts the topics of `text`: every pair of neighbouring words that are
/// both longer than three characters, joined by one space; each topic once, in
/// dictionary order.
pub fn extract_topics(text: &str) -> (topics: Vec<String>)
    ensures
        strings_view(topics@) == topics_of(text@),
{
    let chars = chars_of(text);
    let w = split_chars(&chars);
    let ghost all = lines_view(w@);
    let mut ordered: Vec<Vec<char>> = Vec::new();
    let mut i: usize = 0;
    assert(lines_view(ordered@) == Seq::<Seq<char>>::empty());
    while i < w.len()
        invariant
            i <= w.len(),
            all == lines_view(w@),
            lines_view(ordered@) == ordered_set(candidates(all.take(i as int))),
        decreases w.len() - i,
    {
        proof {
            assert(all.take(i + 1).drop_last() == all.take(i as int));
        }
        if i >= 1 && w[i - 1].len() > 3 && w[i].len() > 3 {
            let mut topic: Vec<char> = Vec::new();
            push_chars(&mut topic, &w[i - 1]);
            topic.push(' ');
            push_chars(&mut topic, &w[i]);
            proof {
                assert(topic@ == pair_topic(all[i - 1], all[i as int]));
                let c = candidates(all.take(i + 1));
                assert(c.drop_last() == candidates(all.take(i as int)));
            }
            insert_in_order(&mut ordered, topic);
        }
        i += 1;
    }
    assert(all.take(i as int) == all);
    let mut topics: Vec<String> = Vec::new();
    for k in 0..ordered.len()
        invariant
            strings_view(topics@) == lines_view(ordered@).take(k as int),
    {
        let ghost before = topics@;
        topics.push(string_from_chars(&ordered[k]));
        proof {
            let a = strings_view(topics@);
            let b = lines_view(ordered@).take(k + 1);
            assert(strings_view(before).len() == before.len());
            assert(lines_view(ordered@).take(k as int).len() == k);
            assert(a.len() == k + 1);
            assert(b.len() == k + 1);
            assert forall|j: int| 0 <= j < a.len() implies a[j] == b[j] by {
                if j < k {
                    assert(strings_view(before)[j] == lines_view(ordered@).take(k as int)[j]);
                }
            }
            assert(a =~= b);
        }
    }
    assert(lines_view(ordered@).take(ordered.len() as int) == lines_view(ordered@));
    topics
}

} // verus!
