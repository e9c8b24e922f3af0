//! The learning manager: what an interaction teaches, where it is recorded,
//! and which recorded contexts bear on a query.

use vstd::prelude::*;
use vstd::string::*;
use crate::clock::now_seconds;
use crate::json::{parsed_json, pretty_text, Json, JsonError};
use crate::knowledge_base::knowledge_base::{
    entry_of, entry_text, with_entry, KnowledgeBaseHandler,
};
use crate::memory::long_term::Entry;
use crate::text::{
    chars_of, decimal, decimal_string, insert_in_order, join, join_strings, lines_view,
    ordered_set, push_signed_decimal, push_str, signed_decimal, split_chars, string_from_chars,
    strings_view, trim_chars, trimmed, words,
};
use crate::topics::{extract_topics, lemma_topics_are_distinct, topics_of};

verus! {

/// The confidence of an insight taken from what the user said, in hundredths.
pub const USER_CONFIDENCE: u8 = 70;

/// The confidence of an insight taken from a sentence of the response, in hundredths.
pub const RESPONSE_CONFIDENCE: u8 = 80;

/// A sentence of a response must be longer than this to carry an insight.
pub const MIN_SENTENCE_LENGTH: usize = 20;

/// One observation: a topic, the text that bears on it, and where it came from.
#[derive(Clone, Debug)]
pub struct Insight {
    pub topic: String,
    pub context: String,
    /// Between 0 and 100: hundredths of certainty.
    pub confidence: u8,
    /// `user_input` or `ai_response`.
    pub source: String,
    /// When the insight was made, in seconds since the Unix epoch.
    pub timestamp: i64,
}

/// What an `Insight` holds, as mathematical values.
pub struct InsightView {
    pub topic: Seq<char>,
    pub context: Seq<char>,
    pub confidence: nat,
    pub source: Seq<char>,
    pub timestamp: int,
}

impl View for Insight {
    type V = InsightView;

    open spec fn view(&self) -> InsightView {
        InsightView {
            topic: self.topic@,
            context: self.context@,
            confidence: self.confidence as nat,
            source: self.source@,
            timestamp: self.timestamp as int,
        }
    }
}

/// The views of a list of insights.
pub open spec fn insights_view(v: Seq<Insight>) -> Seq<InsightView> {
    Seq::new(v.len(), |i: int| v[i]@)
}

/// What one interaction taught: its insights, the topics it touched, and
/// free-form notes.
#[derive(Clone, Debug)]
pub struct LearningContext {
    pub insights: Vec<Insight>,
    pub related_topics: Vec<String>,
    pub metadata: Vec<Entry>,
}

/// What a `LearningContext` holds, as mathematical values.
pub struct LearningContextView {
    pub insights: Seq<InsightView>,
    pub related_topics: Seq<Seq<char>>,
    pub metadata: Seq<(Seq<char>, Seq<char>)>,
}

/// The notes of a context, pair by pair.
pub open spec fn notes_view(v: Seq<Entry>) -> Seq<(Seq<char>, Seq<char>)> {
    Seq::new(v.len(), |i: int| (v[i].key@, v[i].value@))
}

impl View for LearningContext {
    type V = LearningContextView;

    open spec fn view(&self) -> LearningContextView {
        LearningContextView {
            insights: insights_view(self.insights@),
            related_topics: strings_view(self.related_topics@),
            metadata: notes_view(self.metadata@),
        }
    }
}

/// Whether `c` ends a sentence.
pub open spec fn is_terminator(c: char) -> bool {
    c == '.' || c == '!' || c == '?'
}

/// The pieces into which the sentence terminators cut `s`: what stands before
/// the first, between each two, and behind the last. There is always one
/// piece more than there are terminators.
pub open spec fn pieces(s: Seq<char>) -> Seq<Seq<char>>
    decreases s.len(),
{
    if s.len() == 0 {
        seq![Seq::empty()]
    } else {
        let before = pieces(s.drop_last());
        if is_terminator(s.last()) {
            before.push(Seq::empty())
        } else {
            before.drop_last().push(before.last().push(s.last()))
        }
    }
}

/// The insights that the pieces of a response carry: for every piece that,
/// trimmed, is longer than twenty characters, its first word as the topic and
/// the trimmed piece as the text.
pub open spec fn sentence_insights(parts: Seq<Seq<char>>) -> Seq<(Seq<char>, Seq<char>)>
    decreases parts.len(),
{
    if parts.len() == 0 {
        Seq::empty()
    } else {
        let before = sentence_insights(parts.drop_last());
        let sentence = trimmed(parts.last());
        if sentence.len() > MIN_SENTENCE_LENGTH && words(sentence).len() > 0 {
            before.push((words(sentence)[0], sentence))
        } else {
            before
        }
    }
}

/// The insights of a response, sentence by sentence.
pub open spec fn response_insights(text: Seq<char>) -> Seq<(Seq<char>, Seq<char>)> {
    sentence_insights(pieces(text))
}

/// Cuts `chars` at the sentence terminators.
fn split_sentences(chars: &Vec<char>) -> (out: Vec<Vec<char>>)
    ensures
        lines_view(out@) == pieces(chars@),
{
    let mut out: Vec<Vec<char>> = Vec::new();
    let mut current: Vec<char> = Vec::new();
    assert(lines_view(out@).push(current@) =~= pieces(chars@.take(0)));
    for i in 0..chars.len()
        invariant
            pieces(chars@.take(i as int)) == lines_view(out@).push(current@),
    {
        let c = chars[i];
        proof {
            assert(chars@.take(i + 1).drop_last() == chars@.take(i as int));
            assert(chars@.take(i + 1).last() == c);
        }
        let ghost done = lines_view(out@);
        let ghost buffer = current@;
        if c == '.' || c == '!' || c == '?' {
            out.push(current);
            current = Vec::new();
            assert(lines_view(out@) =~= done.push(buffer));
            assert(current@ =~= Seq::<char>::empty());
        } else {
            current.push(c);
            assert(done.push(buffer).drop_last() == done);
        }
    }
    assert(chars@.take(chars.len() as int) == chars@);
    let ghost done = lines_view(out@);
    let ghost buffer = current@;
    out.push(current);
    assert(lines_view(out@) =~= done.push(buffer));
    out
}

/// The first word of `sentence`, if it has one.
fn identify_main_topic(sentence: &Vec<char>) -> (topic: Option<Vec<char>>)
    ensures
        match topic {
            Some(t) => words(sentence@).len() > 0 && t@ == words(sentence@)[0],
            None => words(sentence@).len() == 0,
        },
{
    let mut found = split_chars(sentence);
    if found.len() == 0 {
        None
    } else {
        assert(lines_view(found@)[0] == found@[0]@);
        Some(found.swap_remove(0))
    }
}

/// The insights of a response: topic and text for each sentence that carries one.
fn extract_insights(text: &str) -> (out: Vec<(String, String)>)
    ensures
        out@.len() == response_insights(text@).len(),
        forall|i: int|
            0 <= i < out@.len() ==> (#[trigger] out@[i]).0@ == response_insights(text@)[i].0
                && out@[i].1@ == response_insights(text@)[i].1,
{
    let chars = chars_of(text);
    let parts = split_sentences(&chars);
    let ghost all = lines_view(parts@);
    let mut out: Vec<(String, String)> = Vec::new();
    for k in 0..parts.len()
        invariant
            all == lines_view(parts@),
            all == pieces(text@),
            out@.len() == sentence_insights(all.take(k as int)).len(),
            forall|i: int|
                0 <= i < out@.len() ==> (#[trigger] out@[i]).0@ == sentence_insights(
                    all.take(k as int),
                )[i].0 && out@[i].1@ == sentence_insights(all.take(k as int))[i].1,
    {
        proof {
            assert(all.take(k + 1).drop_last() == all.take(k as int));
            assert(all.take(k + 1).last() == parts@[k as int]@);
        }
        let sentence = trim_chars(&parts[k]);
        if sentence.len() > MIN_SENTENCE_LENGTH {
            match identify_main_topic(&sentence) {
                Some(topic) => {
                    out.push((string_from_chars(&topic), string_from_chars(&sentence)));
                },
                None => {},
            }
        }
    }
    assert(all.take(parts.len() as int) == all);
    out
}

/// The insight that a topic of the user's input carries.
pub open spec fn user_insight(topic: Seq<char>, user_input: Seq<char>, now: int) -> InsightView {
    InsightView {
        topic,
        context: user_input,
        confidence: USER_CONFIDENCE as nat,
        source: "user_input"@,
        timestamp: now,
    }
}

/// The insight that a sentence of the response carries.
pub open spec fn response_insight(found: (Seq<char>, Seq<char>), now: int) -> InsightView {
    InsightView {
        topic: found.0,
        context: found.1,
        confidence: RESPONSE_CONFIDENCE as nat,
        source: "ai_response"@,
        timestamp: now,
    }
}

/// What the interaction of `user_input` and `ai_response` at the time `now`
/// teaches: one insight for each topic of the input, with the input as its
/// text; then one for each telling sentence of the response; the topics of
/// the input as the topics touched.
pub open spec fn learned_context(
    user_input: Seq<char>,
    ai_response: Seq<char>,
    now: int,
) -> LearningContextView {
    LearningContextView {
        insights: Seq::new(
            topics_of(user_input).len(),
            |i: int| user_insight(topics_of(user_input)[i], user_input, now),
        ) + Seq::new(
            response_insights(ai_response).len(),
            |i: int| response_insight(response_insights(ai_response)[i], now),
        ),
        related_topics: topics_of(user_input),
        metadata: Seq::empty(),
    }
}

impl LearningContext {
    /// A context that holds nothing.
    pub fn new() -> (context: Self)
        ensures
            context@ == (LearningContextView {
                insights: Seq::empty(),
                related_topics: Seq::empty(),
                metadata: Seq::empty(),
            }),
    {
        let context = LearningContext {
            insights: Vec::new(),
            related_topics: Vec::new(),
            metadata: Vec::new(),
        };
        assert(context@.insights =~= Seq::<InsightView>::empty());
        assert(context@.related_topics =~= Seq::<Seq<char>>::empty());
        assert(context@.metadata =~= Seq::<(Seq<char>, Seq<char>)>::empty());
        context
    }

    /// What an interaction that takes place now teaches.
    pub fn extract_from_interaction(user_input: &str, ai_response: &str) -> (context: Self)
        ensures
            exists|now: i64| context@ == learned_context(user_input@, ai_response@, now as int),
    {
        let now = now_seconds();
        Self::extract_from_interaction_at(user_input, ai_response, now)
    }

    /// What an interaction at the time `now` teaches.
    pub fn extract_from_interaction_at(user_input: &str, ai_response: &str, now: i64) -> (context:
        Self)
        ensures
            context@ == learned_context(user_input@, ai_response@, now as int),
    {
        let topics = extract_topics(user_input);
        let ghost wanted = learned_context(user_input@, ai_response@, now as int);
        let mut insights: Vec<Insight> = Vec::new();
        for i in 0..topics.len()
            invariant
                strings_view(topics@) == topics_of(user_input@),
                insights@.len() == i,
                forall|j: int|
                    0 <= j < i ==> (#[trigger] insights@[j])@ == user_insight(
                        topics_of(user_input@)[j],
                        user_input@,
                        now as int,
                    ),
        {
            assert(strings_view(topics@)[i as int] == topics@[i as int]@);
            insights.push(
                Insight {
                    topic: topics[i].clone(),
                    context: String::from_str(user_input),
                    confidence: USER_CONFIDENCE,
                    source: String::from_str("user_input"),
                    timestamp: now,
                },
            );
        }
        let found = extract_insights(ai_response);
        let ghost first = topics.len();
        for i in 0..found.len()
            invariant
                first == topics_of(user_input@).len(),
                found@.len() == response_insights(ai_response@).len(),
                forall|j: int|
                    0 <= j < found@.len() ==> (#[trigger] found@[j]).0@ == response_insights(
                        ai_response@,
                    )[j].0 && found@[j].1@ == response_insights(ai_response@)[j].1,
                insights@.len() == first + i,
                forall|j: int|
                    0 <= j < first ==> (#[trigger] insights@[j])@ == user_insight(
                        topics_of(user_input@)[j],
                        user_input@,
                        now as int,
                    ),
                forall|j: int|
                    0 <= j < i ==> (#[trigger] insights@[first + j])@ == response_insight(
                        response_insights(ai_response@)[j],
                        now as int,
                    ),
        {
            let ghost before = insights@;
            insights.push(
                Insight {
                    topic: found[i].0.clone(),
                    context: found[i].1.clone(),
                    confidence: RESPONSE_CONFIDENCE,
                    source: String::from_str("ai_response"),
                    timestamp: now,
                },
            );
            proof {
                assert forall|j: int| 0 <= j < i + 1 implies (#[trigger] insights@[first + j])@
                    == response_insight(response_insights(ai_response@)[j], now as int) by {
                    if j < i {
                        assert(insights@[first + j] == before[first + j]);
                    } else {
                        assert(found@[j].0@ == response_insights(ai_response@)[j].0);
                    }
                }
            }
        }
        let context = LearningContext { insights, related_topics: topics, metadata: Vec::new() };
        proof {
            assert(context@.metadata =~= wanted.metadata);
            assert forall|j: int| 0 <= j < wanted.insights.len() implies context@.insights[j]
                == wanted.insights[j] by {
                if j >= first {
                    assert(context.insights@[first + (j - first)]@ == response_insight(
                        response_insights(ai_response@)[j - first],
                        now as int,
                    ));
                }
            }
            assert(context@.insights =~= wanted.insights);
        }
        context
    }
}

/// A copy of an insight.
fn copy_insight(insight: &Insight) -> (copy: Insight)
    ensures
        copy@ == insight@,
{
    Insight {
        topic: insight.topic.clone(),
        context: insight.context.clone(),
        confidence: insight.confidence,
        source: insight.source.clone(),
        timestamp: insight.timestamp,
    }
}

/// A copy of a learning context.
fn copy_context(context: &LearningContext) -> (copy: LearningContext)
    ensures
        copy@ == context@,
{
    let mut insights: Vec<Insight> = Vec::new();
    for i in 0..context.insights.len()
        invariant
            insights@.len() == i,
            forall|j: int| 0 <= j < i ==> (#[trigger] insights@[j])@ == context.insights@[j]@,
    {
        insights.push(copy_insight(&context.insights[i]));
    }
    let mut related_topics: Vec<String> = Vec::new();
    for i in 0..context.related_topics.len()
        invariant
            related_topics@.len() == i,
            forall|j: int|
                0 <= j < i ==> (#[trigger] related_topics@[j])@ == context.related_topics@[j]@,
    {
        related_topics.push(context.related_topics[i].clone());
    }
    let mut metadata: Vec<Entry> = Vec::new();
    for i in 0..context.metadata.len()
        invariant
            metadata@.len() == i,
            forall|j: int|
                0 <= j < i ==> (#[trigger] metadata@[j]).key@ == context.metadata@[j].key@
                    && metadata@[j].value@ == context.metadata@[j].value@,
    {
        metadata.push(
            Entry { key: context.metadata[i].key.clone(), value: context.metadata[i].value.clone() },
        );
    }
    let copy = LearningContext { insights, related_topics, metadata };
    proof {
        assert(copy@.insights =~= context@.insights);
        assert(copy@.related_topics =~= context@.related_topics);
        assert(copy@.metadata =~= context@.metadata);
    }
    copy
}

/// The key under which an insight is recorded in the log: `insight:`, its
/// topic, a colon, and the second it was made.
pub open spec fn insight_key_of(topic: Seq<char>, seconds: int) -> Seq<char> {
    "insight:"@ + topic + seq![':'] + signed_decimal(seconds)
}

/// The key under which the log is asked for a topic: `topic:` and the topic.
pub open spec fn topic_key_of(topic: Seq<char>) -> Seq<char> {
    "topic:"@ + topic
}

/// The key under which `insight` is recorded in the log.
pub fn insight_key(insight: &Insight) -> (key: String)
    ensures
        key@ == insight_key_of(insight.topic@, insight.timestamp as int),
{
    let mut key: Vec<char> = Vec::new();
    push_str(&mut key, "insight:");
    push_str(&mut key, insight.topic.as_str());
    key.push(':');
    push_signed_decimal(&mut key, insight.timestamp);
    string_from_chars(&key)
}

/// The key under which the log is asked for `topic`.
pub fn topic_key(topic: &str) -> (key: String)
    ensures
        key@ == topic_key_of(topic@),
{
    let mut key = String::from_str("topic:");
    key.append(topic);
    key
}

/// A cached context and the topic it is cached under.
#[derive(Clone, Debug)]
pub struct CachedContext {
    pub topic: String,
    pub context: LearningContext,
}

/// The views of a cache's entries: topic and context.
pub open spec fn cache_view(v: Seq<CachedContext>) -> Seq<(Seq<char>, LearningContextView)> {
    Seq::new(v.len(), |i: int| (v[i].topic@, v[i].context@))
}

/// The place of `topic` in a cache: that of the last entry under it, or -1.
pub open spec fn place_of(cache: Seq<(Seq<char>, LearningContextView)>, topic: Seq<char>) -> int
    decreases cache.len(),
{
    if cache.len() == 0 {
        -1
    } else if cache.last().0 == topic {
        cache.len() - 1
    } else {
        place_of(cache.drop_last(), topic)
    }
}

/// The context cached under `topic`, if there is one.
pub open spec fn cached(
    cache: Seq<(Seq<char>, LearningContextView)>,
    topic: Seq<char>,
) -> Option<LearningContextView> {
    if place_of(cache, topic) < 0 {
        None
    } else {
        Some(cache[place_of(cache, topic)].1)
    }
}

/// A cache after `context` was cached under `topic`: it replaces what was
/// cached under that topic, or comes last.
pub open spec fn cache_put(
    cache: Seq<(Seq<char>, LearningContextView)>,
    topic: Seq<char>,
    context: LearningContextView,
) -> Seq<(Seq<char>, LearningContextView)> {
    if place_of(cache, topic) < 0 {
        cache.push((topic, context))
    } else {
        cache.update(place_of(cache, topic), (topic, context))
    }
}

/// A cache after `context` was cached under each of `topics`, in turn.
pub open spec fn cache_after(
    cache: Seq<(Seq<char>, LearningContextView)>,
    topics: Seq<Seq<char>>,
    context: LearningContextView,
) -> Seq<(Seq<char>, LearningContextView)>
    decreases topics.len(),
{
    if topics.len() == 0 {
        cache
    } else {
        cache_put(cache_after(cache, topics.drop_last(), context), topics.last(), context)
    }
}

/// Whether no topic stands twice in a cache.
pub open spec fn distinct_topics(cache: Seq<(Seq<char>, LearningContextView)>) -> bool {
    forall|i: int, j: int|
        0 <= i < j < cache.len() ==> (#[trigger] cache[i]).0 != (#[trigger] cache[j]).0
}

/// The place of a topic is that of an entry under it, and no later entry is
/// under it; -1 says that none is.
pub proof fn lemma_place_of(cache: Seq<(Seq<char>, LearningContextView)>, topic: Seq<char>)
    ensures
        -1 <= place_of(cache, topic) < cache.len(),
        place_of(cache, topic) >= 0 ==> cache[place_of(cache, topic)].0 == topic,
        forall|j: int|
            place_of(cache, topic) < j < cache.len() ==> (#[trigger] cache[j]).0 != topic,
    decreases cache.len(),
{
    if cache.len() > 0 && cache.last().0 != topic {
        lemma_place_of(cache.drop_last(), topic);
        assert forall|j: int| place_of(cache, topic) < j < cache.len() implies (
        #[trigger] cache[j]).0 != topic by {
            if j < cache.len() - 1 {
                assert(cache.drop_last()[j].0 != topic);
            }
        }
    }
}

/// Caching keeps the topics of a cache distinct, and the new context is then
/// the one cached under its topic.
pub proof fn lemma_cache_put(
    cache: Seq<(Seq<char>, LearningContextView)>,
    topic: Seq<char>,
    context: LearningContextView,
)
    requires
        distinct_topics(cache),
    ensures
        distinct_topics(cache_put(cache, topic, context)),
        cached(cache_put(cache, topic, context), topic) == Some(context),
        forall|other: Seq<char>|
            other != topic ==> #[trigger] cached(cache_put(cache, topic, context), other) == cached(
                cache,
                other,
            ),
{
    let after = cache_put(cache, topic, context);
    lemma_place_of(cache, topic);
    let p = place_of(cache, topic);
    assert(distinct_topics(after)) by {
        assert forall|i: int, j: int| 0 <= i < j < after.len() implies (#[trigger] after[i]).0 != (
        #[trigger] after[j]).0 by {
            if p < 0 {
                if j == cache.len() {
                    if cache[i].0 == topic {
                        lemma_place_reaches(cache, topic, i);
                    }
                } else {
                    assert(cache[i].0 != cache[j].0);
                }
            } else {
                assert(cache[i].0 != cache[j].0);
            }
        }
    }
    lemma_place_is(after, topic, if p < 0 { cache.len() as int } else { p });
    assert forall|other: Seq<char>| other != topic implies #[trigger] cached(after, other)
        == cached(cache, other) by {
        lemma_place_of(cache, other);
        let q = place_of(cache, other);
        if q >= 0 {
            lemma_place_is(after, other, q);
        } else {
            assert forall|j: int| 0 <= j < after.len() implies (#[trigger] after[j]).0 != other by {
                if j < cache.len() {
                    if cache[j].0 == other {
                        lemma_place_reaches(cache, other, j);
                    }
                }
            }
            lemma_place_none(after, other);
        }
    }
}

/// Where an entry stands under a topic, the topic has a place.
proof fn lemma_place_reaches(cache: Seq<(Seq<char>, LearningContextView)>, topic: Seq<char>, i: int)
    requires
        0 <= i < cache.len(),
        cache[i].0 == topic,
    ensures
        place_of(cache, topic) >= i,
    decreases cache.len(),
{
    if cache.last().0 != topic {
        lemma_place_reaches(cache.drop_last(), topic, i);
    }
}

/// The place of a topic is that of the last entry under it.
proof fn lemma_place_is(cache: Seq<(Seq<char>, LearningContextView)>, topic: Seq<char>, i: int)
    requires
        0 <= i < cache.len(),
        cache[i].0 == topic,
        forall|j: int| i < j < cache.len() ==> (#[trigger] cache[j]).0 != topic,
    ensures
        place_of(cache, topic) == i,
    decreases cache.len(),
{
    if i < cache.len() - 1 {
        assert(cache[cache.len() - 1].0 != topic);
        assert forall|j: int| i < j < cache.drop_last().len() implies (
        #[trigger] cache.drop_last()[j]).0 != topic by {
            assert(cache[j].0 != topic);
        }
        lemma_place_is(cache.drop_last(), topic, i);
    }
}

/// A topic that no entry stands under has no place.
proof fn lemma_place_none(cache: Seq<(Seq<char>, LearningContextView)>, topic: Seq<char>)
    requires
        forall|j: int| 0 <= j < cache.len() ==> (#[trigger] cache[j]).0 != topic,
    ensures
        place_of(cache, topic) == -1,
    decreases cache.len(),
{
    if cache.len() > 0 {
        assert(cache[cache.len() - 1].0 != topic);
        assert forall|j: int| 0 <= j < cache.drop_last().len() implies (
        #[trigger] cache.drop_last()[j]).0 != topic by {
            assert(cache[j].0 != topic);
        }
        lemma_place_none(cache.drop_last(), topic);
    }
}

/// The topics of all the contexts of a cache, one context after another.
pub open spec fn all_topics(cache: Seq<(Seq<char>, LearningContextView)>) -> Seq<Seq<char>>
    decreases cache.len(),
{
    if cache.len() == 0 {
        Seq::empty()
    } else {
        all_topics(cache.drop_last()) + cache.last().1.related_topics
    }
}

/// The number of insights of all the contexts of a cache together.
pub open spec fn total_insights(cache: Seq<(Seq<char>, LearningContextView)>) -> nat
    decreases cache.len(),
{
    if cache.len() == 0 {
        0
    } else {
        total_insights(cache.drop_last()) + cache.last().1.insights.len()
    }
}

/// The summary of a cache: the topics learned, each once and in dictionary
/// order, and the number of insights.
pub open spec fn summary_text(cache: Seq<(Seq<char>, LearningContextView)>) -> Seq<char> {
    "Learning Summary:\n\nTopics Learned: "@ + join(ordered_set(all_topics(cache)), ", "@)
        + "\n\nTotal Insights: "@ + decimal(total_insights(cache)) + "\n"@
}

/// An insight as the log holds it: under a key.
#[derive(Clone, Debug)]
pub struct LoggedInsight {
    pub key: String,
    pub insight: Insight,
}

/// The views of a list of logged insights: key and insight.
pub open spec fn logged_view(v: Seq<LoggedInsight>) -> Seq<(Seq<char>, InsightView)> {
    Seq::new(v.len(), |i: int| (v[i].key@, v[i].insight@))
}

/// What is to be written to the log for a context: each of its insights, under its key.
pub open spec fn log_for(context: LearningContextView) -> Seq<(Seq<char>, InsightView)> {
    Seq::new(
        context.insights.len(),
        |i: int|
            (
                insight_key_of(context.insights[i].topic, context.insights[i].timestamp),
                context.insights[i],
            ),
    )
}

/// The entry of a topic after a response was learned: the response on a new
/// line behind what the entry held, or the response alone.
pub open spec fn merged(existing: Option<Seq<char>>, response: Seq<char>) -> Seq<char> {
    match existing {
        Some(text) => text + seq!['\n'] + response,
        None => response,
    }
}

/// Whether `updated` is the knowledge document `document` after `response`
/// was learned for `topics`: in an object, each topic's entry is merged with
/// the response and all other members are kept; any other document stays as
/// it is.
pub open spec fn has_learned(
    document: Json,
    topics: Seq<Seq<char>>,
    response: Seq<char>,
    updated: Json,
) -> bool {
    if document is Object {
        &&& updated is Object
        &&& forall|t: Seq<char>| #[trigger]
            topics.contains(t) ==> entry_text(updated, t) == Some(
                merged(entry_text(document, t), response),
            )
        &&& forall|k: Seq<char>|
            !topics.contains(k) ==> #[trigger] updated.member(k) == document.member(k)
    } else {
        updated == document
    }
}

/// The texts of the insights of a context, in order.
pub open spec fn contexts_of(context: LearningContextView) -> Seq<Seq<char>> {
    Seq::new(context.insights.len(), |i: int| context.insights[i].context)
}

/// What the cache holds on `topics`: for each topic that has a cached
/// context, in turn, the texts of that context's insights.
pub open spec fn cached_part(
    cache: Seq<(Seq<char>, LearningContextView)>,
    topics: Seq<Seq<char>>,
) -> Seq<Seq<char>>
    decreases topics.len(),
{
    if topics.len() == 0 {
        Seq::empty()
    } else {
        cached_part(cache, topics.drop_last()) + match cached(cache, topics.last()) {
            Some(context) => contexts_of(context),
            None => Seq::empty(),
        }
    }
}

/// The first insight that was fetched from the log under `key`, if any.
pub open spec fn first_logged(logged: Seq<(Seq<char>, InsightView)>, key: Seq<char>) -> Option<
    InsightView,
>
    decreases logged.len(),
{
    if logged.len() == 0 {
        None
    } else if logged[0].0 == key {
        Some(logged[0].1)
    } else {
        first_logged(logged.drop_first(), key)
    }
}

/// What the log holds on `topics`: for each topic whose key brought an
/// insight, in turn, the text of that insight.
pub open spec fn logged_part(logged: Seq<(Seq<char>, InsightView)>, topics: Seq<Seq<char>>) -> Seq<
    Seq<char>,
>
    decreases topics.len(),
{
    if topics.len() == 0 {
        Seq::empty()
    } else {
        logged_part(logged, topics.drop_last()) + match first_logged(
            logged,
            topic_key_of(topics.last()),
        ) {
            Some(insight) => seq![insight.context],
            None => Seq::empty(),
        }
    }
}

/// What the knowledge document holds on `topics`: for each topic that has an
/// entry, in turn, that entry.
pub open spec fn knowledge_part(document: Json, topics: Seq<Seq<char>>) -> Seq<Seq<char>>
    decreases topics.len(),
{
    if topics.len() == 0 {
        Seq::empty()
    } else {
        knowledge_part(document, topics.drop_last()) + match entry_text(document, topics.last()) {
            Some(text) => seq![text],
            None => Seq::empty(),
        }
    }
}

/// The contexts that bear on `topics`: what the cache holds on them, then
/// what the log holds, then what the knowledge document holds.
pub open spec fn relevant_context(
    cache: Seq<(Seq<char>, LearningContextView)>,
    topics: Seq<Seq<char>>,
    logged: Seq<(Seq<char>, InsightView)>,
    document: Json,
) -> Seq<Seq<char>> {
    cached_part(cache, topics) + logged_part(logged, topics) + knowledge_part(document, topics)
}

/// The knowledge document after `response` was learned for `topics`.
fn teach_document(document: Json, topics: &Vec<String>, response: &str) -> (updated: Json)
    requires
        strings_view(topics@).no_duplicates(),
    ensures
        has_learned(document, strings_view(topics@), response@, updated),
{
    let ghost initial = document;
    let ghost all = strings_view(topics@);
    let mut current = document;
    for k in 0..topics.len()
        invariant
            all == strings_view(topics@),
            all.no_duplicates(),
            has_learned(initial, all.take(k as int), response@, current),
    {
        let topic = &topics[k];
        let ghost t = topic@;
        let ghost before = current;
        proof {
            assert(all[k as int] == t);
            assert(!all.take(k as int).contains(t)) by {
                if all.take(k as int).contains(t) {
                    let j = choose|j: int| 0 <= j < k && all.take(k as int)[j] == t;
                    assert(all[j] == all[k as int]);
                }
            }
            if initial is Object {
                assert(before.member(t) == initial.member(t));
            }
        }
        let text = match entry_of(&current, topic.as_str()) {
            Some(existing) => {
                let mut text = existing;
                text.append("\n");
                text.append(response);
                proof {
                    reveal_strlit("\n");
                    assert("\n"@ =~= seq!['\n']);
                }
                text
            },
            None => String::from_str(response),
        };
        current = with_entry(current, topic.as_str(), text.as_str());
        proof {
            let next = all.take(k + 1);
            let prev = all.take(k as int);
            if initial is Object {
                assert(text@ == merged(entry_text(initial, t), response@));
                assert forall|u: Seq<char>| #[trigger] next.contains(u) implies entry_text(current, u)
                    == Some(merged(entry_text(initial, u), response@)) by {
                    if u != t {
                        let j = choose|j: int| 0 <= j < next.len() && next[j] == u;
                        assert(prev[j] == u);
                        assert(prev.contains(u));
                        assert(current.member(u) == before.member(u));
                    }
                }
                assert forall|u: Seq<char>| !next.contains(u) implies #[trigger] current.member(u)
                    == initial.member(u) by {
                    assert(next[k as int] == t);
                    if prev.contains(u) {
                        let j = choose|j: int| 0 <= j < prev.len() && prev[j] == u;
                        assert(next[j] == u);
                    }
                    assert(current.member(u) == before.member(u));
                }
            }
        }
    }
    assert(all.take(topics.len() as int) == all);
    current
}

/// What learning from one interaction leaves to be written down.
#[derive(Clone, Debug)]
pub struct LearningRecord {
    /// What the interaction taught.
    pub context: LearningContext,
    /// The insights to be put into the log, each under its key.
    pub log: Vec<LoggedInsight>,
    /// The new text of the knowledge document, where it changed.
    pub document: Option<String>,
}

/// The learning manager: the knowledge base and the cache of what was learned
/// last on each topic.
#[derive(Clone, Debug)]
pub struct LearningManager {
    knowledge_base: KnowledgeBaseHandler,
    context_cache: Vec<CachedContext>,
}

impl LearningManager {
    /// The cache: topics and the context cached under each, in the order in
    /// which the topics were first cached.
    pub closed spec fn cache(&self) -> Seq<(Seq<char>, LearningContextView)> {
        cache_view(self.context_cache@)
    }

    /// The knowledge base that the manager holds.
    pub closed spec fn knowledge(&self) -> KnowledgeBaseHandler {
        self.knowledge_base
    }

    /// The manager's invariant: no topic stands twice in the cache.
    pub open spec fn wf(&self) -> bool {
        distinct_topics(self.cache())
    }

    /// A manager with an empty cache.
    pub fn new(knowledge_base: KnowledgeBaseHandler) -> (manager: Self)
        ensures
            manager.wf(),
            manager.cache() == Seq::<(Seq<char>, LearningContextView)>::empty(),
            manager.knowledge() == knowledge_base,
    {
        let manager = LearningManager { knowledge_base, context_cache: Vec::new() };
        assert(manager.cache() =~= Seq::<(Seq<char>, LearningContextView)>::empty());
        manager
    }

    /// The knowledge base that the manager holds.
    pub fn knowledge_base(&self) -> (knowledge_base: &KnowledgeBaseHandler)
        ensures
            *knowledge_base == self.knowledge(),
    {
        &self.knowledge_base
    }

    /// Caches `context` under `topic`, in place of what was cached there.
    fn cache_context(&mut self, topic: String, context: LearningContext)
        ensures
            final(self).cache() == cache_put(old(self).cache(), topic@, context@),
            final(self).knowledge() == old(self).knowledge(),
    {
        let ghost all = self.cache();
        let mut i: usize = self.context_cache.len();
        assert(all.take(i as int) == all);
        while i > 0
            invariant
                i <= self.context_cache.len(),
                self.context_cache@ == old(self).context_cache@,
                self.knowledge_base == old(self).knowledge_base,
                all == cache_view(self.context_cache@),
                place_of(all, topic@) == place_of(all.take(i as int), topic@),
            decreases i,
        {
            proof {
                assert(all.take(i as int).last() == all[i - 1]);
                assert(all.take(i as int).drop_last() == all.take(i - 1));
            }
            if self.context_cache[i - 1].topic == topic {
                let ghost t = topic@;
                let ghost c = context@;
                self.context_cache.set(i - 1, CachedContext { topic, context });
                assert(self.cache() =~= all.update(i - 1, (t, c)));
                return ;
            }
            i -= 1;
        }
        let ghost t = topic@;
        let ghost c = context@;
        self.context_cache.push(CachedContext { topic, context });
        assert(self.cache() =~= all.push((t, c)));
    }

    /// Learns from an interaction that takes place now. See
    /// `learn_from_interaction_at`.
    pub fn learn_from_interaction(&mut self, user_input: &str, ai_response: &str, document: &str) -> (result:
        Result<LearningRecord, JsonError>)
        requires
            old(self).wf(),
        ensures
            final(self).wf(),
            final(self).knowledge() == old(self).knowledge(),
            exists|now: i64|
                learning_done(
                    old(self).cache(),
                    final(self).cache(),
                    user_input@,
                    ai_response@,
                    now as int,
                    document@,
                    result,
                ),
    {
        let now = now_seconds();
        self.learn_from_interaction_at(user_input, ai_response, now, document)
    }

    /// Learns from an interaction at the time `now`, where `document` is the
    /// text of the knowledge document. The record says what is to be written
    /// down: every insight for the log, under its key, and the new text of the
    /// knowledge document, in which each topic of the input has the response
    /// behind what it held. The context is then cached under each of these
    /// topics. Where the input has topics and the document cannot be read or
    /// written, nothing is learned and the cache stays as it is.
    pub fn learn_from_interaction_at(
        &mut self,
        user_input: &str,
        ai_response: &str,
        now: i64,
        document: &str,
    ) -> (result: Result<LearningRecord, JsonError>)
        requires
            old(self).wf(),
        ensures
            final(self).wf(),
            final(self).knowledge() == old(self).knowledge(),
            learning_done(
                old(self).cache(),
                final(self).cache(),
                user_input@,
                ai_response@,
                now as int,
                document@,
                result,
            ),
    {
        let context = LearningContext::extract_from_interaction_at(user_input, ai_response, now);
        let ghost learned = context@;
        proof {
            lemma_topics_are_distinct(user_input@);
        }
        let new_document = if context.related_topics.len() == 0 {
            None
        } else {
            match Json::parse(document) {
                Ok(json) => {
                    let ghost before = json;
                    let updated = teach_document(json, &context.related_topics, ai_response);
                    match updated.to_pretty() {
                        Ok(text) => Some(text),
                        Err(e) => {
                            proof {
                                assert(has_learned(
                                    before,
                                    learned.related_topics,
                                    ai_response@,
                                    updated,
                                ));
                                assert(pretty_text(updated) == None::<Seq<char>>);
                            }
                            return Err(e);
                        },
                    }
                },
                Err(e) => {
                    return Err(e);
                },
            }
        };
        let mut log: Vec<LoggedInsight> = Vec::new();
        for i in 0..context.insights.len()
            invariant
                log@.len() == i,
                forall|j: int|
                    0 <= j < i ==> (#[trigger] log@[j]).key@ == insight_key_of(
                        context.insights@[j].topic@,
                        context.insights@[j].timestamp as int,
                    ) && log@[j].insight@ == context.insights@[j]@,
        {
            log.push(
                LoggedInsight {
                    key: insight_key(&context.insights[i]),
                    insight: copy_insight(&context.insights[i]),
                },
            );
        }
        assert(logged_view(log@) =~= log_for(learned));
        let ghost topics = learned.related_topics;
        for k in 0..context.related_topics.len()
            invariant
                context@ == learned,
                topics == strings_view(context.related_topics@),
                self.knowledge() == old(self).knowledge(),
                distinct_topics(self.cache()),
                self.cache() == cache_after(old(self).cache(), topics.take(k as int), learned),
        {
            proof {
                assert(topics.take(k + 1).drop_last() == topics.take(k as int));
                assert(topics.take(k + 1).last() == context.related_topics@[k as int]@);
                lemma_cache_put(self.cache(), topics[k as int], learned);
            }
            self.cache_context(context.related_topics[k].clone(), copy_context(&context));
        }
        assert(topics.take(context.related_topics.len() as int) == topics);
        Ok(LearningRecord { context, log, document: new_document })
    }

    /// The contexts that bear on `query`, where `logged` holds what the log
    /// gave for the keys of the query's topics and `document` is the knowledge
    /// document: cache hits first, then the log's insights, then the
    /// document's entries.
    pub fn relevant_context_in(&self, query: &str, logged: &Vec<LoggedInsight>, document: &Json) -> (out:
        Vec<String>)
        ensures
            strings_view(out@) == relevant_context(
                self.cache(),
                topics_of(query@),
                logged_view(logged@),
                *document,
            ),
    {
        let topics = extract_topics(query);
        let mut out = self.cached_and_logged(&topics, logged);
        let ghost all = strings_view(topics@);
        let ghost first = strings_view(out@);
        for k in 0..topics.len()
            invariant
                all == strings_view(topics@),
                strings_view(out@) == first + knowledge_part(*document, all.take(k as int)),
        {
            proof {
                assert(all.take(k + 1).drop_last() == all.take(k as int));
                assert(all.take(k + 1).last() == topics@[k as int]@);
            }
            match entry_of(document, topics[k].as_str()) {
                Some(text) => {
                    let ghost before = strings_view(out@);
                    out.push(text);
                    assert(strings_view(out@) =~= before.push(out@.last()@));
                    assert(strings_view(out@) =~= first + (knowledge_part(
                        *document,
                        all.take(k as int),
                    ) + seq![out@.last()@]));
                },
                None => {
                    assert(knowledge_part(*document, all.take(k + 1)) =~= knowledge_part(
                        *document,
                        all.take(k as int),
                    ));
                },
            }
        }
        assert(all.take(topics.len() as int) == all);
        out
    }

    /// What the cache and the log hold on `topics`.
    fn cached_and_logged(&self, topics: &Vec<String>, logged: &Vec<LoggedInsight>) -> (out: Vec<
        String,
    >)
        ensures
            strings_view(out@) == cached_part(self.cache(), strings_view(topics@)) + logged_part(
                logged_view(logged@),
                strings_view(topics@),
            ),
    {
        let ghost all = strings_view(topics@);
        let ghost cache = self.cache();
        let mut out: Vec<String> = Vec::new();
        assert(strings_view(out@) =~= cached_part(cache, all.take(0)));
        for k in 0..topics.len()
            invariant
                all == strings_view(topics@),
                cache == self.cache(),
                strings_view(out@) == cached_part(cache, all.take(k as int)),
        {
            proof {
                assert(all.take(k + 1).drop_last() == all.take(k as int));
                assert(all.take(k + 1).last() == topics@[k as int]@);
            }
            let ghost before = strings_view(out@);
            match self.cached_context(&topics[k]) {
                Some(context) => {
                    for i in 0..context.insights.len()
                        invariant
                            strings_view(out@) == before + contexts_of(context@).take(i as int),
                    {
                        let ghost sofar = strings_view(out@);
                        out.push(context.insights[i].context.clone());
                        assert(strings_view(out@) =~= sofar.push(context.insights@[i as int].context@));
                        assert(contexts_of(context@).take(i + 1) =~= contexts_of(context@).take(
                            i as int,
                        ).push(context.insights@[i as int].context@));
                    }
                    assert(contexts_of(context@).take(context.insights.len() as int) =~= contexts_of(
                        context@,
                    ));
                },
                None => {
                    assert(before + Seq::<Seq<char>>::empty() =~= before);
                },
            }
        }
        assert(all.take(topics.len() as int) == all);
        let ghost first = strings_view(out@);
        let ghost fetched = logged_view(logged@);
        for k in 0..topics.len()
            invariant
                all == strings_view(topics@),
                fetched == logged_view(logged@),
                strings_view(out@) == first + logged_part(fetched, all.take(k as int)),
        {
            proof {
                assert(all.take(k + 1).drop_last() == all.take(k as int));
                assert(all.take(k + 1).last() == topics@[k as int]@);
            }
            let key = topic_key(topics[k].as_str());
            match Self::fetched_insight(logged, &key) {
                Some(insight) => {
                    let ghost before = strings_view(out@);
                    out.push(insight.context.clone());
                    assert(strings_view(out@) =~= before.push(insight.context@));
                    assert(strings_view(out@) =~= first + (logged_part(fetched, all.take(k as int))
                        + seq![insight.context@]));
                },
                None => {
                    assert(logged_part(fetched, all.take(k + 1)) =~= logged_part(
                        fetched,
                        all.take(k as int),
                    ));
                },
            }
        }
        assert(all.take(topics.len() as int) == all);
        out
    }

    /// The context cached under `topic`, if there is one.
    fn cached_context(&self, topic: &String) -> (found: Option<&LearningContext>)
        ensures
            match found {
                Some(context) => cached(self.cache(), topic@) == Some(context@),
                None => cached(self.cache(), topic@) is None,
            },
    {
        let ghost all = self.cache();
        let mut i: usize = self.context_cache.len();
        assert(all.take(i as int) == all);
        while i > 0
            invariant
                i <= self.context_cache.len(),
                all == cache_view(self.context_cache@),
                place_of(all, topic@) == place_of(all.take(i as int), topic@),
            decreases i,
        {
            proof {
                assert(all.take(i as int).last() == all[i - 1]);
                assert(all.take(i as int).drop_last() == all.take(i - 1));
            }
            if self.context_cache[i - 1].topic == *topic {
                return Some(&self.context_cache[i - 1].context);
            }
            i -= 1;
        }
        None
    }

    /// The first insight that was fetched under `key`, if there is one.
    fn fetched_insight<'a>(logged: &'a Vec<LoggedInsight>, key: &String) -> (found: Option<
        &'a Insight,
    >)
        ensures
            match found {
                Some(insight) => first_logged(logged_view(logged@), key@) == Some(insight@),
                None => first_logged(logged_view(logged@), key@) is None,
            },
    {
        let ghost all = logged_view(logged@);
        assert(all.skip(0) == all);
        for i in 0..logged.len()
            invariant
                all == logged_view(logged@),
                first_logged(all, key@) == first_logged(all.skip(i as int), key@),
        {
            proof {
                assert(all.skip(i as int)[0] == all[i as int]);
                assert(all.skip(i as int).drop_first() == all.skip(i + 1));
            }
            if logged[i].key == *key {
                return Some(&logged[i].insight);
            }
        }
        assert(all.skip(logged.len() as int).len() == 0);
        None
    }

    /// The contexts that bear on `query`, where `logged` holds what the log
    /// gave for the keys of the query's topics and `document` is the text of
    /// the knowledge document. A query without topics brings nothing, and the
    /// document is not read; else a document that is no JSON is an error.
    pub fn get_relevant_context(&self, query: &str, logged: &Vec<LoggedInsight>, document: &str) -> (result:
        Result<Vec<String>, JsonError>)
        ensures
            match result {
                Ok(out) => if topics_of(query@).len() == 0 {
                    out@.len() == 0
                } else {
                    parsed_json(document@) is Some && strings_view(out@) == relevant_context(
                        self.cache(),
                        topics_of(query@),
                        logged_view(logged@),
                        parsed_json(document@)->0,
                    )
                },
                Err(e) => topics_of(query@).len() > 0 && parsed_json(document@) is None
                    && e is Malformed,
            },
    {
        let topics = extract_topics(query);
        if topics.len() == 0 {
            return Ok(Vec::new());
        }
        match Json::parse(document) {
            Ok(json) => Ok(self.relevant_context_in(query, logged, &json)),
            Err(e) => Err(e),
        }
    }

    /// A summary of what was learned: the topics of all cached contexts, each
    /// once and in dictionary order, and the number of insights of all cached
    /// contexts together.
    pub fn get_learning_summary(&self) -> (summary: String)
        ensures
            summary@ == summary_text(self.cache()),
    {
        let ghost all = self.cache();
        let mut ordered: Vec<Vec<char>> = Vec::new();
        let mut total: u128 = 0;
        assert(lines_view(ordered@) =~= ordered_set(all_topics(all.take(0))));
        for i in 0..self.context_cache.len()
            invariant
                all == cache_view(self.context_cache@),
                lines_view(ordered@) == ordered_set(all_topics(all.take(i as int))),
                total == total_insights(all.take(i as int)),
                total <= i * 0xffff_ffff_ffff_ffff,
        {
            let context = &self.context_cache[i].context;
            let ghost before = all_topics(all.take(i as int));
            let ghost topics = strings_view(context.related_topics@);
            proof {
                assert(all.take(i + 1).drop_last() == all.take(i as int));
                assert(all.take(i + 1).last() == all[i as int]);
                assert(i * 0xffff_ffff_ffff_ffff + 0xffff_ffff_ffff_ffff == (i + 1)
                    * 0xffff_ffff_ffff_ffff) by (nonlinear_arith);
                assert(i * 0xffff_ffff_ffff_ffff <= 0xffff_ffff_ffff_ffff * 0xffff_ffff_ffff_ffff)
                    by (nonlinear_arith)
                    requires
                        i <= 0xffff_ffff_ffff_ffff,
                ;
                assert(before + topics.take(0) =~= before);
            }
            total = total + context.insights.len() as u128;
            for k in 0..context.related_topics.len()
                invariant
                    topics == strings_view(context.related_topics@),
                    lines_view(ordered@) == ordered_set(before + topics.take(k as int)),
            {
                proof {
                    assert((before + topics.take(k + 1)).drop_last() =~= before + topics.take(
                        k as int,
                    ));
                    assert((before + topics.take(k + 1)).last() == context.related_topics@[k as int]@);
                }
                insert_in_order(&mut ordered, chars_of(context.related_topics[k].as_str()));
            }
            assert(topics.take(context.related_topics.len() as int) == topics);
        }
        assert(all.take(self.context_cache.len() as int) == all);
        let mut names: Vec<String> = Vec::new();
        for k in 0..ordered.len()
            invariant
                names@.len() == k,
                forall|j: int| 0 <= j < k ==> (#[trigger] names@[j])@ == ordered@[j]@,
        {
            names.push(string_from_chars(&ordered[k]));
        }
        assert(strings_view(names@) =~= lines_view(ordered@));
        let mut summary = String::from_str("Learning Summary:\n\nTopics Learned: ");
        summary.append(join_strings(&names, ", ").as_str());
        summary.append("\n\nTotal Insights: ");
        summary.append(decimal_string(total).as_str());
        summary.append("\n");
        summary
    }
}

/// Whether `result` and the cache `after` are what learning from an
/// interaction makes of the cache `before` and the knowledge document with
/// the text `document`.
pub open spec fn learning_done(
    before: Seq<(Seq<char>, LearningContextView)>,
    after: Seq<(Seq<char>, LearningContextView)>,
    user_input: Seq<char>,
    ai_response: Seq<char>,
    now: int,
    document: Seq<char>,
    result: Result<LearningRecord, JsonError>,
) -> bool {
    let learned = learned_context(user_input, ai_response, now);
    match result {
        Ok(record) => {
            &&& record.context@ == learned
            &&& logged_view(record.log@) == log_for(learned)
            &&& after == cache_after(before, learned.related_topics, learned)
            &&& if learned.related_topics.len() == 0 {
                record.document is None
            } else {
                &&& parsed_json(document) is Some
                &&& record.document is Some
                &&& exists|updated: Json|
                    has_learned(
                        parsed_json(document)->0,
                        learned.related_topics,
                        ai_response,
                        updated,
                    ) && pretty_text(updated) == Some(record.document->0@)
            }
        },
        Err(e) => {
            &&& after == before
            &&& learned.related_topics.len() > 0
            &&& e is Malformed <==> parsed_json(document) is None
            &&& e is Malformed || e is Unwritable
            &&& e is Unwritable ==> exists|updated: Json|
                has_learned(
                    parsed_json(document)->0,
                    learned.related_topics,
                    ai_response,
                    updated,
                ) && pretty_text(updated) == None::<Seq<char>>
        },
    }
}

/// After a context was cached under each of `topics`, the cache still holds
/// no topic twice.
pub proof fn lemma_cache_after_distinct(
    cache: Seq<(Seq<char>, LearningContextView)>,
    topics: Seq<Seq<char>>,
    context: LearningContextView,
)
    requires
        distinct_topics(cache),
    ensures
        distinct_topics(cache_after(cache, topics, context)),
    decreases topics.len(),
{
    if topics.len() > 0 {
        lemma_cache_after_distinct(cache, topics.drop_last(), context);
        lemma_cache_put(cache_after(cache, topics.drop_last(), context), topics.last(), context);
    }
}

/// After a context was cached under each of `topics`, it is the one cached
/// under every one of them.
pub proof fn lemma_cache_after_holds(
    cache: Seq<(Seq<char>, LearningContextView)>,
    topics: Seq<Seq<char>>,
    context: LearningContextView,
    topic: Seq<char>,
)
    requires
        distinct_topics(cache),
        topics.contains(topic),
    ensures
        cached(cache_after(cache, topics, context), topic) == Some(context),
    decreases topics.len(),
{
    let init = topics.drop_last();
    lemma_cache_after_distinct(cache, init, context);
    lemma_cache_put(cache_after(cache, init, context), topics.last(), context);
    if topics.last() != topic {
        let k = choose|k: int| 0 <= k < topics.len() && topics[k] == topic;
        assert(init[k] == topic);
        lemma_cache_after_holds(cache, init, context, topic);
    }
}

/// A text of the context cached under one of `topics` is among what the cache
/// holds on `topics`.
pub proof fn lemma_cached_part_contains(
    cache: Seq<(Seq<char>, LearningContextView)>,
    topics: Seq<Seq<char>>,
    topic: Seq<char>,
    text: Seq<char>,
)
    requires
        topics.contains(topic),
        cached(cache, topic) is Some,
        contexts_of(cached(cache, topic)->0).contains(text),
    ensures
        cached_part(cache, topics).contains(text),
    decreases topics.len(),
{
    let init = topics.drop_last();
    let before = cached_part(cache, init);
    let whole = cached_part(cache, topics);
    if topics.last() == topic {
        let here = contexts_of(cached(cache, topic)->0);
        let k = choose|k: int| 0 <= k < here.len() && here[k] == text;
        assert(whole[before.len() + k] == text);
    } else {
        let k = choose|k: int| 0 <= k < topics.len() && topics[k] == topic;
        assert(init[k] == topic);
        lemma_cached_part_contains(cache, init, topic, text);
        let j = choose|j: int| 0 <= j < before.len() && before[j] == text;
        assert(whole[j] == text);
    }
}

/// The entry of one of `topics` is among what the knowledge document holds on
/// `topics`.
pub proof fn lemma_knowledge_part_contains(document: Json, topics: Seq<Seq<char>>, topic: Seq<char>)
    requires
        topics.contains(topic),
        entry_text(document, topic) is Some,
    ensures
        knowledge_part(document, topics).contains(entry_text(document, topic)->0),
    decreases topics.len(),
{
    let init = topics.drop_last();
    let before = knowledge_part(document, init);
    let whole = knowledge_part(document, topics);
    let text = entry_text(document, topic)->0;
    if topics.last() == topic {
        assert(whole[before.len() as int] == text);
    } else {
        let k = choose|k: int| 0 <= k < topics.len() && topics[k] == topic;
        assert(init[k] == topic);
        lemma_knowledge_part_contains(document, init, topic);
        let j = choose|j: int| 0 <= j < before.len() && before[j] == text;
        assert(whole[j] == text);
    }
}

/// What was learned is recalled. After learning from an interaction, a query
/// that shares a topic with the user's input brings a context that is not
/// empty: it holds the user's input, from the cache, and, where the knowledge
/// document is an object, the entry of the shared topic, which ends with the
/// response.
pub proof fn lemma_learned_is_recalled(
    cache: Seq<(Seq<char>, LearningContextView)>,
    user_input: Seq<char>,
    ai_response: Seq<char>,
    now: int,
    document: Json,
    updated: Json,
    query: Seq<char>,
    logged: Seq<(Seq<char>, InsightView)>,
    topic: Seq<char>,
)
    requires
        distinct_topics(cache),
        topics_of(user_input).contains(topic),
        topics_of(query).contains(topic),
        has_learned(document, topics_of(user_input), ai_response, updated),
    ensures
        relevant_context(
            cache_after(
                cache,
                topics_of(user_input),
                learned_context(user_input, ai_response, now),
            ),
            topics_of(query),
            logged,
            updated,
        ).len() > 0,
        relevant_context(
            cache_after(
                cache,
                topics_of(user_input),
                learned_context(user_input, ai_response, now),
            ),
            topics_of(query),
            logged,
            updated,
        ).contains(user_input),
        document is Object ==> relevant_context(
            cache_after(
                cache,
                topics_of(user_input),
                learned_context(user_input, ai_response, now),
            ),
            topics_of(query),
            logged,
            updated,
        ).contains(merged(entry_text(document, topic), ai_response)),
{
    let learned = learned_context(user_input, ai_response, now);
    let after = cache_after(cache, topics_of(user_input), learned);
    let wanted = topics_of(query);
    let out = relevant_context(after, wanted, logged, updated);
    lemma_cache_after_holds(cache, topics_of(user_input), learned, topic);
    let k = choose|k: int| 0 <= k < topics_of(user_input).len() && topics_of(user_input)[k] == topic;
    assert(learned.insights[k] == user_insight(topic, user_input, now));
    assert(contexts_of(learned)[k] == user_input);
    lemma_cached_part_contains(after, wanted, topic, user_input);
    let first = cached_part(after, wanted);
    let second = logged_part(logged, wanted);
    let j = choose|j: int| 0 <= j < first.len() && first[j] == user_input;
    assert(out[j] == user_input);
    if document is Object {
        let entry = merged(entry_text(document, topic), ai_response);
        assert(entry_text(updated, topic) == Some(entry));
        lemma_knowledge_part_contains(updated, wanted, topic);
        let third = knowledge_part(updated, wanted);
        let m = choose|m: int| 0 <= m < third.len() && third[m] == entry;
        assert(out[first.len() + second.len() + m] == entry);
    }
}

} // verus!
