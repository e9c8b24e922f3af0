//! The short-term store: a bounded buffer of recent exchanges, ranked by
//! recency and relevance, with an index from topics to the exchanges that
//! mention them.
//!
//! Scores are kept as whole numbers. A relevance score counts fifths of a
//! point, so the baseline 1.0 is 5 and the cap 5.0 is 25. The composite score
//! that decides eviction, `0.7 × seconds + 0.3 × relevance`, is held fifty-fold
//! as `35 × seconds + 3 × fifths`; the score that ranks context, `0.6 × shared
//! topics + 0.4 × age rank`, five-fold as `3 × shared + 2 × rank`.

use vstd::prelude::*;
use vstd::string::*;
use vstd::hash_map::StringHashMap;
use crate::clock::{calendar_text, format_seconds, now_seconds};
use crate::ranking::{
    is_permutation, key_values, lemma_ranking, positions, rank_by_key, ranking,
};
use crate::text::{
    decimal, decimal_string, digit_char, exchange_text, holds_text, join, join_strings,
    push_decimal,
    render_exchange, string_from_chars, strings_view,
};
use crate::topics::{extract_topics, lemma_topics_are_distinct, topics_of};

verus! {

/// One retained exchange.
#[derive(Clone, Debug)]
pub struct Conversation {
    /// When the exchange was added, in seconds since the Unix epoch.
    pub timestamp: i64,
    pub user_input: String,
    pub ai_response: String,
    /// The topics of the exchange: each once, in dictionary order.
    pub topics: Vec<String>,
    /// Relevance at the time of adding, in fifths of a point.
    pub relevance_score: u32,
}

/// What a `Conversation` holds, as mathematical values.
pub struct ConversationView {
    pub timestamp: int,
    pub user_input: Seq<char>,
    pub ai_response: Seq<char>,
    pub topics: Seq<Seq<char>>,
    pub relevance_score: nat,
}

impl View for Conversation {
    type V = ConversationView;

    open spec fn view(&self) -> ConversationView {
        ConversationView {
            timestamp: self.timestamp as int,
            user_input: self.user_input@,
            ai_response: self.ai_response@,
            topics: strings_view(self.topics@),
            relevance_score: self.relevance_score as nat,
        }
    }
}

/// The views of a list of conversations.
pub open spec fn conversations_view(v: Seq<Conversation>) -> Seq<ConversationView> {
    Seq::new(v.len(), |i: int| v[i]@)
}

/// The relevance of the baseline 1.0, in fifths.
pub const BASE_RELEVANCE: u32 = 5;

/// The relevance of the cap 5.0, in fifths.
pub const MAX_RELEVANCE: u32 = 25;

/// How many of the latest conversations count as recent history.
pub const RECENT_WINDOW: usize = 5;

/// How many conversations a context holds at most.
pub const CONTEXT_LIMIT: usize = 10;

/// How many conversations a store keeps unless told otherwise.
pub const DEFAULT_MAX_SIZE: usize = 50;

/// The text whose topics an exchange has: input and response with a space between.
pub open spec fn exchange_topics(user_input: Seq<char>, ai_response: Seq<char>) -> Seq<Seq<char>> {
    topics_of(user_input + seq![' '] + ai_response)
}

/// The recent history of a store: its last five conversations.
pub open spec fn recent(convs: Seq<ConversationView>) -> Seq<ConversationView> {
    if convs.len() <= RECENT_WINDOW {
        convs
    } else {
        convs.skip(convs.len() - RECENT_WINDOW)
    }
}

/// Whether some conversation of recent history has the topic `t`.
pub open spec fn seen_recently(convs: Seq<ConversationView>, t: Seq<char>) -> bool {
    exists|i: int| 0 <= i < recent(convs).len() && (#[trigger] recent(convs)[i]).topics.contains(t)
}

/// How many of `topics` some conversation of recent history has.
pub open spec fn overlap(convs: Seq<ConversationView>, topics: Seq<Seq<char>>) -> nat
    decreases topics.len(),
{
    if topics.len() == 0 {
        0
    } else {
        overlap(convs, topics.drop_last()) + if seen_recently(convs, topics.last()) {
            1nat
        } else {
            0nat
        }
    }
}

/// The relevance of a new exchange with `topics`, in fifths: the baseline, one
/// fifth more for each topic that recent history has, capped.
pub open spec fn relevance_of(convs: Seq<ConversationView>, topics: Seq<Seq<char>>) -> nat {
    if BASE_RELEVANCE + overlap(convs, topics) >= MAX_RELEVANCE {
        MAX_RELEVANCE as nat
    } else {
        BASE_RELEVANCE as nat + overlap(convs, topics)
    }
}

/// Whether some conversation of the recent history of `convs` has the topic `t`.
fn topic_seen_recently(convs: &Vec<Conversation>, t: &String) -> (seen: bool)
    ensures
        seen == seen_recently(conversations_view(convs@), t@),
{
    let ghost all = conversations_view(convs@);
    let n = convs.len();
    let start: usize = if n <= RECENT_WINDOW {
        0
    } else {
        n - RECENT_WINDOW
    };
    proof {
        if n <= RECENT_WINDOW {
            assert(recent(all) == all);
        }
        assert(recent(all).len() == n - start);
    }
    for i in start..n
        invariant
            start <= n,
            n == convs.len(),
            all == conversations_view(convs@),
            recent(all).len() == n - start,
            forall|j: int| 0 <= j < recent(all).len() ==> (#[trigger] recent(all)[j]) == all[start + j],
            forall|j: int| 0 <= j < i - start ==> !(#[trigger] recent(all)[j]).topics.contains(t@),
    {
        if holds_text(&convs[i].topics, t) {
            assert(recent(all)[i - start].topics.contains(t@));
            return true;
        }
    }
    false
}

/// The relevance of a new exchange with `topics` against the history `convs`.
pub fn calculate_relevance(convs: &Vec<Conversation>, topics: &Vec<String>) -> (score: u32)
    ensures
        score == relevance_of(conversations_view(convs@), strings_view(topics@)),
        BASE_RELEVANCE <= score <= MAX_RELEVANCE,
{
    let ghost history = conversations_view(convs@);
    let ghost all = strings_view(topics@);
    let mut count: u32 = 0;
    for i in 0..topics.len()
        invariant
            history == conversations_view(convs@),
            all == strings_view(topics@),
            count <= MAX_RELEVANCE,
            count <= i,
            count as nat == overlap(history, all.take(i as int)) || (count == MAX_RELEVANCE
                && overlap(history, all.take(i as int)) >= MAX_RELEVANCE),
    {
        proof {
            assert(all.take(i + 1).drop_last() == all.take(i as int));
            assert(all.take(i + 1).last() == topics@[i as int]@);
        }
        if topic_seen_recently(convs, &topics[i]) && count < MAX_RELEVANCE {
            count += 1;
        }
    }
    assert(all.take(topics.len() as int) == all);
    if count >= MAX_RELEVANCE - BASE_RELEVANCE {
        MAX_RELEVANCE
    } else {
        BASE_RELEVANCE + count
    }
}

/// Whether some conversation of `convs` has the topic `t`.
pub open spec fn mentions(convs: Seq<ConversationView>, t: Seq<char>) -> bool {
    exists|i: int| 0 <= i < convs.len() && (#[trigger] convs[i]).topics.contains(t)
}

/// The positions of the conversations that have the topic `t`, rising.
pub open spec fn positions_of(convs: Seq<ConversationView>, t: Seq<char>) -> Seq<int>
    decreases convs.len(),
{
    if convs.len() == 0 {
        Seq::empty()
    } else {
        let before = positions_of(convs.drop_last(), t);
        if convs.last().topics.contains(t) {
            before.push(convs.len() - 1)
        } else {
            before
        }
    }
}

/// The topic index of `convs`, built from scratch: every topic that some
/// conversation has, with the positions of the conversations that have it.
pub open spec fn topic_index_of(convs: Seq<ConversationView>) -> Map<Seq<char>, Seq<int>> {
    Map::new(|t: Seq<char>| mentions(convs, t), |t: Seq<char>| positions_of(convs, t))
}

/// The positions that a list of the index holds.
pub open spec fn held_positions(v: Seq<usize>) -> Seq<int> {
    Seq::new(v.len(), |i: int| v[i] as int)
}

/// What an index holds, as a map from topics to positions.
pub open spec fn index_view(m: Map<Seq<char>, Vec<usize>>) -> Map<Seq<char>, Seq<int>> {
    Map::new(|t: Seq<char>| m.contains_key(t), |t: Seq<char>| held_positions(m[t]@))
}

/// A topic that no conversation has is at no position.
pub proof fn lemma_unmentioned_topic(convs: Seq<ConversationView>, t: Seq<char>)
    requires
        !mentions(convs, t),
    ensures
        positions_of(convs, t) == Seq::<int>::empty(),
    decreases convs.len(),
{
    if convs.len() > 0 {
        assert(!convs[convs.len() - 1].topics.contains(t));
        assert forall|i: int| 0 <= i < convs.drop_last().len() implies !(
        #[trigger] convs.drop_last()[i]).topics.contains(t) by {
            assert(!convs[i].topics.contains(t));
        }
        lemma_unmentioned_topic(convs.drop_last(), t);
    }
}

/// The positions of a topic are exactly those of the conversations that have
/// it, and they rise.
pub proof fn lemma_positions_of(convs: Seq<ConversationView>, t: Seq<char>)
    ensures
        forall|k: int|
            0 <= k < positions_of(convs, t).len() ==> 0 <= #[trigger] positions_of(convs, t)[k]
                < convs.len() && convs[positions_of(convs, t)[k]].topics.contains(t),
        forall|i: int|
            0 <= i < convs.len() && (#[trigger] convs[i]).topics.contains(t) ==> positions_of(
                convs,
                t,
            ).contains(i),
        forall|j: int, k: int|
            0 <= j < k < positions_of(convs, t).len() ==> #[trigger] positions_of(convs, t)[j]
                < #[trigger] positions_of(convs, t)[k],
    decreases convs.len(),
{
    let p = positions_of(convs, t);
    if convs.len() > 0 {
        let init = convs.drop_last();
        let q = positions_of(init, t);
        lemma_positions_of(init, t);
        assert forall|k: int| 0 <= k < p.len() implies 0 <= #[trigger] p[k] < convs.len()
            && convs[p[k]].topics.contains(t) by {
            if k < q.len() {
                assert(p[k] == q[k]);
                assert(init[q[k]] == convs[q[k]]);
            }
        }
        assert forall|i: int| 0 <= i < convs.len() && (#[trigger] convs[i]).topics.contains(
            t,
        ) implies p.contains(i) by {
            if i < init.len() {
                assert(init[i] == convs[i]);
                assert(q.contains(i));
                let k = choose|k: int| 0 <= k < q.len() && q[k] == i;
                assert(p[k] == i);
            } else {
                assert(p[p.len() - 1] == i);
            }
        }
        assert forall|j: int, k: int| 0 <= j < k < p.len() implies #[trigger] p[j] < #[trigger] p[k] by {
            if k < q.len() {
                assert(q[j] < q[k]);
            } else {
                assert(p[j] == q[j]);
                assert(0 <= q[j] < init.len());
            }
        }
    }
}

/// Adding a conversation at the end adds its position to each of its topics
/// and leaves the other topics as they were.
pub proof fn lemma_index_after_push(convs: Seq<ConversationView>, c: ConversationView)
    ensures
        forall|t: Seq<char>| #[trigger]
            mentions(convs.push(c), t) <==> mentions(convs, t) || c.topics.contains(t),
        forall|t: Seq<char>| #[trigger]
            positions_of(convs.push(c), t) == if c.topics.contains(t) {
                positions_of(convs, t).push(convs.len() as int)
            } else {
                positions_of(convs, t)
            },
{
    let longer = convs.push(c);
    assert(longer.drop_last() == convs);
    assert forall|t: Seq<char>| #[trigger]
        mentions(longer, t) <==> mentions(convs, t) || c.topics.contains(t) by {
        if mentions(convs, t) {
            let i = choose|i: int| 0 <= i < convs.len() && (#[trigger] convs[i]).topics.contains(t);
            assert(longer[i].topics.contains(t));
        }
        if c.topics.contains(t) {
            assert(longer[convs.len() as int].topics.contains(t));
        }
        if mentions(longer, t) {
            let i = choose|i: int|
                0 <= i < longer.len() && (#[trigger] longer[i]).topics.contains(t);
            if i < convs.len() {
                assert(convs[i].topics.contains(t));
            }
        }
    }
}

/// Whether the index `m` is the topic index of `convs`.
pub open spec fn index_matches(m: Map<Seq<char>, Vec<usize>>, convs: Seq<ConversationView>) -> bool {
    index_view(m) == topic_index_of(convs)
}

/// A copy of a list of positions with one more at its end.
fn with_position(held: &Vec<usize>, position: usize) -> (longer: Vec<usize>)
    ensures
        longer@ == held@.push(position),
{
    let mut longer: Vec<usize> = Vec::new();
    for i in 0..held.len()
        invariant
            longer@ == held@.take(i as int),
    {
        longer.push(held[i]);
        assert(held@.take(i + 1) == held@.take(i as int).push(held@[i as int]));
    }
    assert(held@.take(held.len() as int) == held@);
    longer.push(position);
    longer
}

/// Enters the conversation at `position`, which has `topics`, into the index.
fn index_conversation(
    index: &mut StringHashMap<Vec<usize>>,
    topics: &Vec<String>,
    position: usize,
    Ghost(convs): Ghost<Seq<ConversationView>>,
    Ghost(c): Ghost<ConversationView>,
)
    requires
        index_matches(old(index)@, convs),
        c.topics == strings_view(topics@),
        c.topics.no_duplicates(),
        position == convs.len(),
    ensures
        index_matches(final(index)@, convs.push(c)),
{
    let ghost start = index@;
    let ghost all = strings_view(topics@);
    for k in 0..topics.len()
        invariant
            all == strings_view(topics@),
            all == c.topics,
            all.no_duplicates(),
            index_matches(start, convs),
            position == convs.len(),
            forall|t: Seq<char>| #[trigger]
                index@.contains_key(t) <==> start.contains_key(t) || all.take(k as int).contains(t),
            forall|t: Seq<char>|
                all.take(k as int).contains(t) ==> held_positions((#[trigger] index@[t])@)
                    == positions_of(convs, t).push(position as int),
            forall|t: Seq<char>|
                !all.take(k as int).contains(t) && start.contains_key(t) ==> (#[trigger] index@[t])
                    == start[t],
    {
        let topic = &topics[k];
        let ghost t = topic@;
        let ghost before = index@;
        proof {
            assert(all[k as int] == t);
            assert(!all.take(k as int).contains(t)) by {
                if all.take(k as int).contains(t) {
                    let j = choose|j: int| 0 <= j < k && all.take(k as int)[j] == t;
                    assert(all[j] == all[k as int]);
                }
            }
            assert(all.take(k + 1) == all.take(k as int).push(t));
            assert(index_view(start).contains_key(t) == mentions(convs, t));
            if start.contains_key(t) {
                assert(index_view(start)[t] == positions_of(convs, t));
            } else {
                lemma_unmentioned_topic(convs, t);
            }
        }
        let held = match index.get(topic.as_str()) {
            Some(found) => with_position(found, position),
            None => {
                let mut fresh: Vec<usize> = Vec::new();
                fresh.push(position);
                fresh
            },
        };
        assert(held_positions(held@) =~= positions_of(convs, t).push(position as int));
        index.insert(topic.clone(), held);
        proof {
            let next = all.take(k + 1);
            let prev = all.take(k as int);
            assert forall|u: Seq<char>| #[trigger]
                index@.contains_key(u) <==> start.contains_key(u) || next.contains(
                    u,
                ) by {
                if next.contains(u) && u != t {
                    let j = choose|j: int| 0 <= j < k + 1 && next[j] == u;
                    assert(prev[j] == u);
                }
                if prev.contains(u) {
                    let j = choose|j: int| 0 <= j < k && prev[j] == u;
                    assert(next[j] == u);
                }
                if u == t {
                    assert(next[k as int] == t);
                }
            }
            assert forall|u: Seq<char>| next.contains(u) implies held_positions(
                (#[trigger] index@[u])@,
            ) == positions_of(convs, u).push(position as int) by {
                if u != t {
                    let j = choose|j: int| 0 <= j < k + 1 && next[j] == u;
                    assert(prev[j] == u);
                    assert(index@[u] == before[u]);
                }
            }
            assert forall|u: Seq<char>|
                !next.contains(u) && start.contains_key(u) implies (
            #[trigger] index@[u]) == start[u] by {
                if prev.contains(u) {
                    let j = choose|j: int| 0 <= j < k && prev[j] == u;
                    assert(next[j] == u);
                }
                if u == t {
                    assert(next[k as int] == t);
                }
                assert(index@[u] == before[u]);
            }
        }
    }
    proof {
        assert(all.take(topics.len() as int) == all);
        lemma_index_after_push(convs, c);
        let longer = convs.push(c);
        assert forall|t: Seq<char>| #[trigger]
            index_view(index@).contains_key(t) == topic_index_of(longer).contains_key(t) by {
            assert(index_view(start).contains_key(t) == mentions(convs, t));
            assert(mentions(longer, t) <==> mentions(convs, t) || c.topics.contains(t));
        }
        assert forall|t: Seq<char>| index_view(index@).contains_key(t) implies #[trigger] index_view(
            index@,
        )[t] == topic_index_of(longer)[t] by {
            assert(positions_of(longer, t) == if c.topics.contains(t) {
                positions_of(convs, t).push(convs.len() as int)
            } else {
                positions_of(convs, t)
            });
            if !all.contains(t) {
                assert(index@[t] == start[t]);
                assert(index_view(start)[t] == positions_of(convs, t));
            }
        }
        assert(index_view(index@) =~= topic_index_of(longer));
    }
}

/// Whether a conversation is as the store makes them: its topics are those of
/// its exchange, and its relevance lies between the baseline and the cap.
pub open spec fn well_formed(c: ConversationView) -> bool {
    &&& c.topics == exchange_topics(c.user_input, c.ai_response)
    &&& BASE_RELEVANCE <= c.relevance_score <= MAX_RELEVANCE
}

/// The composite score that decides which conversations stay, fifty-fold:
/// seven tenths of the time stamp and three tenths of the relevance.
pub open spec fn composite_score(c: ConversationView) -> int {
    35 * c.timestamp + 3 * c.relevance_score
}

/// The composite scores of `convs`, position by position.
pub open spec fn composite_scores(convs: Seq<ConversationView>) -> Seq<int> {
    Seq::new(convs.len(), |i: int| composite_score(convs[i]))
}

/// `convs` cut back to `max` conversations: untouched while it is within the
/// bound; else its `max` highest composite scores, highest first, and among
/// equal scores those that stood earlier.
pub open spec fn pruned(convs: Seq<ConversationView>, max: nat) -> Seq<ConversationView> {
    if convs.len() <= max {
        convs
    } else {
        Seq::new(max, |r: int| convs[ranking(composite_scores(convs))[r]])
    }
}

/// The conversation that an exchange added at `timestamp` becomes.
pub open spec fn new_conversation(
    convs: Seq<ConversationView>,
    user_input: Seq<char>,
    ai_response: Seq<char>,
    timestamp: int,
) -> ConversationView {
    ConversationView {
        timestamp,
        user_input,
        ai_response,
        topics: exchange_topics(user_input, ai_response),
        relevance_score: relevance_of(convs, exchange_topics(user_input, ai_response)),
    }
}

/// The store's conversations after an exchange was added at `timestamp`.
pub open spec fn after_adding(
    convs: Seq<ConversationView>,
    max: nat,
    user_input: Seq<char>,
    ai_response: Seq<char>,
    timestamp: int,
) -> Seq<ConversationView> {
    pruned(convs.push(new_conversation(convs, user_input, ai_response, timestamp)), max)
}

/// How many of `topics` are among `current`.
pub open spec fn shared_topics(topics: Seq<Seq<char>>, current: Seq<Seq<char>>) -> nat
    decreases topics.len(),
{
    if topics.len() == 0 {
        0
    } else {
        shared_topics(topics.drop_last(), current) + if current.contains(topics.last()) {
            1nat
        } else {
            0nat
        }
    }
}

/// Whether the conversation at position `j` is more recent than the one at
/// position `i`: it has the later time stamp, or the same and stands later.
pub open spec fn more_recent(convs: Seq<ConversationView>, j: int, i: int) -> bool {
    convs[j].timestamp > convs[i].timestamp || (convs[j].timestamp == convs[i].timestamp && j > i)
}

/// How many of the first `n` conversations are more recent than the one at
/// position `i`.
pub open spec fn more_recent_among(convs: Seq<ConversationView>, i: int, n: nat) -> nat
    decreases n,
{
    if n == 0 {
        0
    } else {
        more_recent_among(convs, i, (n - 1) as nat) + if more_recent(convs, n - 1, i) {
            1nat
        } else {
            0nat
        }
    }
}

/// The age rank of the conversation at position `i`: the most recent
/// conversation has the size of the store, the one before it one less, and
/// the oldest has 1.
pub open spec fn age_rank(convs: Seq<ConversationView>, i: int) -> int {
    convs.len() - more_recent_among(convs, i, convs.len())
}

/// The score that ranks the conversation at position `i` for a query with the
/// topics `current`, five-fold: six tenths for each shared topic, and four
/// tenths of the age rank.
pub open spec fn context_score(convs: Seq<ConversationView>, i: int, current: Seq<Seq<char>>) -> int {
    3 * shared_topics(convs[i].topics, current) + 2 * age_rank(convs, i)
}

/// The context scores of `convs`, position by position.
pub open spec fn context_scores(convs: Seq<ConversationView>, current: Seq<Seq<char>>) -> Seq<int> {
    Seq::new(convs.len(), |i: int| context_score(convs, i, current))
}

/// The positions of the conversations that make up the context for `query`:
/// the ten highest context scores, highest first.
pub open spec fn context_order(convs: Seq<ConversationView>, query: Seq<char>) -> Seq<int> {
    let ranked = ranking(context_scores(convs, topics_of(query)));
    if ranked.len() <= CONTEXT_LIMIT {
        ranked
    } else {
        ranked.take(CONTEXT_LIMIT as int)
    }
}

/// The context for `query`: the chosen exchanges, most relevant first, with a
/// blank line between them.
pub open spec fn context_of(convs: Seq<ConversationView>, query: Seq<char>) -> Seq<char> {
    let order = context_order(convs, query);
    join(
        Seq::new(
            order.len(),
            |r: int| exchange_text(convs[order[r]].user_input, convs[order[r]].ai_response),
        ),
        "\n\n"@,
    )
}

/// The sum of the relevance scores of `convs`, in fifths.
pub open spec fn total_relevance(convs: Seq<ConversationView>) -> nat
    decreases convs.len(),
{
    if convs.len() == 0 {
        0
    } else {
        total_relevance(convs.drop_last()) + convs.last().relevance_score
    }
}

/// The earliest time stamp of `convs`, which is not empty.
pub open spec fn earliest(convs: Seq<ConversationView>) -> int
    decreases convs.len(),
{
    if convs.len() <= 1 {
        convs[0].timestamp
    } else if convs.last().timestamp < earliest(convs.drop_last()) {
        convs.last().timestamp
    } else {
        earliest(convs.drop_last())
    }
}

/// The latest time stamp of `convs`, which is not empty.
pub open spec fn latest(convs: Seq<ConversationView>) -> int
    decreases convs.len(),
{
    if convs.len() <= 1 {
        convs[0].timestamp
    } else if convs.last().timestamp > latest(convs.drop_last()) {
        convs.last().timestamp
    } else {
        latest(convs.drop_last())
    }
}

/// The average relevance of `convs` in points, to the nearest hundredth, as
/// text with two decimals; `NaN` for no conversations.
pub open spec fn average_text(convs: Seq<ConversationView>) -> Seq<char> {
    if convs.len() == 0 {
        "NaN"@
    } else {
        let hundredths = (40 * total_relevance(convs) + convs.len()) / (2 * convs.len());
        decimal((hundredths / 100) as nat) + seq![
            '.',
            digit_char((hundredths % 100 / 10) as int),
            digit_char((hundredths % 10) as int),
        ]
    }
}

/// A time stamp for display: its calendar text, or `None` where the calendar
/// cannot hold it.
pub open spec fn time_text(seconds: int) -> Seq<char> {
    match calendar_text(seconds) {
        Some(text) => text,
        None => "None"@,
    }
}

/// The statistics of a store with the conversations `convs` and
/// `unique_topics` topics in its index.
pub open spec fn stats_text(convs: Seq<ConversationView>, unique_topics: nat) -> Seq<char> {
    "Memory Stats:\n- Total Conversations: "@ + decimal(convs.len()) + "\n- Unique Topics: "@
        + decimal(unique_topics) + "\n- Average Relevance: "@ + average_text(convs)
        + "\n- Oldest Conversation: "@ + (if convs.len() == 0 {
        "None"@
    } else {
        time_text(earliest(convs))
    }) + "\n- Most Recent: "@ + (if convs.len() == 0 {
        "None"@
    } else {
        time_text(latest(convs))
    })
}

/// Counts how many of `topics` are among `current`.
fn count_shared(topics: &Vec<String>, current: &Vec<String>) -> (count: usize)
    ensures
        count == shared_topics(strings_view(topics@), strings_view(current@)),
{
    let ghost all = strings_view(topics@);
    let mut count: usize = 0;
    for i in 0..topics.len()
        invariant
            all == strings_view(topics@),
            count <= i,
            count == shared_topics(all.take(i as int), strings_view(current@)),
    {
        proof {
            assert(all.take(i + 1).drop_last() == all.take(i as int));
            assert(all.take(i + 1).last() == topics@[i as int]@);
        }
        if holds_text(current, &topics[i]) {
            count += 1;
        }
    }
    assert(all.take(topics.len() as int) == all);
    count
}

/// A time stamp for display.
fn display_time(seconds: i64) -> (text: String)
    ensures
        text@ == time_text(seconds as int),
{
    match format_seconds(seconds) {
        Some(text) => text,
        None => String::from_str("None"),
    }
}

/// A copy of a conversation.
fn copy_conversation(c: &Conversation) -> (copy: Conversation)
    ensures
        copy@ == c@,
{
    let mut topics: Vec<String> = Vec::new();
    for i in 0..c.topics.len()
        invariant
            strings_view(topics@) == strings_view(c.topics@).take(i as int),
    {
        let ghost before = strings_view(topics@);
        topics.push(c.topics[i].clone());
        assert(strings_view(topics@) =~= before.push(c.topics@[i as int]@));
        assert(strings_view(c.topics@).take(i + 1) =~= strings_view(c.topics@).take(
            i as int,
        ).push(c.topics@[i as int]@));
    }
    assert(strings_view(c.topics@).take(c.topics.len() as int) == strings_view(c.topics@));
    Conversation {
        timestamp: c.timestamp,
        user_input: c.user_input.clone(),
        ai_response: c.ai_response.clone(),
        topics,
        relevance_score: c.relevance_score,
    }
}

/// The short-term store.
pub struct ShortTermMemory {
    conversations: Vec<Conversation>,
    topic_index: StringHashMap<Vec<usize>>,
    max_size: usize,
}

impl View for ShortTermMemory {
    type V = Seq<ConversationView>;

    /// The retained conversations, in the store's order.
    closed spec fn view(&self) -> Seq<ConversationView> {
        conversations_view(self.conversations@)
    }
}

impl ShortTermMemory {
    /// How many conversations the store keeps at most.
    pub closed spec fn max_size(&self) -> nat {
        self.max_size as nat
    }

    /// The topic index that the store holds.
    pub closed spec fn topic_index(&self) -> Map<Seq<char>, Seq<int>> {
        index_view(self.topic_index@)
    }

    /// The store's invariant: it is within its bound, its topic index is the
    /// one that a scan of its conversations gives, and each conversation is
    /// as the store made it.
    pub open spec fn wf(&self) -> bool {
        &&& self@.len() <= self.max_size()
        &&& self.topic_index() == topic_index_of(self@)
        &&& forall|i: int| 0 <= i < self@.len() ==> well_formed(#[trigger] self@[i])
    }

    /// An empty store that keeps the last fifty conversations.
    pub fn new() -> (memory: Self)
        ensures
            memory.wf(),
            memory@ == Seq::<ConversationView>::empty(),
            memory.max_size() == DEFAULT_MAX_SIZE,
    {
        Self::with_max_size(DEFAULT_MAX_SIZE)
    }

    /// An empty store that keeps at most `max_size` conversations.
    pub fn with_max_size(max_size: usize) -> (memory: Self)
        ensures
            memory.wf(),
            memory@ == Seq::<ConversationView>::empty(),
            memory.max_size() == max_size,
    {
        let memory = ShortTermMemory {
            conversations: Vec::new(),
            topic_index: StringHashMap::new(),
            max_size,
        };
        proof {
            assert(memory@ =~= Seq::<ConversationView>::empty());
            assert(index_view(memory.topic_index@) =~= topic_index_of(memory@));
        }
        memory
    }

    /// The retained conversations, in the store's order.
    pub fn conversations(&self) -> (retained: &Vec<Conversation>)
        ensures
            conversations_view(retained@) == self@,
    {
        &self.conversations
    }

    /// How many conversations the store holds.
    pub fn conversation_count(&self) -> (count: usize)
        ensures
            count == self@.len(),
    {
        self.conversations.len()
    }

    /// Builds the topic index anew from the retained conversations.
    fn rebuild_topic_index(&mut self)
        requires
            forall|i: int| 0 <= i < old(self)@.len() ==> well_formed(#[trigger] old(self)@[i]),
        ensures
            final(self)@ == old(self)@,
            final(self).max_size() == old(self).max_size(),
            final(self).topic_index() == topic_index_of(final(self)@),
    {
        let ghost all = self@;
        self.topic_index.clear();
        assert(index_view(self.topic_index@) =~= topic_index_of(all.take(0)));
        let n = self.conversations.len();
        for i in 0..n
            invariant
                n == all.len(),
                self@ == all,
                all == conversations_view(self.conversations@),
                self.max_size == old(self).max_size,
                self.conversations@ == old(self).conversations@,
                forall|j: int| 0 <= j < all.len() ==> well_formed(#[trigger] all[j]),
                index_matches(self.topic_index@, all.take(i as int)),
        {
            proof {
                assert(well_formed(all[i as int]));
                lemma_topics_are_distinct(all[i as int].user_input + seq![' '] + all[i as int].ai_response);
                assert(all.take(i as int).push(all[i as int]) == all.take(i + 1));
            }
            index_conversation(
                &mut self.topic_index,
                &self.conversations[i].topics,
                i,
                Ghost(all.take(i as int)),
                Ghost(all[i as int]),
            );
        }
        assert(all.take(all.len() as int) == all);
    }

    /// Cuts the store back to its bound: the conversations with the highest
    /// composite scores stay, highest first; then the topic index is rebuilt.
    fn prune_conversations(&mut self)
        requires
            forall|i: int| 0 <= i < old(self)@.len() ==> well_formed(#[trigger] old(self)@[i]),
            old(self).topic_index() == topic_index_of(old(self)@),
        ensures
            final(self)@ == pruned(old(self)@, old(self).max_size()),
            final(self).max_size() == old(self).max_size(),
            final(self).wf(),
    {
        if self.conversations.len() <= self.max_size {
            return ;
        }
        let ghost all = self@;
        let mut keys: Vec<i128> = Vec::new();
        for i in 0..self.conversations.len()
            invariant
                self@ == all,
                keys@.len() == i,
                forall|j: int| 0 <= j < i ==> #[trigger] keys@[j] == composite_score(all[j]),
        {
            let c = &self.conversations[i];
            let key: i128 = 35 * (c.timestamp as i128) + 3 * (c.relevance_score as i128);
            keys.push(key);
        }
        assert(key_values(keys@) =~= composite_scores(all));
        let order = rank_by_key(&keys);
        let ghost ranked = ranking(composite_scores(all));
        let mut kept: Vec<Conversation> = Vec::new();
        for r in 0..self.max_size
            invariant
                self@ == all,
                self.max_size < all.len(),
                self.max_size == old(self).max_size,
                order@.len() == all.len(),
                positions(order@) == ranked,
                forall|q: int| 0 <= q < order@.len() ==> #[trigger] order@[q] < all.len(),
                kept@.len() == r,
                forall|q: int| 0 <= q < r ==> (#[trigger] kept@[q])@ == all[ranked[q]],
        {
            let copy = copy_conversation(&self.conversations[order[r]]);
            assert(positions(order@)[r as int] == order@[r as int]);
            kept.push(copy);
        }
        self.conversations = kept;
        proof {
            assert(self@ =~= pruned(all, self.max_size as nat));
            lemma_ranking(composite_scores(all));
            assert forall|i: int| 0 <= i < self@.len() implies well_formed(#[trigger] self@[i]) by {
                assert(0 <= ranked[i] < all.len());
                assert(well_formed(all[ranked[i]]));
            }
        }
        self.rebuild_topic_index();
    }

    /// Adds an exchange that took place `timestamp` seconds after the Unix
    /// epoch: extracts its topics, scores it against recent history, appends
    /// it, enters it into the topic index, and prunes if the bound is exceeded.
    pub fn add_interaction_at(&mut self, user_input: &str, ai_response: &str, timestamp: i64)
        requires
            old(self).wf(),
        ensures
            final(self).wf(),
            final(self).max_size() == old(self).max_size(),
            final(self)@.len() <= final(self).max_size(),
            final(self)@ == after_adding(
                old(self)@,
                old(self).max_size(),
                user_input@,
                ai_response@,
                timestamp as int,
            ),
    {
        let mut combined = String::from_str(user_input);
        combined.append(" ");
        combined.append(ai_response);
        proof {
            reveal_strlit(" ");
            assert(" "@ =~= seq![' ']);
            assert(combined@ == user_input@ + seq![' '] + ai_response@);
        }
        let topics = extract_topics(combined.as_str());
        let relevance_score = calculate_relevance(&self.conversations, &topics);
        let position = self.conversations.len();
        let conversation = Conversation {
            timestamp,
            user_input: String::from_str(user_input),
            ai_response: String::from_str(ai_response),
            topics,
            relevance_score,
        };
        let ghost all = self@;
        let ghost added = conversation@;
        proof {
            assert(added == new_conversation(all, user_input@, ai_response@, timestamp as int));
            lemma_topics_are_distinct(user_input@ + seq![' '] + ai_response@);
        }
        index_conversation(
            &mut self.topic_index,
            &conversation.topics,
            position,
            Ghost(all),
            Ghost(added),
        );
        self.conversations.push(conversation);
        proof {
            assert(self@ =~= all.push(added));
            assert forall|i: int| 0 <= i < self@.len() implies well_formed(#[trigger] self@[i]) by {
                if i < all.len() {
                    assert(well_formed(all[i]));
                }
            }
        }
        self.prune_conversations();
    }

    /// How many conversations are more recent than the one at position `i`.
    fn count_more_recent(&self, i: usize) -> (count: usize)
        requires
            i < self@.len(),
        ensures
            count == more_recent_among(self@, i as int, self@.len()),
            count <= self@.len(),
    {
        let ghost all = self@;
        let n = self.conversations.len();
        let mine = self.conversations[i].timestamp;
        let mut count: usize = 0;
        for j in 0..n
            invariant
                n == all.len(),
                i < n,
                all == conversations_view(self.conversations@),
                mine == all[i as int].timestamp,
                count <= j,
                count == more_recent_among(all, i as int, j as nat),
        {
            let theirs = self.conversations[j].timestamp;
            if theirs > mine || (theirs == mine && j > i) {
                count += 1;
            }
        }
        count
    }

    /// The context for a new input: the ten retained exchanges that score
    /// highest on shared topics and age rank, most relevant first, each as a
    /// user line and an assistant line, with a blank line between exchanges.
    pub fn get_context(&self, current_input: &str) -> (context: String)
        ensures
            context@ == context_of(self@, current_input@),
    {
        let current = extract_topics(current_input);
        let ghost all = self@;
        let ghost wanted = strings_view(current@);
        let n = self.conversations.len();
        let mut keys: Vec<i128> = Vec::new();
        for i in 0..n
            invariant
                n == all.len(),
                all == conversations_view(self.conversations@),
                wanted == strings_view(current@),
                keys@.len() == i,
                forall|j: int| 0 <= j < i ==> #[trigger] keys@[j] == context_score(all, j, wanted),
        {
            let shared = count_shared(&self.conversations[i].topics, &current);
            let newer = self.count_more_recent(i);
            let key: i128 = 3 * (shared as i128) + 2 * ((n - newer) as i128);
            keys.push(key);
        }
        assert(key_values(keys@) =~= context_scores(all, wanted));
        let order = rank_by_key(&keys);
        let ghost chosen = context_order(all, current_input@);
        let limit: usize = if n <= CONTEXT_LIMIT {
            n
        } else {
            CONTEXT_LIMIT
        };
        let mut parts: Vec<String> = Vec::new();
        for r in 0..limit
            invariant
                limit <= n,
                limit == chosen.len(),
                n == all.len(),
                all == conversations_view(self.conversations@),
                order@.len() == n,
                forall|q: int| 0 <= q < order@.len() ==> #[trigger] order@[q] < n,
                forall|q: int| 0 <= q < limit ==> #[trigger] chosen[q] == order@[q],
                parts@.len() == r,
                forall|q: int|
                    0 <= q < r ==> (#[trigger] parts@[q])@ == exchange_text(
                        all[chosen[q]].user_input,
                        all[chosen[q]].ai_response,
                    ),
        {
            let c = &self.conversations[order[r]];
            parts.push(render_exchange(c.user_input.as_str(), c.ai_response.as_str()));
        }
        assert(strings_view(parts@) =~= Seq::new(
            chosen.len(),
            |r: int| exchange_text(all[chosen[r]].user_input, all[chosen[r]].ai_response),
        ));
        join_strings(&parts, "\n\n")
    }

    /// The store's statistics for display: how many conversations and topics
    /// it holds, the average relevance, and the earliest and latest time stamp.
    pub fn get_memory_stats(&self) -> (stats: String)
        ensures
            stats@ == stats_text(self@, self.topic_index().dom().len()),
    {
        let ghost all = self@;
        let n = self.conversations.len();
        let unique = self.topic_index.len();
        proof {
            assert(index_view(self.topic_index@).dom() =~= self.topic_index@.dom());
        }
        let mut total: u128 = 0;
        let mut first: i64 = 0;
        let mut last: i64 = 0;
        for i in 0..n
            invariant
                n == all.len(),
                all == conversations_view(self.conversations@),
                total == total_relevance(all.take(i as int)),
                total <= i * 0xffff_ffff,
                i > 0 ==> first == earliest(all.take(i as int)) && last == latest(all.take(i as int)),
        {
            let c = &self.conversations[i];
            proof {
                assert(all.take(i + 1).drop_last() == all.take(i as int));
                assert(all.take(i + 1).last() == all[i as int]);
                assert(all.take(i + 1)[0] == all[0]);
                assert(i * 0xffff_ffff + 0xffff_ffff == (i + 1) * 0xffff_ffff) by (nonlinear_arith);
                assert(i * 0xffff_ffff <= 0xffff_ffff_ffff_ffff * 0xffff_ffff) by (nonlinear_arith)
                    requires
                        i <= 0xffff_ffff_ffff_ffff,
                ;
            }
            total = total + c.relevance_score as u128;
            if i == 0 || c.timestamp < first {
                first = c.timestamp;
            }
            if i == 0 || c.timestamp > last {
                last = c.timestamp;
            }
        }
        assert(all.take(n as int) == all);
        let mut stats = String::from_str("Memory Stats:\n- Total Conversations: ");
        stats.append(decimal_string(n as u128).as_str());
        stats.append("\n- Unique Topics: ");
        stats.append(decimal_string(unique as u128).as_str());
        stats.append("\n- Average Relevance: ");
        if n == 0 {
            stats.append("NaN");
        } else {
            proof {
                assert(n * 0xffff_ffff <= 0xffff_ffff_ffff_ffff * 0xffff_ffff) by (nonlinear_arith)
                    requires
                        n <= 0xffff_ffff_ffff_ffff,
                ;
            }
            let hundredths: u128 = (40 * total + n as u128) / (2 * n as u128);
            stats.append(decimal_string(hundredths / 100).as_str());
            let mut fraction: Vec<char> = Vec::new();
            fraction.push('.');
            push_decimal(&mut fraction, hundredths % 100 / 10);
            push_decimal(&mut fraction, hundredths % 10);
            stats.append(string_from_chars(&fraction).as_str());
        }
        stats.append("\n- Oldest Conversation: ");
        if n == 0 {
            stats.append("None");
        } else {
            stats.append(display_time(first).as_str());
        }
        stats.append("\n- Most Recent: ");
        if n == 0 {
            stats.append("None");
        } else {
            stats.append(display_time(last).as_str());
        }
        stats
    }

    /// Adds an exchange that takes place now.
    pub fn add_interaction(&mut self, user_input: &str, ai_response: &str)
        requires
            old(self).wf(),
        ensures
            final(self).wf(),
            final(self).max_size() == old(self).max_size(),
            final(self)@.len() <= final(self).max_size(),
            exists|timestamp: i64|
                final(self)@ == after_adding(
                    old(self)@,
                    old(self).max_size(),
                    user_input@,
                    ai_response@,
                    timestamp as int,
                ),
    {
        let timestamp = now_seconds();
        self.add_interaction_at(user_input, ai_response, timestamp);
    }
}

/// After an exchange is added to a store that is within its bound, the store
/// is within its bound.
pub proof fn lemma_adding_keeps_bound(
    convs: Seq<ConversationView>,
    max: nat,
    user_input: Seq<char>,
    ai_response: Seq<char>,
    timestamp: int,
)
    ensures
        after_adding(convs, max, user_input, ai_response, timestamp).len() <= max,
{
}

/// Pruning keeps the highest composite scores: where a store exceeds its bound
/// `max`, the ranking by composite score holds every conversation once, the
/// first `max` of the ranking stay, in that order, and no conversation that
/// stays scores lower than one that goes.
pub proof fn lemma_pruning_keeps_highest(convs: Seq<ConversationView>, max: nat)
    requires
        convs.len() > max,
    ensures
        pruned(convs, max).len() == max,
        is_permutation(ranking(composite_scores(convs)), convs.len()),
        forall|r: int|
            0 <= r < max ==> #[trigger] pruned(convs, max)[r] == convs[ranking(
                composite_scores(convs),
            )[r]],
        forall|r: int, e: int|
            0 <= r < max && max <= e < convs.len() ==> composite_score(
                convs[#[trigger] ranking(composite_scores(convs))[r]],
            ) >= composite_score(convs[#[trigger] ranking(composite_scores(convs))[e]]),
{
    let keys = composite_scores(convs);
    let order = ranking(keys);
    lemma_ranking(keys);
    assert forall|r: int, e: int| 0 <= r < max && max <= e < convs.len() implies composite_score(
        convs[#[trigger] order[r]],
    ) >= composite_score(convs[#[trigger] order[e]]) by {
        assert(keys[order[r]] > keys[order[e]] || (keys[order[r]] == keys[order[e]] && order[r]
            < order[e]));
    }
}

/// Whether the conversation at position `i` of `convs` stays when `convs` is
/// cut back to `max`: whether it is among the first `max` of the ranking.
pub open spec fn stays(convs: Seq<ConversationView>, max: nat, i: int) -> bool {
    convs.len() <= max || exists|r: int|
        0 <= r < max && r < convs.len() && #[trigger] ranking(composite_scores(convs))[r] == i
}

/// Adding one conversation too many evicts exactly one: where a store holds
/// one more than its bound, a single conversation goes, every other one
/// stays, and none of those that stay scores lower than the one that goes.
pub proof fn lemma_single_eviction(convs: Seq<ConversationView>, max: nat) -> (evicted: int)
    requires
        convs.len() == max + 1,
    ensures
        0 <= evicted < convs.len(),
        pruned(convs, max).len() == max,
        !stays(convs, max, evicted),
        forall|i: int| 0 <= i < convs.len() && i != evicted ==> #[trigger] stays(convs, max, i),
        forall|i: int|
            0 <= i < convs.len() ==> composite_score(#[trigger] convs[i]) >= composite_score(
                convs[evicted],
            ),
{
    let keys = composite_scores(convs);
    let order = ranking(keys);
    lemma_ranking(keys);
    let evicted = order[max as int];
    assert forall|i: int| 0 <= i < convs.len() && i != evicted implies composite_score(
        #[trigger] convs[i],
    ) >= composite_score(convs[evicted]) by {
        assert(order.contains(i));
        let r = choose|r: int| 0 <= r < order.len() && order[r] == i;
        assert(keys[order[r]] > keys[order[max as int]] || (keys[order[r]] == keys[order[max as int]]
            && order[r] < order[max as int]));
    }
    assert forall|i: int| 0 <= i < convs.len() && i != evicted implies #[trigger] stays(
        convs,
        max,
        i,
    ) by {
        assert(order.contains(i));
        let r = choose|r: int| 0 <= r < order.len() && order[r] == i;
        assert(r < max);
    }
    assert(!stays(convs, max, evicted)) by {
        if stays(convs, max, evicted) {
            let r = choose|r: int|
                0 <= r < max && r < convs.len() && #[trigger] order[r] == evicted;
            assert(order[r] != order[max as int]);
        }
    }
    evicted
}

/// Age ranks run from 1 to the size of the store: the conversation that none
/// is more recent than has the size, and every conversation has at least 1.
pub proof fn lemma_age_rank_range(convs: Seq<ConversationView>, i: int)
    requires
        0 <= i < convs.len(),
    ensures
        1 <= age_rank(convs, i) <= convs.len(),
        (forall|j: int| 0 <= j < convs.len() ==> !more_recent(convs, j, i)) ==> age_rank(convs, i)
            == convs.len(),
{
    lemma_more_recent_among(convs, i, convs.len());
}

/// Of the first `n` conversations, at most `n` are more recent than the one at
/// position `i`, which is not more recent than itself; none of them is where
/// none in the store is.
proof fn lemma_more_recent_among(convs: Seq<ConversationView>, i: int, n: nat)
    requires
        0 <= i < convs.len(),
        n <= convs.len(),
    ensures
        more_recent_among(convs, i, n) <= n,
        i < n ==> more_recent_among(convs, i, n) < n,
        (forall|j: int| 0 <= j < convs.len() ==> !more_recent(convs, j, i)) ==> more_recent_among(
            convs,
            i,
            n,
        ) == 0,
    decreases n,
{
    if n > 0 {
        lemma_more_recent_among(convs, i, (n - 1) as nat);
    }
}

/// Asking twice for the context of the same query, with the store unchanged
/// between, gives the same text: the context is a function of the retained
/// conversations and the query.
pub proof fn lemma_context_repeats(
    memory: ShortTermMemory,
    query: Seq<char>,
    first: Seq<char>,
    second: Seq<char>,
)
    requires
        first == context_of(memory@, query),
        second == context_of(memory@, query),
    ensures
        first == second,
{
}

/// A store that satisfies its invariant is within its bound, and its topic
/// index is the one rebuilt from its conversations: it has exactly the topics
/// that some retained conversation has, and for each of them exactly the
/// positions of the conversations that have it, rising.
pub proof fn lemma_index_is_consistent(memory: ShortTermMemory, t: Seq<char>)
    requires
        memory.wf(),
    ensures
        memory@.len() <= memory.max_size(),
        memory.topic_index() == topic_index_of(memory@),
        memory.topic_index().contains_key(t) <==> mentions(memory@, t),
        memory.topic_index().contains_key(t) ==> forall|i: int|
            0 <= i < memory@.len() ==> (memory.topic_index()[t].contains(i) <==> (
            #[trigger] memory@[i]).topics.contains(t)),
{
    let convs = memory@;
    lemma_positions_of(convs, t);
    if memory.topic_index().contains_key(t) {
        let p = positions_of(convs, t);
        assert(memory.topic_index()[t] == p);
        assert forall|i: int| 0 <= i < convs.len() implies (p.contains(i) <==> (
        #[trigger] convs[i]).topics.contains(t)) by {
            if p.contains(i) {
                let k = choose|k: int| 0 <= k < p.len() && p[k] == i;
                assert(convs[p[k]].topics.contains(t));
            }
        }
    }
}

} // verus!
