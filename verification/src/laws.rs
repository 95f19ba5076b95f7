//! What holds of the repository and of a quiz run whatever is done with
//! them, stated over their mathematical states.

use crate::keys::{none_of, other_than, same_as, FlashcardKey, TopicKey};
use crate::model::{question_of, FlashcardView, QuestionView, TopicTag, TopicView};
use crate::seq_facts::{
    lemma_filter_agree, lemma_filter_all, lemma_filter_contains, lemma_filter_no_duplicates,
    lemma_filter_twice, lemma_push_contains, lemma_push_no_duplicates,
};
use crate::state::{after_answer, after_answers, started_run, topics_filed, StudyView};
use crate::text::answers_agree;
use vstd::prelude::*;

verus! {

/// Filing a live flashcard under a live topic keeps the repository valid,
/// keeps the links consistent if they were, and adds no reference to a
/// topic that is not live.
pub proof fn law_link_keeps_links(s: StudyView, c: FlashcardKey, t: TopicKey)
    requires
        s.valid(),
        s.cards.contains_key(c),
        s.topics.contains_key(t),
    ensures
        s.linked(c, t).valid(),
        s.links_consistent() ==> s.linked(c, t).links_consistent(),
        s.refs_live() ==> s.linked(c, t).refs_live(),
{
    let now = s.linked(c, t);
    if s.refs_live() {
        assert forall|x: FlashcardKey, k: TopicKey|
            now.cards.contains_key(x) && #[trigger] now.cards[x].topics.contains(
                k,
            ) implies now.topics.contains_key(k) by {
            lemma_push_contains(s.cards[c].topics, t, k);
            assert(x != c ==> s.cards[x].topics.contains(k));
        }
    }
    assert(now.topics.dom() =~= s.topics.dom());
    assert(now.cards.dom() =~= s.cards.dom());
    assert forall|k: TopicKey, x: FlashcardKey|
        now.topics.contains_key(k) && #[trigger] now.topics[k].qna.contains(x) implies (
    s.topics[k].qna.contains(x) || now.cards.contains_key(x)) by {
        lemma_push_contains(s.topics[t].qna, c, x);
    }
    now.lemma_same_keys_valid(s);
    if s.links_consistent() {
        assert forall|k: TopicKey, x: FlashcardKey|
            now.topics.contains_key(k) && now.cards.contains_key(x) implies (
        now.topics[k].qna.contains(x) <==> now.cards[x].topics.contains(k)) by {
            assert(s.topics[k].qna.contains(x) <==> s.cards[x].topics.contains(k));
            lemma_push_contains(s.topics[t].qna, c, x);
            lemma_push_contains(s.cards[c].topics, t, k);
        }
    }
}

/// Taking the links between a live flashcard and a live topic out keeps the
/// repository valid, keeps the links consistent if they were, and leaves
/// neither side listing the other.
pub proof fn law_unlink_keeps_links(s: StudyView, c: FlashcardKey, t: TopicKey)
    requires
        s.valid(),
        s.cards.contains_key(c),
        s.topics.contains_key(t),
    ensures
        s.unlinked(c, t).valid(),
        s.links_consistent() ==> s.unlinked(c, t).links_consistent(),
        !s.unlinked(c, t).topics[t].qna.contains(c),
        !s.unlinked(c, t).cards[c].topics.contains(t),
        s.refs_live() ==> s.unlinked(c, t).refs_live(),
{
    let now = s.unlinked(c, t);
    if s.refs_live() {
        assert forall|x: FlashcardKey, k: TopicKey|
            now.cards.contains_key(x) && #[trigger] now.cards[x].topics.contains(
                k,
            ) implies now.topics.contains_key(k) by {
            lemma_filter_contains(s.cards[c].topics, other_than(t), k);
            assert(s.cards[x].topics.contains(k));
        }
    }
    assert(now.topics.dom() =~= s.topics.dom());
    assert(now.cards.dom() =~= s.cards.dom());
    assert forall|k: TopicKey, x: FlashcardKey|
        now.topics.contains_key(k) && #[trigger] now.topics[k].qna.contains(x) implies (
    s.topics[k].qna.contains(x) || now.cards.contains_key(x)) by {
        lemma_filter_contains(s.topics[t].qna, other_than(c), x);
    }
    now.lemma_same_keys_valid(s);
    lemma_filter_contains(s.topics[t].qna, other_than(c), c);
    lemma_filter_contains(s.cards[c].topics, other_than(t), t);
    if s.links_consistent() {
        assert forall|k: TopicKey, x: FlashcardKey|
            now.topics.contains_key(k) && now.cards.contains_key(x) implies (
        now.topics[k].qna.contains(x) <==> now.cards[x].topics.contains(k)) by {
            assert(s.topics[k].qna.contains(x) <==> s.cards[x].topics.contains(k));
            lemma_filter_contains(s.topics[t].qna, other_than(c), x);
            lemma_filter_contains(s.cards[c].topics, other_than(t), k);
        }
    }
}

/// Flipping the `enabled` flag of a live topic keeps the repository valid and
/// the links as they were.
pub proof fn law_toggle_keeps_links(s: StudyView, t: TopicKey)
    requires
        s.valid(),
        s.topics.contains_key(t),
    ensures
        s.toggled(t).valid(),
        s.links_consistent() ==> s.toggled(t).links_consistent(),
        s.refs_live() ==> s.toggled(t).refs_live(),
{
    let now = s.toggled(t);
    if s.refs_live() {
        assert forall|x: FlashcardKey, k: TopicKey|
            now.cards.contains_key(x) && #[trigger] now.cards[x].topics.contains(
                k,
            ) implies now.topics.contains_key(k) by {
            assert(s.cards[x].topics.contains(k));
        }
    }
    assert(now.topics.dom() =~= s.topics.dom());
    now.lemma_same_keys_valid(s);
    if s.links_consistent() {
        assert forall|k: TopicKey, x: FlashcardKey|
            now.topics.contains_key(k) && now.cards.contains_key(x) implies (
        now.topics[k].qna.contains(x) <==> now.cards[x].topics.contains(k)) by {
            assert(s.topics[k].qna.contains(x) <==> s.cards[x].topics.contains(k));
        }
    }
}

/// Rewriting a live flashcard without touching its topic list keeps the
/// repository valid and the links as they were.
pub proof fn law_rewrite_keeps_links(s: StudyView, c: FlashcardKey, card: FlashcardView)
    requires
        s.valid(),
        s.cards.contains_key(c),
        card.topics == s.cards[c].topics,
    ensures
        s.with_card(c, card).valid(),
        s.links_consistent() ==> s.with_card(c, card).links_consistent(),
        s.refs_live() ==> s.with_card(c, card).refs_live(),
{
    let now = s.with_card(c, card);
    if s.refs_live() {
        assert forall|x: FlashcardKey, k: TopicKey|
            now.cards.contains_key(x) && #[trigger] now.cards[x].topics.contains(
                k,
            ) implies now.topics.contains_key(k) by {
            assert(s.cards[x].topics.contains(k));
        }
    }
    assert(now.cards.dom() =~= s.cards.dom());
    now.lemma_same_keys_valid(s);
    if s.links_consistent() {
        assert forall|k: TopicKey, x: FlashcardKey|
            now.topics.contains_key(k) && now.cards.contains_key(x) implies (
        now.topics[k].qna.contains(x) <==> now.cards[x].topics.contains(k)) by {
            assert(s.topics[k].qna.contains(x) <==> s.cards[x].topics.contains(k));
        }
    }
}

/// A new topic keeps the repository valid. It keeps the links consistent
/// unless some flashcard still refers to the new key, left over from a
/// topic that was deleted; while no flashcard refers to a topic that is not
/// live, that cannot be.
pub proof fn law_new_topic_keeps_links(
    s: StudyView,
    key: TopicKey,
    content: Seq<char>,
    tag: TopicTag,
)
    requires
        s.valid(),
        !s.topics.contains_key(key),
    ensures
        s.with_new_topic(key, content, tag).valid(),
        s.links_consistent() && !s.referenced(key) ==> s.with_new_topic(
            key,
            content,
            tag,
        ).links_consistent(),
        s.refs_live() ==> !s.referenced(key) && s.with_new_topic(key, content, tag).refs_live(),
{
    let now = s.with_new_topic(key, content, tag);
    if s.refs_live() {
        assert forall|x: FlashcardKey, k: TopicKey|
            now.cards.contains_key(x) && #[trigger] now.cards[x].topics.contains(
                k,
            ) implies now.topics.contains_key(k) by {
            assert(s.cards[x].topics.contains(k));
        }
    }
    lemma_push_no_duplicates(s.topic_order, key);
    assert forall|k: TopicKey| now.topic_order.contains(k) <==> now.topics.contains_key(k) by {
        lemma_push_contains(s.topic_order, key, k);
    }
    assert forall|t: TopicKey, i: int|
        now.topics.contains_key(t) && 0 <= i < now.topics[t].qna.len()
            implies now.cards.contains_key(#[trigger] now.topics[t].qna[i]) by {
        assert(s.cards.contains_key(s.topics[t].qna[i]));
    }
    if s.links_consistent() && !s.referenced(key) {
        assert forall|t: TopicKey, c: FlashcardKey|
            now.topics.contains_key(t) && now.cards.contains_key(c) implies (
        now.topics[t].qna.contains(c) <==> now.cards[c].topics.contains(t)) by {
            if t == key {
                assert(!s.cards[c].topics.contains(t));
            } else {
                assert(s.topics[t].qna.contains(c) <==> s.cards[c].topics.contains(t));
            }
        }
    }
}

/// Deleting topics by name keeps the repository valid and the links
/// consistent if they were; no flashcard changes.
pub proof fn law_delete_keeps_links(s: StudyView, content: Seq<char>)
    requires
        s.valid(),
    ensures
        s.without_topics_named(content).valid(),
        s.without_topics_named(content).cards == s.cards,
        s.links_consistent() ==> s.without_topics_named(content).links_consistent(),
{
    let now = s.without_topics_named(content);
    lemma_filter_no_duplicates(s.topic_order, s.spared(content));
    assert forall|k: TopicKey| now.topic_order.contains(k) <==> now.topics.contains_key(k) by {
        lemma_filter_contains(s.topic_order, s.spared(content), k);
    }
    assert forall|t: TopicKey, j: int|
        now.topics.contains_key(t) && 0 <= j < now.topics[t].qna.len()
            implies now.cards.contains_key(#[trigger] now.topics[t].qna[j]) by {
        assert(s.cards.contains_key(s.topics[t].qna[j]));
    }
    if s.links_consistent() {
        assert forall|t: TopicKey, c: FlashcardKey|
            now.topics.contains_key(t) && now.cards.contains_key(c) implies (
        now.topics[t].qna.contains(c) <==> now.cards[c].topics.contains(t)) by {
            assert(s.topics[t].qna.contains(c) <==> s.cards[c].topics.contains(t));
        }
    }
}

/// Filing a flashcard under a list of topics and then under one more is
/// filing it under the longer list.
pub proof fn lemma_link_each_step(
    s: StudyView,
    c: FlashcardKey,
    under: Seq<TopicKey>,
    t: TopicKey,
)
    requires
        s.cards.contains_key(c),
        s.topics.contains_key(t),
    ensures
        s.linked_each(c, under.push(t)) == s.linked_each(c, under).linked(c, t),
{
    let mid = s.linked_each(c, under);
    let end = mid.linked(c, t);
    let goal = s.linked_each(c, under.push(t));
    assert((s.cards[c].topics + under).push(t) =~= s.cards[c].topics + under.push(t));
    assert(end.cards =~= goal.cards);
    assert forall|k: TopicKey| goal.topics.contains_key(k) implies #[trigger] goal.topics[k]
        == end.topics[k] by {
        under.lemma_filter_push(t, same_as(k));
        let n = under.filter(same_as(k)).len();
        if k == t {
            assert(s.topics[k].qna + Seq::new(n + 1, |i: int| c) =~= (s.topics[k].qna + Seq::new(
                n,
                |i: int| c,
            )).push(c));
        }
    }
    assert(end.topics =~= goal.topics);
}

/// Filing a flashcard under no topic leaves every topic as it was.
pub proof fn lemma_topics_filed_none(topics: Map<TopicKey, TopicView>, c: FlashcardKey)
    ensures
        topics_filed(topics, Seq::empty(), c) == topics,
{
    reveal(Seq::filter);
    let goal = topics_filed(topics, Seq::empty(), c);
    assert forall|k: TopicKey| goal.contains_key(k) implies #[trigger] goal[k] == topics[k] by {
        assert(Seq::<TopicKey>::empty().filter(same_as(k)).len() == 0);
        assert(topics[k].qna + Seq::new(0, |i: int| c) =~= topics[k].qna);
    }
    assert(goal =~= topics);
}

/// Filing a flashcard under no topic changes nothing.
pub proof fn lemma_link_each_none(s: StudyView, c: FlashcardKey)
    requires
        s.cards.contains_key(c),
    ensures
        s.linked_each(c, Seq::empty()) == s,
{
    lemma_topics_filed_none(s.topics, c);
    assert(s.cards[c].topics + Seq::<TopicKey>::empty() =~= s.cards[c].topics);
    assert(s.linked_each(c, Seq::empty()).cards =~= s.cards);
}

/// Taking a flashcard off a list of topics and then off one more is taking
/// it off the longer list.
pub proof fn lemma_unlink_each_step(
    s: StudyView,
    c: FlashcardKey,
    under: Seq<TopicKey>,
    t: TopicKey,
)
    requires
        s.cards.contains_key(c),
        s.topics.contains_key(t),
    ensures
        s.unlinked_each(c, under.push(t)) == s.unlinked_each(c, under).unlinked(c, t),
{
    let mid = s.unlinked_each(c, under);
    let end = mid.unlinked(c, t);
    let goal = s.unlinked_each(c, under.push(t));
    assert forall|x: TopicKey| #[trigger] (none_of(under.push(t)))(x) == ((none_of(under))(x) && (
    other_than(t))(x)) by {
        lemma_push_contains(under, t, x);
    }
    lemma_filter_twice(
        s.cards[c].topics,
        none_of(under),
        other_than(t),
        none_of(under.push(t)),
    );
    assert(end.cards =~= goal.cards);
    assert forall|k: TopicKey| goal.topics.contains_key(k) implies #[trigger] goal.topics[k]
        == end.topics[k] by {
        lemma_push_contains(under, t, k);
        if k == t && under.contains(t) {
            lemma_filter_twice(
                s.topics[t].qna,
                other_than(c),
                other_than(c),
                other_than(c),
            );
        }
    }
    assert(end.topics =~= goal.topics);
}

/// Taking a flashcard off no topic changes nothing.
pub proof fn lemma_unlink_each_none(s: StudyView, c: FlashcardKey)
    requires
        s.cards.contains_key(c),
    ensures
        s.unlinked_each(c, Seq::empty()) == s,
{
    let goal = s.unlinked_each(c, Seq::empty());
    let all = |x: TopicKey| true;
    assert forall|i: int| 0 <= i < s.cards[c].topics.len() implies (none_of(
        Seq::<TopicKey>::empty(),
    ))(#[trigger] s.cards[c].topics[i]) == all(s.cards[c].topics[i]) by {}
    lemma_filter_agree(
        s.cards[c].topics,
        none_of(Seq::<TopicKey>::empty()),
        all,
    );
    lemma_filter_all(s.cards[c].topics, all);
    assert(goal.cards =~= s.cards);
    assert(goal.topics =~= s.topics);
}

/// Filing a live flashcard under live topics keeps the repository valid,
/// keeps the links consistent if they were, and neither adds nor removes a
/// topic or a flashcard.
pub proof fn law_link_each_keeps_links(s: StudyView, c: FlashcardKey, under: Seq<TopicKey>)
    requires
        s.valid(),
        s.cards.contains_key(c),
        forall|i: int| 0 <= i < under.len() ==> s.topics.contains_key(#[trigger] under[i]),
    ensures
        s.linked_each(c, under).valid(),
        s.linked_each(c, under).topics.dom() == s.topics.dom(),
        s.linked_each(c, under).cards.dom() == s.cards.dom(),
        s.links_consistent() ==> s.linked_each(c, under).links_consistent(),
        s.refs_live() ==> s.linked_each(c, under).refs_live(),
    decreases under.len(),
{
    if under.len() == 0 {
        assert(under =~= Seq::empty());
        lemma_link_each_none(s, c);
    } else {
        let front = under.drop_last();
        assert(front.push(under.last()) =~= under);
        assert(s.topics.contains_key(under[under.len() - 1]));
        law_link_each_keeps_links(s, c, front);
        lemma_link_each_step(s, c, front, under.last());
        let mid = s.linked_each(c, front);
        law_link_keeps_links(mid, c, under.last());
        assert(mid.linked(c, under.last()).topics.dom() =~= s.topics.dom());
        assert(mid.linked(c, under.last()).cards.dom() =~= s.cards.dom());
    }
}

/// Taking a live flashcard off live topics keeps the repository valid,
/// keeps the links consistent if they were, and neither adds nor removes a
/// topic or a flashcard.
pub proof fn law_unlink_each_keeps_links(s: StudyView, c: FlashcardKey, under: Seq<TopicKey>)
    requires
        s.valid(),
        s.cards.contains_key(c),
        forall|i: int| 0 <= i < under.len() ==> s.topics.contains_key(#[trigger] under[i]),
    ensures
        s.unlinked_each(c, under).valid(),
        s.unlinked_each(c, under).topics.dom() == s.topics.dom(),
        s.unlinked_each(c, under).cards.dom() == s.cards.dom(),
        s.unlinked_each(c, under).topic_order == s.topic_order,
        s.links_consistent() ==> s.unlinked_each(c, under).links_consistent(),
        s.refs_live() ==> s.unlinked_each(c, under).refs_live(),
    decreases under.len(),
{
    if under.len() == 0 {
        assert(under =~= Seq::empty());
        lemma_unlink_each_none(s, c);
    } else {
        let front = under.drop_last();
        assert(front.push(under.last()) =~= under);
        assert(s.topics.contains_key(under[under.len() - 1]));
        law_unlink_each_keeps_links(s, c, front);
        lemma_unlink_each_step(s, c, front, under.last());
        let mid = s.unlinked_each(c, front);
        law_unlink_keeps_links(mid, c, under.last());
        assert(mid.unlinked(c, under.last()).topics.dom() =~= s.topics.dom());
        assert(mid.unlinked(c, under.last()).cards.dom() =~= s.cards.dom());
    }
}

/// A new flashcard filed under live topics keeps the repository valid, and
/// keeps the links consistent if they were.
pub proof fn law_new_card_keeps_links(
    s: StudyView,
    key: FlashcardKey,
    question: Seq<char>,
    answer: Seq<char>,
    under: Seq<TopicKey>,
)
    requires
        s.valid(),
        !s.cards.contains_key(key),
        forall|i: int| 0 <= i < under.len() ==> s.topics.contains_key(#[trigger] under[i]),
    ensures
        s.with_new_card(key, question, answer, under).valid(),
        s.with_new_card(key, question, answer, under) == s.with_new_card(
            key,
            question,
            answer,
            Seq::empty(),
        ).linked_each(key, under),
        s.links_consistent() ==> s.with_new_card(key, question, answer, under).links_consistent(),
        s.refs_live() ==> s.with_new_card(key, question, answer, under).refs_live(),
{
    let bare = s.with_new_card(key, question, answer, Seq::empty());
    if s.refs_live() {
        assert forall|x: FlashcardKey, k: TopicKey|
            bare.cards.contains_key(x) && #[trigger] bare.cards[x].topics.contains(
                k,
            ) implies bare.topics.contains_key(k) by {
            if x != key {
                assert(s.cards[x].topics.contains(k));
            }
        }
    }
    lemma_topics_filed_none(s.topics, key);
    lemma_push_no_duplicates(s.card_order, key);
    assert forall|k: FlashcardKey| bare.card_order.contains(k) <==> bare.cards.contains_key(k) by {
        lemma_push_contains(s.card_order, key, k);
    }
    assert forall|t: TopicKey, i: int|
        bare.topics.contains_key(t) && 0 <= i < bare.topics[t].qna.len()
            implies bare.cards.contains_key(#[trigger] bare.topics[t].qna[i]) by {
        assert(s.cards.contains_key(s.topics[t].qna[i]));
    }
    if s.links_consistent() {
        assert forall|t: TopicKey, c: FlashcardKey|
            bare.topics.contains_key(t) && bare.cards.contains_key(c) implies (
        bare.topics[t].qna.contains(c) <==> bare.cards[c].topics.contains(t)) by {
            if c == key {
                if s.topics[t].qna.contains(c) {
                    let i = choose|i: int| 0 <= i < s.topics[t].qna.len() && s.topics[t].qna[i] == c;
                    assert(s.cards.contains_key(s.topics[t].qna[i]));
                }
            } else {
                assert(s.topics[t].qna.contains(c) <==> s.cards[c].topics.contains(t));
            }
        }
    }
    law_link_each_keeps_links(bare, key, under);
    assert(Seq::<TopicKey>::empty() + under =~= under);
    assert(bare.linked_each(key, under).cards =~= s.with_new_card(
        key,
        question,
        answer,
        under,
    ).cards);
}

/// One step that changes which flashcard is filed under which topic.
pub enum LinkOp {
    /// File a flashcard under a topic.
    Link(FlashcardKey, TopicKey),
    /// Take a flashcard off a topic.
    Unlink(FlashcardKey, TopicKey),
    /// File a flashcard under every topic that one of the names selects.
    LinkByNames(FlashcardKey, Seq<Seq<char>>),
    /// Take a flashcard off every topic whose name agrees with the name.
    UnlinkByName(FlashcardKey, Seq<char>),
    /// Create a flashcard under the key, with a question and an answer, and
    /// file it under every topic that one of the names selects.
    NewCard(FlashcardKey, Seq<char>, Seq<char>, Seq<Seq<char>>),
    /// Create a topic under the key, with a name and a tag.
    NewTopic(TopicKey, Seq<char>, TopicTag),
}

/// The repository after one such step. A step that names a flashcard or a
/// topic that is not live, or creates one under a key that is, changes
/// nothing.
pub open spec fn after_link_op(s: StudyView, op: LinkOp) -> StudyView {
    match op {
        LinkOp::Link(c, t) => if s.cards.contains_key(c) && s.topics.contains_key(t) {
            s.linked(c, t)
        } else {
            s
        },
        LinkOp::Unlink(c, t) => if s.cards.contains_key(c) && s.topics.contains_key(t) {
            s.unlinked(c, t)
        } else {
            s
        },
        LinkOp::LinkByNames(c, names) => if s.cards.contains_key(c) {
            s.linked_each(c, s.resolve(names))
        } else {
            s
        },
        LinkOp::UnlinkByName(c, name) => if s.cards.contains_key(c) {
            s.unlinked_each(c, s.matching_topics(name))
        } else {
            s
        },
        LinkOp::NewCard(key, question, answer, names) => if !s.cards.contains_key(key) {
            s.with_new_card(key, question, answer, s.resolve(names))
        } else {
            s
        },
        LinkOp::NewTopic(key, content, tag) => if !s.topics.contains_key(key) {
            s.with_new_topic(key, content, tag)
        } else {
            s
        },
    }
}

/// The repository after a sequence of such steps.
pub open spec fn after_link_ops(s: StudyView, ops: Seq<LinkOp>) -> StudyView
    decreases ops.len(),
{
    if ops.len() == 0 {
        s
    } else {
        after_link_op(after_link_ops(s, ops.drop_last()), ops.last())
    }
}

/// After any sequence of steps that create topics and flashcards, file
/// flashcards under topics or take them off, a flashcard is listed by a
/// topic exactly when the topic is listed by the flashcard, provided that
/// held at the start and no flashcard referred to a topic that was not live.
/// An empty repository is such a start.
pub proof fn law_links_stay_consistent_while_refs_live(s: StudyView, ops: Seq<LinkOp>)
    requires
        s.valid(),
        s.links_consistent(),
        s.refs_live(),
    ensures
        after_link_ops(s, ops).valid(),
        after_link_ops(s, ops).links_consistent(),
        after_link_ops(s, ops).refs_live(),
    decreases ops.len(),
{
    if ops.len() > 0 {
        law_links_stay_consistent_while_refs_live(s, ops.drop_last());
        let mid = after_link_ops(s, ops.drop_last());
        match ops.last() {
            LinkOp::Link(c, t) => {
                if mid.cards.contains_key(c) && mid.topics.contains_key(t) {
                    law_link_keeps_links(mid, c, t);
                }
            },
            LinkOp::Unlink(c, t) => {
                if mid.cards.contains_key(c) && mid.topics.contains_key(t) {
                    law_unlink_keeps_links(mid, c, t);
                }
            },
            LinkOp::LinkByNames(c, names) => {
                if mid.cards.contains_key(c) {
                    mid.lemma_resolved_live(names);
                    law_link_each_keeps_links(mid, c, mid.resolve(names));
                }
            },
            LinkOp::UnlinkByName(c, name) => {
                if mid.cards.contains_key(c) {
                    mid.lemma_matching_live(name);
                    law_unlink_each_keeps_links(mid, c, mid.matching_topics(name));
                }
            },
            LinkOp::NewCard(key, question, answer, names) => {
                if !mid.cards.contains_key(key) {
                    mid.lemma_resolved_live(names);
                    law_new_card_keeps_links(mid, key, question, answer, mid.resolve(names));
                }
            },
            LinkOp::NewTopic(key, content, tag) => {
                if !mid.topics.contains_key(key) {
                    law_new_topic_keeps_links(mid, key, content, tag);
                }
            },
        }
    }
}

/// After any sequence of steps that file flashcards under topics or take
/// them off, a flashcard is listed by a live topic exactly when the topic
/// is listed by the flashcard, provided that held at the start. Flashcards
/// may refer to topics that are no longer live, as long as no topic is
/// created.
pub proof fn law_links_stay_consistent(s: StudyView, ops: Seq<LinkOp>)
    requires
        s.valid(),
        s.links_consistent(),
        forall|i: int| 0 <= i < ops.len() ==> !(#[trigger] ops[i] is NewTopic),
    ensures
        after_link_ops(s, ops).valid(),
        after_link_ops(s, ops).links_consistent(),
    decreases ops.len(),
{
    if ops.len() > 0 {
        let front = ops.drop_last();
        assert forall|i: int| 0 <= i < front.len() implies !(#[trigger] front[i] is NewTopic) by {
            assert(front[i] == ops[i]);
        }
        law_links_stay_consistent(s, front);
        let mid = after_link_ops(s, front);
        assert(!(ops[ops.len() - 1] is NewTopic));
        match ops.last() {
            LinkOp::Link(c, t) => {
                if mid.cards.contains_key(c) && mid.topics.contains_key(t) {
                    law_link_keeps_links(mid, c, t);
                }
            },
            LinkOp::Unlink(c, t) => {
                if mid.cards.contains_key(c) && mid.topics.contains_key(t) {
                    law_unlink_keeps_links(mid, c, t);
                }
            },
            LinkOp::LinkByNames(c, names) => {
                if mid.cards.contains_key(c) {
                    mid.lemma_resolved_live(names);
                    law_link_each_keeps_links(mid, c, mid.resolve(names));
                }
            },
            LinkOp::UnlinkByName(c, name) => {
                if mid.cards.contains_key(c) {
                    mid.lemma_matching_live(name);
                    law_unlink_each_keeps_links(mid, c, mid.matching_topics(name));
                }
            },
            LinkOp::NewCard(key, question, answer, names) => {
                if !mid.cards.contains_key(key) {
                    mid.lemma_resolved_live(names);
                    law_new_card_keeps_links(mid, key, question, answer, mid.resolve(names));
                }
            },
            LinkOp::NewTopic(key, content, tag) => {},
        }
    }
}

/// A flashcard is chosen for a run exactly when it is live and at least one
/// of the topics it lists is live, enabled and tagged for quizzing. Each
/// chosen flashcard is chosen once, and the queue asks them in order.
pub proof fn law_selected_iff_eligible(s: StudyView, c: FlashcardKey)
    requires
        s.valid(),
    ensures
        started_run(s).cards.contains(c) <==> (s.cards.contains_key(c) && exists|i: int|
            0 <= i < s.cards[c].topics.len() && s.topics.contains_key(
                #[trigger] s.cards[c].topics[i],
            ) && s.topics[s.cards[c].topics[i]].enabled && s.topics[s.cards[c].topics[i]].topic_tag
                == TopicTag::Quiz),
        started_run(s).cards.no_duplicates(),
        started_run(s).queue.len() == started_run(s).cards.len(),
        forall|i: int|
            0 <= i < started_run(s).cards.len() ==> (#[trigger] started_run(s).queue[i])
                == question_of(s.cards[started_run(s).cards[i]]),
{
    lemma_filter_contains(s.card_order, s.eligibility(), c);
    lemma_filter_no_duplicates(s.card_order, s.eligibility());
    if s.cards.contains_key(c) {
        let refs = s.cards[c].topics;
        if s.qualifies(refs) {
            let i = choose|i: int| 0 <= i < refs.len() && s.topic_open(#[trigger] refs[i]);
            assert(s.topics.contains_key(refs[i]));
        }
        if exists|i: int|
            0 <= i < refs.len() && s.topics.contains_key(#[trigger] refs[i])
                && s.topics[refs[i]].enabled && s.topics[refs[i]].topic_tag == TopicTag::Quiz {
            let i = choose|i: int|
                0 <= i < refs.len() && s.topics.contains_key(#[trigger] refs[i])
                    && s.topics[refs[i]].enabled && s.topics[refs[i]].topic_tag == TopicTag::Quiz;
            assert(s.topic_open(refs[i]));
        }
    }
}

/// Two runs started on repositories with the same topics and the same
/// flashcards in the same order are equal: the same flashcards, the same
/// questions, in the same order. What is being edited does not matter.
pub proof fn law_start_is_deterministic(a: StudyView, b: StudyView)
    requires
        a.topics == b.topics,
        a.cards == b.cards,
        a.card_order == b.card_order,
    ensures
        started_run(a) == started_run(b),
{
    assert forall|i: int| 0 <= i < a.card_order.len() implies (a.eligibility())(
        #[trigger] a.card_order[i],
    ) == (b.eligibility())(a.card_order[i]) by {
        let c = a.card_order[i];
        assert(a.qualifies(a.cards[c].topics) == b.qualifies(b.cards[c].topics)) by {
            let refs = a.cards[c].topics;
            if a.qualifies(refs) {
                let j = choose|j: int| 0 <= j < refs.len() && a.topic_open(#[trigger] refs[j]);
                assert(b.topic_open(refs[j]));
            }
            if b.qualifies(refs) {
                let j = choose|j: int| 0 <= j < refs.len() && b.topic_open(#[trigger] refs[j]);
                assert(a.topic_open(refs[j]));
            }
        }
    }
    lemma_filter_agree(a.card_order, a.eligibility(), b.eligibility());
    assert(a.questions(a.selected_cards()) =~= b.questions(b.selected_cards()));
}

/// After `k` answers that count, the first `k` questions of a queue are
/// gone and the others are left as they were.
pub proof fn lemma_right_answers_skip(queue: Seq<QuestionView>, answers: Seq<Seq<char>>, k: int)
    requires
        answers.len() == queue.len(),
        forall|i: int| 0 <= i < queue.len() ==> answers_agree(queue[i].answer, #[trigger] answers[i]),
        0 <= k <= queue.len(),
    ensures
        after_answers(queue, answers.take(k)) == queue.skip(k),
    decreases k,
{
    if k == 0 {
        assert(queue.skip(0) =~= queue);
    } else {
        lemma_right_answers_skip(queue, answers, k - 1);
        assert(answers.take(k).drop_last() =~= answers.take(k - 1));
        assert(answers.take(k).last() == answers[k - 1]);
        let left = queue.skip(k - 1);
        assert(left[0] == queue[k - 1]);
        assert(left.drop_first() =~= queue.skip(k));
    }
}

/// Answering each question of a queue in turn with an answer that counts
/// empties the queue in exactly as many answers as there are questions:
/// after `k` of them, `k` questions fewer are left.
pub proof fn law_right_answers_drain(queue: Seq<QuestionView>, answers: Seq<Seq<char>>)
    requires
        answers.len() == queue.len(),
        forall|i: int| 0 <= i < queue.len() ==> answers_agree(queue[i].answer, #[trigger] answers[i]),
    ensures
        after_answers(queue, answers).len() == 0,
        forall|k: int|
            0 <= k <= queue.len() ==> (#[trigger] after_answers(queue, answers.take(k))).len()
                == queue.len() - k,
{
    lemma_right_answers_skip(queue, answers, queue.len() as int);
    assert(answers.take(queue.len() as int) =~= answers);
    assert forall|k: int| 0 <= k <= queue.len() implies (#[trigger] after_answers(
        queue,
        answers.take(k),
    )).len() == queue.len() - k by {
        lemma_right_answers_skip(queue, answers, k);
    }
}

/// A run that was just started is emptied by answering each of its questions
/// in turn with an answer that counts, in exactly as many answers as
/// flashcards were chosen for it.
pub proof fn law_started_run_drains(s: StudyView, answers: Seq<Seq<char>>)
    requires
        s.valid(),
        answers.len() == started_run(s).cards.len(),
        forall|i: int|
            0 <= i < answers.len() ==> answers_agree(
                started_run(s).queue[i].answer,
                #[trigger] answers[i],
            ),
    ensures
        after_answers(started_run(s).queue, answers).len() == 0,
        forall|k: int|
            0 <= k < answers.len() ==> (#[trigger] after_answers(
                started_run(s).queue,
                answers.take(k),
            )).len() > 0,
{
    let queue = started_run(s).queue;
    law_right_answers_drain(queue, answers);
    assert forall|k: int| 0 <= k < answers.len() implies (#[trigger] after_answers(
        queue,
        answers.take(k),
    )).len() > 0 by {
        lemma_right_answers_skip(queue, answers, k);
    }
}

/// An answer that does not count moves the front question to the back: the
/// queue keeps its length and its other questions move up by one.
pub proof fn law_wrong_answer_requeues(queue: Seq<QuestionView>, given: Seq<char>)
    requires
        queue.len() > 0,
        !answers_agree(queue[0].answer, given),
    ensures
        after_answer(queue, given).len() == queue.len(),
        after_answer(queue, given).last() == queue[0],
        forall|i: int|
            0 <= i < queue.len() - 1 ==> #[trigger] after_answer(queue, given)[i] == queue[i + 1],
{
}

/// An answer that counts removes the front question and nothing else.
pub proof fn law_right_answer_removes(queue: Seq<QuestionView>, given: Seq<char>)
    requires
        queue.len() > 0,
        answers_agree(queue[0].answer, given),
    ensures
        after_answer(queue, given).len() == queue.len() - 1,
        forall|i: int|
            0 <= i < queue.len() - 1 ==> #[trigger] after_answer(queue, given)[i] == queue[i + 1],
{
}

} // verus!
