//! The mathematical state of a study repository and of a quiz run, and the
//! rules that are stated over it: which topics a name selects, which
//! flashcards a quiz asks, and what an answer does to the queue.

use crate::keys::{none_of, other_than, same_as, FlashcardKey, TopicKey};
use crate::model::{question_of, FlashcardView, Question, QuestionView, TopicTag, TopicView};
use crate::seq_facts::lemma_filter_contains;
use crate::text::{answers_agree, names_agree, normalized};
use vstd::prelude::*;

verus! {

/// A study repository as a mathematical value.
pub struct StudyView {
    /// The live topics.
    pub topics: Map<TopicKey, TopicView>,
    /// The keys of the live topics, oldest first.
    pub topic_order: Seq<TopicKey>,
    /// The live flashcards.
    pub cards: Map<FlashcardKey, FlashcardView>,
    /// The keys of the live flashcards, oldest first.
    pub card_order: Seq<FlashcardKey>,
    /// The topic being edited, if any.
    pub current_topic: Option<TopicKey>,
    /// The flashcard being edited, if any.
    pub current_card: Option<FlashcardKey>,
    /// The text typed so far for a topic that is not yet created.
    pub staging_topic: Seq<char>,
}

impl StudyView {
    /// The two orders list exactly the live keys, each once; topics refer to
    /// live flashcards only; and the flashcard being edited is live.
    pub open spec fn valid(self) -> bool {
        &&& self.topic_order.no_duplicates()
        &&& forall|k: TopicKey|
            #![trigger self.topic_order.contains(k)]
            #![trigger self.topics.contains_key(k)]
            self.topic_order.contains(k) <==> self.topics.contains_key(k)
        &&& self.card_order.no_duplicates()
        &&& forall|k: FlashcardKey|
            #![trigger self.card_order.contains(k)]
            #![trigger self.cards.contains_key(k)]
            self.card_order.contains(k) <==> self.cards.contains_key(k)
        &&& forall|t: TopicKey, i: int|
            self.topics.contains_key(t) && 0 <= i < self.topics[t].qna.len()
                ==> self.cards.contains_key(#[trigger] self.topics[t].qna[i])
        &&& self.current_card matches Some(c) ==> self.cards.contains_key(c)
    }

    /// Topic `t` is live, enabled and tagged for quizzing.
    pub open spec fn topic_open(self, t: TopicKey) -> bool {
        &&& self.topics.contains_key(t)
        &&& self.topics[t].enabled
        &&& self.topics[t].topic_tag == TopicTag::Quiz
    }

    /// At least one of the referenced topics is open. Keys that name no live
    /// topic count for nothing.
    pub open spec fn qualifies(self, refs: Seq<TopicKey>) -> bool {
        exists|i: int| 0 <= i < refs.len() && self.topic_open(#[trigger] refs[i])
    }

    /// Flashcard `c` is live and filed under at least one open topic.
    pub open spec fn eligible(self, c: FlashcardKey) -> bool {
        self.cards.contains_key(c) && self.qualifies(self.cards[c].topics)
    }

    /// The test that picks the eligible flashcards.
    pub open spec fn eligibility(self) -> spec_fn(FlashcardKey) -> bool {
        |c: FlashcardKey| self.eligible(c)
    }

    /// The eligible flashcards, oldest first.
    pub open spec fn selected_cards(self) -> Seq<FlashcardKey> {
        self.card_order.filter(self.eligibility())
    }

    /// The queue entries that ask the given flashcards, in the same order.
    pub open spec fn questions(self, keys: Seq<FlashcardKey>) -> Seq<QuestionView> {
        keys.map_values(|c: FlashcardKey| question_of(self.cards[c]))
    }

    /// Every link between a live topic and a live flashcard is recorded on
    /// both sides.
    pub open spec fn links_consistent(self) -> bool {
        forall|t: TopicKey, c: FlashcardKey|
            #![trigger self.topics[t], self.cards[c]]
            self.topics.contains_key(t) && self.cards.contains_key(c) ==> (self.topics[t].qna.contains(
                c,
            ) <==> self.cards[c].topics.contains(t))
    }

    /// No flashcard refers to a topic that is not live. This holds until a
    /// topic is deleted that a flashcard is filed under.
    pub open spec fn refs_live(self) -> bool {
        forall|c: FlashcardKey, t: TopicKey|
            self.cards.contains_key(c) && #[trigger] self.cards[c].topics.contains(t)
                ==> self.topics.contains_key(t)
    }

    /// Some flashcard refers to `t`.
    pub open spec fn referenced(self, t: TopicKey) -> bool {
        exists|c: FlashcardKey|
            self.cards.contains_key(c) && (#[trigger] self.cards[c]).topics.contains(t)
    }

    /// The test that picks the topics whose name agrees with `name`.
    pub open spec fn named(self, name: Seq<char>) -> spec_fn(TopicKey) -> bool {
        |t: TopicKey| names_agree(self.topics[t].content, name)
    }

    /// The live topics whose name agrees with `name`, oldest first.
    pub open spec fn matching_topics(self, name: Seq<char>) -> Seq<TopicKey> {
        self.topic_order.filter(self.named(name))
    }

    /// The topics that a list of names selects: for each name in turn, all
    /// topics that match it. A topic matched by two names occurs twice.
    pub open spec fn resolve(self, names: Seq<Seq<char>>) -> Seq<TopicKey>
        decreases names.len(),
    {
        if names.len() == 0 {
            Seq::empty()
        } else {
            self.resolve(names.drop_last()) + self.matching_topics(names.last())
        }
    }

    /// The repository after a topic was created under `key`: disabled, with
    /// no flashcards, youngest of all topics.
    pub open spec fn with_new_topic(self, key: TopicKey, content: Seq<char>, tag: TopicTag)
        -> StudyView {
        StudyView {
            topics: self.topics.insert(
                key,
                TopicView { content, topic_tag: tag, enabled: false, qna: Seq::empty() },
            ),
            topic_order: self.topic_order.push(key),
            ..self
        }
    }

    /// The repository after the `enabled` flag of topic `t` was flipped.
    pub open spec fn toggled(self, t: TopicKey) -> StudyView {
        StudyView {
            topics: self.topics.insert(
                t,
                TopicView { enabled: !self.topics[t].enabled, ..self.topics[t] },
            ),
            ..self
        }
    }

    /// The repository after flashcard `c` was rewritten to `card`.
    pub open spec fn with_card(self, c: FlashcardKey, card: FlashcardView) -> StudyView {
        StudyView { cards: self.cards.insert(c, card), ..self }
    }

    /// The repository after flashcard `c` was filed under topic `t` once
    /// more: the link is recorded at the end of both lists.
    pub open spec fn linked(self, c: FlashcardKey, t: TopicKey) -> StudyView {
        StudyView {
            topics: self.topics.insert(t, topic_with_card(self.topics[t], c)),
            cards: self.cards.insert(c, card_with_topic(self.cards[c], t)),
            ..self
        }
    }

    /// The repository after every link between flashcard `c` and topic `t`
    /// was taken out of both lists.
    pub open spec fn unlinked(self, c: FlashcardKey, t: TopicKey) -> StudyView {
        StudyView {
            topics: self.topics.insert(t, topic_without_card(self.topics[t], c)),
            cards: self.cards.insert(c, card_without_topic(self.cards[c], t)),
            ..self
        }
    }

    /// The repository after flashcard `c` was filed under each of `under`:
    /// the flashcard lists them after the topics it listed before, and each
    /// topic lists the flashcard once more for each time it occurs in
    /// `under`.
    pub open spec fn linked_each(self, c: FlashcardKey, under: Seq<TopicKey>) -> StudyView {
        StudyView {
            topics: topics_filed(self.topics, under, c),
            cards: self.cards.insert(
                c,
                FlashcardView { topics: self.cards[c].topics + under, ..self.cards[c] },
            ),
            ..self
        }
    }

    /// The repository after flashcard `c` was taken off each of `under`: the
    /// flashcard lists none of them any more, and none of them lists the
    /// flashcard.
    pub open spec fn unlinked_each(self, c: FlashcardKey, under: Seq<TopicKey>) -> StudyView {
        StudyView {
            topics: Map::new(
                |t: TopicKey| self.topics.contains_key(t),
                |t: TopicKey|
                    if under.contains(t) {
                        topic_without_card(self.topics[t], c)
                    } else {
                        self.topics[t]
                    },
            ),
            cards: self.cards.insert(
                c,
                FlashcardView {
                    topics: self.cards[c].topics.filter(none_of(under)),
                    ..self.cards[c]
                },
            ),
            ..self
        }
    }

    /// The repository after a flashcard was created under `key` and filed
    /// under each of `under`: numbered 0, youngest of all flashcards.
    pub open spec fn with_new_card(
        self,
        key: FlashcardKey,
        question: Seq<char>,
        answer: Seq<char>,
        under: Seq<TopicKey>,
    ) -> StudyView {
        StudyView {
            topics: topics_filed(self.topics, under, key),
            cards: self.cards.insert(
                key,
                FlashcardView { question, answer, id: 0, topics: under },
            ),
            card_order: self.card_order.push(key),
            ..self
        }
    }

    /// The live topics that a deletion by `content` removes: those whose
    /// trimmed, lower-cased name equals `content`.
    pub open spec fn doomed(self, t: TopicKey, content: Seq<char>) -> bool {
        self.topics.contains_key(t) && normalized(self.topics[t].content) == content
    }

    /// The test that picks the topics a deletion by `content` leaves.
    pub open spec fn spared(self, content: Seq<char>) -> spec_fn(TopicKey) -> bool {
        |t: TopicKey| !self.doomed(t, content)
    }

    /// The test that picks the topics that carry `tag`.
    pub open spec fn tagged(self, tag: TopicTag) -> spec_fn(TopicKey) -> bool {
        |t: TopicKey| self.topics[t].topic_tag == tag
    }

    /// The live topics that carry `tag`, oldest first.
    pub open spec fn topics_with_tag(self, tag: TopicTag) -> Seq<TopicKey> {
        self.topic_order.filter(self.tagged(tag))
    }

    /// The test that picks the topics under which flashcard `c` is filed.
    pub open spec fn holding(self, c: FlashcardKey) -> spec_fn(TopicKey) -> bool {
        |t: TopicKey| self.topics[t].qna.contains(c)
    }

    /// The live topics under which the flashcard being edited is filed,
    /// oldest first; none if no flashcard is being edited.
    pub open spec fn topics_of_current_card(self) -> Seq<TopicKey> {
        match self.current_card {
            Some(c) => self.topic_order.filter(self.holding(c)),
            None => Seq::empty(),
        }
    }

    /// The repository after topic `t` was switched on the flashcard being
    /// edited: an enabled topic is taken off that flashcard, a disabled one
    /// is put on it, and the topic's `enabled` flag is flipped. With no
    /// flashcard being edited only the flag is flipped.
    pub open spec fn card_topic_switched(self, t: TopicKey) -> StudyView {
        match self.current_card {
            Some(c) => if self.topics[t].enabled {
                self.unlinked(c, t).toggled(t)
            } else {
                self.linked(c, t).toggled(t)
            },
            None => self.toggled(t),
        }
    }

    /// The repository after a deletion by `content`: the doomed topics are
    /// gone, everything else is as it was. Flashcards keep their references
    /// to the topics that are gone.
    pub open spec fn without_topics_named(self, content: Seq<char>) -> StudyView {
        StudyView {
            topics: Map::new(
                |t: TopicKey| self.topics.contains_key(t) && !self.doomed(t, content),
                |t: TopicKey| self.topics[t],
            ),
            topic_order: self.topic_order.filter(self.spared(content)),
            ..self
        }
    }
}

impl StudyView {
    /// A repository that differs from a valid one only in what its topics
    /// and flashcards hold, not in which there are, is valid as long as its
    /// topics still refer to live flashcards only.
    pub proof fn lemma_same_keys_valid(self, before: StudyView)
        requires
            before.valid(),
            self.topics.dom() == before.topics.dom(),
            self.cards.dom() == before.cards.dom(),
            self.topic_order == before.topic_order,
            self.card_order == before.card_order,
            self.current_card == before.current_card,
            forall|t: TopicKey, x: FlashcardKey|
                self.topics.contains_key(t) && #[trigger] self.topics[t].qna.contains(x) ==> (
                before.topics[t].qna.contains(x) || self.cards.contains_key(x)),
        ensures
            self.valid(),
    {
        assert forall|k: TopicKey|
            self.topic_order.contains(k) <==> self.topics.contains_key(k) by {
            assert(before.topic_order.contains(k) <==> before.topics.contains_key(k));
        }
        assert forall|k: FlashcardKey|
            self.card_order.contains(k) <==> self.cards.contains_key(k) by {
            assert(before.card_order.contains(k) <==> before.cards.contains_key(k));
        }
        assert forall|t: TopicKey, i: int|
            self.topics.contains_key(t) && 0 <= i < self.topics[t].qna.len()
                implies self.cards.contains_key(#[trigger] self.topics[t].qna[i]) by {
            let x = self.topics[t].qna[i];
            assert(self.topics[t].qna.contains(x));
            if before.topics[t].qna.contains(x) {
                let j = choose|j: int|
                    0 <= j < before.topics[t].qna.len() && before.topics[t].qna[j] == x;
                assert(before.cards.contains_key(before.topics[t].qna[j]));
            }
        }
    }

    /// Every topic that a name selects is live.
    pub proof fn lemma_matching_live(self, name: Seq<char>)
        requires
            self.valid(),
        ensures
            forall|i: int|
                0 <= i < self.matching_topics(name).len() ==> self.topics.contains_key(
                    #[trigger] self.matching_topics(name)[i],
                ),
    {
        let found = self.matching_topics(name);
        assert forall|i: int| 0 <= i < found.len() implies self.topics.contains_key(
            #[trigger] found[i],
        ) by {
            assert(found.contains(found[i]));
            lemma_filter_contains(self.topic_order, self.named(name), found[i]);
        }
    }

    /// Every topic that a list of names selects is live.
    pub proof fn lemma_resolved_live(self, names: Seq<Seq<char>>)
        requires
            self.valid(),
        ensures
            forall|i: int|
                0 <= i < self.resolve(names).len() ==> self.topics.contains_key(
                    #[trigger] self.resolve(names)[i],
                ),
        decreases names.len(),
    {
        if names.len() > 0 {
            self.lemma_resolved_live(names.drop_last());
            self.lemma_matching_live(names.last());
            let front = self.resolve(names.drop_last());
            let back = self.matching_topics(names.last());
            assert forall|i: int| 0 <= i < self.resolve(names).len() implies self.topics.contains_key(
                #[trigger] self.resolve(names)[i],
            ) by {
                if i < front.len() {
                    assert(self.resolve(names)[i] == front[i]);
                } else {
                    assert(self.resolve(names)[i] == back[i - front.len()]);
                }
            }
        }
    }
}

/// The texts of a list of strings.
pub open spec fn texts(names: Seq<String>) -> Seq<Seq<char>> {
    names.map_values(|s: String| s@)
}

/// `topic` with flashcard `c` filed under it once more.
pub open spec fn topic_with_card(topic: TopicView, c: FlashcardKey) -> TopicView {
    TopicView { qna: topic.qna.push(c), ..topic }
}

/// `topic` with every reference to flashcard `c` taken out.
pub open spec fn topic_without_card(topic: TopicView, c: FlashcardKey) -> TopicView {
    TopicView { qna: topic.qna.filter(other_than(c)), ..topic }
}

/// `card` with topic `t` added once more.
pub open spec fn card_with_topic(card: FlashcardView, t: TopicKey) -> FlashcardView {
    FlashcardView { topics: card.topics.push(t), ..card }
}

/// `card` with every reference to topic `t` taken out.
pub open spec fn card_without_topic(card: FlashcardView, t: TopicKey) -> FlashcardView {
    FlashcardView { topics: card.topics.filter(other_than(t)), ..card }
}

/// The topics after flashcard `c` was filed under each of `under`: every
/// topic lists `c` once more for each time the topic occurs in `under`.
pub open spec fn topics_filed(
    topics: Map<TopicKey, TopicView>,
    under: Seq<TopicKey>,
    c: FlashcardKey,
) -> Map<TopicKey, TopicView> {
    Map::new(
        |t: TopicKey| topics.contains_key(t),
        |t: TopicKey|
            TopicView {
                qna: topics[t].qna + Seq::new(under.filter(same_as(t)).len(), |i: int| c),
                ..topics[t]
            },
    )
}

/// Where a quiz run stands.
#[derive(Clone, Copy, Debug, PartialEq, Eq, Structural)]
pub enum RunState {
    /// No run was started, or the last one was ended.
    NotStarted,
    /// A run was started and questions are left.
    Running,
    /// A run was started and no question is left.
    Finished,
}

/// A quiz run as a mathematical value.
pub struct QuizView {
    /// The flashcards chosen for the run.
    pub cards: Seq<FlashcardKey>,
    /// The questions still to be answered, next first.
    pub queue: Seq<QuestionView>,
    /// Whether a run was started and not ended since.
    pub started: bool,
}

impl QuizView {
    /// A run that was not started holds nothing.
    pub open spec fn valid(self) -> bool {
        !self.started ==> self.cards.len() == 0 && self.queue.len() == 0
    }

    /// Where the run stands.
    pub open spec fn state(self) -> RunState {
        if !self.started {
            RunState::NotStarted
        } else if self.queue.len() > 0 {
            RunState::Running
        } else {
            RunState::Finished
        }
    }
}

/// The views of a sequence of queue entries.
pub open spec fn question_views(queue: Seq<Question>) -> Seq<QuestionView> {
    queue.map_values(|q: Question| q@)
}

/// The run with nothing in it.
pub open spec fn idle_run() -> QuizView {
    QuizView { cards: Seq::empty(), queue: Seq::empty(), started: false }
}

/// The run that starting a quiz on `study` gives: the eligible flashcards,
/// oldest first, and one question for each.
pub open spec fn started_run(study: StudyView) -> QuizView {
    QuizView {
        cards: study.selected_cards(),
        queue: study.questions(study.selected_cards()),
        started: true,
    }
}

/// The queue after `given` was offered as the answer to its first question:
/// a right answer removes the question, a wrong one moves it to the back.
pub open spec fn after_answer(queue: Seq<QuestionView>, given: Seq<char>) -> Seq<QuestionView> {
    if queue.len() == 0 {
        queue
    } else if answers_agree(queue[0].answer, given) {
        queue.drop_first()
    } else {
        queue.drop_first().push(queue[0])
    }
}

/// The queue after each of `answers` was offered in turn.
pub open spec fn after_answers(queue: Seq<QuestionView>, answers: Seq<Seq<char>>) -> Seq<
    QuestionView,
>
    decreases answers.len(),
{
    if answers.len() == 0 {
        queue
    } else {
        after_answer(after_answers(queue, answers.drop_last()), answers.last())
    }
}

} // verus!
