//! The study repository: owner of all topics and flashcards and of the links
//! between them.

use crate::arena::{
    card_arena_get, card_arena_get_mut, card_arena_insert, card_arena_new, card_entries,
    topic_arena_get, topic_arena_get_mut, topic_arena_insert, topic_arena_new,
    topic_arena_remove, topic_entries, CardArena, TopicArena,
};
use crate::keys::{keys_contain, keys_without, FlashcardKey, TopicKey};
use crate::laws::{
    law_delete_keeps_links, law_link_each_keeps_links, law_link_keeps_links,
    law_new_card_keeps_links, law_new_topic_keeps_links, law_rewrite_keeps_links,
    law_toggle_keeps_links, law_unlink_each_keeps_links, law_unlink_keeps_links,
    lemma_link_each_none, lemma_link_each_step, lemma_topics_filed_none, lemma_unlink_each_none,
    lemma_unlink_each_step,
};
use crate::model::{
    Flashcard, FlashcardField, FlashcardView, QuizError, Topic, TopicTag, MAX_ENTITIES,
};
use crate::seq_facts::{lemma_listed_set, lemma_push_contains};
use crate::state::{texts, StudyView};
use crate::text::{names_match, normalize};
use vstd::prelude::*;

verus! {

/// A study session: the topics, the flashcards, and what is being edited.
pub struct Study {
    topics: TopicArena,
    cards: CardArena,
    topic_order: Vec<TopicKey>,
    card_order: Vec<FlashcardKey>,
    current_topic: Option<TopicKey>,
    current_card: Option<FlashcardKey>,
    staging_topic: String,
}

impl View for Study {
    type V = StudyView;

    closed spec fn view(&self) -> StudyView {
        StudyView {
            topics: topic_entries(self.topics).map_values(|t: Topic| t@),
            topic_order: self.topic_order@,
            cards: card_entries(self.cards).map_values(|c: Flashcard| c@),
            card_order: self.card_order@,
            current_topic: self.current_topic,
            current_card: self.current_card,
            staging_topic: self.staging_topic@,
        }
    }
}

impl Study {
    /// The repository is in a state that its own operations can have left.
    pub open spec fn wf(&self) -> bool {
        self@.valid()
    }

    /// An empty repository.
    pub fn new() -> (study: Study)
        ensures
            study.wf(),
            study@.links_consistent(),
            study@ == (StudyView {
                topics: Map::empty(),
                topic_order: Seq::empty(),
                cards: Map::empty(),
                card_order: Seq::empty(),
                current_topic: None,
                current_card: None,
                staging_topic: Seq::empty(),
            }),
    {
        let study = Study {
            topics: topic_arena_new(),
            cards: card_arena_new(),
            topic_order: Vec::new(),
            card_order: Vec::new(),
            current_topic: None,
            current_card: None,
            staging_topic: String::new(),
        };
        assert(study@.topics =~= Map::empty());
        assert(study@.cards =~= Map::empty());
        study
    }

    /// Stores a new topic with the given name and tag, disabled and with no
    /// flashcards, and returns its key. Topics may share a name.
    ///
    /// The links stay consistent provided no flashcard still refers to the
    /// new key. One can only do so if it was filed under a topic that was
    /// deleted since, and the key of that topic is handed out again.
    pub fn create_topic(&mut self, content: String, tag: TopicTag) -> (key: TopicKey)
        requires
            old(self).wf(),
            old(self)@.topic_order.len() < MAX_ENTITIES,
        ensures
            final(self).wf(),
            !old(self)@.topics.contains_key(key),
            final(self)@ == old(self)@.with_new_topic(key, content@, tag),
            old(self)@.refs_live() ==> !old(self)@.referenced(key),
            old(self)@.links_consistent() && !old(self)@.referenced(key)
                ==> final(self)@.links_consistent(),
    {
        proof {
            lemma_listed_set(self@.topic_order, self@.topics.dom());
            assert(topic_entries(self.topics).dom() =~= self@.topics.dom());
        }
        let topic = Topic { content, topic_tag: tag, enabled: false, qna: Vec::new() };
        let key = topic_arena_insert(&mut self.topics, topic);
        self.topic_order.push(key);
        proof {
            let before = old(self)@;
            assert(self@.topics =~= before.with_new_topic(key, content@, tag).topics);
            law_new_topic_keeps_links(before, key, content@, tag);
        }
        key
    }

    /// The topic stored under `key`.
    pub fn get_topic(&self, key: TopicKey) -> (found: Result<&Topic, QuizError>)
        ensures
            match found {
                Ok(topic) => self@.topics.contains_key(key) && topic@ == self@.topics[key],
                Err(e) => e == QuizError::NotFound && !self@.topics.contains_key(key),
            },
    {
        match topic_arena_get(&self.topics, key) {
            Some(topic) => Ok(topic),
            None => Err(QuizError::NotFound),
        }
    }

    /// The flashcard stored under `key`.
    pub fn get_flashcard(&self, key: FlashcardKey) -> (found: Result<&Flashcard, QuizError>)
        ensures
            match found {
                Ok(card) => self@.cards.contains_key(key) && card@ == self@.cards[key],
                Err(e) => e == QuizError::NotFound && !self@.cards.contains_key(key),
            },
    {
        match card_arena_get(&self.cards, key) {
            Some(card) => Ok(card),
            None => Err(QuizError::NotFound),
        }
    }

    /// Flips the `enabled` flag of a topic. Nothing else changes.
    pub fn toggle_topic_enabled(&mut self, key: TopicKey) -> (done: Result<(), QuizError>)
        requires
            old(self).wf(),
        ensures
            final(self).wf(),
            match done {
                Ok(_) => old(self)@.topics.contains_key(key) && final(self)@ == old(self)@.toggled(key),
                Err(e) => e == QuizError::NotFound && !old(self)@.topics.contains_key(key)
                    && final(self)@ == old(self)@,
            },
            old(self)@.links_consistent() ==> final(self)@.links_consistent(),
    {
        match topic_arena_get_mut(&mut self.topics, key) {
            Some(topic) => {
                topic.enabled = !topic.enabled;
                proof {
                    let before = old(self)@;
                    assert(self@.topics =~= before.toggled(key).topics);
                    law_toggle_keeps_links(before, key);
                }
                Ok(())
            },
            None => {
                proof {
                    assert(self@.topics =~= old(self)@.topics);
                }
                Err(QuizError::NotFound)
            },
        }
    }

    /// Replaces the question or the answer of a flashcard.
    pub fn edit_flashcard_field(
        &mut self,
        key: FlashcardKey,
        field: FlashcardField,
        new_value: String,
    ) -> (done: Result<(), QuizError>)
        requires
            old(self).wf(),
        ensures
            final(self).wf(),
            match done {
                Ok(_) => old(self)@.cards.contains_key(key) && final(self)@ == old(self)@.with_card(
                    key,
                    match field {
                        FlashcardField::Question => FlashcardView {
                            question: new_value@,
                            ..old(self)@.cards[key]
                        },
                        FlashcardField::Answer => FlashcardView {
                            answer: new_value@,
                            ..old(self)@.cards[key]
                        },
                    },
                ),
                Err(e) => e == QuizError::NotFound && !old(self)@.cards.contains_key(key)
                    && final(self)@ == old(self)@,
            },
            old(self)@.links_consistent() ==> final(self)@.links_consistent(),
    {
        match card_arena_get_mut(&mut self.cards, key) {
            Some(card) => {
                match field {
                    FlashcardField::Question => {
                        card.question = new_value;
                    },
                    FlashcardField::Answer => {
                        card.answer = new_value;
                    },
                }
                proof {
                    let before = old(self)@;
                    assert(self@.cards =~= before.with_card(key, self@.cards[key]).cards);
                    law_rewrite_keeps_links(before, key, self@.cards[key]);
                }
                Ok(())
            },
            None => {
                proof {
                    assert(self@.cards =~= old(self)@.cards);
                }
                Err(QuizError::NotFound)
            },
        }
    }

    /// Attaches the number `id` to a flashcard.
    pub fn set_flashcard_id(&mut self, key: FlashcardKey, id: u32) -> (done: Result<(), QuizError>)
        requires
            old(self).wf(),
        ensures
            final(self).wf(),
            match done {
                Ok(_) => old(self)@.cards.contains_key(key) && final(self)@ == old(self)@.with_card(
                    key,
                    FlashcardView { id, ..old(self)@.cards[key] },
                ),
                Err(e) => e == QuizError::NotFound && !old(self)@.cards.contains_key(key)
                    && final(self)@ == old(self)@,
            },
            old(self)@.links_consistent() ==> final(self)@.links_consistent(),
    {
        match card_arena_get_mut(&mut self.cards, key) {
            Some(card) => {
                card.id = id;
                proof {
                    let before = old(self)@;
                    assert(self@.cards =~= before.with_card(key, self@.cards[key]).cards);
                    law_rewrite_keeps_links(before, key, self@.cards[key]);
                }
                Ok(())
            },
            None => {
                proof {
                    assert(self@.cards =~= old(self)@.cards);
                }
                Err(QuizError::NotFound)
            },
        }
    }

    /// The live topics whose name agrees with `name`, oldest first.
    pub fn matching_topics(&self, name: &str) -> (found: Vec<TopicKey>)
        requires
            self.wf(),
        ensures
            found@ == self@.matching_topics(name@),
    {
        let ghost order = self@.topic_order;
        let ghost pick = self@.named(name@);
        let mut found: Vec<TopicKey> = Vec::new();
        let mut i: usize = 0;
        proof {
            reveal(Seq::filter);
            assert(order.take(0).filter(pick) =~= Seq::empty());
        }
        while i < self.topic_order.len()
            invariant
                self.wf(),
                i <= self.topic_order.len(),
                order == self@.topic_order,
                pick == self@.named(name@),
                found@ == order.take(i as int).filter(pick),
            decreases self.topic_order.len() - i,
        {
            let key = self.topic_order[i];
            proof {
                assert(order.contains(key));
                assert(order.take(i + 1) =~= order.take(i as int).push(key));
                order.take(i as int).lemma_filter_push(key, pick);
            }
            match topic_arena_get(&self.topics, key) {
                Some(topic) => {
                    if names_match(topic.content.as_str(), name) {
                        found.push(key);
                    }
                },
                None => {},
            }
            i += 1;
        }
        proof {
            assert(order.take(i as int) =~= order);
        }
        found
    }

    /// The topics that a list of names selects: for each name in turn, all
    /// topics that match it, oldest first.
    pub fn resolve(&self, names: &Vec<String>) -> (linked: Vec<TopicKey>)
        requires
            self.wf(),
        ensures
            linked@ == self@.resolve(texts(names@)),
    {
        let ghost all = texts(names@);
        let mut linked: Vec<TopicKey> = Vec::new();
        let mut i: usize = 0;
        proof {
            assert(all.take(0) =~= Seq::empty());
        }
        while i < names.len()
            invariant
                self.wf(),
                i <= names.len(),
                all == texts(names@),
                linked@ == self@.resolve(all.take(i as int)),
            decreases names.len() - i,
        {
            let mut found = self.matching_topics(names[i].as_str());
            linked.append(&mut found);
            proof {
                assert(all.take(i + 1).drop_last() =~= all.take(i as int));
                assert(all.take(i + 1).last() == names@[i as int]@);
            }
            i += 1;
        }
        proof {
            assert(all.take(i as int) =~= all);
        }
        linked
    }

    /// Files flashcard `card` under topic `topic` once more, on both sides.
    fn link(&mut self, card: FlashcardKey, topic: TopicKey)
        requires
            old(self).wf(),
            old(self)@.cards.contains_key(card),
            old(self)@.topics.contains_key(topic),
        ensures
            final(self).wf(),
            final(self)@ == old(self)@.linked(card, topic),
            old(self)@.links_consistent() ==> final(self)@.links_consistent(),
    {
        match topic_arena_get_mut(&mut self.topics, topic) {
            Some(entry) => {
                entry.qna.push(card);
            },
            None => {},
        }
        match card_arena_get_mut(&mut self.cards, card) {
            Some(entry) => {
                entry.topics.push(topic);
            },
            None => {},
        }
        proof {
            let before = old(self)@;
            assert(self@.topics =~= before.linked(card, topic).topics);
            assert(self@.cards =~= before.linked(card, topic).cards);
            law_link_keeps_links(before, card, topic);
        }
    }

    /// Files a flashcard under a topic, recording the link on both sides. A
    /// link that exists already is recorded once more.
    pub fn add_topic_to_flashcard(&mut self, card: FlashcardKey, topic: TopicKey) -> (done: Result<
        (),
        QuizError,
    >)
        requires
            old(self).wf(),
        ensures
            final(self).wf(),
            match done {
                Ok(_) => old(self)@.cards.contains_key(card) && old(self)@.topics.contains_key(
                    topic,
                ) && final(self)@ == old(self)@.linked(card, topic),
                Err(e) => e == QuizError::NotFound && !(old(self)@.cards.contains_key(card)
                    && old(self)@.topics.contains_key(topic)) && final(self)@ == old(self)@,
            },
            old(self)@.links_consistent() ==> final(self)@.links_consistent(),
    {
        if self.get_flashcard(card).is_err() || self.get_topic(topic).is_err() {
            return Err(QuizError::NotFound);
        }
        self.link(card, topic);
        Ok(())
    }

    /// Takes every link between a flashcard and a topic out, on both sides.
    pub fn remove_topic_from_flashcard(&mut self, card: FlashcardKey, topic: TopicKey) -> (done:
        Result<(), QuizError>)
        requires
            old(self).wf(),
        ensures
            final(self).wf(),
            match done {
                Ok(_) => old(self)@.cards.contains_key(card) && old(self)@.topics.contains_key(
                    topic,
                ) && final(self)@ == old(self)@.unlinked(card, topic),
                Err(e) => e == QuizError::NotFound && !(old(self)@.cards.contains_key(card)
                    && old(self)@.topics.contains_key(topic)) && final(self)@ == old(self)@,
            },
            old(self)@.links_consistent() ==> final(self)@.links_consistent(),
    {
        if self.get_flashcard(card).is_err() || self.get_topic(topic).is_err() {
            return Err(QuizError::NotFound);
        }
        match topic_arena_get_mut(&mut self.topics, topic) {
            Some(entry) => {
                entry.qna = keys_without(&entry.qna, card);
            },
            None => {},
        }
        match card_arena_get_mut(&mut self.cards, card) {
            Some(entry) => {
                entry.topics = keys_without(&entry.topics, topic);
            },
            None => {},
        }
        proof {
            let before = old(self)@;
            assert(self@.topics =~= before.unlinked(card, topic).topics);
            assert(self@.cards =~= before.unlinked(card, topic).cards);
            law_unlink_keeps_links(before, card, topic);
        }
        Ok(())
    }

    /// Files flashcard `card` under each of `under` in turn, on both sides.
    fn link_each(&mut self, card: FlashcardKey, under: &Vec<TopicKey>)
        requires
            old(self).wf(),
            old(self)@.cards.contains_key(card),
            forall|i: int|
                0 <= i < under@.len() ==> old(self)@.topics.contains_key(#[trigger] under@[i]),
        ensures
            final(self).wf(),
            final(self)@ == old(self)@.linked_each(card, under@),
            old(self)@.links_consistent() ==> final(self)@.links_consistent(),
    {
        let ghost before = self@;
        let mut i: usize = 0;
        proof {
            assert(under@.take(0) =~= Seq::empty());
            lemma_link_each_none(before, card);
        }
        while i < under.len()
            invariant
                i <= under.len(),
                before.valid(),
                before.cards.contains_key(card),
                forall|j: int|
                    0 <= j < under@.len() ==> before.topics.contains_key(#[trigger] under@[j]),
                self.wf(),
                self@ == before.linked_each(card, under@.take(i as int)),
            decreases under.len() - i,
        {
            let topic = under[i];
            proof {
                law_link_each_keeps_links(before, card, under@.take(i as int));
                assert(before.topics.contains_key(under@[i as int]));
                assert(under@.take(i + 1) =~= under@.take(i as int).push(topic));
                lemma_link_each_step(before, card, under@.take(i as int), topic);
            }
            self.link(card, topic);
            i += 1;
        }
        proof {
            assert(under@.take(i as int) =~= under@);
            law_link_each_keeps_links(before, card, under@);
        }
    }

    /// Stores a new flashcard and files it under every topic that one of
    /// `topic_names` selects, recording each link on both sides. A name that
    /// matches no topic is passed over; one that matches several links to all
    /// of them. The card's number is 0 until one is attached.
    pub fn create_flashcard(&mut self, question: String, answer: String, topic_names: &Vec<String>)
        -> (key: FlashcardKey)
        requires
            old(self).wf(),
            old(self)@.card_order.len() < MAX_ENTITIES,
        ensures
            final(self).wf(),
            !old(self)@.cards.contains_key(key),
            final(self)@ == old(self)@.with_new_card(
                key,
                question@,
                answer@,
                old(self)@.resolve(texts(topic_names@)),
            ),
            old(self)@.links_consistent() ==> final(self)@.links_consistent(),
    {
        let ghost before = self@;
        let under = self.resolve(topic_names);
        proof {
            before.lemma_resolved_live(texts(topic_names@));
            lemma_listed_set(before.card_order, before.cards.dom());
            assert(card_entries(self.cards).dom() =~= before.cards.dom());
        }
        let card = Flashcard { question, answer, id: 0, topics: Vec::new() };
        let key = card_arena_insert(&mut self.cards, card);
        self.card_order.push(key);
        proof {
            let bare = before.with_new_card(key, question@, answer@, Seq::empty());
            lemma_topics_filed_none(before.topics, key);
            assert(self@.cards =~= bare.cards);
            assert(self@ == bare);
            law_new_card_keeps_links(before, key, question@, answer@, Seq::empty());
            law_new_card_keeps_links(before, key, question@, answer@, under@);
        }
        self.link_each(key, &under);
        key
    }

    /// Files an existing flashcard under every topic that one of
    /// `topic_names` selects, recording each link on both sides.
    pub fn add_topics_by_name(&mut self, card: FlashcardKey, topic_names: &Vec<String>) -> (done:
        Result<(), QuizError>)
        requires
            old(self).wf(),
        ensures
            final(self).wf(),
            match done {
                Ok(_) => old(self)@.cards.contains_key(card) && final(self)@ == old(self)@.linked_each(card, old(self)@.resolve(texts(topic_names@))),
                Err(e) => e == QuizError::NotFound && !old(self)@.cards.contains_key(card)
                    && final(self)@ == old(self)@,
            },
            old(self)@.links_consistent() ==> final(self)@.links_consistent(),
    {
        if self.get_flashcard(card).is_err() {
            return Err(QuizError::NotFound);
        }
        let under = self.resolve(topic_names);
        proof {
            self@.lemma_resolved_live(texts(topic_names@));
        }
        self.link_each(card, &under);
        Ok(())
    }

    /// Takes an existing flashcard off every topic whose name agrees with
    /// `name`, on both sides.
    pub fn remove_topics_by_name(&mut self, card: FlashcardKey, name: &str) -> (done: Result<
        (),
        QuizError,
    >)
        requires
            old(self).wf(),
        ensures
            final(self).wf(),
            match done {
                Ok(_) => old(self)@.cards.contains_key(card) && final(self)@ == old(
                    self,
                )@.unlinked_each(card, old(self)@.matching_topics(name@)),
                Err(e) => e == QuizError::NotFound && !old(self)@.cards.contains_key(card)
                    && final(self)@ == old(self)@,
            },
            old(self)@.links_consistent() ==> final(self)@.links_consistent(),
    {
        if self.get_flashcard(card).is_err() {
            return Err(QuizError::NotFound);
        }
        let ghost before = self@;
        let under = self.matching_topics(name);
        let mut i: usize = 0;
        proof {
            before.lemma_matching_live(name@);
            assert(under@.take(0) =~= Seq::empty());
            lemma_unlink_each_none(before, card);
        }
        while i < under.len()
            invariant
                i <= under.len(),
                before.valid(),
                before.cards.contains_key(card),
                forall|j: int|
                    0 <= j < under@.len() ==> before.topics.contains_key(#[trigger] under@[j]),
                self.wf(),
                self@ == before.unlinked_each(card, under@.take(i as int)),
            decreases under.len() - i,
        {
            let topic = under[i];
            proof {
                law_unlink_each_keeps_links(before, card, under@.take(i as int));
                assert(before.topics.contains_key(under@[i as int]));
                assert(under@.take(i + 1) =~= under@.take(i as int).push(topic));
                lemma_unlink_each_step(before, card, under@.take(i as int), topic);
            }
            let _ = self.remove_topic_from_flashcard(card, topic);
            i += 1;
        }
        proof {
            assert(under@.take(i as int) =~= under@);
            law_unlink_each_keeps_links(before, card, under@);
        }
        Ok(())
    }

    /// The live topics that carry `tag`, oldest first.
    pub fn topics_with_tag(&self, tag: TopicTag) -> (found: Vec<TopicKey>)
        requires
            self.wf(),
        ensures
            found@ == self@.topics_with_tag(tag),
    {
        let ghost order = self@.topic_order;
        let ghost pick = self@.tagged(tag);
        let mut found: Vec<TopicKey> = Vec::new();
        let mut i: usize = 0;
        proof {
            reveal(Seq::filter);
            assert(order.take(0).filter(pick) =~= Seq::empty());
        }
        while i < self.topic_order.len()
            invariant
                self.wf(),
                i <= self.topic_order.len(),
                order == self@.topic_order,
                pick == self@.tagged(tag),
                found@ == order.take(i as int).filter(pick),
            decreases self.topic_order.len() - i,
        {
            let key = self.topic_order[i];
            proof {
                assert(order.contains(key));
                assert(order.take(i + 1) =~= order.take(i as int).push(key));
                order.take(i as int).lemma_filter_push(key, pick);
            }
            match topic_arena_get(&self.topics, key) {
                Some(topic) => {
                    if topic.topic_tag == tag {
                        found.push(key);
                    }
                },
                None => {},
            }
            i += 1;
        }
        proof {
            assert(order.take(i as int) =~= order);
        }
        found
    }

    /// The live topics under which flashcard `card` is filed, oldest first.
    pub fn topics_holding(&self, card: FlashcardKey) -> (found: Vec<TopicKey>)
        requires
            self.wf(),
        ensures
            found@ == self@.topic_order.filter(self@.holding(card)),
    {
        let ghost order = self@.topic_order;
        let ghost pick = self@.holding(card);
        let mut found: Vec<TopicKey> = Vec::new();
        let mut i: usize = 0;
        proof {
            reveal(Seq::filter);
            assert(order.take(0).filter(pick) =~= Seq::empty());
        }
        while i < self.topic_order.len()
            invariant
                self.wf(),
                i <= self.topic_order.len(),
                order == self@.topic_order,
                pick == self@.holding(card),
                found@ == order.take(i as int).filter(pick),
            decreases self.topic_order.len() - i,
        {
            let key = self.topic_order[i];
            proof {
                assert(order.contains(key));
                assert(order.take(i + 1) =~= order.take(i as int).push(key));
                order.take(i as int).lemma_filter_push(key, pick);
            }
            match topic_arena_get(&self.topics, key) {
                Some(topic) => {
                    if keys_contain(&topic.qna, card) {
                        found.push(key);
                    }
                },
                None => {},
            }
            i += 1;
        }
        proof {
            assert(order.take(i as int) =~= order);
        }
        found
    }

    /// Removes every topic whose trimmed, lower-cased name equals `content`.
    /// Flashcards filed under a removed topic keep their reference to it.
    pub fn delete_topic_by_content(&mut self, content: &str)
        requires
            old(self).wf(),
        ensures
            final(self).wf(),
            final(self)@ == old(self)@.without_topics_named(content@),
            old(self)@.links_consistent() ==> final(self)@.links_consistent(),
    {
        let ghost before = self@;
        let ghost held = topic_entries(self.topics);
        let ghost order = self@.topic_order;
        let ghost spare = before.spared(content@);
        let wanted = content.to_owned();
        let mut kept: Vec<TopicKey> = Vec::new();
        let mut i: usize = 0;
        proof {
            reveal(Seq::filter);
            assert(order.take(0).filter(spare) =~= Seq::empty());
        }
        while i < self.topic_order.len()
            invariant
                i <= self.topic_order.len(),
                before == old(self)@,
                before.valid(),
                held == topic_entries(old(self).topics),
                order == before.topic_order,
                spare == before.spared(content@),
                wanted@ == content@,
                self.topic_order@ == order,
                self.cards == old(self).cards,
                self.card_order == old(self).card_order,
                self.current_topic == old(self).current_topic,
                self.current_card == old(self).current_card,
                self.staging_topic == old(self).staging_topic,
                kept@ == order.take(i as int).filter(spare),
                forall|t: TopicKey|
                    #![trigger topic_entries(self.topics).contains_key(t)]
                    topic_entries(self.topics).contains_key(t) <==> held.contains_key(t) && !(
                    before.doomed(t, content@) && order.take(i as int).contains(t)),
                forall|t: TopicKey|
                    topic_entries(self.topics).contains_key(t) ==> #[trigger] topic_entries(
                        self.topics,
                    )[t] == held[t],
            decreases self.topic_order.len() - i,
        {
            let key = self.topic_order[i];
            proof {
                assert(order.contains(key));
                assert(before.topics.contains_key(key));
                assert(order.take(i + 1) =~= order.take(i as int).push(key));
                order.take(i as int).lemma_filter_push(key, spare);
                if order.take(i as int).contains(key) {
                    let j = choose|j: int| 0 <= j < i && order.take(i as int)[j] == key;
                    assert(order[j] == order[i as int]);
                }
                assert forall|t: TopicKey|
                    order.take(i + 1).contains(t) <==> (order.take(i as int).contains(t) || t
                        == key) by {
                    lemma_push_contains(order.take(i as int), key, t);
                }
            }
            let doomed = match topic_arena_get(&self.topics, key) {
                Some(topic) => normalize(topic.content.as_str()) == wanted,
                None => false,
            };
            if doomed {
                let _ = topic_arena_remove(&mut self.topics, key);
            } else {
                kept.push(key);
            }
            i += 1;
        }
        self.topic_order = kept;
        proof {
            assert(order.take(i as int) =~= order);
            assert(self@.topics =~= before.without_topics_named(content@).topics);
            law_delete_keeps_links(before, content@);
        }
    }

    /// Whether at least one of the referenced topics is live, enabled and
    /// tagged for quizzing.
    pub fn qualifies(&self, refs: &Vec<TopicKey>) -> (yes: bool)
        ensures
            yes == self@.qualifies(refs@),
    {
        let mut i: usize = 0;
        while i < refs.len()
            invariant
                i <= refs.len(),
                forall|j: int| 0 <= j < i ==> !self@.topic_open(#[trigger] refs@[j]),
            decreases refs.len() - i,
        {
            match self.get_topic(refs[i]) {
                Ok(topic) => {
                    if topic.enabled && topic.topic_tag == TopicTag::Quiz {
                        return true;
                    }
                },
                Err(_) => {},
            }
            i += 1;
        }
        false
    }

    /// The keys of the live topics, oldest first.
    pub fn topic_keys(&self) -> (keys: &Vec<TopicKey>)
        ensures
            keys@ == self@.topic_order,
    {
        &self.topic_order
    }

    /// The keys of the live flashcards, oldest first.
    pub fn flashcard_keys(&self) -> (keys: &Vec<FlashcardKey>)
        ensures
            keys@ == self@.card_order,
    {
        &self.card_order
    }

    /// How many topics there are.
    pub fn topic_count(&self) -> (n: usize)
        ensures
            n == self@.topic_order.len(),
    {
        self.topic_order.len()
    }

    /// How many flashcards there are.
    pub fn flashcard_count(&self) -> (n: usize)
        ensures
            n == self@.card_order.len(),
    {
        self.card_order.len()
    }

    /// Every topic with its key, oldest first.
    pub fn list_topics(&self) -> (list: Vec<(TopicKey, Topic)>)
        requires
            self.wf(),
        ensures
            list@.len() == self@.topic_order.len(),
            forall|i: int|
                0 <= i < list@.len() ==> (#[trigger] list@[i]).0 == self@.topic_order[i]
                    && list@[i].1@ == self@.topics[self@.topic_order[i]],
    {
        let mut list: Vec<(TopicKey, Topic)> = Vec::new();
        let mut i: usize = 0;
        while i < self.topic_order.len()
            invariant
                self.wf(),
                i <= self.topic_order.len(),
                list@.len() == i,
                forall|j: int|
                    0 <= j < i ==> (#[trigger] list@[j]).0 == self@.topic_order[j] && list@[j].1@
                        == self@.topics[self@.topic_order[j]],
            decreases self.topic_order.len() - i,
        {
            let key = self.topic_order[i];
            proof {
                assert(self@.topic_order.contains(key));
            }
            match topic_arena_get(&self.topics, key) {
                Some(topic) => {
                    list.push((key, topic.clone()));
                },
                None => {},
            }
            i += 1;
        }
        list
    }

    /// Every flashcard with its key, oldest first.
    pub fn list_flashcards(&self) -> (list: Vec<(FlashcardKey, Flashcard)>)
        requires
            self.wf(),
        ensures
            list@.len() == self@.card_order.len(),
            forall|i: int|
                0 <= i < list@.len() ==> (#[trigger] list@[i]).0 == self@.card_order[i]
                    && list@[i].1@ == self@.cards[self@.card_order[i]],
    {
        let mut list: Vec<(FlashcardKey, Flashcard)> = Vec::new();
        let mut i: usize = 0;
        while i < self.card_order.len()
            invariant
                self.wf(),
                i <= self.card_order.len(),
                list@.len() == i,
                forall|j: int|
                    0 <= j < i ==> (#[trigger] list@[j]).0 == self@.card_order[j] && list@[j].1@
                        == self@.cards[self@.card_order[j]],
            decreases self.card_order.len() - i,
        {
            let key = self.card_order[i];
            proof {
                assert(self@.card_order.contains(key));
            }
            match card_arena_get(&self.cards, key) {
                Some(card) => {
                    list.push((key, card.clone()));
                },
                None => {},
            }
            i += 1;
        }
        list
    }

    /// The flashcard being edited, if any.
    pub fn current_card(&self) -> (key: Option<FlashcardKey>)
        ensures
            key == self@.current_card,
    {
        self.current_card
    }

    /// Makes `key` the flashcard being edited, or none.
    pub fn set_current_card(&mut self, key: Option<FlashcardKey>) -> (done: Result<(), QuizError>)
        requires
            old(self).wf(),
        ensures
            final(self).wf(),
            match done {
                Ok(_) => (key matches Some(c) ==> old(self)@.cards.contains_key(c)) && final(self)@
                    == (StudyView { current_card: key, ..old(self)@ }),
                Err(e) => e == QuizError::NotFound && (key matches Some(c) && !old(self)@.cards.contains_key(c)) && final(self)@ == old(self)@,
            },
    {
        match key {
            Some(c) => {
                if self.get_flashcard(c).is_err() {
                    return Err(QuizError::NotFound);
                }
            },
            None => {},
        }
        self.current_card = key;
        Ok(())
    }

    /// The topic being edited, if any. It may have been deleted since.
    pub fn current_topic(&self) -> (key: Option<TopicKey>)
        ensures
            key == self@.current_topic,
    {
        self.current_topic
    }

    /// Makes `key` the topic being edited, or none.
    pub fn set_current_topic(&mut self, key: Option<TopicKey>) -> (done: Result<(), QuizError>)
        requires
            old(self).wf(),
        ensures
            final(self).wf(),
            match done {
                Ok(_) => (key matches Some(t) ==> old(self)@.topics.contains_key(t)) && final(self)@
                    == (StudyView { current_topic: key, ..old(self)@ }),
                Err(e) => e == QuizError::NotFound && (key matches Some(t) && !old(self)@.topics.contains_key(t)) && final(self)@ == old(self)@,
            },
    {
        match key {
            Some(t) => {
                if self.get_topic(t).is_err() {
                    return Err(QuizError::NotFound);
                }
            },
            None => {},
        }
        self.current_topic = key;
        Ok(())
    }

    /// The text typed so far for a topic that is not yet created.
    pub fn staging_topic(&self) -> (text: &String)
        ensures
            text@ == self@.staging_topic,
    {
        &self.staging_topic
    }

    /// Replaces the text typed so far for a topic that is not yet created.
    pub fn set_staging_topic(&mut self, content: String)
        ensures
            final(self)@ == (StudyView { staging_topic: content@, ..old(self)@ }),
    {
        self.staging_topic = content;
    }
}

impl Default for Study {
    /// An empty repository.
    fn default() -> (study: Study)
        ensures
            study.wf(),
            study@.links_consistent(),
            study@ == (StudyView {
                topics: Map::empty(),
                topic_order: Seq::empty(),
                cards: Map::empty(),
                card_order: Seq::empty(),
                current_topic: None,
                current_card: None,
                staging_topic: Seq::empty(),
            }),
    {
        Study::new()
    }
}

} // verus!
