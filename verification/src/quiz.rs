//! The quiz engine: builds a run of questions from the flashcards that are
//! eligible, and steps through it.

use crate::keys::{FlashcardKey, TopicKey};
use crate::model::{question_of, Flashcard, Question, QuizError, Topic, MAX_ENTITIES};
use crate::state::{
    after_answer, idle_run, question_views, started_run, QuizView, RunState, StudyView,
};
use crate::study::Study;
use crate::text::{answers_agree, answers_match};
use std::collections::VecDeque;
use vstd::prelude::*;

verus! {

/// How an answer was judged.
#[derive(Clone, Copy, Debug, PartialEq, Eq, Structural)]
pub enum AnswerOutcome {
    /// It counts as the expected answer; the question is done.
    Correct,
    /// It does not; the question comes again at the end of the run.
    Incorrect,
}

/// What follows a question that was skipped.
#[derive(Debug)]
pub enum Advance {
    /// The question that is asked next.
    Next(Question),
    /// Nothing: the queue is empty now.
    Finished,
}

/// A quiz run: the flashcards chosen for it and the questions still to be
/// answered.
#[derive(Debug)]
pub struct Quiz {
    cards: Vec<FlashcardKey>,
    qna_queue: VecDeque<Question>,
    started: bool,
}

impl View for Quiz {
    type V = QuizView;

    closed spec fn view(&self) -> QuizView {
        QuizView {
            cards: self.cards@,
            queue: question_views(self.qna_queue@),
            started: self.started,
        }
    }
}

impl Quiz {
    /// The run is in a state that its own operations can have left.
    pub open spec fn wf(&self) -> bool {
        self@.valid()
    }

    /// A run that was not started.
    pub fn new() -> (quiz: Quiz)
        ensures
            quiz.wf(),
            quiz@ == idle_run(),
    {
        let quiz = Quiz { cards: Vec::new(), qna_queue: VecDeque::new(), started: false };
        assert(quiz@.queue =~= Seq::empty());
        quiz
    }

    /// Starts a run over the flashcards that are eligible now: those filed
    /// under at least one topic that is enabled and tagged for quizzing. The
    /// run holds them oldest first, with one question for each. Whatever the
    /// run held before is dropped.
    pub fn start_quiz(&mut self, study_session: &Study)
        requires
            study_session.wf(),
        ensures
            final(self).wf(),
            final(self)@ == started_run(study_session@),
    {
        self.cards.clear();
        self.qna_queue.clear();
        self.started = true;
        let keys = study_session.flashcard_keys();
        let ghost study = study_session@;
        let ghost order = study.card_order;
        let ghost pick = study.eligibility();
        let mut i: usize = 0;
        proof {
            reveal(Seq::filter);
            assert(order.take(0).filter(pick) =~= Seq::empty());
            assert(self@.queue =~= study.questions(self@.cards));
        }
        while i < keys.len()
            invariant
                i <= keys.len(),
                study == study_session@,
                study.valid(),
                keys@ == order,
                order == study.card_order,
                pick == study.eligibility(),
                self.started,
                self@.cards == order.take(i as int).filter(pick),
                self@.queue == study.questions(self@.cards),
            decreases keys.len() - i,
        {
            let key = keys[i];
            proof {
                assert(order.contains(key));
                assert(order.take(i + 1) =~= order.take(i as int).push(key));
                order.take(i as int).lemma_filter_push(key, pick);
            }
            match study_session.get_flashcard(key) {
                Ok(card) => {
                    if study_session.qualifies(&card.topics) {
                        let ghost chosen = self@.cards;
                        self.cards.push(key);
                        self.qna_queue.push_back(Question::from_card(card));
                        proof {
                            assert(self@.queue =~= study.questions(chosen).push(
                                question_of(study.cards[key]),
                            ));
                            assert(study.questions(chosen.push(key)) =~= study.questions(
                                chosen,
                            ).push(question_of(study.cards[key])));
                        }
                    }
                },
                Err(_) => {},
            }
            i += 1;
        }
        proof {
            assert(order.take(i as int) =~= order);
        }
    }

    /// The questions still to be answered, next first.
    pub fn get_layout(&self) -> (layout: VecDeque<Question>)
        ensures
            question_views(layout@) == self@.queue,
    {
        let mut layout: VecDeque<Question> = VecDeque::new();
        let mut i: usize = 0;
        proof {
            assert(question_views(layout@) =~= self@.queue.take(0));
        }
        while i < self.qna_queue.len()
            invariant
                i <= self.qna_queue.len(),
                question_views(layout@) == self@.queue.take(i as int),
            decreases self.qna_queue.len() - i,
        {
            let ghost seen = layout@;
            let copy = self.qna_queue[i].clone();
            layout.push_back(copy);
            proof {
                assert(question_views(seen) == self@.queue.take(i as int));
                assert(question_views(seen.push(copy)) =~= question_views(seen).push(copy@));
                assert(self@.queue.take(i + 1) =~= self@.queue.take(i as int).push(
                    self@.queue[i as int],
                ));
            }
            i += 1;
        }
        proof {
            assert(self@.queue.take(i as int) =~= self@.queue);
        }
        layout
    }

    /// Adds one flashcard to a run that was started, provided the card
    /// qualifies by the rule that starting a run applies: at least one of the
    /// card's topics is live, enabled and tagged for quizzing. Says whether
    /// the card was added. A run that was not started takes no card.
    pub fn submit_card_to_quiz(
        &mut self,
        card: Flashcard,
        card_key: FlashcardKey,
        study_session: &Study,
    ) -> (done: Result<bool, QuizError>)
        requires
            old(self).wf(),
        ensures
            final(self).wf(),
            match done {
                Ok(added) => old(self)@.started && added == study_session@.qualifies(
                    card@.topics,
                ) && final(self)@ == (if added {
                    QuizView {
                        cards: old(self)@.cards.push(card_key),
                        queue: old(self)@.queue.push(question_of(card@)),
                        ..old(self)@
                    }
                } else {
                    old(self)@
                }),
                Err(e) => e == QuizError::InvalidState && !old(self)@.started && final(self)@
                    == old(self)@,
            },
    {
        if !self.started {
            return Err(QuizError::InvalidState);
        }
        if study_session.qualifies(&card.topics) {
            self.cards.push(card_key);
            self.qna_queue.push_back(Question::from_card(&card));
            proof {
                assert(self@.queue =~= old(self)@.queue.push(question_of(card@)));
            }
            Ok(true)
        } else {
            Ok(false)
        }
    }

    /// Flips the `enabled` flag of a topic. The run itself does not change:
    /// start it again to see the effect.
    pub fn select_topic_to_quiz(&mut self, study_session: &mut Study, topic: TopicKey) -> (done:
        Result<(), QuizError>)
        requires
            old(study_session).wf(),
        ensures
            final(study_session).wf(),
            final(self)@ == old(self)@,
            match done {
                Ok(_) => old(study_session)@.topics.contains_key(topic) && final(study_session)@
                    == old(study_session)@.toggled(topic),
                Err(e) => e == QuizError::NotFound && !old(study_session)@.topics.contains_key(
                    topic,
                ) && final(study_session)@ == old(study_session)@,
            },
            old(study_session)@.links_consistent() ==> final(study_session)@.links_consistent(),
    {
        study_session.toggle_topic_enabled(topic)
    }

    /// Replaces the text typed so far for a topic that is not yet created.
    pub fn set_topic(&mut self, study_session: &mut Study, content: String)
        ensures
            final(self)@ == old(self)@,
            final(study_session)@ == (StudyView {
                staging_topic: content@,
                ..old(study_session)@
            }),
    {
        study_session.set_staging_topic(content);
    }

    /// The topics that an edit of the flashcard being edited concerns: the
    /// live topics under which that flashcard is filed, oldest first. Neither
    /// the repository nor the run changes.
    pub fn update_topic(&mut self, study_session: &mut Study) -> (concerned: Vec<TopicKey>)
        requires
            old(study_session).wf(),
        ensures
            final(self)@ == old(self)@,
            final(study_session)@ == old(study_session)@,
            concerned@ == old(study_session)@.topics_of_current_card(),
    {
        match study_session.current_card() {
            Some(card) => study_session.topics_holding(card),
            None => Vec::new(),
        }
    }

    /// Stores a new topic with the name and the tag of `topic` and returns
    /// its key. The new topic is disabled and has no flashcards, whatever
    /// `topic` says.
    pub fn submit_topic_to_list(&self, study_session: &mut Study, topic: Topic) -> (key: TopicKey)
        requires
            old(study_session).wf(),
            old(study_session)@.topic_order.len() < MAX_ENTITIES,
        ensures
            final(study_session).wf(),
            !old(study_session)@.topics.contains_key(key),
            final(study_session)@ == old(study_session)@.with_new_topic(
                key,
                topic.content@,
                topic.topic_tag,
            ),
            old(study_session)@.refs_live() ==> !old(study_session)@.referenced(key),
            old(study_session)@.links_consistent() && !old(study_session)@.referenced(key)
                ==> final(study_session)@.links_consistent(),
    {
        study_session.create_topic(topic.content, topic.topic_tag)
    }

    /// Judges `user_answer` against the question at the front of the queue,
    /// ignoring outer white space and ASCII case. A right answer removes the
    /// question; a wrong one moves it to the back. With no question left
    /// nothing happens.
    pub fn answer_current(&mut self, user_answer: String) -> (done: Result<
        AnswerOutcome,
        QuizError,
    >)
        requires
            old(self).wf(),
        ensures
            final(self).wf(),
            final(self)@ == (QuizView {
                queue: after_answer(old(self)@.queue, user_answer@),
                ..old(self)@
            }),
            match done {
                Ok(outcome) => old(self)@.queue.len() > 0 && (outcome == AnswerOutcome::Correct
                    <==> answers_agree(old(self)@.queue[0].answer, user_answer@)),
                Err(e) => e == QuizError::EmptyQueue && old(self)@.queue.len() == 0,
            },
    {
        match self.qna_queue.pop_front() {
            Some(question) => {
                if answers_match(question.answer.as_str(), user_answer.as_str()) {
                    proof {
                        assert(self@.queue =~= old(self)@.queue.drop_first());
                    }
                    Ok(AnswerOutcome::Correct)
                } else {
                    self.qna_queue.push_back(question);
                    proof {
                        assert(self@.queue =~= old(self)@.queue.drop_first().push(
                            old(self)@.queue[0],
                        ));
                    }
                    Ok(AnswerOutcome::Incorrect)
                }
            },
            None => {
                proof {
                    assert(self@.queue =~= old(self)@.queue);
                }
                Err(QuizError::EmptyQueue)
            },
        }
    }

    /// Skips the question at the front of the queue and says what comes
    /// next. With no question left nothing happens.
    pub fn advance(&mut self) -> (done: Result<Advance, QuizError>)
        requires
            old(self).wf(),
        ensures
            final(self).wf(),
            match done {
                Ok(Advance::Next(next)) => old(self)@.queue.len() >= 2 && next@ == old(self)@.queue[1] && final(self)@ == (QuizView {
                    queue: old(self)@.queue.drop_first(),
                    ..old(self)@
                }),
                Ok(Advance::Finished) => old(self)@.queue.len() == 1 && final(self)@ == (QuizView {
                    queue: Seq::empty(),
                    ..old(self)@
                }),
                Err(e) => e == QuizError::EmptyQueue && old(self)@.queue.len() == 0 && final(self)@
                    == old(self)@,
            },
    {
        match self.qna_queue.pop_front() {
            Some(_) => {
                proof {
                    assert(self@.queue =~= old(self)@.queue.drop_first());
                }
                if self.qna_queue.len() > 0 {
                    Ok(Advance::Next(self.qna_queue[0].clone()))
                } else {
                    proof {
                        assert(self@.queue =~= Seq::empty());
                    }
                    Ok(Advance::Finished)
                }
            },
            None => {
                proof {
                    assert(self@.queue =~= old(self)@.queue);
                }
                Err(QuizError::EmptyQueue)
            },
        }
    }

    /// Ends the run: it holds nothing afterwards and counts as not started.
    pub fn end_quiz(&mut self)
        ensures
            final(self).wf(),
            final(self)@ == idle_run(),
    {
        self.cards.clear();
        self.qna_queue.clear();
        self.started = false;
        proof {
            assert(self@.queue =~= Seq::empty());
        }
    }

    /// Switches a topic on the flashcard being edited: an enabled topic is
    /// taken off that flashcard, a disabled one is put on it, each time on
    /// both sides; then the topic's `enabled` flag is flipped.
    pub fn select_topic_for_card(&self, study_session: &mut Study, topic_key: TopicKey) -> (done:
        Result<(), QuizError>)
        requires
            old(study_session).wf(),
        ensures
            final(study_session).wf(),
            match done {
                Ok(_) => old(study_session)@.topics.contains_key(topic_key) && final(study_session)@ == old(study_session)@.card_topic_switched(topic_key),
                Err(e) => e == QuizError::NotFound && !old(study_session)@.topics.contains_key(
                    topic_key,
                ) && final(study_session)@ == old(study_session)@,
            },
            old(study_session)@.links_consistent() ==> final(study_session)@.links_consistent(),
    {
        let enabled = match study_session.get_topic(topic_key) {
            Ok(topic) => topic.enabled,
            Err(_) => {
                return Err(QuizError::NotFound);
            },
        };
        match study_session.current_card() {
            Some(card) => {
                if enabled {
                    let _ = study_session.remove_topic_from_flashcard(card, topic_key);
                } else {
                    let _ = study_session.add_topic_to_flashcard(card, topic_key);
                }
            },
            None => {},
        }
        let _ = study_session.toggle_topic_enabled(topic_key);
        Ok(())
    }

    pub fn change_namespace() {
    }

    pub fn operation_for_namespace() {
    }

    /// The question that is asked now, if any is left.
    pub fn current_question(&self) -> (front: Option<&Question>)
        ensures
            match front {
                Some(question) => self@.queue.len() > 0 && question@ == self@.queue[0],
                None => self@.queue.len() == 0,
            },
    {
        if self.qna_queue.len() > 0 {
            Some(&self.qna_queue[0])
        } else {
            None
        }
    }

    /// How many questions are left.
    pub fn remaining_count(&self) -> (n: usize)
        ensures
            n == self@.queue.len(),
    {
        self.qna_queue.len()
    }

    /// The flashcards chosen for the run.
    pub fn selected_cards(&self) -> (cards: &Vec<FlashcardKey>)
        ensures
            cards@ == self@.cards,
    {
        &self.cards
    }

    /// Where the run stands.
    pub fn state(&self) -> (state: RunState)
        ensures
            state == self@.state(),
    {
        if !self.started {
            RunState::NotStarted
        } else if self.qna_queue.len() > 0 {
            RunState::Running
        } else {
            RunState::Finished
        }
    }
}

impl Clone for Quiz {
    fn clone(&self) -> (copy: Quiz)
        ensures
            copy@ == self@,
    {
        let cards = self.cards.clone();
        assert(cards@ =~= self.cards@);
        Quiz { cards, qna_queue: self.get_layout(), started: self.started }
    }
}

impl Default for Quiz {
    /// A run that was not started.
    fn default() -> (quiz: Quiz)
        ensures
            quiz.wf(),
            quiz@ == idle_run(),
    {
        Quiz::new()
    }
}

} // verus!
