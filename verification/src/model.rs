//! The entities of a study session and their mathematical views.

use crate::keys::{FlashcardKey, TopicKey};
use vstd::prelude::*;

verus! {

/// Most topics, and most flashcards, that a repository can hold.
pub const MAX_ENTITIES: usize = 0xFFFF_FFFE;

/// The role a topic plays.
#[derive(Clone, Copy, Debug, PartialEq, Eq, Structural)]
pub enum TopicTag {
    /// Its flashcards are asked in a quiz while the topic is enabled.
    Quiz,
    /// It is offered in the selection list.
    Configure,
    /// A topic that was just created.
    Default,
    /// No role.
    Untagged,
}

impl Default for TopicTag {
    fn default() -> (tag: TopicTag)
        ensures
            tag == TopicTag::Default,
    {
        TopicTag::Default
    }
}

/// A named group of flashcards.
#[derive(Debug)]
pub struct Topic {
    /// Display label; topics are found by it, ignoring case and outer white space.
    pub content: String,
    pub topic_tag: TopicTag,
    pub enabled: bool,
    /// The flashcards filed under this topic, in the order they were added.
    pub qna: Vec<FlashcardKey>,
}

/// A topic as a mathematical value.
pub struct TopicView {
    pub content: Seq<char>,
    pub topic_tag: TopicTag,
    pub enabled: bool,
    pub qna: Seq<FlashcardKey>,
}

impl View for Topic {
    type V = TopicView;

    open spec fn view(&self) -> TopicView {
        TopicView {
            content: self.content@,
            topic_tag: self.topic_tag,
            enabled: self.enabled,
            qna: self.qna@,
        }
    }
}

impl Default for Topic {
    /// A disabled topic without a name or flashcards, tagged as just created.
    fn default() -> (topic: Topic)
        ensures
            topic@ == (TopicView {
                content: Seq::empty(),
                topic_tag: TopicTag::Default,
                enabled: false,
                qna: Seq::empty(),
            }),
    {
        Topic {
            content: String::new(),
            topic_tag: TopicTag::Default,
            enabled: false,
            qna: Vec::new(),
        }
    }
}

impl Clone for Topic {
    fn clone(&self) -> (copy: Topic)
        ensures
            copy@ == self@,
    {
        let qna = self.qna.clone();
        assert(qna@ =~= self.qna@);
        Topic {
            content: self.content.clone(),
            topic_tag: self.topic_tag,
            enabled: self.enabled,
            qna,
        }
    }
}

/// A question with its answer and the topics it is filed under.
#[derive(Debug)]
pub struct Flashcard {
    pub question: String,
    pub answer: String,
    /// A number the caller may attach; it need not be unique.
    pub id: u32,
    /// The topics this card is filed under, in the order they were added.
    pub topics: Vec<TopicKey>,
}

/// A flashcard as a mathematical value.
pub struct FlashcardView {
    pub question: Seq<char>,
    pub answer: Seq<char>,
    pub id: u32,
    pub topics: Seq<TopicKey>,
}

impl View for Flashcard {
    type V = FlashcardView;

    open spec fn view(&self) -> FlashcardView {
        FlashcardView {
            question: self.question@,
            answer: self.answer@,
            id: self.id,
            topics: self.topics@,
        }
    }
}

impl Default for Flashcard {
    /// A flashcard with empty texts, numbered 0 and filed under nothing.
    fn default() -> (card: Flashcard)
        ensures
            card@ == (FlashcardView {
                question: Seq::empty(),
                answer: Seq::empty(),
                id: 0,
                topics: Seq::empty(),
            }),
    {
        Flashcard { question: String::new(), answer: String::new(), id: 0, topics: Vec::new() }
    }
}

impl Clone for Flashcard {
    fn clone(&self) -> (copy: Flashcard)
        ensures
            copy@ == self@,
    {
        let topics = self.topics.clone();
        assert(topics@ =~= self.topics@);
        Flashcard {
            question: self.question.clone(),
            answer: self.answer.clone(),
            id: self.id,
            topics,
        }
    }
}

/// One entry of a quiz queue: what is asked and what counts as the answer.
#[derive(Debug, PartialEq)]
pub struct Question {
    pub question: String,
    pub answer: String,
    pub id: u32,
}

/// A queue entry as a mathematical value.
pub struct QuestionView {
    pub question: Seq<char>,
    pub answer: Seq<char>,
    pub id: u32,
}

impl View for Question {
    type V = QuestionView;

    open spec fn view(&self) -> QuestionView {
        QuestionView { question: self.question@, answer: self.answer@, id: self.id }
    }
}

impl Clone for Question {
    fn clone(&self) -> (copy: Question)
        ensures
            copy@ == self@,
    {
        Question { question: self.question.clone(), answer: self.answer.clone(), id: self.id }
    }
}

/// The queue entry that asks `card`.
pub open spec fn question_of(card: FlashcardView) -> QuestionView {
    QuestionView { question: card.question, answer: card.answer, id: card.id }
}

impl Question {
    /// Builds the queue entry that asks `card`.
    pub fn from_card(card: &Flashcard) -> (q: Question)
        ensures
            q@ == question_of(card@),
    {
        Question { question: card.question.clone(), answer: card.answer.clone(), id: card.id }
    }
}

/// Why an operation did nothing.
#[derive(Clone, Copy, Debug, PartialEq, Eq, Structural)]
pub enum QuizError {
    /// The key names no live topic or flashcard.
    NotFound,
    /// The quiz run is in a state in which the operation makes no sense.
    InvalidState,
    /// There is no question left to answer or skip.
    EmptyQueue,
}

/// Which text of a flashcard an edit replaces.
#[derive(Clone, Copy, Debug, PartialEq, Eq, Structural)]
pub enum FlashcardField {
    Question,
    Answer,
}

} // verus!
