use flashcard::model::{QuizError, Topic, TopicTag};
use flashcard::quiz::{Advance, AnswerOutcome, Quiz};
use flashcard::state::RunState;
use flashcard::study::Study;

fn names(list: &[&str]) -> Vec<String> {
    list.iter().map(|s| s.to_string()).collect()
}

/// A repository with an enabled quiz topic "Math" and `cards` flashcards in it.
fn math_study(cards: &[(&str, &str)]) -> Study {
    let mut study = Study::new();
    let math = study.create_topic("Math".to_string(), TopicTag::Quiz);
    study.toggle_topic_enabled(math).unwrap();
    for (q, a) in cards {
        study.create_flashcard(q.to_string(), a.to_string(), &names(&["Math"]));
    }
    study
}

#[test]
fn test_quiz_flow() {
    // Create an empty study session.
    let mut study = Study::default();

    // Insert some topics.
    let quiz_topic_key = study.create_topic("Math".to_string(), TopicTag::Quiz);
    let _configure_topic_key = study.create_topic("History".to_string(), TopicTag::Configure);

    // Create a flashcard that belongs to the Math topic.
    let flashcard_key =
        study.create_flashcard("What is 2+2?".to_string(), "4".to_string(), &names(&["Math"]));
    study.set_flashcard_id(flashcard_key, 1).unwrap();
    assert_eq!(study.get_flashcard(flashcard_key).unwrap().topics, vec![quiz_topic_key]);
    assert_eq!(study.get_flashcard(flashcard_key).unwrap().id, 1);

    // Enable the Math topic (so it qualifies for the quiz).
    study.toggle_topic_enabled(quiz_topic_key).unwrap();

    // Create a quiz and start it using the study session.
    let mut quiz = Quiz::default();
    quiz.start_quiz(&study);

    // Check that the quiz has one question.
    assert_eq!(quiz.get_layout().len(), 1);

    // Simulate answering the question incorrectly.
    quiz.answer_current("3".to_string()).unwrap();
    // The question should have been requeued.
    assert_eq!(quiz.get_layout().len(), 1);

    // Now answer correctly.
    quiz.answer_current("4".to_string()).unwrap();
    // Now the question queue should be empty.
    assert_eq!(quiz.get_layout().len(), 0);

    // End the quiz.
    quiz.end_quiz();
}

#[test]
fn disabled_topic_selects_nothing_enabled_topic_selects_its_card() {
    let mut study = Study::new();
    let math = study.create_topic("Math".to_string(), TopicTag::Quiz);
    assert!(!study.get_topic(math).unwrap().enabled);
    let card = study.create_flashcard("2+2?".to_string(), "4".to_string(), &names(&["Math"]));

    let mut quiz = Quiz::new();
    quiz.start_quiz(&study);
    assert!(quiz.selected_cards().is_empty());
    assert_eq!(quiz.remaining_count(), 0);

    study.toggle_topic_enabled(math).unwrap();
    quiz.start_quiz(&study);
    assert_eq!(quiz.selected_cards(), &vec![card]);
    let layout = quiz.get_layout();
    assert_eq!(layout.len(), 1);
    assert_eq!(layout[0].question, "2+2?");
    assert_eq!(layout[0].answer, "4");
    assert_eq!(layout[0].id, 0);
}

#[test]
fn wrong_then_right_answer_finishes_the_run() {
    let study = math_study(&[("2+2?", "4")]);
    let mut quiz = Quiz::new();
    assert_eq!(quiz.state(), RunState::NotStarted);
    quiz.start_quiz(&study);
    assert_eq!(quiz.state(), RunState::Running);

    assert_eq!(quiz.answer_current("3".to_string()), Ok(AnswerOutcome::Incorrect));
    assert_eq!(quiz.remaining_count(), 1);
    assert_eq!(quiz.state(), RunState::Running);

    assert_eq!(quiz.answer_current("4".to_string()), Ok(AnswerOutcome::Correct));
    assert_eq!(quiz.remaining_count(), 0);
    assert_eq!(quiz.state(), RunState::Finished);

    quiz.end_quiz();
    assert_eq!(quiz.state(), RunState::NotStarted);
    assert!(quiz.selected_cards().is_empty());
}

#[test]
fn a_card_needs_only_one_open_topic() {
    let mut study = Study::new();
    let quiz_off = study.create_topic("Off".to_string(), TopicTag::Quiz);
    let quiz_on = study.create_topic("On".to_string(), TopicTag::Quiz);
    let configure_on = study.create_topic("Cfg".to_string(), TopicTag::Configure);
    let default_on = study.create_topic("Def".to_string(), TopicTag::Default);
    let untagged_on = study.create_topic("Un".to_string(), TopicTag::Untagged);
    for t in [quiz_on, configure_on, default_on, untagged_on] {
        study.toggle_topic_enabled(t).unwrap();
    }
    let none = study.create_flashcard("none".to_string(), "a".to_string(), &names(&[]));
    let only_off = study.create_flashcard("off".to_string(), "a".to_string(), &names(&["off"]));
    let wrong_tags = study.create_flashcard(
        "tags".to_string(),
        "a".to_string(),
        &names(&["cfg", "def", "un"]),
    );
    let many = study.create_flashcard(
        "many".to_string(),
        "a".to_string(),
        &names(&["off", "cfg", "on", "def"]),
    );
    let one = study.create_flashcard("one".to_string(), "a".to_string(), &names(&["on"]));

    assert!(!study.qualifies(&study.get_flashcard(none).unwrap().topics));
    assert!(!study.qualifies(&study.get_flashcard(only_off).unwrap().topics));
    assert!(!study.qualifies(&study.get_flashcard(wrong_tags).unwrap().topics));
    assert!(study.qualifies(&study.get_flashcard(many).unwrap().topics));

    let mut quiz = Quiz::new();
    quiz.start_quiz(&study);
    assert_eq!(quiz.selected_cards(), &vec![many, one]);
    let asked: Vec<String> = quiz.get_layout().iter().map(|q| q.question.clone()).collect();
    assert_eq!(asked, vec!["many".to_string(), "one".to_string()]);
    let _ = quiz_off;
}

#[test]
fn a_dangling_topic_reference_counts_for_nothing() {
    let mut study = Study::new();
    let math = study.create_topic("Math".to_string(), TopicTag::Quiz);
    study.toggle_topic_enabled(math).unwrap();
    let card = study.create_flashcard("q".to_string(), "a".to_string(), &names(&["math"]));
    study.delete_topic_by_content("math");
    let mut quiz = Quiz::new();
    quiz.start_quiz(&study);
    assert!(quiz.selected_cards().is_empty());
    assert_eq!(study.get_flashcard(card).unwrap().topics, vec![math]);
}

#[test]
fn starting_twice_gives_the_same_run() {
    let study = math_study(&[("a?", "1"), ("b?", "2"), ("c?", "3")]);
    let mut first = Quiz::new();
    let mut second = Quiz::new();
    first.start_quiz(&study);
    second.start_quiz(&study);
    assert_eq!(first.selected_cards(), second.selected_cards());
    assert_eq!(first.get_layout(), second.get_layout());
    // Starting again over a used run gives the same run once more.
    first.answer_current("1".to_string()).unwrap();
    first.start_quiz(&study);
    assert_eq!(first.get_layout(), second.get_layout());
    let asked: Vec<String> = first.get_layout().iter().map(|q| q.question.clone()).collect();
    assert_eq!(asked, vec!["a?".to_string(), "b?".to_string(), "c?".to_string()]);
}

#[test]
fn right_answers_drain_the_queue_in_as_many_calls_as_cards() {
    let study = math_study(&[("a?", "1"), ("b?", "2"), ("c?", "3")]);
    let mut quiz = Quiz::new();
    quiz.start_quiz(&study);
    let total = quiz.selected_cards().len();
    assert_eq!(total, 3);
    let mut calls = 0;
    while quiz.remaining_count() > 0 {
        let answer = quiz.current_question().unwrap().answer.clone();
        assert_eq!(quiz.answer_current(answer), Ok(AnswerOutcome::Correct));
        calls += 1;
        assert_eq!(quiz.remaining_count(), total - calls);
    }
    assert_eq!(calls, total);
    assert_eq!(quiz.state(), RunState::Finished);
}

#[test]
fn a_wrong_answer_moves_the_question_to_the_back() {
    let study = math_study(&[("a?", "1"), ("b?", "2"), ("c?", "3")]);
    let mut quiz = Quiz::new();
    quiz.start_quiz(&study);
    assert_eq!(quiz.answer_current("nope".to_string()), Ok(AnswerOutcome::Incorrect));
    let asked: Vec<String> = quiz.get_layout().iter().map(|q| q.question.clone()).collect();
    assert_eq!(asked, vec!["b?".to_string(), "c?".to_string(), "a?".to_string()]);
    assert_eq!(quiz.remaining_count(), 3);
    assert_eq!(quiz.selected_cards().len(), 3);
}

#[test]
fn answers_ignore_outer_space_and_ascii_case() {
    let study = math_study(&[("capital?", " Paris ")]);
    let mut quiz = Quiz::new();
    quiz.start_quiz(&study);
    assert_eq!(quiz.answer_current("pari s".to_string()), Ok(AnswerOutcome::Incorrect));
    assert_eq!(quiz.answer_current("\tPARIS\n".to_string()), Ok(AnswerOutcome::Correct));
    assert_eq!(quiz.remaining_count(), 0);
}

#[test]
fn answering_with_nothing_left_reports_an_empty_queue() {
    let mut quiz = Quiz::new();
    assert_eq!(quiz.answer_current("x".to_string()), Err(QuizError::EmptyQueue));
    assert!(matches!(quiz.advance(), Err(QuizError::EmptyQueue)));
    assert_eq!(quiz.state(), RunState::NotStarted);

    let study = math_study(&[("a?", "1")]);
    quiz.start_quiz(&study);
    quiz.answer_current("1".to_string()).unwrap();
    assert_eq!(quiz.answer_current("1".to_string()), Err(QuizError::EmptyQueue));
    assert!(matches!(quiz.advance(), Err(QuizError::EmptyQueue)));
    assert_eq!(quiz.state(), RunState::Finished);
    assert!(quiz.current_question().is_none());
}

#[test]
fn advance_skips_the_front_question() {
    let study = math_study(&[("a?", "1"), ("b?", "2")]);
    let mut quiz = Quiz::new();
    quiz.start_quiz(&study);
    assert_eq!(quiz.current_question().unwrap().question, "a?");
    match quiz.advance() {
        Ok(Advance::Next(next)) => {
            assert_eq!(next.question, "b?");
            assert_eq!(next.answer, "2");
        }
        other => panic!("unexpected {:?}", other),
    }
    assert_eq!(quiz.remaining_count(), 1);
    assert!(matches!(quiz.advance(), Ok(Advance::Finished)));
    assert_eq!(quiz.remaining_count(), 0);
    assert_eq!(quiz.state(), RunState::Finished);
}

#[test]
fn a_card_is_submitted_only_to_a_started_run_and_only_if_it_qualifies() {
    let mut study = math_study(&[]);
    let other = study.create_topic("Other".to_string(), TopicTag::Configure);
    let good = study.create_flashcard("g?".to_string(), "1".to_string(), &names(&["math"]));
    let bad = study.create_flashcard("b?".to_string(), "2".to_string(), &names(&["other"]));
    let good_card = study.get_flashcard(good).unwrap().clone();
    let bad_card = study.get_flashcard(bad).unwrap().clone();
    let _ = other;

    let mut quiz = Quiz::new();
    assert_eq!(
        quiz.submit_card_to_quiz(good_card.clone(), good, &study),
        Err(QuizError::InvalidState)
    );
    assert_eq!(quiz.remaining_count(), 0);
    assert_eq!(quiz.state(), RunState::NotStarted);

    quiz.start_quiz(&study);
    assert_eq!(quiz.remaining_count(), 1);
    assert_eq!(quiz.submit_card_to_quiz(bad_card, bad, &study), Ok(false));
    assert_eq!(quiz.remaining_count(), 1);
    assert_eq!(quiz.submit_card_to_quiz(good_card, good, &study), Ok(true));
    assert_eq!(quiz.remaining_count(), 2);
    assert_eq!(quiz.selected_cards(), &vec![good, good]);
    assert_eq!(quiz.get_layout()[1].question, "g?");
}

#[test]
fn toggling_a_topic_leaves_a_started_run_alone() {
    let mut study = Study::new();
    let math = study.create_topic("Math".to_string(), TopicTag::Quiz);
    study.create_flashcard("q".to_string(), "a".to_string(), &names(&["Math"]));
    let mut quiz = Quiz::new();
    quiz.start_quiz(&study);
    assert_eq!(quiz.remaining_count(), 0);

    assert_eq!(quiz.select_topic_to_quiz(&mut study, math), Ok(()));
    assert!(study.get_topic(math).unwrap().enabled);
    assert_eq!(quiz.remaining_count(), 0);
    quiz.start_quiz(&study);
    assert_eq!(quiz.remaining_count(), 1);

    assert_eq!(quiz.select_topic_to_quiz(&mut study, math), Ok(()));
    assert!(!study.get_topic(math).unwrap().enabled);
    assert_eq!(quiz.remaining_count(), 1);

    study.delete_topic_by_content("math");
    assert_eq!(quiz.select_topic_to_quiz(&mut study, math), Err(QuizError::NotFound));
}

#[test]
fn a_submitted_topic_starts_disabled_and_empty() {
    let mut study = math_study(&[("q", "a")]);
    let card = study.flashcard_keys()[0];
    let quiz = Quiz::new();
    let key = quiz.submit_topic_to_list(
        &mut study,
        Topic {
            content: "Physics".to_string(),
            topic_tag: TopicTag::Configure,
            enabled: true,
            qna: vec![card],
        },
    );
    let stored = study.get_topic(key).unwrap();
    assert_eq!(stored.content, "Physics");
    assert_eq!(stored.topic_tag, TopicTag::Configure);
    assert!(!stored.enabled);
    assert!(stored.qna.is_empty());
    assert_eq!(study.topic_count(), 2);
    assert_eq!(study.topic_keys()[1], key);
}

#[test]
fn the_staging_topic_is_set_through_the_quiz() {
    let mut study = Study::new();
    let mut quiz = Quiz::new();
    assert_eq!(study.staging_topic(), "");
    quiz.set_topic(&mut study, "Bio".to_string());
    assert_eq!(study.staging_topic(), "Bio");
}

#[test]
fn selecting_a_topic_for_the_current_card_links_and_unlinks_on_both_sides() {
    let mut study = Study::new();
    let math = study.create_topic("Math".to_string(), TopicTag::Default);
    let card = study.create_flashcard("q".to_string(), "a".to_string(), &names(&[]));
    let quiz = Quiz::new();

    // No current card: only the flag flips.
    assert_eq!(quiz.select_topic_for_card(&mut study, math), Ok(()));
    assert!(study.get_topic(math).unwrap().enabled);
    assert!(study.get_flashcard(card).unwrap().topics.is_empty());
    assert_eq!(quiz.select_topic_for_card(&mut study, math), Ok(()));
    assert!(!study.get_topic(math).unwrap().enabled);

    study.set_current_card(Some(card)).unwrap();
    assert_eq!(quiz.select_topic_for_card(&mut study, math), Ok(()));
    assert!(study.get_topic(math).unwrap().enabled);
    assert_eq!(study.get_flashcard(card).unwrap().topics, vec![math]);
    assert_eq!(study.get_topic(math).unwrap().qna, vec![card]);

    assert_eq!(quiz.select_topic_for_card(&mut study, math), Ok(()));
    assert!(!study.get_topic(math).unwrap().enabled);
    assert!(study.get_flashcard(card).unwrap().topics.is_empty());
    assert!(study.get_topic(math).unwrap().qna.is_empty());

    study.delete_topic_by_content("math");
    assert_eq!(quiz.select_topic_for_card(&mut study, math), Err(QuizError::NotFound));
}

#[test]
fn update_topic_names_the_topics_of_the_current_card() {
    let mut study = Study::new();
    let a = study.create_topic("A".to_string(), TopicTag::Quiz);
    let _b = study.create_topic("B".to_string(), TopicTag::Quiz);
    let c = study.create_topic("C".to_string(), TopicTag::Quiz);
    let card = study.create_flashcard("q".to_string(), "a".to_string(), &names(&["c", "a"]));
    let mut quiz = Quiz::new();
    assert!(quiz.update_topic(&mut study).is_empty());
    study.set_current_card(Some(card)).unwrap();
    assert_eq!(quiz.update_topic(&mut study), vec![a, c]);
    assert_eq!(study.get_flashcard(card).unwrap().topics, vec![c, a]);
}

#[test]
fn a_copied_run_goes_its_own_way() {
    let study = math_study(&[("a?", "1"), ("b?", "2")]);
    let mut quiz = Quiz::new();
    quiz.start_quiz(&study);
    let mut copy = quiz.clone();
    assert_eq!(copy.get_layout(), quiz.get_layout());
    assert_eq!(copy.selected_cards(), quiz.selected_cards());
    assert_eq!(copy.state(), RunState::Running);
    copy.answer_current("1".to_string()).unwrap();
    assert_eq!(copy.remaining_count(), 1);
    assert_eq!(quiz.remaining_count(), 2);
}

#[test]
fn the_namespace_hooks_do_nothing() {
    Quiz::change_namespace();
    Quiz::operation_for_namespace();
}
