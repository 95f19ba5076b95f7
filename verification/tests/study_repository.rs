use flashcard::keys::{keys_contain, keys_without, Handle};
use flashcard::model::{Flashcard, FlashcardField, QuizError, Topic, TopicTag, MAX_ENTITIES};
use flashcard::study::Study;
use flashcard::text::{answers_match, names_match, normalize};

fn names(list: &[&str]) -> Vec<String> {
    list.iter().map(|s| s.to_string()).collect()
}

/// Whether every link between a live topic and a live flashcard is recorded
/// on both sides.
fn links_consistent(study: &Study) -> bool {
    for (t, topic) in study.list_topics() {
        for (c, card) in study.list_flashcards() {
            if topic.qna.contains(&c) != card.topics.contains(&t) {
                return false;
            }
        }
    }
    true
}

#[test]
fn edit_topic() {
    let mut study = Study::new();
    let key = study.create_flashcard("Question".to_string(), "Awnser".to_string(), &names(&[]));
    study.create_topic("topic".to_string(), TopicTag::Default);
    study.add_topics_by_name(key, &names(&["topic"])).unwrap();
    let first = *study.get_flashcard(key).unwrap().topics.get(0).unwrap();
    assert_eq!(study.get_topic(first).unwrap().content, "topic");
}

#[test]
fn a_new_repository_is_empty() {
    let study = Study::new();
    assert_eq!(study.topic_count(), 0);
    assert_eq!(study.flashcard_count(), 0);
    assert!(study.list_topics().is_empty());
    assert!(study.list_flashcards().is_empty());
    assert_eq!(study.current_card(), None);
    assert_eq!(study.current_topic(), None);
    assert_eq!(study.staging_topic(), "");
    assert_eq!(MAX_ENTITIES, 4294967294);
}

#[test]
fn a_new_topic_is_disabled_and_empty() {
    let mut study = Study::new();
    let key = study.create_topic("Math".to_string(), TopicTag::Quiz);
    let topic = study.get_topic(key).unwrap();
    assert_eq!(topic.content, "Math");
    assert_eq!(topic.topic_tag, TopicTag::Quiz);
    assert!(!topic.enabled);
    assert!(topic.qna.is_empty());
    assert_eq!(TopicTag::default(), TopicTag::Default);
}

#[test]
fn topics_may_share_a_name_and_a_name_links_to_all_of_them() {
    let mut study = Study::new();
    let first = study.create_topic("Math".to_string(), TopicTag::Quiz);
    let second = study.create_topic(" math".to_string(), TopicTag::Configure);
    assert_ne!(first, second);
    assert!(!first.same(&second));
    assert!(first.same(&first));
    let card = study.create_flashcard("q".to_string(), "a".to_string(), &names(&["MATH"]));
    assert_eq!(study.get_flashcard(card).unwrap().topics, vec![first, second]);
    assert_eq!(study.get_topic(first).unwrap().qna, vec![card]);
    assert_eq!(study.get_topic(second).unwrap().qna, vec![card]);
    assert_eq!(study.matching_topics("math "), vec![first, second]);
}

#[test]
fn a_lower_case_name_links_to_the_topic() {
    let mut study = Study::new();
    let math = study.create_topic("Math".to_string(), TopicTag::Quiz);
    let card = study.create_flashcard("q".to_string(), "a".to_string(), &names(&["math"]));
    assert_eq!(study.get_flashcard(card).unwrap().topics, vec![math]);
    assert_eq!(study.get_topic(math).unwrap().qna, vec![card]);
    assert!(links_consistent(&study));
}

#[test]
fn names_that_match_nothing_are_passed_over() {
    let mut study = Study::new();
    let math = study.create_topic("Math".to_string(), TopicTag::Quiz);
    let card = study.create_flashcard(
        "q".to_string(),
        "a".to_string(),
        &names(&["physics", " math ", "", "mat"]),
    );
    assert_eq!(study.get_flashcard(card).unwrap().topics, vec![math]);
    assert_eq!(study.resolve(&names(&["physics"])), vec![]);
}

#[test]
fn names_resolve_in_the_order_given_then_oldest_topic_first() {
    let mut study = Study::new();
    let a = study.create_topic("a".to_string(), TopicTag::Quiz);
    let b = study.create_topic("b".to_string(), TopicTag::Quiz);
    let a2 = study.create_topic("A".to_string(), TopicTag::Quiz);
    assert_eq!(study.resolve(&names(&["b", "a"])), vec![b, a, a2]);
    let card = study.create_flashcard("q".to_string(), "x".to_string(), &names(&["b", "a"]));
    assert_eq!(study.get_flashcard(card).unwrap().topics, vec![b, a, a2]);
}

#[test]
fn links_are_never_deduplicated() {
    let mut study = Study::new();
    let math = study.create_topic("Math".to_string(), TopicTag::Quiz);
    let card = study.create_flashcard("q".to_string(), "a".to_string(), &names(&["math", "Math"]));
    assert_eq!(study.get_flashcard(card).unwrap().topics, vec![math, math]);
    assert_eq!(study.get_topic(math).unwrap().qna, vec![card, card]);

    study.add_topic_to_flashcard(card, math).unwrap();
    assert_eq!(study.get_flashcard(card).unwrap().topics, vec![math, math, math]);
    assert_eq!(study.get_topic(math).unwrap().qna, vec![card, card, card]);

    study.add_topics_by_name(card, &names(&["math"])).unwrap();
    assert_eq!(study.get_flashcard(card).unwrap().topics.len(), 4);
    assert_eq!(study.get_topic(math).unwrap().qna.len(), 4);
    assert!(links_consistent(&study));

    // Unlinking takes every copy out, on both sides.
    study.remove_topic_from_flashcard(card, math).unwrap();
    assert!(study.get_flashcard(card).unwrap().topics.is_empty());
    assert!(study.get_topic(math).unwrap().qna.is_empty());
    assert!(links_consistent(&study));
}

#[test]
fn links_stay_symmetric_through_linking_and_unlinking() {
    let mut study = Study::new();
    let t: Vec<_> = ["a", "b", "c"]
        .iter()
        .map(|n| study.create_topic(n.to_string(), TopicTag::Quiz))
        .collect();
    let c: Vec<_> = (0..3)
        .map(|i| study.create_flashcard(format!("q{}", i), "a".to_string(), &names(&["a"])))
        .collect();
    assert!(links_consistent(&study));
    let steps = [
        (true, 0, 1),
        (true, 1, 1),
        (false, 0, 0),
        (true, 2, 2),
        (false, 1, 1),
        (true, 0, 0),
        (false, 2, 0),
        (false, 2, 1),
    ];
    for (link, ci, ti) in steps {
        if link {
            study.add_topic_to_flashcard(c[ci], t[ti]).unwrap();
        } else {
            study.remove_topic_from_flashcard(c[ci], t[ti]).unwrap();
        }
        assert!(links_consistent(&study));
    }
    assert_eq!(study.get_flashcard(c[0]).unwrap().topics, vec![t[1], t[0]]);
    assert_eq!(study.get_flashcard(c[1]).unwrap().topics, vec![t[0]]);
    assert_eq!(study.get_flashcard(c[2]).unwrap().topics, vec![t[2]]);
    assert_eq!(study.get_topic(t[0]).unwrap().qna, vec![c[1], c[0]]);
    assert_eq!(study.get_topic(t[1]).unwrap().qna, vec![c[0]]);
    assert_eq!(study.get_topic(t[2]).unwrap().qna, vec![c[2]]);
}

#[test]
fn unlinking_by_name_takes_the_card_off_every_matching_topic() {
    let mut study = Study::new();
    let a = study.create_topic("Algebra".to_string(), TopicTag::Quiz);
    let b = study.create_topic("Biology".to_string(), TopicTag::Quiz);
    let b2 = study.create_topic(" biology".to_string(), TopicTag::Quiz);
    let card = study.create_flashcard(
        "q".to_string(),
        "a".to_string(),
        &names(&["biology", "algebra", "biology"]),
    );
    let other = study.create_flashcard("o".to_string(), "a".to_string(), &names(&["biology"]));
    assert_eq!(study.get_flashcard(card).unwrap().topics, vec![b, b2, a, b, b2]);

    assert_eq!(study.remove_topics_by_name(card, "BIOLOGY "), Ok(()));
    assert_eq!(study.get_flashcard(card).unwrap().topics, vec![a]);
    assert_eq!(study.get_topic(b).unwrap().qna, vec![other]);
    assert_eq!(study.get_topic(b2).unwrap().qna, vec![other]);
    assert_eq!(study.get_topic(a).unwrap().qna, vec![card]);
    assert!(links_consistent(&study));

    assert_eq!(study.remove_topics_by_name(card, "chemistry"), Ok(()));
    assert_eq!(study.get_flashcard(card).unwrap().topics, vec![a]);

    let mut elsewhere = Study::new();
    elsewhere.create_flashcard("x".to_string(), "y".to_string(), &names(&[]));
    elsewhere.create_flashcard("x".to_string(), "y".to_string(), &names(&[]));
    let stray = elsewhere.create_flashcard("x".to_string(), "y".to_string(), &names(&[]));
    assert_eq!(study.remove_topics_by_name(stray, "algebra"), Err(QuizError::NotFound));
    assert_eq!(study.get_topic(a).unwrap().qna, vec![card]);
}

#[test]
fn topics_are_listed_by_tag_oldest_first() {
    let mut study = Study::new();
    let q1 = study.create_topic("q1".to_string(), TopicTag::Quiz);
    let c1 = study.create_topic("c1".to_string(), TopicTag::Configure);
    let q2 = study.create_topic("q2".to_string(), TopicTag::Quiz);
    let d1 = study.create_topic("d1".to_string(), TopicTag::Default);
    assert_eq!(study.topics_with_tag(TopicTag::Quiz), vec![q1, q2]);
    assert_eq!(study.topics_with_tag(TopicTag::Configure), vec![c1]);
    assert_eq!(study.topics_with_tag(TopicTag::Default), vec![d1]);
    assert_eq!(study.topics_with_tag(TopicTag::Untagged), vec![]);
    study.delete_topic_by_content("q1");
    assert_eq!(study.topics_with_tag(TopicTag::Quiz), vec![q2]);
}

#[test]
fn default_values_are_empty() {
    let topic = Topic::default();
    assert_eq!(topic.content, "");
    assert_eq!(topic.topic_tag, TopicTag::Default);
    assert!(!topic.enabled);
    assert!(topic.qna.is_empty());
    let card = Flashcard::default();
    assert_eq!(card.question, "");
    assert_eq!(card.answer, "");
    assert_eq!(card.id, 0);
    assert!(card.topics.is_empty());
    let study = Study::default();
    assert_eq!(study.topic_count(), 0);
    assert_eq!(study.flashcard_count(), 0);
}

#[test]
fn operations_on_a_missing_key_report_not_found_and_change_nothing() {
    let mut study = Study::new();
    let gone = study.create_topic("gone".to_string(), TopicTag::Quiz);
    study.delete_topic_by_content("gone");
    let kept = study.create_topic("kept".to_string(), TopicTag::Quiz);
    let card = study.create_flashcard("q".to_string(), "a".to_string(), &names(&["kept"]));

    let mut other = Study::new();
    other.create_flashcard("x".to_string(), "y".to_string(), &names(&[]));
    let stray = other.create_flashcard("x".to_string(), "y".to_string(), &names(&[]));

    assert!(matches!(study.get_topic(gone), Err(QuizError::NotFound)));
    assert!(matches!(study.get_flashcard(stray), Err(QuizError::NotFound)));
    assert_eq!(study.toggle_topic_enabled(gone), Err(QuizError::NotFound));
    assert_eq!(
        study.edit_flashcard_field(stray, FlashcardField::Question, "z".to_string()),
        Err(QuizError::NotFound)
    );
    assert_eq!(study.set_flashcard_id(stray, 3), Err(QuizError::NotFound));
    assert_eq!(study.add_topic_to_flashcard(card, gone), Err(QuizError::NotFound));
    assert_eq!(study.add_topic_to_flashcard(stray, kept), Err(QuizError::NotFound));
    assert_eq!(study.remove_topic_from_flashcard(card, gone), Err(QuizError::NotFound));
    assert_eq!(study.remove_topic_from_flashcard(stray, kept), Err(QuizError::NotFound));
    assert_eq!(study.add_topics_by_name(stray, &names(&["kept"])), Err(QuizError::NotFound));
    assert_eq!(study.set_current_card(Some(stray)), Err(QuizError::NotFound));
    assert_eq!(study.set_current_topic(Some(gone)), Err(QuizError::NotFound));

    assert_eq!(study.get_flashcard(card).unwrap().topics, vec![kept]);
    assert_eq!(study.get_topic(kept).unwrap().qna, vec![card]);
    assert_eq!(study.current_card(), None);
    assert_eq!(study.current_topic(), None);
}

#[test]
fn editing_replaces_one_text_only() {
    let mut study = Study::new();
    let math = study.create_topic("Math".to_string(), TopicTag::Quiz);
    let card = study.create_flashcard("q".to_string(), "a".to_string(), &names(&["math"]));
    study.edit_flashcard_field(card, FlashcardField::Question, "Q2".to_string()).unwrap();
    {
        let stored = study.get_flashcard(card).unwrap();
        assert_eq!(stored.question, "Q2");
        assert_eq!(stored.answer, "a");
    }
    study.edit_flashcard_field(card, FlashcardField::Answer, "A2".to_string()).unwrap();
    study.set_flashcard_id(card, 7).unwrap();
    let stored = study.get_flashcard(card).unwrap();
    assert_eq!(stored.question, "Q2");
    assert_eq!(stored.answer, "A2");
    assert_eq!(stored.id, 7);
    assert_eq!(stored.topics, vec![math]);
}

#[test]
fn toggling_flips_the_flag_and_nothing_else() {
    let mut study = Study::new();
    let math = study.create_topic("Math".to_string(), TopicTag::Quiz);
    let other = study.create_topic("Other".to_string(), TopicTag::Quiz);
    let card = study.create_flashcard("q".to_string(), "a".to_string(), &names(&["math"]));
    study.toggle_topic_enabled(math).unwrap();
    assert!(study.get_topic(math).unwrap().enabled);
    assert!(!study.get_topic(other).unwrap().enabled);
    assert_eq!(study.get_topic(math).unwrap().qna, vec![card]);
    assert_eq!(study.get_topic(math).unwrap().content, "Math");
    study.toggle_topic_enabled(math).unwrap();
    assert!(!study.get_topic(math).unwrap().enabled);
}

#[test]
fn deleting_a_topic_leaves_the_reference_on_the_card() {
    let mut study = Study::new();
    let math = study.create_topic("Math".to_string(), TopicTag::Quiz);
    let art = study.create_topic("Art".to_string(), TopicTag::Quiz);
    let card = study.create_flashcard("q".to_string(), "a".to_string(), &names(&["math", "art"]));
    study.delete_topic_by_content("math");
    assert!(matches!(study.get_topic(math), Err(QuizError::NotFound)));
    assert_eq!(study.topic_keys(), &vec![art]);
    assert_eq!(study.get_flashcard(card).unwrap().topics, vec![math, art]);
    assert!(study.get_flashcard(card).unwrap().topics.contains(&math));
    assert!(links_consistent(&study));
}

#[test]
fn deletion_compares_the_normalised_name_with_the_argument_as_given() {
    let mut study = Study::new();
    let padded = study.create_topic("  Math ".to_string(), TopicTag::Quiz);
    let plain = study.create_topic("MATH".to_string(), TopicTag::Quiz);
    let other = study.create_topic("Maths".to_string(), TopicTag::Quiz);
    study.delete_topic_by_content("Math");
    assert_eq!(study.topic_keys(), &vec![padded, plain, other]);
    study.delete_topic_by_content(" math");
    assert_eq!(study.topic_count(), 3);
    study.delete_topic_by_content("math");
    assert_eq!(study.topic_keys(), &vec![other]);
    study.delete_topic_by_content("nothing");
    assert_eq!(study.topic_keys(), &vec![other]);
}

#[test]
fn a_key_is_not_handed_out_again_after_a_deletion() {
    let mut study = Study::new();
    let first = study.create_topic("a".to_string(), TopicTag::Quiz);
    study.delete_topic_by_content("a");
    let second = study.create_topic("a".to_string(), TopicTag::Quiz);
    assert_ne!(first, second);
    assert!(matches!(study.get_topic(first), Err(QuizError::NotFound)));
    assert_eq!(study.get_topic(second).unwrap().content, "a");
}

#[test]
fn listings_follow_insertion_order_also_after_a_deletion() {
    let mut study = Study::new();
    let a = study.create_topic("a".to_string(), TopicTag::Quiz);
    let _b = study.create_topic("b".to_string(), TopicTag::Quiz);
    let c = study.create_topic("c".to_string(), TopicTag::Quiz);
    study.delete_topic_by_content("b");
    let d = study.create_topic("d".to_string(), TopicTag::Quiz);
    let listed: Vec<_> = study.list_topics().into_iter().map(|(k, t)| (k, t.content)).collect();
    assert_eq!(
        listed,
        vec![(a, "a".to_string()), (c, "c".to_string()), (d, "d".to_string())]
    );
    // The listing can be taken again and again.
    assert_eq!(study.list_topics().len(), 3);

    let x = study.create_flashcard("x".to_string(), "1".to_string(), &names(&[]));
    let y = study.create_flashcard("y".to_string(), "2".to_string(), &names(&[]));
    let cards: Vec<_> =
        study.list_flashcards().into_iter().map(|(k, c)| (k, c.question)).collect();
    assert_eq!(cards, vec![(x, "x".to_string()), (y, "y".to_string())]);
    assert_eq!(study.flashcard_keys(), &vec![x, y]);
    assert_eq!(study.flashcard_count(), 2);
}

#[test]
fn the_cursor_remembers_what_is_being_edited() {
    let mut study = Study::new();
    let topic = study.create_topic("t".to_string(), TopicTag::Quiz);
    let card = study.create_flashcard("q".to_string(), "a".to_string(), &names(&[]));
    study.set_current_card(Some(card)).unwrap();
    study.set_current_topic(Some(topic)).unwrap();
    study.set_staging_topic("draft".to_string());
    assert_eq!(study.current_card(), Some(card));
    assert_eq!(study.current_topic(), Some(topic));
    assert_eq!(study.staging_topic(), "draft");
    study.set_current_card(None).unwrap();
    study.set_current_topic(None).unwrap();
    assert_eq!(study.current_card(), None);
    assert_eq!(study.current_topic(), None);
}

#[test]
fn topic_names_are_compared_trimmed_and_lower_cased() {
    assert_eq!(normalize("  MaTh\t"), "math");
    assert_eq!(normalize("ÉCOLE"), "école");
    assert_eq!(normalize(" \n "), "");
    assert!(names_match("Math", "math"));
    assert!(names_match(" Math ", "MATH"));
    assert!(names_match("École", "éCOLE"));
    assert!(!names_match("Math", "Maths"));
    assert!(!names_match("Ma th", "Math"));
}

#[test]
fn answers_are_compared_trimmed_ignoring_ascii_case_only() {
    assert!(answers_match("Yes", "yES"));
    assert!(answers_match("  yes", "yes\n"));
    assert!(answers_match("", "   "));
    assert!(!answers_match("yes", "no"));
    assert!(!answers_match("y es", "yes"));
    assert!(!answers_match("É", "é"));
    assert!(answers_match("é", "é"));
}

#[test]
fn key_lists_are_searched_and_filtered_by_key() {
    let mut study = Study::new();
    let t1 = study.create_topic("a".to_string(), TopicTag::Quiz);
    let t2 = study.create_topic("b".to_string(), TopicTag::Quiz);
    let c1 = study.create_flashcard("q".to_string(), "a".to_string(), &names(&[]));
    let c2 = study.create_flashcard("q".to_string(), "a".to_string(), &names(&[]));
    assert_eq!(keys_without(&vec![t1, t2, t1], t1), vec![t2]);
    assert_eq!(keys_without(&vec![t1, t1], t2), vec![t1, t1]);
    assert_eq!(keys_without(&vec![c1, c2, c1, c2], c2), vec![c1, c1]);
    assert!(keys_contain(&vec![c1, c2], c2));
    assert!(!keys_contain(&vec![c1, c1], c2));
    assert!(!keys_contain(&vec![], c1));
    assert!(c1.same(&c1));
    assert!(!c1.same(&c2));
}
