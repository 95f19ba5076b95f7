//! The two slot maps that own the topics and the flashcards.
//!
//! Each arena is a `slotmap::SlotMap` behind an opaque struct: the slot map
//! cannot be declared to the verifier as it is, because its key parameter is
//! bound by a trait of its crate. What an arena holds is named by a map from
//! keys to values, and each operation says what it does to that map. Nothing
//! here is proved: these contracts restate what the slot map does.

use crate::keys::{FlashcardKey, TopicKey};
use crate::model::{Flashcard, Topic, MAX_ENTITIES};
use slotmap::{DefaultKey, SlotMap};
use vstd::prelude::*;

verus! {

/// Owner of all topics: a `SlotMap<DefaultKey, Topic>`.
#[verifier::external_body]
pub struct TopicArena {
    slots: SlotMap<DefaultKey, Topic>,
}

/// Owner of all flashcards: a `SlotMap<DefaultKey, Flashcard>`.
#[verifier::external_body]
pub struct CardArena {
    slots: SlotMap<DefaultKey, Flashcard>,
}

/// The topics an arena holds: the value stored under each live key.
pub uninterp spec fn topic_entries(arena: TopicArena) -> Map<TopicKey, Topic>;

/// The flashcards an arena holds: the value stored under each live key.
pub uninterp spec fn card_entries(arena: CardArena) -> Map<FlashcardKey, Flashcard>;

/// `SlotMap::with_key`: a new slot map holds nothing.
#[verifier::external_body]
pub(crate) fn topic_arena_new() -> (arena: TopicArena)
    ensures
        topic_entries(arena) == (Map::<TopicKey, Topic>::empty()),
{
    TopicArena { slots: SlotMap::with_key() }
}

/// `SlotMap::insert`: stores the value under a key that names no entry held
/// so far, and returns that key. The slot map panics when it is full; it
/// has room for `MAX_ENTITIES` entries, and the arena never detaches a slot,
/// so below that number a slot is free or can be added.
#[verifier::external_body]
pub(crate) fn topic_arena_insert(arena: &mut TopicArena, topic: Topic) -> (key: TopicKey)
    requires
        topic_entries(*old(arena)).dom().finite(),
        topic_entries(*old(arena)).len() < MAX_ENTITIES,
    ensures
        !topic_entries(*old(arena)).contains_key(key),
        topic_entries(*final(arena)) == topic_entries(*old(arena)).insert(key, topic),
{
    TopicKey { slot: arena.slots.insert(topic) }
}

/// `SlotMap::get`: the entry under a live key, nothing for any other key.
#[verifier::external_body]
pub(crate) fn topic_arena_get(arena: &TopicArena, key: TopicKey) -> (found: Option<&Topic>)
    ensures
        match found {
            Some(topic) => topic_entries(*arena).contains_key(key) && *topic == topic_entries(
                *arena,
            )[key],
            None => !topic_entries(*arena).contains_key(key),
        },
{
    arena.slots.get(key.slot)
}

/// `SlotMap::get_mut`: a mutable borrow of the entry under a live key; what
/// is written through it is what the arena then holds under that key, and no
/// other entry changes.
#[verifier::external_body]
pub(crate) fn topic_arena_get_mut(arena: &mut TopicArena, key: TopicKey) -> (found: Option<&mut Topic>)
    ensures
        match found {
            Some(topic) => topic_entries(*old(arena)).contains_key(key) && *topic == topic_entries(
                *old(arena),
            )[key] && topic_entries(*final(arena)) == topic_entries(*old(arena)).insert(
                key,
                *final(topic),
            ),
            None => !topic_entries(*old(arena)).contains_key(key) && topic_entries(*final(arena))
                == topic_entries(*old(arena)),
        },
{
    arena.slots.get_mut(key.slot)
}

/// `SlotMap::remove`: takes the entry under a live key out and returns it;
/// for any other key nothing changes.
#[verifier::external_body]
pub(crate) fn topic_arena_remove(arena: &mut TopicArena, key: TopicKey) -> (taken: Option<Topic>)
    ensures
        match taken {
            Some(topic) => topic_entries(*old(arena)).contains_key(key) && topic == topic_entries(
                *old(arena),
            )[key] && topic_entries(*final(arena)) == topic_entries(*old(arena)).remove(key),
            None => !topic_entries(*old(arena)).contains_key(key) && topic_entries(*final(arena))
                == topic_entries(*old(arena)),
        },
{
    arena.slots.remove(key.slot)
}

/// `SlotMap::with_key`: a new slot map holds nothing.
#[verifier::external_body]
pub(crate) fn card_arena_new() -> (arena: CardArena)
    ensures
        card_entries(arena) == (Map::<FlashcardKey, Flashcard>::empty()),
{
    CardArena { slots: SlotMap::with_key() }
}

/// `SlotMap::insert`: stores the value under a key that names no entry held
/// so far, and returns that key. The slot map panics when it is full; it
/// has room for `MAX_ENTITIES` entries, and the arena never detaches a slot,
/// so below that number a slot is free or can be added.
#[verifier::external_body]
pub(crate) fn card_arena_insert(arena: &mut CardArena, card: Flashcard) -> (key: FlashcardKey)
    requires
        card_entries(*old(arena)).dom().finite(),
        card_entries(*old(arena)).len() < MAX_ENTITIES,
    ensures
        !card_entries(*old(arena)).contains_key(key),
        card_entries(*final(arena)) == card_entries(*old(arena)).insert(key, card),
{
    FlashcardKey { slot: arena.slots.insert(card) }
}

/// `SlotMap::get`: the entry under a live key, nothing for any other key.
#[verifier::external_body]
pub(crate) fn card_arena_get(arena: &CardArena, key: FlashcardKey) -> (found: Option<&Flashcard>)
    ensures
        match found {
            Some(card) => card_entries(*arena).contains_key(key) && *card == card_entries(
                *arena,
            )[key],
            None => !card_entries(*arena).contains_key(key),
        },
{
    arena.slots.get(key.slot)
}

/// `SlotMap::get_mut`: a mutable borrow of the entry under a live key; what
/// is written through it is what the arena then holds under that key, and no
/// other entry changes.
#[verifier::external_body]
pub(crate) fn card_arena_get_mut(arena: &mut CardArena, key: FlashcardKey) -> (found: Option<
    &mut Flashcard,
>)
    ensures
        match found {
            Some(card) => card_entries(*old(arena)).contains_key(key) && *card == card_entries(
                *old(arena),
            )[key] && card_entries(*final(arena)) == card_entries(*old(arena)).insert(
                key,
                *final(card),
            ),
            None => !card_entries(*old(arena)).contains_key(key) && card_entries(*final(arena))
                == card_entries(*old(arena)),
        },
{
    arena.slots.get_mut(key.slot)
}

} // verus!
