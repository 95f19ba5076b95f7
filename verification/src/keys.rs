//! Opaque handles for topics and flashcards.
//!
//! A key is handed out when an entity is stored and names it for as long as
//! it lives. Keys can be copied and compared; nothing else can be read from
//! them.

use slotmap::DefaultKey;
use vstd::prelude::*;

verus! {

/// `slotmap::DefaultKey`, carried as an opaque value.
#[verifier::external_type_specification]
#[verifier::external_body]
pub struct ExDefaultKey(DefaultKey);

/// Handle of a topic.
#[derive(Clone, Copy, Debug, PartialEq, Eq, Hash)]
pub struct TopicKey {
    pub(crate) slot: DefaultKey,
}

/// Handle of a flashcard.
#[derive(Clone, Copy, Debug, PartialEq, Eq, Hash)]
pub struct FlashcardKey {
    pub(crate) slot: DefaultKey,
}

/// `==` on `slotmap::DefaultKey`, which compares the slot index and the
/// version that make up a key: the result is true exactly for equal keys.
#[verifier::external_body]
fn same_slot(a: DefaultKey, b: DefaultKey) -> (r: bool)
    ensures
        r == (a == b),
{
    a == b
}

/// What every kind of handle offers: it can be copied and compared.
pub trait Handle: Copy {
    /// Whether two handles name the same entity.
    fn same(&self, other: &Self) -> (r: bool)
        ensures
            r == (*self == *other),
    ;
}

impl Handle for TopicKey {
    fn same(&self, other: &TopicKey) -> (r: bool) {
        same_slot(self.slot, other.slot)
    }
}

impl Handle for FlashcardKey {
    fn same(&self, other: &FlashcardKey) -> (r: bool) {
        same_slot(self.slot, other.slot)
    }
}

/// The test that lets everything pass but `x`.
pub open spec fn other_than<A>(x: A) -> spec_fn(A) -> bool {
    |y: A| y != x
}

/// The test that lets nothing pass but `x`.
pub open spec fn same_as<A>(x: A) -> spec_fn(A) -> bool {
    |y: A| y == x
}

/// The test that lets everything pass but what occurs in `s`.
pub open spec fn none_of<A>(s: Seq<A>) -> spec_fn(A) -> bool {
    |y: A| !s.contains(y)
}

/// A copy of `list` without any occurrence of `key`.
pub fn keys_without<K: Handle>(list: &Vec<K>, key: K) -> (rest: Vec<K>)
    ensures
        rest@ == list@.filter(other_than(key)),
{
    let mut rest: Vec<K> = Vec::new();
    let mut i: usize = 0;
    proof {
        reveal(Seq::filter);
        assert(list@.take(0).filter(other_than(key)) =~= Seq::empty());
    }
    while i < list.len()
        invariant
            i <= list.len(),
            rest@ == list@.take(i as int).filter(other_than(key)),
        decreases list.len() - i,
    {
        let k = list[i];
        proof {
            assert(list@.take(i + 1) =~= list@.take(i as int).push(k));
            list@.take(i as int).lemma_filter_push(k, other_than(key));
        }
        if !k.same(&key) {
            rest.push(k);
        }
        i += 1;
    }
    proof {
        assert(list@.take(i as int) =~= list@);
    }
    rest
}

/// Whether `key` occurs in `list`.
pub fn keys_contain<K: Handle>(list: &Vec<K>, key: K) -> (yes: bool)
    ensures
        yes == list@.contains(key),
{
    let mut i: usize = 0;
    while i < list.len()
        invariant
            i <= list.len(),
            forall|j: int| 0 <= j < i ==> list@[j] != key,
        decreases list.len() - i,
    {
        if list[i].same(&key) {
            return true;
        }
        i += 1;
    }
    false
}

} // verus!
