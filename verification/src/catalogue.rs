//! The record source as the library holds it: for every identifier, what the
//! source answers.

use vstd::prelude::*;
use vstd::string::*;
use vstd::hash_map::*;
use crate::resource::{Answer, Lookup};
use crate::text::texts;

verus! {

/// What `answers` holds for `key`: its entry, or that no record exists.
pub open spec fn answer_in(answers: Map<Seq<char>, Answer>, key: Seq<char>) -> Answer {
    if answers.contains_key(key) {
        answers[key]
    } else {
        Answer::Missing
    }
}

/// The answers that say of each of the first `k` of `ids` that its record exists.
pub open spec fn found_upto(ids: Seq<Seq<char>>, k: int) -> Map<Seq<char>, Answer>
    decreases k,
{
    if k <= 0 {
        Map::empty()
    } else {
        found_upto(ids, k - 1).insert(ids[k - 1], Answer::Found)
    }
}

/// A copy of an answer.
pub fn copy_lookup(a: &Lookup) -> (c: Lookup)
    ensures
        c@ == a@,
{
    match a {
        Lookup::Found => Lookup::Found,
        Lookup::Missing => Lookup::Missing,
        Lookup::Failed(d) => Lookup::Failed(d.clone()),
    }
}

/// Answers by identifier. An identifier without an entry has no record.
pub struct Catalogue {
    answers: StringHashMap<Lookup>,
}

impl View for Catalogue {
    type V = Map<Seq<char>, Answer>;

    closed spec fn view(&self) -> Map<Seq<char>, Answer> {
        self.answers@.map_values(|a: Lookup| a@)
    }
}

impl Catalogue {
    /// The catalogue without a record.
    pub fn new() -> (c: Catalogue)
        ensures
            c@ == Map::<Seq<char>, Answer>::empty(),
    {
        let c = Catalogue { answers: StringHashMap::new() };
        assert(c@ =~= Map::<Seq<char>, Answer>::empty());
        c
    }

    /// The catalogue in which exactly the records of `ids` exist.
    pub fn of(ids: &Vec<String>) -> (c: Catalogue)
        ensures
            c@ == found_upto(texts(ids@), ids@.len() as int),
            forall|key: Seq<char>|
                answer_in(c@, key) == (if texts(ids@).contains(key) {
                    Answer::Found
                } else {
                    Answer::Missing
                }),
    {
        let mut c = Catalogue::new();
        let mut i: usize = 0;
        while i < ids.len()
            invariant
                i <= ids@.len(),
                c@ == found_upto(texts(ids@), i as int),
            decreases ids@.len() - i,
        {
            c.set(ids[i].clone(), Lookup::Found);
            i = i + 1;
        }
        proof {
            lemma_found_upto(texts(ids@), ids@.len() as int);
            assert forall|key: Seq<char>|
                answer_in(c@, key) == (if texts(ids@).contains(key) {
                    Answer::Found
                } else {
                    Answer::Missing
                }) by {
                if texts(ids@).contains(key) {
                    let j = choose|j: int| 0 <= j < texts(ids@).len() && texts(ids@)[j] == key;
                    assert(0 <= j < ids@.len() && texts(ids@)[j] == key);
                }
            }
        }
        c
    }

    /// Records what the source answers for `key`, in place of any earlier answer.
    pub fn set(&mut self, key: String, answer: Lookup)
        ensures
            final(self)@ == old(self)@.insert(key@, answer@),
    {
        self.answers.insert(key, answer);
        assert(self@ =~= old(self)@.insert(key@, answer@));
    }

    /// What the source answers for `key`.
    pub fn lookup(&self, key: &str) -> (a: Lookup)
        ensures
            a@ == answer_in(self@, key@),
    {
        match self.answers.get(key) {
            None => Lookup::Missing,
            Some(a) => copy_lookup(a),
        }
    }
}

/// The answers built from `ids` hold an entry for each of them, which says
/// that the record exists, and for nothing else.
pub proof fn lemma_found_upto(ids: Seq<Seq<char>>, k: int)
    requires
        0 <= k <= ids.len(),
    ensures
        forall|key: Seq<char>| #[trigger]
            found_upto(ids, k).contains_key(key) <==> exists|j: int|
                0 <= j < k && ids[j] == key,
        forall|key: Seq<char>| #[trigger]
            found_upto(ids, k).contains_key(key) ==> found_upto(ids, k)[key] == Answer::Found,
    decreases k,
{
    if k > 0 {
        lemma_found_upto(ids, k - 1);
        let prev = found_upto(ids, k - 1);
        let cur = found_upto(ids, k);
        assert forall|key: Seq<char>| #[trigger] cur.contains_key(key) <==> exists|j: int|
            0 <= j < k && ids[j] == key by {
            if cur.contains_key(key) {
                if prev.contains_key(key) {
                    let j = choose|j: int| 0 <= j < k - 1 && ids[j] == key;
                    assert(0 <= j < k && ids[j] == key);
                } else {
                    assert(ids[k - 1] == key);
                }
            }
            if exists|j: int| 0 <= j < k && ids[j] == key {
                let j = choose|j: int| 0 <= j < k && ids[j] == key;
                if j < k - 1 {
                    assert(prev.contains_key(key));
                }
            }
        }
    }
}

} // verus!
