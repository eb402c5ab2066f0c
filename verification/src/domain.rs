//! The parameter domain: for every slot, the values that pages are generated for.

use vstd::prelude::*;
use vstd::string::*;
use vstd::hash_map::*;
use crate::text::texts;

verus! {

/// The slot of the book route.
pub const BOOK_SLOT: &'static str = "book_id";

/// How many values the book slot's domain holds.
pub const BOOK_DOMAIN_SIZE: usize = 4_000_000;

/// The identifiers of the books that exist.
pub open spec fn base_book_ids() -> Seq<Seq<char>> {
    seq![
        "bk101"@,
        "bk102"@,
        "bk103"@,
        "bk104"@,
        "bk105"@,
        "bk106"@,
        "bk107"@,
        "bk108"@,
        "bk109"@,
        "bk110"@,
        "bk111"@,
        "bk112"@,
    ]
}

/// `base` repeated in a cycle until `count` values are reached; nothing where
/// `base` is empty.
pub open spec fn cycled(base: Seq<Seq<char>>, count: nat) -> Seq<Seq<char>> {
    if base.len() == 0 {
        Seq::empty()
    } else {
        Seq::new(count, |i: int| base[i % (base.len() as int)])
    }
}

/// The domain of the book slot.
pub open spec fn book_ids() -> Seq<Seq<char>> {
    cycled(base_book_ids(), BOOK_DOMAIN_SIZE as nat)
}

/// The values of the slot `name`.
pub open spec fn domain_for_spec(name: Seq<char>) -> Seq<Seq<char>> {
    if name == BOOK_SLOT@ {
        book_ids()
    } else {
        Seq::empty()
    }
}

/// The identifiers of the books that exist, in order.
pub fn base_ids() -> (v: Vec<String>)
    ensures
        texts(v@) == base_book_ids(),
{
    let mut v: Vec<String> = Vec::new();
    v.push(String::from_str("bk101"));
    v.push(String::from_str("bk102"));
    v.push(String::from_str("bk103"));
    v.push(String::from_str("bk104"));
    v.push(String::from_str("bk105"));
    v.push(String::from_str("bk106"));
    v.push(String::from_str("bk107"));
    v.push(String::from_str("bk108"));
    v.push(String::from_str("bk109"));
    v.push(String::from_str("bk110"));
    v.push(String::from_str("bk111"));
    v.push(String::from_str("bk112"));
    assert(texts(v@) =~= base_book_ids());
    v
}

/// Repeats `base` in a cycle until `count` values are reached. An empty
/// `base` gives nothing.
pub fn cycle_to(base: &Vec<String>, count: usize) -> (v: Vec<String>)
    ensures
        texts(v@) == cycled(texts(base@), count as nat),
{
    let mut v: Vec<String> = Vec::new();
    let n = base.len();
    if n == 0 {
        assert(texts(v@) =~= cycled(texts(base@), count as nat));
        return v;
    }
    let mut i: usize = 0;
    while i < count
        invariant
            i <= count,
            n == base@.len(),
            n > 0,
            v@.len() == i,
            forall|k: int| 0 <= k < i ==> (#[trigger] v@[k])@ == base@[k % (n as int)]@,
        decreases count - i,
    {
        v.push(base[i % n].clone());
        i = i + 1;
    }
    assert(texts(v@) =~= cycled(texts(base@), count as nat));
    v
}

/// The domain of the book slot: the identifiers of the books that exist,
/// repeated in a cycle up to `BOOK_DOMAIN_SIZE` values.
pub fn list_book_ids() -> (v: Vec<String>)
    ensures
        texts(v@) == book_ids(),
        v@.len() == BOOK_DOMAIN_SIZE,
        forall|i: int| 0 <= i < v@.len() ==> (#[trigger] v@[i])@ == base_book_ids()[i % 12],
{
    let base = base_ids();
    let v = cycle_to(&base, BOOK_DOMAIN_SIZE);
    proof {
        assert(base_book_ids().len() == 12);
        assert(book_ids().len() == BOOK_DOMAIN_SIZE);
        assert(texts(v@).len() == v@.len());
        assert forall|i: int| 0 <= i < v@.len() implies (#[trigger] v@[i])@ == base_book_ids()[i
            % 12] by {
            assert(texts(v@)[i] == v@[i]@);
            assert(base_book_ids().len() == 12);
            assert(book_ids()[i] == base_book_ids()[i % (base_book_ids().len() as int)]);
        }
    }
    v
}

/// The values of the slot `name`: those of the book slot for `BOOK_SLOT`, and
/// none for any other name. It depends on nothing but the name.
pub fn domain_for(name: &str) -> (v: Vec<String>)
    ensures
        texts(v@) == domain_for_spec(name@),
{
    if string_eq(name, BOOK_SLOT) {
        list_book_ids()
    } else {
        let v: Vec<String> = Vec::new();
        assert(texts(v@) =~= Seq::<Seq<char>>::empty());
        v
    }
}

/// The values of every slot: for a slot's name, the candidates in order.
pub struct ParameterDomain {
    slots: StringHashMap<Vec<String>>,
}

impl View for ParameterDomain {
    type V = Map<Seq<char>, Seq<Seq<char>>>;

    closed spec fn view(&self) -> Map<Seq<char>, Seq<Seq<char>>> {
        self.slots@.map_values(|v: Vec<String>| texts(v@))
    }
}

/// The values that `domain` holds for the slot `name`: none where it has no entry.
pub open spec fn slot_values(domain: Map<Seq<char>, Seq<Seq<char>>>, name: Seq<char>) -> Seq<
    Seq<char>,
> {
    if domain.contains_key(name) {
        domain[name]
    } else {
        Seq::empty()
    }
}

impl ParameterDomain {
    /// The domain without a slot.
    pub fn new() -> (d: ParameterDomain)
        ensures
            d@ == Map::<Seq<char>, Seq<Seq<char>>>::empty(),
    {
        let d = ParameterDomain { slots: StringHashMap::new() };
        assert(d@ =~= Map::<Seq<char>, Seq<Seq<char>>>::empty());
        d
    }

    /// Gives the slot `name` the values `values`, in place of any it had.
    /// A value may occur more than once.
    pub fn set(&mut self, name: String, values: Vec<String>)
        ensures
            final(self)@ == old(self)@.insert(name@, texts(values@)),
    {
        let ghost n = name@;
        let ghost v = texts(values@);
        self.slots.insert(name, values);
        assert(self@ =~= old(self)@.insert(n, v));
    }

    /// The values of the slot `name`, where the domain has an entry for it.
    pub fn values(&self, name: &str) -> (r: Option<&Vec<String>>)
        ensures
            match r {
                Some(v) => self@.contains_key(name@) && texts(v@) == self@[name@],
                None => !self@.contains_key(name@),
            },
    {
        self.slots.get(name)
    }

    /// The domain of the book route: the book slot with the values of
    /// `list_book_ids`.
    pub fn books() -> (d: ParameterDomain)
        ensures
            d@ == Map::<Seq<char>, Seq<Seq<char>>>::empty().insert(BOOK_SLOT@, book_ids()),
    {
        let mut d = ParameterDomain::new();
        d.set(String::from_str(BOOK_SLOT), list_book_ids());
        d
    }
}

/// Whether two strings hold the same text.
pub fn string_eq(a: &str, b: &str) -> (r: bool)
    ensures
        r == (a@ == b@),
{
    let x = String::from_str(a);
    let y = String::from_str(b);
    x == y
}

} // verus!
