//! Route templates: literal segments and named slots, the assignment of values
//! to slots, and the two directions between an assignment and a path.

use vstd::prelude::*;
use vstd::string::*;
use vstd::hash_map::*;
use crate::text::{
    all_slash_free, has_segments, lemma_segments_of_path_of, path_of, segments_of, slash_free,
    split_path, texts,
};

verus! {

/// One segment of a route template.
#[derive(Clone, Debug, PartialEq, Eq)]
pub enum Segment {
    /// Text that a path must repeat.
    Literal(String),
    /// A named slot that takes whatever a path holds there.
    Slot(String),
}

/// What a segment is, as text.
pub enum Piece {
    Literal(Seq<char>),
    Slot(Seq<char>),
}

impl View for Segment {
    type V = Piece;

    open spec fn view(&self) -> Piece {
        match self {
            Segment::Literal(t) => Piece::Literal(t@),
            Segment::Slot(n) => Piece::Slot(n@),
        }
    }
}

/// The pieces of a sequence of segments.
pub open spec fn pieces(v: Seq<Segment>) -> Seq<Piece> {
    Seq::new(v.len(), |i: int| v[i]@)
}

/// How a segment of a template's text is read: a leading colon names a slot.
pub open spec fn piece_of(seg: Seq<char>) -> Piece {
    if seg.len() > 0 && seg[0] == ':' {
        Piece::Slot(seg.skip(1))
    } else {
        Piece::Literal(seg)
    }
}

/// The pieces that the segments of a template's text are read as.
pub open spec fn pieces_of(segs: Seq<Seq<char>>) -> Seq<Piece> {
    Seq::new(segs.len(), |i: int| piece_of(segs[i]))
}

/// No two slots share a name.
pub open spec fn slot_names_distinct(ps: Seq<Piece>) -> bool {
    forall|i: int, j: int|
        0 <= i < j < ps.len() && ps[i] is Slot && ps[j] is Slot ==> ps[i]->Slot_0 != ps[j]->Slot_0
}

/// Some slot has the empty name.
pub open spec fn has_unnamed_slot(ps: Seq<Piece>) -> bool {
    exists|i: int| 0 <= i < ps.len() && #[trigger] ps[i] == Piece::Slot(Seq::<char>::empty())
}

/// No literal holds a slash.
pub open spec fn literals_slash_free(ps: Seq<Piece>) -> bool {
    forall|i: int| 0 <= i < ps.len() && (#[trigger] ps[i]) is Literal ==> slash_free(ps[i]->Literal_0)
}

/// `name` is a slot of `ps`.
pub open spec fn is_slot(ps: Seq<Piece>, name: Seq<char>) -> bool {
    exists|i: int| 0 <= i < ps.len() && #[trigger] ps[i] == Piece::Slot(name)
}

/// Why a text is no route template.
#[derive(Clone, Copy, Debug, PartialEq, Eq, Structural)]
pub enum TemplateError {
    /// The text is empty or does not begin with a slash.
    NotAbsolute,
    /// A segment is a colon with no name behind it.
    UnnamedSlot,
    /// Two slots have the same name.
    DuplicateSlot,
}

/// What a template's text is read as.
pub open spec fn parse_spec(text: Seq<char>) -> Result<Seq<Piece>, TemplateError> {
    if text.len() == 0 || !has_segments(text) {
        Err(TemplateError::NotAbsolute)
    } else if has_unnamed_slot(pieces_of(segments_of(text))) {
        Err(TemplateError::UnnamedSlot)
    } else if !slot_names_distinct(pieces_of(segments_of(text))) {
        Err(TemplateError::DuplicateSlot)
    } else {
        Ok(pieces_of(segments_of(text)))
    }
}

/// The text that stands where `p` stands, under the assignment `params`.
pub open spec fn segment_text(p: Piece, params: Map<Seq<char>, Seq<char>>) -> Seq<char> {
    match p {
        Piece::Literal(t) => t,
        Piece::Slot(n) => params[n],
    }
}

/// The segments of the path that `ps` gives under `params`.
pub open spec fn segments_for(ps: Seq<Piece>, params: Map<Seq<char>, Seq<char>>) -> Seq<
    Seq<char>,
> {
    Seq::new(ps.len(), |i: int| segment_text(ps[i], params))
}

/// The path that `ps` gives under `params`.
pub open spec fn path_text(ps: Seq<Piece>, params: Map<Seq<char>, Seq<char>>) -> Seq<char> {
    path_of(segments_for(ps, params))
}

/// `params` gives every slot of `ps` a value.
pub open spec fn covers(ps: Seq<Piece>, params: Map<Seq<char>, Seq<char>>) -> bool {
    forall|i: int|
        0 <= i < ps.len() && (#[trigger] ps[i]) is Slot ==> params.contains_key(ps[i]->Slot_0)
}

/// Every value that `params` gives to a slot of `ps` is free of slashes.
pub open spec fn slot_values_slash_free(ps: Seq<Piece>, params: Map<Seq<char>, Seq<char>>) -> bool {
    forall|i: int|
        0 <= i < ps.len() && (#[trigger] ps[i]) is Slot ==> slash_free(params[ps[i]->Slot_0])
}

/// `segs` has a segment for every piece of `ps`, and repeats its literals.
pub open spec fn fits(ps: Seq<Piece>, segs: Seq<Seq<char>>) -> bool {
    &&& segs.len() == ps.len()
    &&& forall|i: int|
        0 <= i < ps.len() && (#[trigger] ps[i]) is Literal ==> segs[i] == ps[i]->Literal_0
}

/// The assignment that the first `k` segments give to the slots among the
/// first `k` pieces.
pub open spec fn bindings_upto(ps: Seq<Piece>, segs: Seq<Seq<char>>, k: int) -> Map<
    Seq<char>,
    Seq<char>,
>
    decreases k,
{
    if k <= 0 {
        Map::empty()
    } else {
        match ps[k - 1] {
            Piece::Slot(n) => bindings_upto(ps, segs, k - 1).insert(n, segs[k - 1]),
            Piece::Literal(_) => bindings_upto(ps, segs, k - 1),
        }
    }
}

/// The assignment that `segs` gives to the slots of `ps`.
pub open spec fn bindings(ps: Seq<Piece>, segs: Seq<Seq<char>>) -> Map<Seq<char>, Seq<char>> {
    bindings_upto(ps, segs, ps.len() as int)
}

/// `path` is a path of the template `ps`.
pub open spec fn matches_path(ps: Seq<Piece>, path: Seq<char>) -> bool {
    has_segments(path) && fits(ps, segments_of(path))
}

/// The names of the slots of `ps`.
pub open spec fn slot_set(ps: Seq<Piece>) -> Set<Seq<char>> {
    Set::new(|n: Seq<char>| is_slot(ps, n))
}

/// The assignments of a sequence of candidates.
pub open spec fn params_of(v: Seq<ResolvedParams>) -> Seq<Map<Seq<char>, Seq<char>>> {
    Seq::new(v.len(), |i: int| v[i]@)
}

/// An assignment of values to named slots.
pub struct ResolvedParams {
    map: StringHashMap<String>,
}

impl View for ResolvedParams {
    type V = Map<Seq<char>, Seq<char>>;

    closed spec fn view(&self) -> Map<Seq<char>, Seq<char>> {
        self.map@.map_values(|v: String| v@)
    }
}

impl ResolvedParams {
    /// The assignment that gives no slot a value.
    pub fn new() -> (p: ResolvedParams)
        ensures
            p@ == Map::<Seq<char>, Seq<char>>::empty(),
    {
        let p = ResolvedParams { map: StringHashMap::new() };
        assert(p@ =~= Map::<Seq<char>, Seq<char>>::empty());
        p
    }

    /// Gives the slot `name` the value `value`, in place of any it had.
    pub fn set(&mut self, name: String, value: String)
        ensures
            final(self)@ == old(self)@.insert(name@, value@),
    {
        self.map.insert(name, value);
        assert(self@ =~= old(self)@.insert(name@, value@));
    }

    /// The value of the slot `name`, where it has one.
    pub fn get(&self, name: &str) -> (r: Option<&String>)
        ensures
            match r {
                Some(v) => self@.contains_key(name@) && v@ == self@[name@],
                None => !self@.contains_key(name@),
            },
    {
        self.map.get(name)
    }
}

/// The pieces of the template of the book pages: the literal `books`, then
/// the slot `book_id`.
pub open spec fn book_pieces() -> Seq<Piece> {
    seq![Piece::Literal("books"@), Piece::Slot("book_id"@)]
}

/// A path pattern: literal segments and named slots, in order.
#[derive(Clone, Debug, PartialEq, Eq)]
pub struct RouteTemplate {
    segments: Vec<Segment>,
}

impl View for RouteTemplate {
    type V = Seq<Piece>;

    closed spec fn view(&self) -> Seq<Piece> {
        pieces(self.segments@)
    }
}

/// The validity of a template's pieces: distinct slot names, and literals
/// without a slash.
pub open spec fn valid_pieces(ps: Seq<Piece>) -> bool {
    slot_names_distinct(ps) && literals_slash_free(ps)
}

impl RouteTemplate {
    /// The template's invariant.
    pub open spec fn wf(&self) -> bool {
        valid_pieces(self@)
    }

    /// Reads a template from its text, such as `/books/:book_id`: segments
    /// divided by slashes, each a literal, or a slot where it begins with a colon.
    pub fn parse(text: &str) -> (r: Result<RouteTemplate, TemplateError>)
        ensures
            match r {
                Ok(t) => parse_spec(text@) == Ok::<Seq<Piece>, TemplateError>(t@) && t.wf(),
                Err(e) => parse_spec(text@) == Err::<Seq<Piece>, TemplateError>(e),
            },
    {
        if text.is_empty() {
            return Err(TemplateError::NotAbsolute);
        }
        let segs = match split_path(text) {
            None => {
                return Err(TemplateError::NotAbsolute);
            },
            Some(segs) => segs,
        };
        let ghost target = pieces_of(segments_of(text@));
        let mut segments: Vec<Segment> = Vec::new();
        let mut i: usize = 0;
        while i < segs.len()
            invariant
                i <= segs.len(),
                texts(segs@) == segments_of(text@),
                all_slash_free(texts(segs@)),
                target == pieces_of(segments_of(text@)),
                segments@.len() == i,
                forall|k: int| 0 <= k < i ==> (#[trigger] segments@[k])@ == target[k],
                forall|k: int| 0 <= k < i ==> #[trigger] target[k] != Piece::Slot(Seq::<char>::empty()),
                text@.len() > 0,
                has_segments(text@),
            decreases segs.len() - i,
        {
            let s = segs[i].as_str();
            assert(s@ == texts(segs@)[i as int]);
            let len = s.unicode_len();
            if len > 0 && s.get_char(0) == ':' {
                if len == 1 {
                    proof {
                        assert(s@.skip(1) =~= Seq::<char>::empty());
                        assert(target[i as int] == Piece::Slot(Seq::<char>::empty()));
                    }
                    return Err(TemplateError::UnnamedSlot);
                }
                let name = String::from_str(s.substring_char(1, len));
                assert(name@ =~= s@.skip(1));
                segments.push(Segment::Slot(name));
            } else {
                segments.push(Segment::Literal(segs[i].clone()));
            }
            i = i + 1;
        }
        assert(pieces(segments@) =~= target);
        assert(!has_unnamed_slot(target));
        let n = segments.len();
        let mut a: usize = 0;
        while a < n
            invariant
                a <= n,
                n == segments@.len(),
                pieces(segments@) == target,
                target == pieces_of(segments_of(text@)),
                text@.len() > 0,
                has_segments(text@),
                !has_unnamed_slot(target),
                forall|x: int, y: int|
                    0 <= x < y < n && x < a && target[x] is Slot && target[y] is Slot
                        ==> target[x]->Slot_0 != target[y]->Slot_0,
            decreases n - a,
        {
            let mut b: usize = a + 1;
            while b < n
                invariant
                    a < b <= n,
                    n == segments@.len(),
                    pieces(segments@) == target,
                    target == pieces_of(segments_of(text@)),
                    text@.len() > 0,
                    has_segments(text@),
                    !has_unnamed_slot(target),
                    forall|y: int|
                        a < y < b && target[a as int] is Slot && target[y] is Slot
                            ==> target[a as int]->Slot_0 != target[y]->Slot_0,
                decreases n - b,
            {
                assert(segments@[a as int]@ == target[a as int]);
                assert(segments@[b as int]@ == target[b as int]);
                let clash = match (&segments[a], &segments[b]) {
                    (Segment::Slot(x), Segment::Slot(y)) => *x == *y,
                    _ => false,
                };
                if clash {
                    return Err(TemplateError::DuplicateSlot);
                }
                b = b + 1;
            }
            a = a + 1;
        }
        assert(slot_names_distinct(target));
        let t = RouteTemplate { segments };
        assert forall|k: int| 0 <= k < target.len() && (#[trigger] target[k]) is Literal implies slash_free(
            target[k]->Literal_0,
        ) by {
            assert(slash_free(segments_of(text@)[k]));
        }
        Ok(t)
    }

    /// The template of the book pages, `/books/:book_id`.
    pub fn books() -> (t: RouteTemplate)
        ensures
            t@ == book_pieces(),
            t.wf(),
    {
        let mut segments: Vec<Segment> = Vec::new();
        segments.push(Segment::Literal(String::from_str("books")));
        segments.push(Segment::Slot(String::from_str("book_id")));
        let t = RouteTemplate { segments };
        proof {
            reveal_strlit("books");
            assert(t@ =~= book_pieces());
        }
        t
    }

    /// The number of segments.
    pub fn len(&self) -> (n: usize)
        ensures
            n == self@.len(),
    {
        self.segments.len()
    }

    /// The segment at `i`.
    pub fn segment(&self, i: usize) -> (s: &Segment)
        requires
            i < self@.len(),
        ensures
            s@ == self@[i as int],
    {
        &self.segments[i]
    }

    /// The path that the template gives under `params`: every literal as it
    /// stands and every slot replaced by its value. There is none where a slot
    /// has no value.
    pub fn path_for(&self, params: &ResolvedParams) -> (r: Option<String>)
        ensures
            r is Some <==> covers(self@, params@),
            r matches Some(path) ==> path@ == path_text(self@, params@),
    {
        let ghost segs = segments_for(self@, params@);
        let mut path = String::new();
        let mut i: usize = 0;
        assert(segs.take(0) =~= Seq::<Seq<char>>::empty());
        while i < self.segments.len()
            invariant
                i <= self.segments@.len(),
                segs == segments_for(self@, params@),
                path@ == path_of(segs.take(i as int)),
                forall|k: int|
                    0 <= k < i && (#[trigger] self@[k]) is Slot ==> params@.contains_key(
                        self@[k]->Slot_0,
                    ),
            decreases self.segments@.len() - i,
        {
            proof {
                reveal_strlit("/");
                assert("/"@ =~= seq!['/']);
                assert(self@[i as int] == self.segments@[i as int]@);
                assert(segs.take(i + 1).drop_last() =~= segs.take(i as int));
                assert(segs.take(i + 1).last() == segs[i as int]);
            }
            match &self.segments[i] {
                Segment::Literal(t) => {
                    path.append("/");
                    path.append(t.as_str());
                },
                Segment::Slot(n) => {
                    match params.get(n.as_str()) {
                        None => {
                            return None;
                        },
                        Some(v) => {
                            path.append("/");
                            path.append(v.as_str());
                        },
                    }
                },
            }
            i = i + 1;
        }
        assert(segs.take(i as int) =~= segs);
        Some(path)
    }

    /// Reads `path` against the template. A path matches when it has one
    /// segment for every piece and repeats every literal; the assignment then
    /// gives each slot the segment that stands in its place.
    pub fn match_path(&self, path: &str) -> (r: Option<ResolvedParams>)
        ensures
            r is Some <==> matches_path(self@, path@),
            r matches Some(p) ==> p@ == bindings(self@, segments_of(path@)),
    {
        let segs = match split_path(path) {
            None => {
                return None;
            },
            Some(segs) => segs,
        };
        let n = self.segments.len();
        if segs.len() != n {
            return None;
        }
        let ghost found = segments_of(path@);
        let mut params = ResolvedParams::new();
        let mut i: usize = 0;
        while i < n
            invariant
                i <= n,
                n == self.segments@.len(),
                n == segs@.len(),
                found == texts(segs@),
                found == segments_of(path@),
                has_segments(path@),
                params@ == bindings_upto(self@, found, i as int),
                forall|k: int|
                    0 <= k < i && (#[trigger] self@[k]) is Literal ==> found[k]
                        == self@[k]->Literal_0,
            decreases n - i,
        {
            proof {
                assert(self@[i as int] == self.segments@[i as int]@);
                assert(found[i as int] == segs@[i as int]@);
            }
            match &self.segments[i] {
                Segment::Literal(t) => {
                    if *t != segs[i] {
                        return None;
                    }
                },
                Segment::Slot(name) => {
                    params.set(name.clone(), segs[i].clone());
                },
            }
            i = i + 1;
        }
        Some(params)
    }
}

/// What the first `k` segments give to a slot among the first `k` pieces is
/// the segment in that slot's place, and nothing but those slots gets a value.
pub proof fn lemma_bindings_upto(ps: Seq<Piece>, segs: Seq<Seq<char>>, k: int)
    requires
        slot_names_distinct(ps),
        0 <= k <= ps.len(),
    ensures
        forall|i: int|
            0 <= i < k && (#[trigger] ps[i]) is Slot ==> bindings_upto(ps, segs, k).contains_key(
                ps[i]->Slot_0,
            ) && bindings_upto(ps, segs, k)[ps[i]->Slot_0] == segs[i],
        forall|n: Seq<char>| #[trigger]
            bindings_upto(ps, segs, k).contains_key(n) ==> exists|i: int|
                0 <= i < k && #[trigger] ps[i] == Piece::Slot(n),
    decreases k,
{
    if k > 0 {
        lemma_bindings_upto(ps, segs, k - 1);
        let prev = bindings_upto(ps, segs, k - 1);
        let cur = bindings_upto(ps, segs, k);
        assert forall|i: int| 0 <= i < k && (#[trigger] ps[i]) is Slot implies cur.contains_key(
            ps[i]->Slot_0,
        ) && cur[ps[i]->Slot_0] == segs[i] by {
            if i < k - 1 && ps[k - 1] is Slot {
                assert(ps[i]->Slot_0 != ps[k - 1]->Slot_0);
            }
        }
        assert forall|n: Seq<char>| #[trigger] cur.contains_key(n) implies exists|i: int|
            0 <= i < k && #[trigger] ps[i] == Piece::Slot(n) by {
            if prev.contains_key(n) {
                let i = choose|i: int| 0 <= i < k - 1 && #[trigger] ps[i] == Piece::Slot(n);
                assert(0 <= i < k && ps[i] == Piece::Slot(n));
            } else {
                assert(ps[k - 1] == Piece::Slot(n));
            }
        }
    }
}

/// The text `/books/:book_id` is read as the template of the book pages, and
/// the path that this template gives a value is `/books/` and the value.
pub proof fn lemma_book_route(value: Seq<char>)
    ensures
        parse_spec("/books/:book_id"@) == Ok::<Seq<Piece>, TemplateError>(book_pieces()),
        valid_pieces(book_pieces()),
        path_text(book_pieces(), Map::<Seq<char>, Seq<char>>::empty().insert("book_id"@, value))
            == "/books/"@ + value,
{
    reveal_strlit("/books/:book_id");
    reveal_strlit("/books/");
    reveal_strlit("books");
    reveal_strlit("book_id");
    reveal_strlit(":book_id");
    let text = "/books/:book_id"@;
    let segs = seq!["books"@, ":book_id"@];
    assert(segs.drop_last() =~= seq!["books"@]);
    assert(segs.drop_last().drop_last() =~= Seq::<Seq<char>>::empty());
    assert(path_of(segs.drop_last().drop_last()) =~= Seq::<char>::empty());
    assert(path_of(segs.drop_last()) =~= seq!['/'] + "books"@);
    assert(path_of(segs) =~= text);
    assert(all_slash_free(segs));
    crate::text::lemma_segments_of(text, segs);
    assert(":book_id"@.skip(1) =~= "book_id"@);
    assert(pieces_of(segs) =~= book_pieces());
    assert(!has_unnamed_slot(book_pieces()));
    let params = Map::<Seq<char>, Seq<char>>::empty().insert("book_id"@, value);
    let filled = segments_for(book_pieces(), params);
    assert(filled =~= seq!["books"@, value]);
    assert(filled.drop_last() =~= seq!["books"@]);
    assert(filled.drop_last().drop_last() =~= Seq::<Seq<char>>::empty());
    assert(path_of(filled.drop_last().drop_last()) =~= Seq::<char>::empty());
    assert(path_of(filled.drop_last()) =~= seq!['/'] + "books"@);
    assert(path_of(filled) =~= "/books/"@ + value);
}

/// Reading a path and writing it again gives the same path: where `segs` fits
/// the template, the template gives `segs` back under the assignment read from
/// them, and that assignment has a value for the template's slots and no other.
pub proof fn lemma_match_then_fill(ps: Seq<Piece>, segs: Seq<Seq<char>>)
    requires
        slot_names_distinct(ps),
        fits(ps, segs),
    ensures
        covers(ps, bindings(ps, segs)),
        bindings(ps, segs).dom() == slot_set(ps),
        segments_for(ps, bindings(ps, segs)) == segs,
        path_text(ps, bindings(ps, segs)) == path_of(segs),
{
    lemma_bindings_upto(ps, segs, ps.len() as int);
    let b = bindings(ps, segs);
    assert(segments_for(ps, b) =~= segs);
    assert(b.dom() =~= slot_set(ps));
}

/// Writing a path and reading it again gives the same assignment: where
/// `params` gives every slot a slash-free value, the path it gives matches the
/// template, and the assignment read from it agrees with `params` on every slot.
pub proof fn lemma_fill_then_match(ps: Seq<Piece>, params: Map<Seq<char>, Seq<char>>)
    requires
        valid_pieces(ps),
        covers(ps, params),
        slot_values_slash_free(ps, params),
    ensures
        matches_path(ps, path_text(ps, params)),
        segments_of(path_text(ps, params)) == segments_for(ps, params),
        bindings(ps, segments_of(path_text(ps, params))) == params.restrict(slot_set(ps)),
{
    let segs = segments_for(ps, params);
    assert(all_slash_free(segs)) by {
        assert forall|i: int| 0 <= i < segs.len() implies slash_free(#[trigger] segs[i]) by {
            if ps[i] is Literal {
                assert(slash_free(ps[i]->Literal_0));
            } else {
                assert(slash_free(params[ps[i]->Slot_0]));
            }
        }
    }
    lemma_segments_of_path_of(segs);
    assert(fits(ps, segs));
    lemma_bindings_upto(ps, segs, ps.len() as int);
    let b = bindings(ps, segs);
    let r = params.restrict(slot_set(ps));
    assert forall|n: Seq<char>| b.contains_key(n) <==> r.contains_key(n) by {
        if r.contains_key(n) {
            let i = choose|i: int| 0 <= i < ps.len() && #[trigger] ps[i] == Piece::Slot(n);
            assert(ps[i] is Slot);
        }
        if b.contains_key(n) {
            let i = choose|i: int| 0 <= i < ps.len() && #[trigger] ps[i] == Piece::Slot(n);
            assert(ps[i] is Slot);
            assert(params.contains_key(ps[i]->Slot_0));
        }
    }
    assert forall|n: Seq<char>| b.contains_key(n) implies b[n] == r[n] by {
        let i = choose|i: int| 0 <= i < ps.len() && #[trigger] ps[i] == Piece::Slot(n);
        assert(ps[i] is Slot);
        assert(b[ps[i]->Slot_0] == segs[i]);
    }
    assert(b =~= r);
}

} // verus!
