//! Paths as text: a path is spelled by its segments, each preceded by a slash.

use vstd::prelude::*;
use vstd::string::*;

verus! {

/// The texts of a sequence of strings.
pub open spec fn texts(v: Seq<String>) -> Seq<Seq<char>> {
    Seq::new(v.len(), |i: int| v[i]@)
}

/// No slash occurs in `s`.
pub open spec fn slash_free(s: Seq<char>) -> bool {
    forall|i: int| 0 <= i < s.len() ==> s[i] != '/'
}

/// No slash occurs in any of `segs`.
pub open spec fn all_slash_free(segs: Seq<Seq<char>>) -> bool {
    forall|i: int| 0 <= i < segs.len() ==> slash_free(#[trigger] segs[i])
}

/// The path that `segs` spell: every segment preceded by a slash.
pub open spec fn path_of(segs: Seq<Seq<char>>) -> Seq<char>
    decreases segs.len(),
{
    if segs.len() == 0 {
        Seq::empty()
    } else {
        path_of(segs.drop_last()) + seq!['/'] + segs.last()
    }
}

/// `segs` are the segments of `path`.
pub open spec fn parses_as(path: Seq<char>, segs: Seq<Seq<char>>) -> bool {
    all_slash_free(segs) && path_of(segs) == path
}

/// `path` can be divided into segments.
pub open spec fn has_segments(path: Seq<char>) -> bool {
    exists|segs: Seq<Seq<char>>| parses_as(path, segs)
}

/// The segments of `path`, where it has any.
pub open spec fn segments_of(path: Seq<char>) -> Seq<Seq<char>> {
    choose|segs: Seq<Seq<char>>| parses_as(path, segs)
}

/// A division of `path` into slash-free segments is the division of `path`.
pub proof fn lemma_segments_of(path: Seq<char>, segs: Seq<Seq<char>>)
    requires
        parses_as(path, segs),
    ensures
        has_segments(path),
        segments_of(path) == segs,
{
    lemma_path_of_injective(segments_of(path), segs);
}

/// Slash-free segments are the segments of the path they spell.
pub proof fn lemma_segments_of_path_of(segs: Seq<Seq<char>>)
    requires
        all_slash_free(segs),
    ensures
        has_segments(path_of(segs)),
        segments_of(path_of(segs)) == segs,
{
    lemma_segments_of(path_of(segs), segs);
}

/// A path of at least one segment begins with a slash.
pub proof fn lemma_path_of_begins_with_slash(segs: Seq<Seq<char>>)
    requires
        segs.len() > 0,
    ensures
        path_of(segs).len() > 0,
        path_of(segs)[0] == '/',
    decreases segs.len(),
{
    let front = path_of(segs.drop_last());
    assert(path_of(segs) == front + seq!['/'] + segs.last());
    if segs.len() > 1 {
        lemma_path_of_begins_with_slash(segs.drop_last());
        assert(path_of(segs)[0] == front[0]);
    } else {
        assert(front.len() == 0);
        assert(path_of(segs)[0] == seq!['/'][0]);
    }
}

/// A path has only one division into slash-free segments.
pub proof fn lemma_path_of_injective(a: Seq<Seq<char>>, b: Seq<Seq<char>>)
    requires
        all_slash_free(a),
        all_slash_free(b),
        path_of(a) == path_of(b),
    ensures
        a == b,
    decreases a.len(),
{
    if a.len() == 0 {
        if b.len() > 0 {
            lemma_path_of_begins_with_slash(b);
        }
        assert(a =~= b);
    } else if b.len() == 0 {
        lemma_path_of_begins_with_slash(a);
    } else {
        let p = path_of(a);
        let pa = path_of(a.drop_last());
        let pb = path_of(b.drop_last());
        let la = a.last();
        let lb = b.last();
        assert(p == pa + seq!['/'] + la);
        assert(p == pb + seq!['/'] + lb);
        assert(slash_free(la));
        assert(slash_free(lb));
        assert(p.len() == pa.len() + 1 + la.len());
        assert(p.len() == pb.len() + 1 + lb.len());
        if la.len() < lb.len() {
            let k = pa.len() as int;
            assert(p[k] == '/');
            assert(p[k] == lb[k - pb.len() - 1]);
        }
        if lb.len() < la.len() {
            let k = pb.len() as int;
            assert(p[k] == '/');
            assert(p[k] == la[k - pa.len() - 1]);
        }
        assert(la.len() == lb.len());
        assert(pa =~= p.take(pa.len() as int));
        assert(pb =~= p.take(pa.len() as int));
        assert(la =~= p.skip(pa.len() as int + 1));
        assert(lb =~= p.skip(pa.len() as int + 1));
        assert forall|i: int| 0 <= i < a.drop_last().len() implies slash_free(
            #[trigger] a.drop_last()[i],
        ) by {
            assert(a.drop_last()[i] == a[i]);
        }
        assert forall|i: int| 0 <= i < b.drop_last().len() implies slash_free(
            #[trigger] b.drop_last()[i],
        ) by {
            assert(b.drop_last()[i] == b[i]);
        }
        lemma_path_of_injective(a.drop_last(), b.drop_last());
        assert(a =~= a.drop_last().push(la));
        assert(b =~= b.drop_last().push(lb));
    }
}

/// The characters of `s`, in order.
pub fn chars_of(s: &str) -> (v: Vec<char>)
    ensures
        v@ == s@,
{
    let mut v: Vec<char> = Vec::new();
    for c in it: s.chars()
        invariant
            it.seq() == s@,
            v@ == it.seq().take(it.index()),
    {
        v.push(c);
    }
    v
}

/// Divides `path` into its segments. A path has segments when it is empty or
/// begins with a slash; every slash then starts a segment, which runs to the
/// next slash or to the end.
pub fn split_path(path: &str) -> (r: Option<Vec<String>>)
    ensures
        r is Some <==> has_segments(path@),
        r is Some <==> (path@.len() == 0 || path@[0] == '/'),
        r matches Some(v) ==> texts(v@) == segments_of(path@) && parses_as(path@, texts(v@)),
{
    let chars = chars_of(path);
    let n = chars.len();
    let mut segs: Vec<String> = Vec::new();
    if n == 0 {
        assert(texts(segs@) =~= Seq::<Seq<char>>::empty());
        assert(path_of(texts(segs@)) =~= path@);
        proof {
            lemma_segments_of(path@, texts(segs@));
        }
        return Some(segs);
    }
    if chars[0] != '/' {
        assert forall|s: Seq<Seq<char>>| !parses_as(path@, s) by {
            if s.len() > 0 {
                lemma_path_of_begins_with_slash(s);
            }
        }
        return None;
    }
    let mut start: usize = 1;
    let mut i: usize = 1;
    assert(texts(segs@) =~= Seq::<Seq<char>>::empty());
    assert(path_of(texts(segs@)) + seq!['/'] =~= chars@.take(1));
    while i < n
        invariant
            chars@ == path@,
            n == chars.len(),
            1 <= start <= i <= n,
            all_slash_free(texts(segs@)),
            path_of(texts(segs@)) + seq!['/'] == chars@.take(start as int),
            forall|k: int| start <= k < i ==> chars@[k] != '/',
        decreases n - i,
    {
        if chars[i] == '/' {
            let piece = String::from_str(path.substring_char(start, i));
            proof {
                let before = texts(segs@);
                let after = texts(segs@.push(piece));
                assert(after =~= before.push(piece@));
                assert(after.drop_last() =~= before);
                assert(slash_free(piece@));
                assert(path_of(after) + seq!['/'] =~= chars@.take(i + 1));
            }
            segs.push(piece);
            start = i + 1;
        }
        i = i + 1;
    }
    let piece = String::from_str(path.substring_char(start, n));
    proof {
        let before = texts(segs@);
        let after = texts(segs@.push(piece));
        assert(after =~= before.push(piece@));
        assert(after.drop_last() =~= before);
        assert(slash_free(piece@));
        assert(path_of(after) =~= chars@);
        lemma_segments_of(path@, after);
    }
    segs.push(piece);
    Some(segs)
}

} // verus!
