//! The candidates of a generation pass: every way of giving each slot of a
//! template one of its values.

use vstd::prelude::*;
use vstd::string::*;
use vstd::pervasive::unreached;
use vstd::arithmetic::div_mod::{lemma_basic_div, lemma_multiply_divide_lt, lemma_small_mod};
use crate::domain::{slot_values, ParameterDomain};
use crate::route::{params_of, Piece, ResolvedParams, RouteTemplate, Segment};

verus! {

/// How many ways there are of giving each slot among the first `k` pieces one
/// of its values: the product of the numbers of values.
pub open spec fn candidate_count(ps: Seq<Piece>, domain: Map<Seq<char>, Seq<Seq<char>>>, k: int) -> nat
    decreases k,
{
    if k <= 0 {
        1
    } else {
        match ps[k - 1] {
            Piece::Slot(n) => candidate_count(ps, domain, k - 1) * slot_values(domain, n).len(),
            Piece::Literal(_) => candidate_count(ps, domain, k - 1),
        }
    }
}

/// The candidate at `idx` over the first `k` pieces. The candidates are in the
/// order in which the last slot's values change fastest: with one slot, the
/// order of its values.
pub open spec fn candidate_at(
    ps: Seq<Piece>,
    domain: Map<Seq<char>, Seq<Seq<char>>>,
    k: int,
    idx: int,
) -> Map<Seq<char>, Seq<char>>
    decreases k,
{
    if k <= 0 {
        Map::empty()
    } else {
        match ps[k - 1] {
            Piece::Slot(n) => {
                let values = slot_values(domain, n);
                candidate_at(ps, domain, k - 1, idx / (values.len() as int)).insert(
                    n,
                    values[idx % (values.len() as int)],
                )
            },
            Piece::Literal(_) => candidate_at(ps, domain, k - 1, idx),
        }
    }
}

/// The candidates of the template `ps` over `domain`, in order.
pub open spec fn candidates_of(ps: Seq<Piece>, domain: Map<Seq<char>, Seq<Seq<char>>>) -> Seq<
    Map<Seq<char>, Seq<char>>,
> {
    Seq::new(
        candidate_count(ps, domain, ps.len() as int),
        |idx: int| candidate_at(ps, domain, ps.len() as int, idx),
    )
}

/// Some slot among the first `k` pieces has no value.
pub open spec fn has_empty_slot(ps: Seq<Piece>, domain: Map<Seq<char>, Seq<Seq<char>>>, k: int) -> bool {
    exists|i: int|
        0 <= i < k && (#[trigger] ps[i]) is Slot && slot_values(domain, ps[i]->Slot_0).len() == 0
}

/// There is no candidate exactly when some slot has no value; and where every
/// slot has one, the count over more pieces is no smaller.
pub proof fn lemma_candidate_count(
    ps: Seq<Piece>,
    domain: Map<Seq<char>, Seq<Seq<char>>>,
    j: int,
    k: int,
)
    requires
        0 <= j <= k <= ps.len(),
    ensures
        candidate_count(ps, domain, k) == 0 <==> has_empty_slot(ps, domain, k),
        !has_empty_slot(ps, domain, k) ==> candidate_count(ps, domain, j) <= candidate_count(
            ps,
            domain,
            k,
        ),
    decreases k,
{
    if k > 0 {
        let c = candidate_count(ps, domain, k - 1);
        if j < k {
            lemma_candidate_count(ps, domain, j, k - 1);
        } else {
            lemma_candidate_count(ps, domain, k - 1, k - 1);
        }
        if has_empty_slot(ps, domain, k - 1) {
            let i = choose|i: int|
                0 <= i < k - 1 && (#[trigger] ps[i]) is Slot && slot_values(
                    domain,
                    ps[i]->Slot_0,
                ).len() == 0;
            assert(0 <= i < k && ps[i] is Slot);
        }
        match ps[k - 1] {
            Piece::Slot(n) => {
                let m = slot_values(domain, n).len();
                assert(c * m == 0 <==> (c == 0 || m == 0)) by (nonlinear_arith);
                assert(m >= 1 ==> c * m >= c) by (nonlinear_arith);
                if m == 0 {
                    assert(ps[k - 1] is Slot);
                }
            },
            Piece::Literal(_) => {},
        }
        if has_empty_slot(ps, domain, k) {
            let i = choose|i: int|
                0 <= i < k && (#[trigger] ps[i]) is Slot && slot_values(domain, ps[i]->Slot_0).len()
                    == 0;
            if i < k - 1 {
                assert(has_empty_slot(ps, domain, k - 1));
            }
        }
    }
}

/// The number of candidates of `template` over `domain`, where it can be
/// counted: none where the number is beyond the machine's range.
pub fn count_candidates(template: &RouteTemplate, domain: &ParameterDomain) -> (r: Option<usize>)
    ensures
        match r {
            Some(n) => n == candidate_count(template@, domain@, template@.len() as int),
            None => candidate_count(template@, domain@, template@.len() as int) > usize::MAX,
        },
{
    let n = template.len();
    let ghost ps = template@;
    let ghost dom = domain@;
    let mut i: usize = 0;
    while i < n
        invariant
            i <= n,
            n == template@.len(),
            ps == template@,
            dom == domain@,
            !has_empty_slot(ps, dom, i as int),
        decreases n - i,
    {
        let empty = match template.segment(i) {
            Segment::Literal(_) => false,
            Segment::Slot(name) => match domain.values(name.as_str()) {
                None => true,
                Some(values) => values.len() == 0,
            },
        };
        if empty {
            proof {
                assert(ps[i as int] is Slot);
                assert(has_empty_slot(ps, dom, n as int));
                lemma_candidate_count(ps, dom, 0, n as int);
            }
            return Some(0);
        }
        assert(!has_empty_slot(ps, dom, i + 1)) by {
            if has_empty_slot(ps, dom, i + 1) {
                let w = choose|w: int|
                    0 <= w < i + 1 && (#[trigger] ps[w]) is Slot && slot_values(
                        dom,
                        ps[w]->Slot_0,
                    ).len() == 0;
                if w < i {
                    assert(has_empty_slot(ps, dom, i as int));
                }
            }
        }
        i = i + 1;
    }
    let mut count: usize = 1;
    let mut k: usize = 0;
    while k < n
        invariant
            k <= n,
            n == template@.len(),
            ps == template@,
            dom == domain@,
            !has_empty_slot(ps, dom, n as int),
            count == candidate_count(ps, dom, k as int),
        decreases n - k,
    {
        match template.segment(k) {
            Segment::Literal(_) => {},
            Segment::Slot(name) => {
                let m = match domain.values(name.as_str()) {
                    None => 0,
                    Some(values) => values.len(),
                };
                assert(m == slot_values(dom, ps[k as int]->Slot_0).len());
                match count.checked_mul(m) {
                    None => {
                        proof {
                            lemma_candidate_count(ps, dom, k + 1, n as int);
                        }
                        return None;
                    },
                    Some(next) => {
                        count = next;
                    },
                }
            },
        }
        k = k + 1;
    }
    Some(count)
}

/// The candidate at `idx` over the first `k` pieces.
fn build(template: &RouteTemplate, domain: &ParameterDomain, k: usize, idx: usize) -> (p:
    ResolvedParams)
    requires
        k <= template@.len(),
        idx < candidate_count(template@, domain@, k as int),
    ensures
        p@ == candidate_at(template@, domain@, k as int, idx as int),
    decreases k,
{
    if k == 0 {
        return ResolvedParams::new();
    }
    let ghost c = candidate_count(template@, domain@, k - 1);
    match template.segment(k - 1) {
        Segment::Literal(_) => build(template, domain, k - 1, idx),
        Segment::Slot(name) => {
            let ghost m = slot_values(domain@, name@).len();
            assert(idx < c * m);
            assert(m > 0) by (nonlinear_arith)
                requires
                    0 <= idx < c * m,
            ;
            proof {
                assert(c * m == m * c) by (nonlinear_arith);
                lemma_multiply_divide_lt(idx as int, m as int, c as int);
            }
            match domain.values(name.as_str()) {
                None => unreached(),
                Some(values) => {
                    let m = values.len();
                    let mut p = build(template, domain, k - 1, idx / m);
                    assert(values@[(idx % m) as int]@ == slot_values(domain@, name@)[(idx
                        % m) as int]);
                    p.set(name.clone(), values[idx % m].clone());
                    p
                },
            }
        },
    }
}

/// The candidates of `template` over `domain`, in order: every way of giving
/// each slot one of its values, the last slot's values changing fastest. A
/// value that a slot holds twice gives its candidates twice. There is no
/// result where the number of candidates is beyond the machine's range.
pub fn candidates(template: &RouteTemplate, domain: &ParameterDomain) -> (r: Option<
    Vec<ResolvedParams>,
>)
    ensures
        r is Some <==> candidate_count(template@, domain@, template@.len() as int) <= usize::MAX,
        r matches Some(v) ==> params_of(v@) == candidates_of(template@, domain@),
{
    let total = match count_candidates(template, domain) {
        None => {
            return None;
        },
        Some(total) => total,
    };
    let n = template.len();
    let mut v: Vec<ResolvedParams> = Vec::new();
    let mut idx: usize = 0;
    while idx < total
        invariant
            idx <= total,
            n == template@.len(),
            total == candidate_count(template@, domain@, n as int),
            v@.len() == idx,
            forall|j: int|
                0 <= j < idx ==> (#[trigger] v@[j])@ == candidate_at(
                    template@,
                    domain@,
                    n as int,
                    j,
                ),
        decreases total - idx,
    {
        v.push(build(template, domain, n, idx));
        idx = idx + 1;
    }
    assert(params_of(v@) =~= candidates_of(template@, domain@));
    Some(v)
}

/// The candidates of a template with one slot are the slot's values, in order.
pub proof fn lemma_one_slot_candidates(
    ps: Seq<Piece>,
    domain: Map<Seq<char>, Seq<Seq<char>>>,
    s: int,
    name: Seq<char>,
)
    requires
        0 <= s < ps.len(),
        ps[s] == Piece::Slot(name),
        forall|i: int| 0 <= i < ps.len() && i != s ==> (#[trigger] ps[i]) is Literal,
    ensures
        candidates_of(ps, domain).len() == slot_values(domain, name).len(),
        forall|idx: int|
            0 <= idx < slot_values(domain, name).len() ==> #[trigger] candidates_of(ps, domain)[idx]
                == Map::<Seq<char>, Seq<char>>::empty().insert(
                name,
                slot_values(domain, name)[idx],
            ),
{
    let m = slot_values(domain, name).len() as int;
    lemma_literals_give_one(ps, domain, s);
    lemma_literals_keep(ps, domain, s + 1, ps.len() as int);
    assert(1 * m == m) by (nonlinear_arith);
    assert(candidate_count(ps, domain, s + 1) == m);
    assert(candidates_of(ps, domain).len() == m);
    assert forall|idx: int| 0 <= idx < m implies #[trigger] candidates_of(ps, domain)[idx]
        == Map::<Seq<char>, Seq<char>>::empty().insert(name, slot_values(domain, name)[idx]) by {
        lemma_basic_div(idx, m);
        lemma_small_mod(idx as nat, m as nat);
        assert(candidate_at(ps, domain, s, idx / m) == Map::<Seq<char>, Seq<char>>::empty());
        assert(candidate_at(ps, domain, s + 1, idx) == Map::<Seq<char>, Seq<char>>::empty().insert(
            name,
            slot_values(domain, name)[idx],
        ));
        assert(candidate_at(ps, domain, ps.len() as int, idx) == candidate_at(
            ps,
            domain,
            s + 1,
            idx,
        ));
    }
}

/// Over literals alone there is one candidate, which gives no slot a value.
proof fn lemma_literals_give_one(ps: Seq<Piece>, domain: Map<Seq<char>, Seq<Seq<char>>>, k: int)
    requires
        0 <= k <= ps.len(),
        forall|i: int| 0 <= i < k ==> (#[trigger] ps[i]) is Literal,
    ensures
        candidate_count(ps, domain, k) == 1,
        forall|idx: int| candidate_at(ps, domain, k, idx) == Map::<Seq<char>, Seq<char>>::empty(),
    decreases k,
{
    if k > 0 {
        lemma_literals_give_one(ps, domain, k - 1);
        assert(ps[k - 1] is Literal);
        assert forall|idx: int|
            candidate_at(ps, domain, k, idx) == Map::<Seq<char>, Seq<char>>::empty() by {
            assert(candidate_at(ps, domain, k, idx) == candidate_at(ps, domain, k - 1, idx));
        }
    }
}

/// Literals behind the first `j` pieces change neither the number of
/// candidates nor any candidate.
proof fn lemma_literals_keep(ps: Seq<Piece>, domain: Map<Seq<char>, Seq<Seq<char>>>, j: int, k: int)
    requires
        0 <= j <= k <= ps.len(),
        forall|i: int| j <= i < k ==> (#[trigger] ps[i]) is Literal,
    ensures
        candidate_count(ps, domain, k) == candidate_count(ps, domain, j),
        forall|idx: int| candidate_at(ps, domain, k, idx) == candidate_at(ps, domain, j, idx),
    decreases k,
{
    if k > j {
        lemma_literals_keep(ps, domain, j, k - 1);
        assert(ps[k - 1] is Literal);
        assert forall|idx: int|
            candidate_at(ps, domain, k, idx) == candidate_at(ps, domain, j, idx) by {
            assert(candidate_at(ps, domain, k, idx) == candidate_at(ps, domain, k - 1, idx));
        }
    }
}

} // verus!
