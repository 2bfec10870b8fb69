use vstd::prelude::*;

verus! {

use crate::strutil::str_eq;
use crate::update::views_of;

/// The zero-based rank of the first occurrence of `x` in a ranked id list.
pub open spec fn first_idx(l: Seq<Seq<char>>, x: Seq<char>) -> Option<int>
    decreases l.len(),
{
    if l.len() == 0 {
        None
    } else if l[0] == x {
        Some(0int)
    } else {
        match first_idx(l.drop_first(), x) {
            Some(i) => Some(i + 1),
            None => None,
        }
    }
}

pub proof fn lemma_first_idx_props(l: Seq<Seq<char>>, x: Seq<char>)
    ensures
        (first_idx(l, x) is Some) <==> l.contains(x),
        first_idx(l, x) matches Some(i) ==> 0 <= i < l.len() && l[i] == x,
    decreases l.len(),
{
    if l.len() > 0 {
        lemma_first_idx_props(l.drop_first(), x)
        ;
        if l[0] == x {
        } else {
            if l.contains(x) {
                let w = choose|w: int| 0 <= w < l.len() && l[w] == x;
                assert(l.drop_first()[w - 1] == l[w]);
            }
            match first_idx(l, x) {
                Some(m) => {
                    assert(l[m] == l.drop_first()[m - 1]);
                },
                None => {},
            }
        }
    }
}

/// The reciprocal-rank-fusion score of one id, as an exact fraction
/// `(numerator, denominator)` over integer milli-weights.
pub open spec fn rrf_score(
    l1: Seq<Seq<char>>,
    l2: Seq<Seq<char>>,
    k: int,
    w1: int,
    w2: int,
    x: Seq<char>,
) -> (int, int) {
    match (first_idx(l1, x), first_idx(l2, x)) {
        (Some(r1), Some(r2)) => (
            w1 * (k + r2 + 1) + w2 * (k + r1 + 1),
            (k + r1 + 1) * (k + r2 + 1),
        ),
        (Some(r1), None) => (w1, k + r1 + 1),
        (None, Some(r2)) => (w2, k + r2 + 1),
        (None, None) => (0int, 1int),
    }
}

/// `a <= b` on fractions with positive denominators.
pub open spec fn score_le(a: (int, int), b: (int, int)) -> bool {
    a.0 * b.1 <= b.0 * a.1
}

proof fn lemma_score_le_trans(a: (int, int), b: (int, int), c: (int, int))
    requires
        a.1 > 0,
        b.1 > 0,
        c.1 > 0,
        score_le(a, b),
        score_le(b, c),
    ensures
        score_le(a, c),
{
    assert(a.0 * b.1 * c.1 <= b.0 * a.1 * c.1) by (nonlinear_arith)
        requires
            c.1 > 0,
            a.0 * b.1 <= b.0 * a.1,
    ;
    assert(b.0 * c.1 * a.1 <= c.0 * b.1 * a.1) by (nonlinear_arith)
        requires
            a.1 > 0,
            b.0 * c.1 <= c.0 * b.1,
    ;
    assert(b.0 * a.1 * c.1 == b.0 * c.1 * a.1) by (nonlinear_arith);
    assert(a.0 * b.1 * c.1 <= c.0 * b.1 * a.1);
    assert(a.0 * c.1 * b.1 <= c.0 * a.1 * b.1) by (nonlinear_arith)
        requires
            b.1 > 0,
            a.0 * b.1 * c.1 <= c.0 * b.1 * a.1,
    ;
    assert(a.0 * c.1 <= c.0 * a.1) by (nonlinear_arith)
        requires
            b.1 > 0,
            a.0 * c.1 * b.1 <= c.0 * a.1 * b.1,
    ;
}

/// The denominator of every fused score is positive.
pub proof fn lemma_rrf_den_pos(
    l1: Seq<Seq<char>>,
    l2: Seq<Seq<char>>,
    k: int,
    w1: int,
    w2: int,
    x: Seq<char>,
)
    requires
        k >= 0,
    ensures
        rrf_score(l1, l2, k, w1, w2, x).1 > 0,
{
    lemma_first_idx_props(l1, x);
    lemma_first_idx_props(l2, x);
    match (first_idx(l1, x), first_idx(l2, x)) {
        (Some(r1), Some(r2)) => {
            assert((k + r1 + 1) * (k + r2 + 1) > 0) by (nonlinear_arith)
                requires
                    k + r1 + 1 > 0,
                    k + r2 + 1 > 0,
            ;
        },
        _ => {},
    }
}


/// Under the input caps every fused score component is small.
pub proof fn lemma_rrf_bounds(
    l1: Seq<Seq<char>>,
    l2: Seq<Seq<char>>,
    k: u64,
    w1: u64,
    w2: u64,
    x: Seq<char>,
)
    requires
        rrf_inputs_bounded(l1, l2, k, w1, w2),
    ensures
        0 <= rrf_score(l1, l2, k as int, w1 as int, w2 as int, x).0 <= 0x1000000000000000,
        0 < rrf_score(l1, l2, k as int, w1 as int, w2 as int, x).1 <= 0x1000000000000000,
{
    lemma_first_idx_props(l1, x);
    lemma_first_idx_props(l2, x);
    let kk = k as int;
    let ww1 = w1 as int;
    let ww2 = w2 as int;
    match (first_idx(l1, x), first_idx(l2, x)) {
        (Some(r1), Some(r2)) => {
            let d1 = kk + r1 + 1;
            let d2 = kk + r2 + 1;
            assert(1 <= d1 <= 0x20000001);
            assert(1 <= d2 <= 0x20000001);
            assert(0 <= ww1 * d2 <= 0x10000000 * 0x20000001) by (nonlinear_arith)
                requires
                    0 <= ww1 <= 0x10000000,
                    1 <= d2 <= 0x20000001,
            ;
            assert(0 <= ww2 * d1 <= 0x10000000 * 0x20000001) by (nonlinear_arith)
                requires
                    0 <= ww2 <= 0x10000000,
                    1 <= d1 <= 0x20000001,
            ;
            assert(0 < d1 * d2 <= 0x20000001 * 0x20000001) by (nonlinear_arith)
                requires
                    1 <= d1 <= 0x20000001,
                    1 <= d2 <= 0x20000001,
            ;
        },
        (Some(r1), None) => {
            assert(1 <= kk + r1 + 1 <= 0x20000001);
        },
        (None, Some(r2)) => {
            assert(1 <= kk + r2 + 1 <= 0x20000001);
        },
        (None, None) => {},
    }
}


proof fn lemma_views_contains_push(before: Seq<String>, item: String, x: Seq<char>)
    requires
        views_of(before).contains(x),
    ensures
        views_of(before.push(item)).contains(x),
{
    let w = choose|w: int| 0 <= w < views_of(before).len() && views_of(before)[w] == x;
    assert(views_of(before.push(item))[w] == x);
}

fn first_index(l: &Vec<String>, x: &str) -> (r: Option<usize>)
    ensures
        match r {
            Some(i) => first_idx(views_of(l@), x@) == Some(i as int),
            None => first_idx(views_of(l@), x@) is None,
        },
{
    let n = l.len();
    let mut i: usize = 0;
    proof {
        assert(views_of(l@).skip(0) =~= views_of(l@));
    }
    while i < n
        invariant
            n == l@.len(),
            i <= n,
            forall|k: int| 0 <= k < i ==> views_of(l@)[k] != x@,
            ({
                let v = views_of(l@);
                first_idx(v, x@) == match first_idx(v.skip(i as int), x@) {
                    Some(m) => Some(m + i),
                    None => None::<int>,
                }
            }),
        decreases n - i,
    {
        proof {
            let v = views_of(l@);
            assert(v.skip(i as int)[0] == v[i as int]);
            assert(v.skip(i as int).drop_first() =~= v.skip(i + 1 as int));
        }
        if str_eq(l[i].as_str(), x) {
            return Some(i);
        }
        i = i + 1;
    }
    proof {
        assert(views_of(l@).skip(n as int).len() == 0);
    }
    None
}

/// The caps under which the exact fraction arithmetic cannot overflow.
pub open spec fn rrf_inputs_bounded(
    l1: Seq<Seq<char>>,
    l2: Seq<Seq<char>>,
    k: u64,
    w1: u64,
    w2: u64,
) -> bool {
    &&& k <= 0x10000000
    &&& w1 <= 0x10000000
    &&& w2 <= 0x10000000
    &&& l1.len() <= 0x10000000
    &&& l2.len() <= 0x10000000
}

/// The three properties the fusion promises of its output: each id once,
/// exactly the ids of the two lists, in descending fused-score order.
pub open spec fn rrf_output_ok(
    out: Seq<Seq<char>>,
    l1: Seq<Seq<char>>,
    l2: Seq<Seq<char>>,
    k: int,
    w1: int,
    w2: int,
) -> bool {
    &&& forall|i: int, j: int| #![trigger out[i], out[j]] 0 <= i < j < out.len() ==> out[i] != out[j]
    &&& forall|x: Seq<char>| #[trigger] out.contains(x) <==> (l1.contains(x) || l2.contains(x))
    &&& forall|i: int, j: int|
        #![trigger out[i], out[j]]
        0 <= i < j < out.len() ==> score_le(
            rrf_score(l1, l2, k, w1, w2, out[j]),
            rrf_score(l1, l2, k, w1, w2, out[i]),
        )
}

/// Reciprocal-rank fusion of two ranked id lists with integer
/// milli-weights: every id of either list appears exactly once, ordered by
/// descending exact fused score `w/(k + rank + 1)` summed over the lists
/// that contain the id.  The order among equal scores is arbitrary.
pub fn rrf_fuse(l1: &Vec<String>, l2: &Vec<String>, k: u64, w_lex: u64, w_vec: u64) -> (r: Vec<
    String,
>)
    requires
        rrf_inputs_bounded(views_of(l1@), views_of(l2@), k, w_lex, w_vec),
    ensures
        forall|i: int, j: int|
            #![trigger r@[i], r@[j]]
            0 <= i < j < r@.len() ==> r@[i]@ != r@[j]@,
        forall|x: Seq<char>|
            #[trigger] views_of(r@).contains(x) <==> (views_of(l1@).contains(x) || views_of(
                l2@,
            ).contains(x)),
        forall|i: int, j: int|
            #![trigger r@[i], r@[j]]
            0 <= i < j < r@.len() ==> score_le(
                rrf_score(views_of(l1@), views_of(l2@), k as int, w_lex as int, w_vec as int, r@[j]@),
                rrf_score(views_of(l1@), views_of(l2@), k as int, w_lex as int, w_vec as int, r@[i]@),
            ),
        rrf_output_ok(
            views_of(r@),
            views_of(l1@),
            views_of(l2@),
            k as int,
            w_lex as int,
            w_vec as int,
        ),
{
    let ghost v1 = views_of(l1@);
    let ghost v2 = views_of(l2@);
    let mut ids: Vec<String> = Vec::new();
    let mut nums: Vec<u128> = Vec::new();
    let mut dens: Vec<u128> = Vec::new();
    let mut src: usize = 0;
    while src < 2
        invariant
            v1 == views_of(l1@),
            v2 == views_of(l2@),
            rrf_inputs_bounded(v1, v2, k, w_lex, w_vec),
            ids@.len() == nums@.len() == dens@.len(),
            forall|a: int, b: int|
                #![trigger ids@[a], ids@[b]]
                0 <= a < b < ids@.len() ==> ids@[a]@ != ids@[b]@,
            forall|j: int|
                0 <= j < ids@.len() ==> ((#[trigger] nums@[j]) as int, dens@[j] as int)
                    == rrf_score(v1, v2, k as int, w_lex as int, w_vec as int, ids@[j]@),
            forall|x: Seq<char>|
                #[trigger] views_of(ids@).contains(x) ==> (v1.contains(x) || v2.contains(x)),
            src >= 1 ==> forall|x: Seq<char>|
                v1.contains(x) ==> #[trigger] views_of(ids@).contains(x),
            src >= 2 ==> forall|x: Seq<char>|
                v2.contains(x) ==> #[trigger] views_of(ids@).contains(x),
        decreases 2 - src,
    {
        let source: &Vec<String> = if src == 0 {
            l1
        } else {
            l2
        };
        let mut i: usize = 0;
        while i < source.len()
            invariant
                v1 == views_of(l1@),
                v2 == views_of(l2@),
                rrf_inputs_bounded(v1, v2, k, w_lex, w_vec),
                source == if src == 0 {
                    l1
                } else {
                    l2
                },
                src < 2,
                i <= source@.len(),
                ids@.len() == nums@.len() == dens@.len(),
                forall|a: int, b: int|
                    #![trigger ids@[a], ids@[b]]
                    0 <= a < b < ids@.len() ==> ids@[a]@ != ids@[b]@,
                forall|j: int|
                    0 <= j < ids@.len() ==> ((#[trigger] nums@[j]) as int, dens@[j] as int)
                        == rrf_score(v1, v2, k as int, w_lex as int, w_vec as int, ids@[j]@),
                forall|x: Seq<char>|
                    #[trigger] views_of(ids@).contains(x) ==> (v1.contains(x) || v2.contains(x)),
                src >= 1 ==> forall|x: Seq<char>|
                    v1.contains(x) ==> #[trigger] views_of(ids@).contains(x),
                forall|m: int|
                    0 <= m < i ==> #[trigger] views_of(ids@).contains(views_of(source@)[m]),
            decreases source@.len() - i,
        {
            let id = &source[i];
            let ghost ids_head = ids@;
            let mut seen = false;
            let mut j: usize = 0;
            while j < ids.len()
                invariant
                    j <= ids@.len(),
                    seen ==> views_of(ids@).contains(id@),
                    !seen ==> forall|m: int| 0 <= m < j ==> views_of(ids@)[m] != id@,
                decreases ids@.len() - j,
            {
                if str_eq(ids[j].as_str(), id.as_str()) {
                    seen = true;
                    proof {
                        assert(views_of(ids@)[j as int] == id@);
                    }
                    j = ids.len();
                } else {
                    j = j + 1;
                }
            }
            if !seen {
                proof {
                    if views_of(ids@).contains(id@) {
                        let w = choose|w: int|
                            0 <= w < views_of(ids@).len() && views_of(ids@)[w] == id@;
                        assert(views_of(ids@)[w] != id@);
                    }
                }
                let r1 = first_index(l1, id.as_str());
                let r2 = first_index(l2, id.as_str());
                proof {
                    lemma_first_idx_props(v1, id@);
                    lemma_first_idx_props(v2, id@);
                }
                let (num, den): (u128, u128) = match (r1, r2) {
                    (Some(a), Some(b)) => {
                        proof {
                            assert(a < l1@.len());
                            assert(b < l2@.len());
                        }
                        let da = k as u128 + a as u128 + 1;
                        let db = k as u128 + b as u128 + 1;
                        proof {
                            assert((w_lex as int) * (db as int) <= 0x10000000 * 0x20000001)
                                by (nonlinear_arith)
                                requires
                                    0 <= w_lex as int <= 0x10000000,
                                    0 <= db as int <= 0x20000001,
                            ;
                            assert((w_vec as int) * (da as int) <= 0x10000000 * 0x20000001)
                                by (nonlinear_arith)
                                requires
                                    0 <= w_vec as int <= 0x10000000,
                                    0 <= da as int <= 0x20000001,
                            ;
                            assert((da as int) * (db as int) <= 0x20000001 * 0x20000001)
                                by (nonlinear_arith)
                                requires
                                    0 <= da as int <= 0x20000001,
                                    0 <= db as int <= 0x20000001,
                            ;
                        }
                        (w_lex as u128 * db + w_vec as u128 * da, da * db)
                    },
                    (Some(a), None) => {
                        proof {
                            assert(a < l1@.len());
                        }
                        (w_lex as u128, k as u128 + a as u128 + 1)
                    },
                    (None, Some(b)) => {
                        proof {
                            assert(b < l2@.len());
                        }
                        (w_vec as u128, k as u128 + b as u128 + 1)
                    },
                    (None, None) => (0, 1),
                };
                let ghost before = ids@;
                ids.push(id.clone());
                nums.push(num);
                dens.push(den);
                proof {
                    assert(views_of(ids@) =~= views_of(before).push(id@));
                    assert(views_of(ids@)[views_of(ids@).len() - 1] == id@);
                    assert(views_of(ids@).contains(id@));
                    assert forall|x: Seq<char>|
                        #[trigger] views_of(before).contains(x) implies views_of(ids@).contains(
                        x,
                    ) by {
                        lemma_views_contains_push(before, ids@[ids@.len() - 1], x);
                        assert(views_of(before.push(ids@[ids@.len() - 1])) =~= views_of(ids@));
                    }
                    assert forall|x: Seq<char>|
                        #[trigger] views_of(ids@).contains(x) implies (v1.contains(x)
                        || v2.contains(x)) by {
                        if x != id@ {
                            let w = choose|w: int|
                                0 <= w < views_of(ids@).len() && views_of(ids@)[w] == x;
                            assert(views_of(before)[w] == x);
                            assert(views_of(before).contains(x));
                        } else {
                            assert(views_of(source@)[i as int] == id@);
                            assert(views_of(source@).contains(id@));
                        }
                    }
                    assert forall|a: int, b: int|
                        #![trigger ids@[a], ids@[b]]
                        0 <= a < b < ids@.len() implies ids@[a]@ != ids@[b]@ by {
                        if b == ids@.len() - 1 {
                            assert(ids@[a] == ids_head[a]);
                            assert(views_of(ids_head)[a] != id@);
                        } else {
                            assert(ids@[a] == ids_head[a]);
                            assert(ids@[b] == ids_head[b]);
                        }
                    }
                    if src >= 1 {
                        assert forall|x: Seq<char>| v1.contains(x) implies #[trigger] views_of(
                            ids@,
                        ).contains(x) by {
                            assert(views_of(ids_head).contains(x));
                            let w = choose|w: int|
                                0 <= w < views_of(ids_head).len() && views_of(ids_head)[w] == x;
                            assert(views_of(ids@)[w] == x);
                        }
                    }
                }
            }
            proof {
                assert(views_of(source@)[i as int] == id@);
                assert(views_of(ids@).contains(id@));
                assert forall|m: int|
                    0 <= m < i + 1 implies #[trigger] views_of(ids@).contains(
                    views_of(source@)[m],
                ) by {
                    if m < i {
                        assert(views_of(ids_head).contains(views_of(source@)[m]));
                        if ids@ != ids_head {
                            let w = choose|w: int|
                                0 <= w < views_of(ids_head).len() && views_of(ids_head)[w]
                                    == views_of(source@)[m];
                            assert(views_of(ids@)[w] == views_of(ids_head)[w]);
                        }
                    }
                }
            }
            i = i + 1;
        }
        proof {
            if src == 0 {
                assert forall|x: Seq<char>| v1.contains(x) implies #[trigger] views_of(
                    ids@,
                ).contains(x) by {
                    let m = choose|m: int| 0 <= m < v1.len() && v1[m] == x;
                    assert(views_of(ids@).contains(views_of(l1@)[m]));
                }
            } else {
                assert forall|x: Seq<char>| v2.contains(x) implies #[trigger] views_of(
                    ids@,
                ).contains(x) by {
                    let m = choose|m: int| 0 <= m < v2.len() && v2[m] == x;
                    assert(views_of(ids@).contains(views_of(l2@)[m]));
                }
            }
        }
        src = src + 1;
    }
    let ghost kk = k as int;
    let ghost ww1 = w_lex as int;
    let ghost ww2 = w_vec as int;
    let mut out_ids: Vec<String> = Vec::new();
    let mut out_nums: Vec<u128> = Vec::new();
    let mut out_dens: Vec<u128> = Vec::new();
    let mut t: usize = 0;
    while t < ids.len()
        invariant
            v1 == views_of(l1@),
            v2 == views_of(l2@),
            kk == k as int,
            ww1 == w_lex as int,
            ww2 == w_vec as int,
            rrf_inputs_bounded(v1, v2, k, w_lex, w_vec),
            t <= ids@.len(),
            ids@.len() == nums@.len() == dens@.len(),
            out_ids@.len() == out_nums@.len() == out_dens@.len(),
            forall|a: int, b: int|
                #![trigger ids@[a], ids@[b]]
                0 <= a < b < ids@.len() ==> ids@[a]@ != ids@[b]@,
            forall|j: int|
                0 <= j < ids@.len() ==> ((#[trigger] nums@[j]) as int, dens@[j] as int)
                    == rrf_score(v1, v2, kk, ww1, ww2, ids@[j]@),
            forall|j: int|
                0 <= j < out_ids@.len() ==> ((#[trigger] out_nums@[j]) as int, out_dens@[j] as int)
                    == rrf_score(v1, v2, kk, ww1, ww2, out_ids@[j]@),
            forall|a: int, b: int|
                #![trigger out_ids@[a], out_ids@[b]]
                0 <= a < b < out_ids@.len() ==> out_ids@[a]@ != out_ids@[b]@,
            forall|x: Seq<char>|
                #[trigger] views_of(out_ids@).contains(x) <==> exists|m: int|
                    0 <= m < t && views_of(ids@)[m] == x,
            forall|a: int, b: int|
                #![trigger out_ids@[a], out_ids@[b]]
                0 <= a < b < out_ids@.len() ==> score_le(
                    rrf_score(v1, v2, kk, ww1, ww2, out_ids@[b]@),
                    rrf_score(v1, v2, kk, ww1, ww2, out_ids@[a]@),
                ),
        decreases ids@.len() - t,
    {
        let id = ids[t].clone();
        let num = nums[t];
        let den = dens[t];
        proof {
            lemma_rrf_bounds(v1, v2, k, w_lex, w_vec, ids@[t as int]@);
        }
        let mut p: usize = 0;
        let mut searching = true;
        while searching && p < out_ids.len()
            invariant
                v1 == views_of(l1@),
                v2 == views_of(l2@),
                kk == k as int,
                ww1 == w_lex as int,
                ww2 == w_vec as int,
                rrf_inputs_bounded(v1, v2, k, w_lex, w_vec),
                (num as int, den as int) == rrf_score(v1, v2, kk, ww1, ww2, ids@[t as int]@),
                t < ids@.len(),
                num <= 0x1000000000000000,
                den <= 0x1000000000000000,
                forall|j: int|
                    0 <= j < out_ids@.len() ==> ((#[trigger] out_nums@[j]) as int, out_dens@[j] as int)
                        == rrf_score(v1, v2, kk, ww1, ww2, out_ids@[j]@),
                out_ids@.len() == out_nums@.len() == out_dens@.len(),
                p <= out_ids@.len(),
                forall|q: int|
                    0 <= q < p ==> !((#[trigger] out_nums@[q]) as int * (den as int) < (
                    num as int) * (out_dens@[q] as int)),
                !searching ==> p < out_ids@.len() && (out_nums@[p as int] as int) * (den as int) < (
                num as int) * (out_dens@[p as int] as int),
            decreases out_ids@.len() - p, searching as int,
        {
            proof {
                lemma_rrf_bounds(v1, v2, k, w_lex, w_vec, out_ids@[p as int]@);
                assert((out_nums@[p as int] as int) * (den as int) <= 0x1000000000000000
                    * 0x1000000000000000) by (nonlinear_arith)
                    requires
                        0 <= out_nums@[p as int] as int <= 0x1000000000000000,
                        0 <= den as int <= 0x1000000000000000,
                ;
                assert((num as int) * (out_dens@[p as int] as int) <= 0x1000000000000000
                    * 0x1000000000000000) by (nonlinear_arith)
                    requires
                        0 <= num as int <= 0x1000000000000000,
                        0 <= out_dens@[p as int] as int <= 0x1000000000000000,
                ;
            }
            let cross1 = out_nums[p] * den;
            let cross2 = num * out_dens[p];
            if cross1 < cross2 {
                searching = false;
            } else {
                p = p + 1;
            }
        }
        let ghost out_before = out_ids@;
        let ghost nums_before = out_nums@;
        let ghost dens_before = out_dens@;
        out_ids.insert(p, id);
        out_nums.insert(p, num);
        out_dens.insert(p, den);
        proof {
            let now = out_ids@;
            let pi = p as int;
            let snew = rrf_score(v1, v2, kk, ww1, ww2, ids@[t as int]@);
            assert(now[pi]@ == ids@[t as int]@);
            assert((num as int, den as int) == snew);
            // score binding for every slot after the insert
            assert forall|j: int|
                0 <= j < now.len() implies ((#[trigger] out_nums@[j]) as int, out_dens@[j] as int)
                == rrf_score(v1, v2, kk, ww1, ww2, now[j]@) by {
                if j < pi {
                    assert(now[j] == out_before[j]);
                    assert(out_nums@[j] == nums_before[j]);
                    assert(out_dens@[j] == dens_before[j]);
                } else if j > pi {
                    assert(now[j] == out_before[j - 1]);
                    assert(out_nums@[j] == nums_before[j - 1]);
                    assert(out_dens@[j] == dens_before[j - 1]);
                }
            }
            // membership: exactly the first t+1 collected ids
            assert forall|x: Seq<char>| #[trigger] views_of(now).contains(x) implies exists|m: int|
                0 <= m < t + 1 && views_of(ids@)[m] == x by {
                let w = choose|w: int| 0 <= w < views_of(now).len() && views_of(now)[w] == x;
                if w < pi {
                    assert(views_of(out_before)[w] == x);
                    assert(views_of(out_before).contains(x));
                } else if w > pi {
                    assert(views_of(out_before)[w - 1] == x);
                    assert(views_of(out_before).contains(x));
                } else {
                    assert(views_of(ids@)[t as int] == x);
                }
            }
            assert forall|x: Seq<char>|
                (exists|m: int| 0 <= m < t + 1 && views_of(ids@)[m] == x) implies #[trigger] views_of(
                now,
            ).contains(x) by {
                let m = choose|m: int| 0 <= m < t + 1 && views_of(ids@)[m] == x;
                if m < t {
                    assert(views_of(out_before).contains(x));
                    let w = choose|w: int|
                        0 <= w < views_of(out_before).len() && views_of(out_before)[w] == x;
                    if w < pi {
                        assert(views_of(now)[w] == x);
                    } else {
                        assert(views_of(now)[w + 1] == x);
                    }
                } else {
                    assert(views_of(now)[pi] == x);
                }
            }
            // the inserted id is new
            assert(!views_of(out_before).contains(ids@[t as int]@)) by {
                if views_of(out_before).contains(ids@[t as int]@) {
                    let m = choose|m: int| 0 <= m < t && views_of(ids@)[m] == ids@[t as int]@;
                    assert(ids@[m]@ == ids@[t as int]@);
                }
            }
            // distinctness
            assert forall|a: int, b: int|
                #![trigger now[a], now[b]]
                0 <= a < b < now.len() implies now[a]@ != now[b]@ by {
                if a == pi {
                    assert(now[b] == out_before[b - 1]);
                    if now[a]@ == now[b]@ {
                        assert(views_of(out_before)[b - 1] == ids@[t as int]@);
                        assert(views_of(out_before).contains(ids@[t as int]@));
                    }
                } else if b == pi {
                    assert(now[a] == out_before[a]);
                    if now[a]@ == now[b]@ {
                        assert(views_of(out_before)[a] == ids@[t as int]@);
                        assert(views_of(out_before).contains(ids@[t as int]@));
                    }
                } else {
                    let aa: int = if a < pi { a } else { a - 1 };
                    let bb: int = if b < pi { b } else { b - 1 };
                    assert(now[a] == out_before[aa]);
                    assert(now[b] == out_before[bb]);
                }
            }
            // sortedness
            assert forall|a: int, b: int|
                #![trigger now[a], now[b]]
                0 <= a < b < now.len() implies score_le(
                rrf_score(v1, v2, kk, ww1, ww2, now[b]@),
                rrf_score(v1, v2, kk, ww1, ww2, now[a]@),
            ) by {
                lemma_rrf_den_pos(v1, v2, kk, ww1, ww2, now[a]@);
                lemma_rrf_den_pos(v1, v2, kk, ww1, ww2, now[b]@);
                if a == pi {
                    // snew versus an element that was at or after the insertion point
                    assert(now[b] == out_before[b - 1]);
                    let sb = rrf_score(v1, v2, kk, ww1, ww2, out_before[b - 1]@);
                    assert((nums_before[b - 1] as int, dens_before[b - 1] as int) == sb);
                    let sp = rrf_score(v1, v2, kk, ww1, ww2, out_before[pi]@);
                    assert((nums_before[pi] as int, dens_before[pi] as int) == sp);
                    assert((nums_before[pi] as int) * (den as int) < (num as int) * (
                    dens_before[pi] as int));
                    assert(score_le(sp, snew));
                    if b - 1 > pi {
                        assert(score_le(sb, sp));
                        lemma_rrf_den_pos(v1, v2, kk, ww1, ww2, out_before[pi]@);
                        lemma_score_le_trans(sb, sp, snew);
                    }
                } else if b == pi {
                    assert(now[a] == out_before[a]);
                    assert(a < pi);
                    let sa = rrf_score(v1, v2, kk, ww1, ww2, out_before[a]@);
                    assert((nums_before[a] as int, dens_before[a] as int) == sa);
                    assert(!((nums_before[a] as int) * (den as int) < (num as int) * (
                    dens_before[a] as int)));
                    assert(score_le(snew, sa));
                } else {
                    let aa: int = if a < pi { a } else { a - 1 };
                    let bb: int = if b < pi { b } else { b - 1 };
                    assert(now[a] == out_before[aa]);
                    assert(now[b] == out_before[bb]);
                    assert(aa < bb);
                }
            }
        }
        t = t + 1;
    }
    proof {
        assert forall|x: Seq<char>|
            #[trigger] views_of(out_ids@).contains(x) implies (v1.contains(x) || v2.contains(
            x,
        )) by {
            let m = choose|m: int| 0 <= m < ids@.len() && views_of(ids@)[m] == x;
            assert(views_of(ids@).contains(x));
        }
        assert forall|x: Seq<char>| (v1.contains(x) || v2.contains(x)) implies #[trigger] views_of(
            out_ids@,
        ).contains(x) by {
            assert(views_of(ids@).contains(x));
            let m = choose|m: int| 0 <= m < views_of(ids@).len() && views_of(ids@)[m] == x;
        }
        let ov = views_of(out_ids@);
        assert forall|i: int, j: int|
            #![trigger ov[i], ov[j]]
            0 <= i < j < ov.len() implies ov[i] != ov[j] by {
            assert(ov[i] == out_ids@[i]@);
            assert(ov[j] == out_ids@[j]@);
        }
        assert forall|i: int, j: int|
            #![trigger ov[i], ov[j]]
            0 <= i < j < ov.len() implies score_le(
            rrf_score(v1, v2, kk, ww1, ww2, ov[j]),
            rrf_score(v1, v2, kk, ww1, ww2, ov[i]),
        ) by {
            assert(ov[i] == out_ids@[i]@);
            assert(ov[j] == out_ids@[j]@);
        }
    }
    out_ids
}


proof fn lemma_self_score_strict(k: int, w: int, a: int, b: int)
    requires
        k >= 0,
        w >= 1,
        0 <= a < b,
    ensures
        !score_le(
            (w * (k + a + 1) + w * (k + a + 1), (k + a + 1) * (k + a + 1)),
            (w * (k + b + 1) + w * (k + b + 1), (k + b + 1) * (k + b + 1)),
        ),
{
    let da = k + a + 1;
    let db = k + b + 1;
    assert((w * da + w * da) * (db * db) > (w * db + w * db) * (da * da)) by (nonlinear_arith)
        requires
            1 <= da,
            da < db,
            w >= 1,
    ;
}

proof fn lemma_increasing_ge(f: spec_fn(int) -> int, n: int, i: int)
    requires
        forall|a: int, b: int| 0 <= a < b < n ==> #[trigger] f(a) < #[trigger] f(b),
        forall|a: int| 0 <= a < n ==> #[trigger] f(a) >= 0,
        0 <= i < n,
    ensures
        f(i) >= i,
    decreases i,
{
    if i > 0 {
        lemma_increasing_ge(f, n, i - 1);
    }
}

proof fn lemma_increasing_le(f: spec_fn(int) -> int, n: int, i: int)
    requires
        forall|a: int, b: int| 0 <= a < b < n ==> #[trigger] f(a) < #[trigger] f(b),
        forall|a: int| 0 <= a < n ==> #[trigger] f(a) <= n - 1,
        0 <= i < n,
    ensures
        f(i) <= i,
    decreases n - i,
{
    if i < n - 1 {
        lemma_increasing_le(f, n, i + 1);
    }
}

/// Fusing a ranked list of distinct ids with itself under equal weights
/// ranks the items exactly as the list does: any output that carries each
/// id once, covers exactly the list's ids, and is ordered by descending
/// fused score is the list itself.
pub proof fn lemma_rrf_self_fuse(l: Seq<Seq<char>>, r: Seq<Seq<char>>, k: int, w: int)
    requires
        k >= 0,
        w >= 1,
        forall|i: int, j: int| #![trigger l[i], l[j]] 0 <= i < j < l.len() ==> l[i] != l[j],
        forall|i: int, j: int| #![trigger r[i], r[j]] 0 <= i < j < r.len() ==> r[i] != r[j],
        forall|x: Seq<char>| #[trigger] r.contains(x) <==> l.contains(x),
        forall|i: int, j: int|
            #![trigger r[i], r[j]]
            0 <= i < j < r.len() ==> score_le(
                rrf_score(l, l, k, w, w, r[j]),
                rrf_score(l, l, k, w, w, r[i]),
            ),
    ensures
        r == l,
{
    assert(l.no_duplicates()) by {
        assert forall|i: int, j: int|
            0 <= i < l.len() && 0 <= j < l.len() && i != j implies l[i] != l[j] by {
            if i < j {
                assert(l[i] != l[j]);
            } else {
                assert(l[j] != l[i]);
            }
        }
    }
    assert(r.no_duplicates()) by {
        assert forall|i: int, j: int|
            0 <= i < r.len() && 0 <= j < r.len() && i != j implies r[i] != r[j] by {
            if i < j {
                assert(r[i] != r[j]);
            } else {
                assert(r[j] != r[i]);
            }
        }
    }
    l.unique_seq_to_set();
    r.unique_seq_to_set();
    assert(l.to_set() =~= r.to_set()) by {
        assert forall|x: Seq<char>| l.to_set().contains(x) implies r.to_set().contains(x) by {
            assert(l.contains(x));
            assert(r.contains(x));
        }
        assert forall|x: Seq<char>| r.to_set().contains(x) implies l.to_set().contains(x) by {
            assert(r.contains(x));
            assert(l.contains(x));
        }
    }
    let n = l.len() as int;
    assert(r.len() == n);
    let f = |i: int| first_idx(l, r[i])->Some_0;
    assert forall|i: int| 0 <= i < n implies first_idx(l, r[i]) is Some && 0 <= #[trigger] f(i) < n
        && l[f(i)] == r[i] by {
        assert(r.contains(r[i]));
        assert(l.contains(r[i]));
        lemma_first_idx_props(l, r[i]);
    }
    assert forall|a: int, b: int| 0 <= a < b < n implies #[trigger] f(a) < #[trigger] f(b) by {
        lemma_first_idx_props(l, r[a]);
        lemma_first_idx_props(l, r[b]);
        assert(l[f(a)] == r[a]);
        assert(l[f(b)] == r[b]);
        assert(r[a] != r[b]);
        assert(f(a) != f(b));
        if f(b) < f(a) {
            lemma_self_score_strict(k, w, f(b), f(a));
            assert(rrf_score(l, l, k, w, w, r[b]) == (
                w * (k + f(b) + 1) + w * (k + f(b) + 1),
                (k + f(b) + 1) * (k + f(b) + 1),
            ));
            assert(rrf_score(l, l, k, w, w, r[a]) == (
                w * (k + f(a) + 1) + w * (k + f(a) + 1),
                (k + f(a) + 1) * (k + f(a) + 1),
            ));
            assert(!score_le(rrf_score(l, l, k, w, w, r[b]), rrf_score(l, l, k, w, w, r[a])));
            assert(false);
        }
    }
    assert forall|i: int| 0 <= i < n implies #[trigger] f(i) == i by {
        lemma_increasing_ge(f, n, i);
        assert forall|a: int| 0 <= a < n implies #[trigger] f(a) <= n - 1 by {}
        lemma_increasing_le(f, n, i);
    }
    assert forall|i: int| 0 <= i < r.len() implies r[i] == l[i] by {
        assert(f(i) == i);
        assert(l[f(i)] == r[i]);
    }
    assert(r =~= l);
}

} // verus!
