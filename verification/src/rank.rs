//! Ordering of query results.
//!
//! A query's matches arrive in base relevance order; each carries an
//! adjusted score. Scores are handled here through an order-preserving
//! integer `key` (larger key, better adjusted score), so the ordering
//! rules stay independent of how the score itself is computed. Results
//! are ordered by adjusted score descending, ties broken by the base
//! ranking position — a stable re-ranking — and capped at the result
//! limit.

use vstd::prelude::*;
use vstd::seq_lib::lemma_multiset_commutative;
use crate::dto::FileDTO;
use crate::index_model::clone_record;

verus! {

/// One match of a query: the document's fields, the order-preserving
/// encoding of its adjusted score, and its position in the base relevance
/// ranking.
pub struct ScoredHit {
    pub key: u64,
    pub pos: usize,
    pub doc: FileDTO,
}

/// `a` is ranked strictly ahead of `b`: a better adjusted score, or the
/// same score and an earlier base position.
pub open spec fn strictly_before(a: ScoredHit, b: ScoredHit) -> bool {
    a.key > b.key || (a.key == b.key && a.pos < b.pos)
}

/// `a` need not be ranked after `b`.
pub open spec fn in_order(a: ScoredHit, b: ScoredHit) -> bool {
    a.key > b.key || (a.key == b.key && a.pos <= b.pos)
}

/// Descending by adjusted score, ties in base order.
pub open spec fn sorted_hits(s: Seq<ScoredHit>) -> bool {
    forall|i: int, j: int| 0 <= i < j < s.len() ==> in_order(#[trigger] s[i], #[trigger] s[j])
}

/// Where one more hit lands in an already ordered sequence: after every
/// hit ranked strictly ahead of it, before all the rest.
pub open spec fn insert_hit(s: Seq<ScoredHit>, h: ScoredHit) -> Seq<ScoredHit>
    decreases s.len(),
{
    if s.len() == 0 {
        seq![h]
    } else if strictly_before(s[0], h) {
        seq![s[0]] + insert_hit(s.drop_first(), h)
    } else {
        seq![h] + s
    }
}

/// The ranked arrangement of a sequence of hits.
pub open spec fn sort_hits_spec(s: Seq<ScoredHit>) -> Seq<ScoredHit>
    decreases s.len(),
{
    if s.len() == 0 {
        Seq::empty()
    } else {
        insert_hit(sort_hits_spec(s.drop_last()), s.last())
    }
}

proof fn lemma_insert_hit_at(s: Seq<ScoredHit>, h: ScoredHit, j: int)
    requires
        0 <= j <= s.len(),
        forall|k: int| 0 <= k < j ==> strictly_before(#[trigger] s[k], h),
        j < s.len() ==> !strictly_before(s[j], h),
    ensures
        insert_hit(s, h) == s.take(j) + seq![h] + s.skip(j),
    decreases j,
{
    if j == 0 {
        if s.len() == 0 {
            assert(s.take(0) + seq![h] + s.skip(0) =~= seq![h]);
        } else {
            assert(s.take(0) + seq![h] + s.skip(0) =~= seq![h] + s);
        }
    } else {
        let rest = s.drop_first();
        assert(forall|k: int| 0 <= k < rest.len() ==> #[trigger] rest[k] == s[k + 1]);
        lemma_insert_hit_at(rest, h, j - 1);
        assert(seq![s[0]] + (rest.take(j - 1) + seq![h] + rest.skip(j - 1)) =~= s.take(j)
            + seq![h] + s.skip(j));
    }
}

proof fn lemma_insert_hit_props(s: Seq<ScoredHit>, h: ScoredHit)
    requires
        sorted_hits(s),
    ensures
        sorted_hits(insert_hit(s, h)),
        insert_hit(s, h).to_multiset() == s.to_multiset().insert(h),
        insert_hit(s, h).len() == s.len() + 1,
    decreases s.len(),
{
    broadcast use vstd::multiset::group_multiset_axioms;

    let out = insert_hit(s, h);
    if s.len() == 0 {
        assert(s =~= Seq::<ScoredHit>::empty());
        s.to_multiset_ensures();
        assert(out =~= s.push(h));
        assert(out.to_multiset() =~= s.to_multiset().insert(h));
    } else if strictly_before(s[0], h) {
        let rest = s.drop_first();
        assert(forall|k: int| 0 <= k < rest.len() ==> #[trigger] rest[k] == s[k + 1]);
        lemma_insert_hit_props(rest, h);
        let inner = insert_hit(rest, h);
        assert(forall|k: int| 0 <= k < inner.len() ==> #[trigger] out[k + 1] == inner[k]);
        assert(out[0] == s[0]);
        // Everything in the inner arrangement is either a hit of `rest`
        // or `h` itself, and the head precedes them all.
        assert forall|k: int| 1 <= k < out.len() implies in_order(out[0], #[trigger] out[k]) by {
            assert(out[k] == inner[k - 1]);
            inner.to_multiset_ensures();
            assert(inner.contains(inner[k - 1]));
            assert(inner.to_multiset().count(inner[k - 1]) > 0);
            if inner[k - 1] == h {
            } else {
                assert(inner.to_multiset() == rest.to_multiset().insert(h));
                assert(rest.to_multiset().count(inner[k - 1]) > 0);
                rest.to_multiset_ensures();
                assert(rest.contains(inner[k - 1]));
                let m = choose|m: int| 0 <= m < rest.len() && rest[m] == inner[k - 1];
                assert(in_order(s[0], s[m + 1]));
            }
        }
        assert(sorted_hits(out));
        // Multiset: out = [s[0]] + inner.
        assert(out =~= seq![s[0]] + inner);
        lemma_multiset_commutative(seq![s[0]], inner);
        lemma_multiset_commutative(seq![s[0]], rest);
        assert(seq![s[0]] + rest =~= s);
        assert(out.to_multiset() =~= s.to_multiset().insert(h)) by {
            assert(out.to_multiset() =~= seq![s[0]].to_multiset().add(
                rest.to_multiset().insert(h),
            ));
            assert(s.to_multiset() =~= seq![s[0]].to_multiset().add(rest.to_multiset()));
        }
    } else {
        assert(out =~= seq![h] + s);
        assert(forall|k: int| 0 <= k < s.len() ==> #[trigger] out[k + 1] == s[k]);
        assert(out[0] == h);
        assert forall|k: int| 1 <= k < out.len() implies in_order(out[0], #[trigger] out[k]) by {
            assert(out[k] == s[k - 1]);
            assert(in_order(s[0], s[k - 1]) || k - 1 == 0);
            assert(in_order(h, s[0]));
        }
        assert(sorted_hits(out));
        lemma_multiset_commutative(seq![h], s);
        assert(seq![h].to_multiset() =~= Seq::<ScoredHit>::empty().push(h).to_multiset());
        Seq::<ScoredHit>::empty().to_multiset_ensures();
        s.to_multiset_ensures();
        assert(out.to_multiset() =~= s.to_multiset().insert(h));
    }
}

/// The ranked arrangement keeps exactly the hits it was given — same
/// multiset, same length — and is ordered.
pub proof fn lemma_sort_hits_props(s: Seq<ScoredHit>)
    ensures
        sorted_hits(sort_hits_spec(s)),
        sort_hits_spec(s).to_multiset() == s.to_multiset(),
        sort_hits_spec(s).len() == s.len(),
    decreases s.len(),
{
    if s.len() == 0 {
        assert(s =~= Seq::<ScoredHit>::empty());
        assert(sort_hits_spec(s) =~= s);
    } else {
        let prefix = s.drop_last();
        lemma_sort_hits_props(prefix);
        lemma_insert_hit_props(sort_hits_spec(prefix), s.last());
        prefix.to_multiset_ensures();
        assert(prefix.push(s.last()).to_multiset() =~= prefix.to_multiset().insert(s.last()));
        assert(prefix.push(s.last()) =~= s);
        assert(sort_hits_spec(s).to_multiset() == prefix.to_multiset().insert(s.last()));
    }
}

/// A hit with a better adjusted score is never ranked after one with a
/// worse score: in an ordered result sequence, a strictly larger key
/// stands strictly earlier.
pub proof fn lemma_higher_key_ranks_earlier(s: Seq<ScoredHit>, i: int, j: int)
    requires
        sorted_hits(s),
        0 <= i < s.len(),
        0 <= j < s.len(),
        s[i].key > s[j].key,
    ensures
        i < j,
{
    if i == j {
    } else if i > j {
        assert(in_order(s[j], s[i]));
    }
}

/// When the adjusted scores leave the base relevance order unchanged —
/// the input is already strictly ordered, as it is when every adjustment
/// is neutral — ranking returns the input exactly.
pub proof fn lemma_sort_of_ordered_is_identity(s: Seq<ScoredHit>)
    requires
        forall|i: int, j: int|
            0 <= i < j < s.len() ==> strictly_before(#[trigger] s[i], #[trigger] s[j]),
    ensures
        sort_hits_spec(s) == s,
    decreases s.len(),
{
    if s.len() == 0 {
        assert(sort_hits_spec(s) =~= s);
    } else {
        let prefix = s.drop_last();
        assert(forall|k: int| 0 <= k < prefix.len() ==> #[trigger] prefix[k] == s[k]);
        lemma_sort_of_ordered_is_identity(prefix);
        lemma_insert_hit_at(prefix, s.last(), prefix.len() as int);
        assert(prefix.take(prefix.len() as int) + seq![s.last()] + prefix.skip(
            prefix.len() as int,
        ) =~= s);
    }
}

/// No two hits share a base position: what attaching base positions
/// guarantees.
pub open spec fn distinct_positions(s: Seq<ScoredHit>) -> bool {
    forall|a: int, b: int| 0 <= a < b < s.len() ==> (#[trigger] s[a]).pos != (#[trigger] s[b]).pos
}

/// How many hits of `s` are ranked strictly ahead of `h`.
pub open spec fn count_ahead(s: Seq<ScoredHit>, h: ScoredHit) -> nat
    decreases s.len(),
{
    if s.len() == 0 {
        0
    } else {
        (if strictly_before(s[0], h) {
            1nat
        } else {
            0nat
        }) + count_ahead(s.drop_first(), h)
    }
}

proof fn lemma_count_ahead_push(s: Seq<ScoredHit>, d: ScoredHit, h: ScoredHit)
    ensures
        count_ahead(s.push(d), h) == count_ahead(s, h) + (if strictly_before(d, h) {
            1nat
        } else {
            0nat
        }),
    decreases s.len(),
{
    let out = s.push(d);
    assert(out.len() == s.len() + 1);
    if s.len() == 0 {
        assert(out[0] == d);
        assert(out.drop_first() =~= Seq::<ScoredHit>::empty());
        assert(count_ahead(out.drop_first(), h) == 0);
        assert(count_ahead(s, h) == 0);
    } else {
        assert(out[0] == s[0]);
        assert(out.drop_first() =~= s.drop_first().push(d));
        lemma_count_ahead_push(s.drop_first(), d, h);
        assert(count_ahead(out, h) == (if strictly_before(out[0], h) {
            1nat
        } else {
            0nat
        }) + count_ahead(out.drop_first(), h));
        assert(count_ahead(s, h) == (if strictly_before(s[0], h) {
            1nat
        } else {
            0nat
        }) + count_ahead(s.drop_first(), h));
    }
}

proof fn lemma_count_ahead_insert(s: Seq<ScoredHit>, d: ScoredHit, h: ScoredHit)
    ensures
        count_ahead(insert_hit(s, d), h) == count_ahead(s, h) + (if strictly_before(d, h) {
            1nat
        } else {
            0nat
        }),
    decreases s.len(),
{
    let out = insert_hit(s, d);
    if s.len() == 0 {
        assert(out =~= seq![d]);
        assert(out[0] == d);
        assert(out.drop_first() =~= Seq::<ScoredHit>::empty());
        assert(count_ahead(out.drop_first(), h) == 0);
        assert(count_ahead(s, h) == 0);
    } else if strictly_before(s[0], d) {
        assert(out =~= seq![s[0]] + insert_hit(s.drop_first(), d));
        assert(out[0] == s[0]);
        assert(out.drop_first() =~= insert_hit(s.drop_first(), d));
        lemma_count_ahead_insert(s.drop_first(), d, h);
        assert(count_ahead(out, h) == (if strictly_before(out[0], h) {
            1nat
        } else {
            0nat
        }) + count_ahead(out.drop_first(), h));
        assert(count_ahead(s, h) == (if strictly_before(s[0], h) {
            1nat
        } else {
            0nat
        }) + count_ahead(s.drop_first(), h));
    } else {
        assert(out =~= seq![d] + s);
        assert(out[0] == d);
        assert(out.drop_first() =~= s);
        assert(count_ahead(out, h) == (if strictly_before(d, h) {
            1nat
        } else {
            0nat
        }) + count_ahead(s, h));
    }
}

proof fn lemma_count_ahead_sort(s: Seq<ScoredHit>, h: ScoredHit)
    ensures
        count_ahead(sort_hits_spec(s), h) == count_ahead(s, h),
    decreases s.len(),
{
    if s.len() == 0 {
    } else {
        let prefix = s.drop_last();
        lemma_count_ahead_sort(prefix, h);
        lemma_count_ahead_insert(sort_hits_spec(prefix), s.last(), h);
        lemma_count_ahead_push(prefix, s.last(), h);
        assert(prefix.push(s.last()) =~= s);
    }
}

proof fn lemma_count_ahead_split(s: Seq<ScoredHit>, h: ScoredHit, r: int)
    requires
        0 <= r <= s.len(),
        forall|j: int| 0 <= j < r ==> strictly_before(#[trigger] s[j], h),
        forall|j: int| r <= j < s.len() ==> !strictly_before(#[trigger] s[j], h),
    ensures
        count_ahead(s, h) == r,
    decreases s.len(),
{
    if s.len() == 0 {
    } else {
        let rest = s.drop_first();
        assert(forall|j: int| 0 <= j < rest.len() ==> #[trigger] rest[j] == s[j + 1]);
        if r == 0 {
            lemma_count_ahead_split(rest, h, 0);
        } else {
            lemma_count_ahead_split(rest, h, r - 1);
        }
    }
}

proof fn lemma_count_ahead_pointwise(
    s1: Seq<ScoredHit>,
    h1: ScoredHit,
    s2: Seq<ScoredHit>,
    h2: ScoredHit,
)
    requires
        s1.len() == s2.len(),
        forall|j: int|
            0 <= j < s2.len() && strictly_before(#[trigger] s2[j], h2) ==> strictly_before(
                s1[j],
                h1,
            ),
    ensures
        count_ahead(s2, h2) <= count_ahead(s1, h1),
    decreases s1.len(),
{
    if s1.len() == 0 {
    } else {
        let r1 = s1.drop_first();
        let r2 = s2.drop_first();
        assert(forall|j: int| 0 <= j < r1.len() ==> #[trigger] r1[j] == s1[j + 1]);
        assert(forall|j: int| 0 <= j < r2.len() ==> #[trigger] r2[j] == s2[j + 1]);
        lemma_count_ahead_pointwise(r1, h1, r2, h2);
    }
}

/// Ranked output holds distinct hits whenever base positions are
/// distinct, and every one of its hits comes from the input.
proof fn lemma_sorted_distinct_positions(s: Seq<ScoredHit>)
    requires
        distinct_positions(s),
    ensures
        distinct_positions(sort_hits_spec(s)),
{
    broadcast use vstd::multiset::group_multiset_axioms;

    let out = sort_hits_spec(s);
    lemma_sort_hits_props(s);
    assert(s.no_duplicates()) by {
        assert forall|a: int, b: int| 0 <= a < b < s.len() implies s[a] != s[b] by {
            assert(s[a].pos != s[b].pos);
        }
    }
    s.lemma_multiset_has_no_duplicates();
    out.lemma_multiset_has_no_duplicates_conv();
    assert forall|a: int, b: int| 0 <= a < b < out.len() implies (#[trigger] out[a]).pos
        != (#[trigger] out[b]).pos by {
        assert(out[a] != out[b]);
        out.to_multiset_ensures();
        s.to_multiset_ensures();
        assert(out.to_multiset().count(out[a]) > 0);
        assert(out.to_multiset().count(out[b]) > 0);
        assert(s.contains(out[a]));
        assert(s.contains(out[b]));
        let ja = choose|ja: int| 0 <= ja < s.len() && s[ja] == out[a];
        let jb = choose|jb: int| 0 <= jb < s.len() && s[jb] == out[b];
        assert(ja != jb);
    }
}

/// Score monotonicity law: take one query's matches and raise the
/// adjusted score key of a single hit, leaving its base position and
/// document — and every other hit — unchanged. In the re-ranked output
/// that hit never stands later than before. With base positions
/// distinct, each of the two rankings holds the hit at exactly one index;
/// `r1` and `r2` name those indices.
pub proof fn lemma_rank_monotone_in_key(
    s1: Seq<ScoredHit>,
    s2: Seq<ScoredHit>,
    i: int,
    r1: int,
    r2: int,
)
    requires
        distinct_positions(s1),
        s1.len() == s2.len(),
        0 <= i < s1.len(),
        forall|j: int| 0 <= j < s1.len() && j != i ==> #[trigger] s2[j] == s1[j],
        s2[i].pos == s1[i].pos,
        s2[i].key >= s1[i].key,
        0 <= r1 < sort_hits_spec(s1).len(),
        sort_hits_spec(s1)[r1] == s1[i],
        0 <= r2 < sort_hits_spec(s2).len(),
        sort_hits_spec(s2)[r2] == s2[i],
    ensures
        r2 <= r1,
{
    let h1 = s1[i];
    let h2 = s2[i];
    let out1 = sort_hits_spec(s1);
    let out2 = sort_hits_spec(s2);
    lemma_sort_hits_props(s1);
    lemma_sort_hits_props(s2);
    assert(distinct_positions(s2)) by {
        assert forall|a: int, b: int| 0 <= a < b < s2.len() implies (#[trigger] s2[a]).pos
            != (#[trigger] s2[b]).pos by {
            assert(s2[a].pos == s1[a].pos);
            assert(s2[b].pos == s1[b].pos);
        }
    }
    lemma_sorted_distinct_positions(s1);
    lemma_sorted_distinct_positions(s2);

    // The hit's index in an ordered, position-distinct ranking equals the
    // number of hits ranked strictly ahead of it.
    assert(count_ahead(out1, h1) == r1) by {
        assert forall|j: int| 0 <= j < r1 implies strictly_before(#[trigger] out1[j], h1) by {
            assert(in_order(out1[j], h1));
            assert(out1[j].pos != h1.pos);
        }
        assert forall|j: int| r1 <= j < out1.len() implies !strictly_before(
            #[trigger] out1[j],
            h1,
        ) by {
            if j != r1 {
                assert(in_order(h1, out1[j]));
                assert(out1[j].pos != h1.pos);
            }
        }
        lemma_count_ahead_split(out1, h1, r1);
    }
    assert(count_ahead(out2, h2) == r2) by {
        assert forall|j: int| 0 <= j < r2 implies strictly_before(#[trigger] out2[j], h2) by {
            assert(in_order(out2[j], h2));
            assert(out2[j].pos != h2.pos);
        }
        assert forall|j: int| r2 <= j < out2.len() implies !strictly_before(
            #[trigger] out2[j],
            h2,
        ) by {
            if j != r2 {
                assert(in_order(h2, out2[j]));
                assert(out2[j].pos != h2.pos);
            }
        }
        lemma_count_ahead_split(out2, h2, r2);
    }
    lemma_count_ahead_sort(s1, h1);
    lemma_count_ahead_sort(s2, h2);

    // Raising the hit's key only shrinks the set of hits ahead of it.
    assert forall|j: int|
        0 <= j < s2.len() && strictly_before(#[trigger] s2[j], h2) implies strictly_before(
        s1[j],
        h1,
    ) by {
        if j != i {
            assert(s2[j] == s1[j]);
        }
    }
    lemma_count_ahead_pointwise(s1, h1, s2, h2);
}

/// Score neutrality law: when the adjusted keys equal the base relevance
/// keys — as they do when every popularity signal is neutral — the
/// matches arrive in base order with weakly descending keys, and
/// re-ranking returns exactly that order.
pub proof fn lemma_neutral_adjustment_keeps_base_order(s: Seq<ScoredHit>)
    requires
        forall|a: int, b: int|
            0 <= a < b < s.len() ==> (#[trigger] s[a]).key >= (#[trigger] s[b]).key,
        forall|i: int| 0 <= i < s.len() ==> (#[trigger] s[i]).pos == i,
    ensures
        sort_hits_spec(s) == s,
{
    assert forall|a: int, b: int| 0 <= a < b < s.len() implies strictly_before(
        #[trigger] s[a],
        #[trigger] s[b],
    ) by {
        assert(s[a].pos == a && s[b].pos == b);
    }
    lemma_sort_of_ordered_is_identity(s);
}

/// An exact copy of one hit.
pub fn clone_hit(h: &ScoredHit) -> (r: ScoredHit)
    ensures
        r == *h,
{
    let r = ScoredHit { key: h.key, pos: h.pos, doc: clone_record(&h.doc) };
    r
}

/// Attach base ranking positions: the `i`-th scored document of the base
/// ranking becomes a hit with position `i`.
pub fn to_scored_hits(scored: Vec<(u64, FileDTO)>) -> (hits: Vec<ScoredHit>)
    ensures
        hits@.len() == scored@.len(),
        forall|i: int|
            0 <= i < hits@.len() ==> {
                &&& (#[trigger] hits@[i]).key == scored@[i].0
                &&& hits@[i].doc == scored@[i].1
                &&& hits@[i].pos == i
            },
{
    let mut hits: Vec<ScoredHit> = Vec::new();
    let mut i: usize = 0;
    while i < scored.len()
        invariant
            i <= scored.len(),
            hits@.len() == i,
            forall|k: int|
                0 <= k < i ==> {
                    &&& (#[trigger] hits@[k]).key == scored@[k].0
                    &&& hits@[k].doc == scored@[k].1
                    &&& hits@[k].pos == k
                },
        decreases scored.len() - i,
    {
        let (key, doc) = &scored[i];
        hits.push(ScoredHit { key: *key, pos: i, doc: clone_record(doc) });
        i = i + 1;
    }
    hits
}

/// Insert one hit into an ordered sequence, keeping it ordered.
fn insert_by_rank(sorted: &mut Vec<ScoredHit>, h: ScoredHit)
    requires
        sorted_hits(old(sorted)@),
    ensures
        final(sorted)@ == insert_hit(old(sorted)@, h),
        sorted_hits(final(sorted)@),
{
    let ghost orig = sorted@;
    let mut j: usize = 0;
    while j < sorted.len() && (sorted[j].key > h.key || (sorted[j].key == h.key && sorted[j].pos
        < h.pos))
        invariant
            j <= sorted.len(),
            sorted@ == orig,
            forall|k: int| 0 <= k < j ==> strictly_before(#[trigger] orig[k], h),
        decreases sorted.len() - j,
    {
        j = j + 1;
    }
    proof {
        lemma_insert_hit_at(orig, h, j as int);
        lemma_insert_hit_props(orig, h);
    }
    sorted.insert(j, h);
    assert(sorted@ =~= orig.take(j as int) + seq![h] + orig.skip(j as int));
}

/// Arrange hits by adjusted score descending, ties broken by base
/// position: the stable re-ranking of one query's matches.
pub fn rank_hits(hits: Vec<ScoredHit>) -> (out: Vec<ScoredHit>)
    ensures
        out@ == sort_hits_spec(hits@),
        sorted_hits(out@),
        out@.to_multiset() == hits@.to_multiset(),
        out@.len() == hits@.len(),
{
    let mut out: Vec<ScoredHit> = Vec::new();
    let mut i: usize = 0;
    assert(hits@.take(0) =~= Seq::<ScoredHit>::empty());
    while i < hits.len()
        invariant
            i <= hits.len(),
            out@ == sort_hits_spec(hits@.take(i as int)),
            sorted_hits(out@),
        decreases hits.len() - i,
    {
        assert(hits@.take(i as int + 1).drop_last() =~= hits@.take(i as int));
        assert(hits@.take(i as int + 1).last() == hits@[i as int]);
        insert_by_rank(&mut out, clone_hit(&hits[i]));
        i = i + 1;
    }
    assert(hits@.take(hits@.len() as int) =~= hits@);
    proof {
        lemma_sort_hits_props(hits@);
    }
    out
}

/// The ranked result list of one query: hits ordered by adjusted score
/// descending with stable ties, capped at `limit` documents.
pub fn top_ranked(hits: Vec<ScoredHit>, limit: usize) -> (out: Vec<ScoredHit>)
    ensures
        out@ == sort_hits_spec(hits@).take(if limit <= hits@.len() {
            limit as int
        } else {
            hits@.len() as int
        }),
        sorted_hits(out@),
{
    let mut out = rank_hits(hits);
    let ghost full = out@;
    if limit < out.len() {
        out.truncate(limit);
        assert(out@ =~= full.take(limit as int));
    } else {
        assert(out@ =~= full.take(full.len() as int));
    }
    assert(sorted_hits(out@)) by {
        assert(forall|k: int| 0 <= k < out@.len() ==> #[trigger] out@[k] == full[k]);
    }
    out
}

} // verus!
