//! A reference model of the engine's context-bucket bookkeeping.
//!
//! The engine partitions each edge's weight into buckets, one per context,
//! with the empty context naming the default bucket that mutations write
//! when the caller gives no context. An aggregate read sees, for each
//! (source, destination) pair, the sum of that pair's weights across every
//! bucket. This module states those rules over exact integer weights and
//! proves the aggregation laws the client's test suite relies on: the
//! aggregate is the per-context sum, deleting one context's edge subtracts
//! exactly that context's contribution and touches no other pair, and
//! deleting then re-putting an edge with its old weight restores the
//! aggregate. The engine itself holds weights as doubles; the model keeps
//! the bookkeeping exact, which is what the invariant is about.

use vstd::prelude::*;

verus! {

use crate::commands::{ReadTarget, ReadTargetView, WriteTarget, write_target_wire};

/// One bucket entry: the weight of the edge (src, dst) in one context.
/// The empty context string is the default bucket.
pub struct BucketEntry {
    pub src: String,
    pub dst: String,
    pub context: String,
    pub weight: i64,
}

pub struct BucketEntryView {
    pub src: Seq<char>,
    pub dst: Seq<char>,
    pub context: Seq<char>,
    pub weight: i64,
}

impl View for BucketEntry {
    type V = BucketEntryView;

    open spec fn view(&self) -> BucketEntryView {
        BucketEntryView {
            src: self.src@,
            dst: self.dst@,
            context: self.context@,
            weight: self.weight,
        }
    }
}

pub open spec fn key_matches(
    e: BucketEntryView,
    src: Seq<char>,
    dst: Seq<char>,
    ctx: Seq<char>,
) -> bool {
    e.src == src && e.dst == dst && e.context == ctx
}

pub open spec fn same_key(a: BucketEntryView, b: BucketEntryView) -> bool {
    a.src == b.src && a.dst == b.dst && a.context == b.context
}

/// At most one entry per (src, dst, context) key.
pub open spec fn buckets_wf(s: Seq<BucketEntryView>) -> bool {
    forall|i: int, j: int|
        0 <= i < j < s.len() ==> !same_key(#[trigger] s[i], #[trigger] s[j])
}

/// The weight stored under one full key, if any.
pub open spec fn weight_of(
    s: Seq<BucketEntryView>,
    src: Seq<char>,
    dst: Seq<char>,
    ctx: Seq<char>,
) -> Option<i64>
    decreases s.len(),
{
    if s.len() == 0 {
        None
    } else if key_matches(s[0], src, dst, ctx) {
        Some(s[0].weight)
    } else {
        weight_of(s.drop_first(), src, dst, ctx)
    }
}

/// What one entry adds to the aggregate of a pair.
pub open spec fn pair_part(e: BucketEntryView, src: Seq<char>, dst: Seq<char>) -> int {
    if e.src == src && e.dst == dst {
        e.weight as int
    } else {
        0
    }
}

/// The aggregate weight of a pair: the sum over every bucket, named or
/// default. This is what a read with the aggregate target observes.
pub open spec fn pair_total(s: Seq<BucketEntryView>, src: Seq<char>, dst: Seq<char>) -> int
    decreases s.len(),
{
    if s.len() == 0 {
        0
    } else {
        pair_part(s[0], src, dst) + pair_total(s.drop_first(), src, dst)
    }
}

/// Whether any bucket holds an edge for the pair: an aggregate read shows
/// the pair exactly when this holds.
pub open spec fn pair_present(s: Seq<BucketEntryView>, src: Seq<char>, dst: Seq<char>) -> bool {
    exists|i: int| 0 <= i < s.len() && (#[trigger] s[i]).src == src && s[i].dst == dst
}

/// The contribution one full key makes to its pair's aggregate.
pub open spec fn contribution(
    s: Seq<BucketEntryView>,
    src: Seq<char>,
    dst: Seq<char>,
    ctx: Seq<char>,
) -> int {
    match weight_of(s, src, dst, ctx) {
        Some(w) => w as int,
        None => 0,
    }
}

/// Removing one full key, keeping every other entry in order.
pub open spec fn delete_spec(
    s: Seq<BucketEntryView>,
    src: Seq<char>,
    dst: Seq<char>,
    ctx: Seq<char>,
) -> Seq<BucketEntryView>
    decreases s.len(),
{
    if s.len() == 0 {
        Seq::empty()
    } else if key_matches(s[0], src, dst, ctx) {
        delete_spec(s.drop_first(), src, dst, ctx)
    } else {
        seq![s[0]] + delete_spec(s.drop_first(), src, dst, ctx)
    }
}

/// Setting one full key to a weight: any previous entry for the key goes,
/// the new one arrives.
pub open spec fn put_spec(
    s: Seq<BucketEntryView>,
    src: Seq<char>,
    dst: Seq<char>,
    ctx: Seq<char>,
    w: i64,
) -> Seq<BucketEntryView> {
    delete_spec(s, src, dst, ctx).push(
        BucketEntryView { src: src, dst: dst, context: ctx, weight: w },
    )
}

// ----------------------------------------------------------------
// Lemmas about the model's spec operations
// ----------------------------------------------------------------

proof fn lemma_wf_drop_first(s: Seq<BucketEntryView>)
    requires
        buckets_wf(s),
        s.len() > 0,
    ensures
        buckets_wf(s.drop_first()),
{
    let t = s.drop_first();
    assert forall|i: int, j: int| 0 <= i < j < t.len() implies !same_key(t[i], t[j]) by {
        assert(t[i] == s[i + 1]);
        assert(t[j] == s[j + 1]);
        assert(!same_key(s[i + 1], s[j + 1]));
    }
}

proof fn lemma_weight_of_none_iff(
    s: Seq<BucketEntryView>,
    src: Seq<char>,
    dst: Seq<char>,
    ctx: Seq<char>,
)
    ensures
        (weight_of(s, src, dst, ctx) is None) <==> (forall|i: int|
            0 <= i < s.len() ==> !key_matches(#[trigger] s[i], src, dst, ctx)),
    decreases s.len(),
{
    if s.len() == 0 {
    } else {
        lemma_weight_of_none_iff(s.drop_first(), src, dst, ctx);
        let t = s.drop_first();
        if key_matches(s[0], src, dst, ctx) {
        } else {
            if weight_of(s, src, dst, ctx) is None {
                assert forall|i: int| 0 <= i < s.len() implies !key_matches(
                    s[i],
                    src,
                    dst,
                    ctx,
                ) by {
                    if i > 0 {
                        assert(s[i] == t[i - 1]);
                    }
                }
            } else {
                assert(weight_of(t, src, dst, ctx) is Some);
                let i0 = choose|i: int| 0 <= i < t.len() && key_matches(t[i], src, dst, ctx);
                assert(s[i0 + 1] == t[i0]);
            }
        }
    }
}

/// Everything the deletion of one key guarantees: well-formedness and
/// membership are preserved, the key is gone, every other key keeps its
/// weight, and each pair's aggregate drops by exactly the deleted key's
/// contribution, which is zero for every other pair.
pub proof fn lemma_delete_aggregate(
    s: Seq<BucketEntryView>,
    src: Seq<char>,
    dst: Seq<char>,
    ctx: Seq<char>,
)
    requires
        buckets_wf(s),
    ensures
        buckets_wf(delete_spec(s, src, dst, ctx)),
        forall|i: int|
            0 <= i < delete_spec(s, src, dst, ctx).len() ==> s.contains(
                #[trigger] delete_spec(s, src, dst, ctx)[i],
            ),
        weight_of(delete_spec(s, src, dst, ctx), src, dst, ctx) is None,
        forall|s2: Seq<char>, d2: Seq<char>, c2: Seq<char>|
            !(s2 == src && d2 == dst && c2 == ctx) ==> #[trigger] weight_of(
                delete_spec(s, src, dst, ctx),
                s2,
                d2,
                c2,
            ) == weight_of(s, s2, d2, c2),
        forall|s2: Seq<char>, d2: Seq<char>|
            #[trigger] pair_total(delete_spec(s, src, dst, ctx), s2, d2) == pair_total(s, s2, d2)
                - (if s2 == src && d2 == dst {
                contribution(s, src, dst, ctx)
            } else {
                0
            }),
    decreases s.len(),
{
    let d = delete_spec(s, src, dst, ctx);
    if s.len() == 0 {
        assert(d =~= Seq::<BucketEntryView>::empty());
    } else {
        let t = s.drop_first();
        lemma_wf_drop_first(s);
        lemma_delete_aggregate(t, src, dst, ctx);
        let dt = delete_spec(t, src, dst, ctx);
        if key_matches(s[0], src, dst, ctx) {
            // the head is the deleted key; by uniqueness the tail is clean
            lemma_weight_of_none_iff(t, src, dst, ctx);
            assert forall|i: int| 0 <= i < t.len() implies !key_matches(t[i], src, dst, ctx) by {
                assert(t[i] == s[i + 1]);
                assert(!same_key(s[0], s[i + 1]));
            }
            assert(weight_of(t, src, dst, ctx) is None);
            assert(contribution(t, src, dst, ctx) == 0);
            assert(d == dt);
            assert forall|i: int| 0 <= i < d.len() implies s.contains(d[i]) by {
                assert(t.contains(d[i]));
                let m = choose|m: int| 0 <= m < t.len() && t[m] == d[i];
                assert(s[m + 1] == t[m]);
            }
            assert(contribution(s, src, dst, ctx) == s[0].weight as int);
            assert forall|s2: Seq<char>, d2: Seq<char>| #[trigger] pair_total(d, s2, d2)
                == pair_total(s, s2, d2) - (if s2 == src && d2 == dst {
                contribution(s, src, dst, ctx)
            } else {
                0
            }) by {
                assert(pair_total(s, s2, d2) == pair_part(s[0], s2, d2) + pair_total(t, s2, d2));
                if s2 == src && d2 == dst {
                    assert(pair_part(s[0], s2, d2) == s[0].weight as int);
                } else {
                    assert(pair_part(s[0], s2, d2) == 0);
                }
            }
        } else {
            assert(d == seq![s[0]] + dt);
            assert(d.len() == 1 + dt.len());
            assert(d[0] == s[0]);
            assert(d.drop_first() =~= dt);
            assert forall|i: int| 0 <= i < d.len() implies s.contains(d[i]) by {
                if i == 0 {
                    assert(s[0] == d[0]);
                } else {
                    assert(d[i] == dt[i - 1]);
                    assert(t.contains(dt[i - 1]));
                    let m = choose|m: int| 0 <= m < t.len() && t[m] == dt[i - 1];
                    assert(s[m + 1] == t[m]);
                }
            }
            assert forall|i: int, j: int| 0 <= i < j < d.len() implies !same_key(
                d[i],
                d[j],
            ) by {
                if i == 0 {
                    assert(d[j] == dt[j - 1]);
                    assert(t.contains(dt[j - 1]));
                    let m = choose|m: int| 0 <= m < t.len() && t[m] == dt[j - 1];
                    assert(s[m + 1] == t[m]);
                    assert(!same_key(s[0], s[m + 1]));
                } else {
                    assert(d[i] == dt[i - 1]);
                    assert(d[j] == dt[j - 1]);
                    assert(buckets_wf(dt));
                    assert(!same_key(dt[i - 1], dt[j - 1]));
                }
            }
            assert(weight_of(d, src, dst, ctx) == weight_of(dt, src, dst, ctx));
            assert forall|s2: Seq<char>, d2: Seq<char>, c2: Seq<char>| !(s2 == src && d2 == dst
                && c2 == ctx) implies #[trigger] weight_of(d, s2, d2, c2) == weight_of(
                s,
                s2,
                d2,
                c2,
            ) by {
                if key_matches(s[0], s2, d2, c2) {
                    assert(weight_of(d, s2, d2, c2) == Some(s[0].weight));
                    assert(weight_of(s, s2, d2, c2) == Some(s[0].weight));
                } else {
                    assert(weight_of(d, s2, d2, c2) == weight_of(dt, s2, d2, c2));
                    assert(weight_of(s, s2, d2, c2) == weight_of(t, s2, d2, c2));
                }
            }
            assert forall|s2: Seq<char>, d2: Seq<char>| #[trigger] pair_total(d, s2, d2)
                == pair_total(s, s2, d2) - (if s2 == src && d2 == dst {
                contribution(s, src, dst, ctx)
            } else {
                0
            }) by {
                assert(pair_total(d, s2, d2) == pair_part(d[0], s2, d2) + pair_total(
                    d.drop_first(),
                    s2,
                    d2,
                ));
                assert(pair_total(s, s2, d2) == pair_part(s[0], s2, d2) + pair_total(t, s2, d2));
                assert(contribution(s, src, dst, ctx) == contribution(t, src, dst, ctx));
            }
        }
    }
}

/// Everything that appending an entry under a fresh key guarantees.
pub proof fn lemma_push_aggregate(s: Seq<BucketEntryView>, e: BucketEntryView)
    requires
        buckets_wf(s),
        weight_of(s, e.src, e.dst, e.context) is None,
    ensures
        buckets_wf(s.push(e)),
        weight_of(s.push(e), e.src, e.dst, e.context) == Some(e.weight),
        forall|s2: Seq<char>, d2: Seq<char>, c2: Seq<char>|
            !(s2 == e.src && d2 == e.dst && c2 == e.context) ==> #[trigger] weight_of(
                s.push(e),
                s2,
                d2,
                c2,
            ) == weight_of(s, s2, d2, c2),
        forall|s2: Seq<char>, d2: Seq<char>|
            #[trigger] pair_total(s.push(e), s2, d2) == pair_total(s, s2, d2) + pair_part(
                e,
                s2,
                d2,
            ),
    decreases s.len(),
{
    let p = s.push(e);
    lemma_weight_of_none_iff(s, e.src, e.dst, e.context);
    assert forall|i: int, j: int| 0 <= i < j < p.len() implies !same_key(p[i], p[j]) by {
        if j == s.len() as int {
            assert(p[i] == s[i]);
            assert(p[j] == e);
            assert(!key_matches(s[i], e.src, e.dst, e.context));
        } else {
            assert(p[i] == s[i]);
            assert(p[j] == s[j]);
        }
    }
    if s.len() == 0 {
        assert(p[0] == e);
        assert(p.drop_first() =~= Seq::<BucketEntryView>::empty());
        assert(key_matches(p[0], e.src, e.dst, e.context));
        assert(weight_of(p, e.src, e.dst, e.context) == Some(e.weight));
        assert forall|s2: Seq<char>, d2: Seq<char>, c2: Seq<char>| !(s2 == e.src && d2 == e.dst
            && c2 == e.context) implies #[trigger] weight_of(p, s2, d2, c2) == weight_of(
            s,
            s2,
            d2,
            c2,
        ) by {
            assert(!key_matches(p[0], s2, d2, c2));
            assert(weight_of(p, s2, d2, c2) == weight_of(p.drop_first(), s2, d2, c2));
        }
        assert forall|s2: Seq<char>, d2: Seq<char>| #[trigger] pair_total(p, s2, d2)
            == pair_total(s, s2, d2) + pair_part(e, s2, d2) by {
            assert(pair_total(p, s2, d2) == pair_part(e, s2, d2) + pair_total(
                p.drop_first(),
                s2,
                d2,
            ));
        }
    } else {
        let t = s.drop_first();
        lemma_wf_drop_first(s);
        assert(weight_of(t, e.src, e.dst, e.context) is None);
        lemma_push_aggregate(t, e);
        assert(p[0] == s[0]);
        assert(p.drop_first() =~= t.push(e));
        assert(!key_matches(s[0], e.src, e.dst, e.context));
        assert(weight_of(p, e.src, e.dst, e.context) == weight_of(
            t.push(e),
            e.src,
            e.dst,
            e.context,
        ));
        assert forall|s2: Seq<char>, d2: Seq<char>, c2: Seq<char>| !(s2 == e.src && d2 == e.dst
            && c2 == e.context) implies #[trigger] weight_of(p, s2, d2, c2) == weight_of(
            s,
            s2,
            d2,
            c2,
        ) by {
            if key_matches(s[0], s2, d2, c2) {
            } else {
                assert(weight_of(p, s2, d2, c2) == weight_of(t.push(e), s2, d2, c2));
                assert(weight_of(s, s2, d2, c2) == weight_of(t, s2, d2, c2));
            }
        }
        assert forall|s2: Seq<char>, d2: Seq<char>| #[trigger] pair_total(p, s2, d2)
            == pair_total(s, s2, d2) + pair_part(e, s2, d2) by {
            assert(pair_total(p, s2, d2) == pair_part(s[0], s2, d2) + pair_total(
                t.push(e),
                s2,
                d2,
            ));
            assert(pair_total(s, s2, d2) == pair_part(s[0], s2, d2) + pair_total(t, s2, d2));
        }
    }
}

// ----------------------------------------------------------------
// The aggregation laws
// ----------------------------------------------------------------

/// Setting one context's bucket moves its pair's aggregate from the old
/// contribution of that bucket to the new weight, and leaves the aggregate
/// of every other pair untouched: the aggregate is always the sum of the
/// per-context weights.
pub proof fn lemma_put_aggregate(
    s: Seq<BucketEntryView>,
    src: Seq<char>,
    dst: Seq<char>,
    ctx: Seq<char>,
    w: i64,
)
    requires
        buckets_wf(s),
    ensures
        buckets_wf(put_spec(s, src, dst, ctx, w)),
        weight_of(put_spec(s, src, dst, ctx, w), src, dst, ctx) == Some(w),
        forall|s2: Seq<char>, d2: Seq<char>, c2: Seq<char>|
            !(s2 == src && d2 == dst && c2 == ctx) ==> #[trigger] weight_of(
                put_spec(s, src, dst, ctx, w),
                s2,
                d2,
                c2,
            ) == weight_of(s, s2, d2, c2),
        pair_total(put_spec(s, src, dst, ctx, w), src, dst) == pair_total(s, src, dst)
            - contribution(s, src, dst, ctx) + w,
        forall|s2: Seq<char>, d2: Seq<char>|
            !(s2 == src && d2 == dst) ==> #[trigger] pair_total(
                put_spec(s, src, dst, ctx, w),
                s2,
                d2,
            ) == pair_total(s, s2, d2),
{
    let d = delete_spec(s, src, dst, ctx);
    let e = BucketEntryView { src: src, dst: dst, context: ctx, weight: w };
    lemma_delete_aggregate(s, src, dst, ctx);
    lemma_push_aggregate(d, e);
    assert(pair_part(e, src, dst) == w as int);
}

/// Deleting a context's edge and re-putting it with its old weight
/// restores the aggregate of every pair to what it was.
pub proof fn lemma_reinsert_restores(
    s: Seq<BucketEntryView>,
    src: Seq<char>,
    dst: Seq<char>,
    ctx: Seq<char>,
    w: i64,
)
    requires
        buckets_wf(s),
        weight_of(s, src, dst, ctx) == Some(w),
    ensures
        forall|s2: Seq<char>, d2: Seq<char>|
            #[trigger] pair_total(
                put_spec(delete_spec(s, src, dst, ctx), src, dst, ctx, w),
                s2,
                d2,
            ) == pair_total(s, s2, d2),
{
    let d = delete_spec(s, src, dst, ctx);
    lemma_delete_aggregate(s, src, dst, ctx);
    lemma_put_aggregate(d, src, dst, ctx, w);
    assert(contribution(d, src, dst, ctx) == 0);
    assert(contribution(s, src, dst, ctx) == w as int);
}

// ----------------------------------------------------------------
// Auxiliary lemmas for the executable model
// ----------------------------------------------------------------

proof fn lemma_delete_spec_absent(
    s: Seq<BucketEntryView>,
    src: Seq<char>,
    dst: Seq<char>,
    ctx: Seq<char>,
)
    requires
        forall|i: int| 0 <= i < s.len() ==> !key_matches(#[trigger] s[i], src, dst, ctx),
    ensures
        delete_spec(s, src, dst, ctx) == s,
    decreases s.len(),
{
    if s.len() == 0 {
        assert(delete_spec(s, src, dst, ctx) =~= s);
    } else {
        let t = s.drop_first();
        assert forall|i: int| 0 <= i < t.len() implies !key_matches(t[i], src, dst, ctx) by {
            assert(t[i] == s[i + 1]);
        }
        lemma_delete_spec_absent(t, src, dst, ctx);
        assert(delete_spec(s, src, dst, ctx) =~= s);
    }
}

proof fn lemma_delete_spec_at(
    s: Seq<BucketEntryView>,
    src: Seq<char>,
    dst: Seq<char>,
    ctx: Seq<char>,
    i: int,
)
    requires
        buckets_wf(s),
        0 <= i < s.len(),
        key_matches(s[i], src, dst, ctx),
    ensures
        delete_spec(s, src, dst, ctx) == s.remove(i),
    decreases s.len(),
{
    let t = s.drop_first();
    if i == 0 {
        assert forall|j: int| 0 <= j < t.len() implies !key_matches(t[j], src, dst, ctx) by {
            assert(t[j] == s[j + 1]);
            assert(!same_key(s[0], s[j + 1]));
        }
        lemma_delete_spec_absent(t, src, dst, ctx);
        assert(s.remove(0) =~= t);
    } else {
        assert(t[i - 1] == s[i]);
        assert(!same_key(s[0], s[i]));
        assert(!key_matches(s[0], src, dst, ctx));
        lemma_wf_drop_first(s);
        lemma_delete_spec_at(t, src, dst, ctx, i - 1);
        assert(s.remove(i) =~= seq![s[0]] + t.remove(i - 1));
    }
}

proof fn lemma_pair_total_push(
    s: Seq<BucketEntryView>,
    e: BucketEntryView,
    src: Seq<char>,
    dst: Seq<char>,
)
    ensures
        pair_total(s.push(e), src, dst) == pair_total(s, src, dst) + pair_part(e, src, dst),
    decreases s.len(),
{
    if s.len() == 0 {
        assert(s.push(e)[0] == e);
        assert(s.push(e).drop_first() =~= Seq::<BucketEntryView>::empty());
        assert(pair_total(Seq::<BucketEntryView>::empty(), src, dst) == 0);
        assert(pair_total(s.push(e), src, dst) == pair_part(e, src, dst) + pair_total(
            s.push(e).drop_first(),
            src,
            dst,
        ));
    } else {
        assert(s.push(e)[0] == s[0]);
        assert(s.push(e).drop_first() =~= s.drop_first().push(e));
        lemma_pair_total_push(s.drop_first(), e, src, dst);
        assert(pair_total(s.push(e), src, dst) == pair_part(s[0], src, dst) + pair_total(
            s.drop_first().push(e),
            src,
            dst,
        ));
    }
}

proof fn lemma_pair_total_bound(s: Seq<BucketEntryView>, src: Seq<char>, dst: Seq<char>)
    ensures
        -((s.len() as int) * 0x8000000000000000) <= pair_total(s, src, dst) <= (s.len() as int)
            * 0x8000000000000000,
    decreases s.len(),
{
    if s.len() == 0 {
    } else {
        lemma_pair_total_bound(s.drop_first(), src, dst);
    }
}

// ----------------------------------------------------------------
// The executable model
// ----------------------------------------------------------------

/// The bucket store itself: a set of entries, at most one per key.
pub struct BucketModel {
    entries: Vec<BucketEntry>,
}

impl View for BucketModel {
    type V = Seq<BucketEntryView>;

    closed spec fn view(&self) -> Seq<BucketEntryView> {
        self.entries@.map_values(|e: BucketEntry| e@)
    }
}

impl BucketModel {
    /// An empty store: no edge in any bucket.
    pub fn new() -> (r: BucketModel)
        ensures
            r@ == Seq::<BucketEntryView>::empty(),
            buckets_wf(r@),
    {
        let r = BucketModel { entries: Vec::new() };
        proof {
            assert(r@ =~= Seq::<BucketEntryView>::empty());
        }
        r
    }

    fn find(&self, src: &String, dst: &String, ctx: &String) -> (r: Option<usize>)
        ensures
            (match r {
                Some(i) => i < self@.len() && key_matches(self@[i as int], src@, dst@, ctx@),
                None => forall|i: int|
                    0 <= i < self@.len() ==> !key_matches(#[trigger] self@[i], src@, dst@, ctx@),
            }),
    {
        let n = self.entries.len();
        let mut i: usize = 0;
        while i < n
            invariant
                n == self.entries@.len(),
                i <= n,
                self@.len() == n,
                forall|j: int|
                    0 <= j < i ==> !key_matches(#[trigger] self@[j], src@, dst@, ctx@),
            decreases n - i,
        {
            let e = &self.entries[i];
            assert(self@[i as int] == self.entries@[i as int]@);
            if e.src == *src && e.dst == *dst && e.context == *ctx {
                return Some(i);
            }
            i = i + 1;
        }
        None
    }

    /// Sets the weight of (src, dst) in the targeted bucket, replacing any
    /// previous weight of that bucket.
    pub fn put_edge(&mut self, src: &String, dst: &String, target: &WriteTarget, weight: i64)
        requires
            buckets_wf(old(self)@),
        ensures
            final(self)@ == put_spec(
                old(self)@,
                src@,
                dst@,
                write_target_wire(target@),
                weight,
            ),
            buckets_wf(final(self)@),
    {
        let ctx: String = match target {
            WriteTarget::Default => String::new(),
            WriteTarget::Named(s) => s.clone(),
        };
        let ghost ctxv = write_target_wire(target@);
        assert(ctx@ == ctxv);
        match self.find(src, dst, &ctx) {
            Some(i) => {
                proof {
                    lemma_delete_spec_at(self@, src@, dst@, ctxv, i as int);
                }
                let ghost before = self@;
                self.entries.remove(i);
                assert(self@ =~= before.remove(i as int));
            },
            None => {
                proof {
                    lemma_delete_spec_absent(self@, src@, dst@, ctxv);
                }
            },
        }
        let ghost deleted = self@;
        assert(deleted == delete_spec(old(self)@, src@, dst@, ctxv));
        let entry = BucketEntry {
            src: src.clone(),
            dst: dst.clone(),
            context: ctx,
            weight: weight,
        };
        assert(entry@ == (BucketEntryView { src: src@, dst: dst@, context: ctxv, weight }));
        self.entries.push(entry);
        assert(self@ =~= deleted.push(entry@));
        proof {
            lemma_delete_aggregate(old(self)@, src@, dst@, ctxv);
            lemma_push_aggregate(deleted, entry@);
        }
    }

    /// Removes the edge (src, dst) from the targeted bucket, if present;
    /// every other bucket of the pair is untouched.
    pub fn delete_edge(&mut self, src: &String, dst: &String, target: &WriteTarget)
        requires
            buckets_wf(old(self)@),
        ensures
            final(self)@ == delete_spec(old(self)@, src@, dst@, write_target_wire(target@)),
            buckets_wf(final(self)@),
    {
        let ctx: String = match target {
            WriteTarget::Default => String::new(),
            WriteTarget::Named(s) => s.clone(),
        };
        let ghost ctxv = write_target_wire(target@);
        assert(ctx@ == ctxv);
        match self.find(src, dst, &ctx) {
            Some(i) => {
                proof {
                    lemma_delete_spec_at(self@, src@, dst@, ctxv, i as int);
                }
                let ghost before = self@;
                self.entries.remove(i);
                assert(self@ =~= before.remove(i as int));
            },
            None => {
                proof {
                    lemma_delete_spec_absent(self@, src@, dst@, ctxv);
                }
            },
        }
        proof {
            lemma_delete_aggregate(old(self)@, src@, dst@, ctxv);
        }
    }

    /// Reads the weight of (src, dst) through a read target: one named
    /// bucket's weight, or the aggregate sum over every bucket. The
    /// aggregate shows the pair exactly when some bucket holds it.
    pub fn edge_weight(&self, src: &String, dst: &String, target: &ReadTarget) -> (r: Option<
        i128,
    >)
        requires
            buckets_wf(self@),
        ensures
            (match target@ {
                ReadTargetView::Named(c) => (match weight_of(self@, src@, dst@, c) {
                    Some(w) => r == Some(w as i128),
                    None => r is None,
                }),
                ReadTargetView::Aggregate => (match r {
                    Some(v) => pair_present(self@, src@, dst@) && v as int == pair_total(
                        self@,
                        src@,
                        dst@,
                    ),
                    None => !pair_present(self@, src@, dst@),
                }),
            }),
    {
        match target {
            ReadTarget::Named(c) => {
                proof {
                    lemma_weight_of_none_iff(self@, src@, dst@, c@);
                }
                match self.find(src, dst, c) {
                    Some(i) => {
                        assert(self@[i as int] == self.entries@[i as int]@);
                        proof {
                            lemma_weight_of_at(self@, src@, dst@, c@, i as int);
                        }
                        Some(self.entries[i].weight as i128)
                    },
                    None => None,
                }
            },
            ReadTarget::Aggregate => {
                let n = self.entries.len();
                let mut i: usize = 0;
                let mut total: i128 = 0;
                let mut found: bool = false;
                proof {
                    assert(self@.take(0) =~= Seq::<BucketEntryView>::empty());
                }
                while i < n
                    invariant
                        buckets_wf(self@),
                        n == self.entries@.len(),
                        self@.len() == n,
                        i <= n,
                        total as int == pair_total(self@.take(i as int), src@, dst@),
                        -((i as int) * 0x8000000000000000) <= total as int <= (i as int)
                            * 0x8000000000000000,
                        found == pair_present(self@.take(i as int), src@, dst@),
                    decreases n - i,
                {
                    let e = &self.entries[i];
                    assert(self@[i as int] == self.entries@[i as int]@);
                    let ghost pre = self@.take(i as int);
                    proof {
                        assert(self@.take(i + 1int) =~= pre.push(self@[i as int]));
                        lemma_pair_total_push(pre, self@[i as int], src@, dst@);
                    }
                    if e.src == *src && e.dst == *dst {
                        total = total + (e.weight as i128);
                        assert(pair_present(self@.take(i + 1int), src@, dst@)) by {
                            assert(self@.take(i + 1int)[i as int] == self@[i as int]);
                        }
                        found = true;
                    } else {
                        assert(pair_part(self@[i as int], src@, dst@) == 0);
                        proof {
                            if !found {
                                assert forall|j: int| 0 <= j < i + 1 implies !((#[trigger] self@.take(
                                    i + 1int,
                                )[j]).src == src@ && self@.take(i + 1int)[j].dst == dst@) by {
                                    assert(self@.take(i + 1int)[j] == self@[j]);
                                    if j < i {
                                        assert(self@.take(i as int)[j] == self@[j]);
                                    }
                                }
                            } else {
                                let w = choose|j: int|
                                    0 <= j < i && (#[trigger] pre[j]).src == src@ && pre[j].dst
                                        == dst@;
                                assert(self@.take(i + 1int)[w] == self@[w]);
                                assert(pre[w] == self@[w]);
                            }
                        }
                    }
                    i = i + 1;
                }
                proof {
                    assert(self@.take(n as int) =~= self@);
                }
                if found {
                    Some(total)
                } else {
                    None
                }
            },
        }
    }
}

proof fn lemma_weight_of_at(
    s: Seq<BucketEntryView>,
    src: Seq<char>,
    dst: Seq<char>,
    ctx: Seq<char>,
    i: int,
)
    requires
        buckets_wf(s),
        0 <= i < s.len(),
        key_matches(s[i], src, dst, ctx),
    ensures
        weight_of(s, src, dst, ctx) == Some(s[i].weight),
    decreases s.len(),
{
    if i == 0 {
    } else {
        assert(!same_key(s[0], s[i]));
        assert(!key_matches(s[0], src, dst, ctx));
        lemma_wf_drop_first(s);
        assert(s.drop_first()[i - 1] == s[i]);
        lemma_weight_of_at(s.drop_first(), src, dst, ctx, i - 1);
    }
}

} // verus!
