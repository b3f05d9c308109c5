use vstd::prelude::*;

verus! {

/// Bit pattern of negative zero.
pub const NEGATIVE_ZERO_BITS: u64 = 0x8000_0000_0000_0000;

/// Bits of the exponent field of a double.
pub const EXPONENT_MASK: u64 = 0x7ff0_0000_0000_0000;

/// Bits of the fraction field of a double.
pub const FRACTION_MASK: u64 = 0x000f_ffff_ffff_ffff;

/// Whether a double's bit pattern is a NaN: all exponent bits set and a
/// non-zero fraction.
pub open spec fn is_nan_bits(bits: u64) -> bool {
    bits & EXPONENT_MASK == EXPONENT_MASK && bits & FRACTION_MASK != 0
}

/// Sort key of a double's bit pattern. Comparing keys as unsigned integers
/// orders numbers as their values do; both zeros share one key, and every
/// NaN gets the largest key, above infinity.
pub open spec fn order_key_of(bits: u64) -> u64 {
    if is_nan_bits(bits) {
        u64::MAX
    } else if bits == NEGATIVE_ZERO_BITS {
        NEGATIVE_ZERO_BITS
    } else if bits >= NEGATIVE_ZERO_BITS {
        (u64::MAX - bits) as u64
    } else {
        (bits + NEGATIVE_ZERO_BITS) as u64
    }
}

/// Computes [`order_key_of`].
pub fn order_key(bits: u64) -> (r: u64)
    ensures
        r == order_key_of(bits),
{
    if bits & EXPONENT_MASK == EXPONENT_MASK && bits & FRACTION_MASK != 0 {
        u64::MAX
    } else if bits == NEGATIVE_ZERO_BITS {
        NEGATIVE_ZERO_BITS
    } else if bits >= NEGATIVE_ZERO_BITS {
        u64::MAX - bits
    } else {
        bits + NEGATIVE_ZERO_BITS
    }
}

/// Order in which a merge visits the existing centroids (keys `c`) and the
/// batch values (keys `v`): `true` takes the next centroid, `false` the next
/// value. A centroid goes first only when its key is strictly below the next
/// value's; once one side is used up the other follows.
pub open spec fn interleave_of(c: Seq<u64>, v: Seq<u64>) -> Seq<bool>
    decreases c.len() + v.len(),
{
    if c.len() == 0 && v.len() == 0 {
        Seq::empty()
    } else if c.len() > 0 && (v.len() == 0 || c[0] < v[0]) {
        seq![true] + interleave_of(c.drop_first(), v)
    } else {
        seq![false] + interleave_of(c, v.drop_first())
    }
}

/// Number of `true` entries.
pub open spec fn count_true(s: Seq<bool>) -> nat
    decreases s.len(),
{
    if s.len() == 0 {
        0
    } else {
        (if s[0] { 1nat } else { 0nat }) + count_true(s.drop_first())
    }
}

/// Keys met when following `order` through centroid keys `c` and value keys
/// `v`.
pub open spec fn visit(c: Seq<u64>, v: Seq<u64>, order: Seq<bool>) -> Seq<u64>
    decreases order.len(),
{
    if order.len() == 0 {
        Seq::empty()
    } else if order[0] {
        seq![c[0]] + visit(c.drop_first(), v, order.drop_first())
    } else {
        seq![v[0]] + visit(c, v.drop_first(), order.drop_first())
    }
}

/// Keys in non-decreasing order.
pub open spec fn sorted(s: Seq<u64>) -> bool {
    forall|i: int, j: int| 0 <= i <= j < s.len() ==> s[i] <= s[j]
}

/// A merge visits every existing centroid and every batch value exactly once:
/// the order has one entry per item, and takes a centroid as many times as
/// there are centroids.
pub proof fn lemma_interleave_visits_all(c: Seq<u64>, v: Seq<u64>)
    ensures
        interleave_of(c, v).len() == c.len() + v.len(),
        count_true(interleave_of(c, v)) == c.len(),
    decreases c.len() + v.len(),
{
    if c.len() == 0 && v.len() == 0 {
    } else if c.len() > 0 && (v.len() == 0 || c[0] < v[0]) {
        lemma_interleave_visits_all(c.drop_first(), v);
        let o = interleave_of(c, v);
        assert(o.drop_first() =~= interleave_of(c.drop_first(), v));
    } else {
        lemma_interleave_visits_all(c, v.drop_first());
        let o = interleave_of(c, v);
        assert(o.drop_first() =~= interleave_of(c, v.drop_first()));
    }
}

proof fn lemma_visit_lower_bound(c: Seq<u64>, v: Seq<u64>, b: u64)
    requires
        forall|i: int| 0 <= i < c.len() ==> b <= c[i],
        forall|i: int| 0 <= i < v.len() ==> b <= v[i],
    ensures
        forall|i: int|
            0 <= i < visit(c, v, interleave_of(c, v)).len() ==> b <= #[trigger] visit(
                c,
                v,
                interleave_of(c, v),
            )[i],
    decreases c.len() + v.len(),
{
    let o = interleave_of(c, v);
    if c.len() == 0 && v.len() == 0 {
    } else if c.len() > 0 && (v.len() == 0 || c[0] < v[0]) {
        let c2 = c.drop_first();
        lemma_visit_lower_bound(c2, v, b);
        assert(o.drop_first() =~= interleave_of(c2, v));
        assert(visit(c, v, o) == seq![c[0]] + visit(c2, v, interleave_of(c2, v)));
    } else {
        let v2 = v.drop_first();
        lemma_visit_lower_bound(c, v2, b);
        assert(o.drop_first() =~= interleave_of(c, v2));
        assert(visit(c, v, o) == seq![v[0]] + visit(c, v2, interleave_of(c, v2)));
    }
}

/// Merging sorted centroids with a sorted batch visits keys in
/// non-decreasing order.
pub proof fn lemma_interleave_sorted(c: Seq<u64>, v: Seq<u64>)
    requires
        sorted(c),
        sorted(v),
    ensures
        sorted(visit(c, v, interleave_of(c, v))),
    decreases c.len() + v.len(),
{
    let o = interleave_of(c, v);
    if c.len() == 0 && v.len() == 0 {
    } else if c.len() > 0 && (v.len() == 0 || c[0] < v[0]) {
        let c2 = c.drop_first();
        lemma_interleave_sorted(c2, v);
        lemma_visit_lower_bound(c2, v, c[0]);
        assert(o.drop_first() =~= interleave_of(c2, v));
        let rest = visit(c2, v, interleave_of(c2, v));
        assert(visit(c, v, o) == seq![c[0]] + rest);
        assert forall|i: int, j: int| 0 <= i <= j < visit(c, v, o).len() implies visit(c, v, o)[i]
            <= visit(c, v, o)[j] by {
            if i > 0 {
                assert(visit(c, v, o)[i] == rest[i - 1]);
                assert(visit(c, v, o)[j] == rest[j - 1]);
            } else if j > 0 {
                assert(visit(c, v, o)[j] == rest[j - 1]);
            }
        }
    } else {
        let v2 = v.drop_first();
        lemma_interleave_sorted(c, v2);
        lemma_visit_lower_bound(c, v2, v[0]);
        assert(o.drop_first() =~= interleave_of(c, v2));
        let rest = visit(c, v2, interleave_of(c, v2));
        assert(visit(c, v, o) == seq![v[0]] + rest);
        assert forall|i: int, j: int| 0 <= i <= j < visit(c, v, o).len() implies visit(c, v, o)[i]
            <= visit(c, v, o)[j] by {
            if i > 0 {
                assert(visit(c, v, o)[i] == rest[i - 1]);
                assert(visit(c, v, o)[j] == rest[j - 1]);
            } else if j > 0 {
                assert(visit(c, v, o)[j] == rest[j - 1]);
            }
        }
    }
}

proof fn lemma_skip_step<T>(s: Seq<T>, i: int)
    requires
        0 <= i < s.len(),
    ensures
        s.skip(i).len() > 0,
        s.skip(i)[0] == s[i],
        s.skip(i).drop_first() == s.skip(i + 1),
{
    assert(s.skip(i).drop_first() =~= s.skip(i + 1));
}

/// Computes [`interleave_of`] on the keys of the existing centroids and of the
/// batch values.
pub fn interleave(c: &Vec<u64>, v: &Vec<u64>) -> (order: Vec<bool>)
    ensures
        order@ == interleave_of(c@, v@),
{
    let mut order: Vec<bool> = Vec::new();
    let mut i: usize = 0;
    let mut j: usize = 0;
    assert(c@.skip(0) == c@);
    assert(v@.skip(0) == v@);
    while i < c.len() || j < v.len()
        invariant
            i <= c.len(),
            j <= v.len(),
            order@ + interleave_of(c@.skip(i as int), v@.skip(j as int)) == interleave_of(c@, v@),
        decreases c.len() + v.len() - i - j,
    {
        let ghost rest_c = c@.skip(i as int);
        let ghost rest_v = v@.skip(j as int);
        if i < c.len() && (j == v.len() || c[i] < v[j]) {
            proof {
                lemma_skip_step(c@, i as int);
                if j < v.len() {
                    lemma_skip_step(v@, j as int);
                }
                assert(order@.push(true) + interleave_of(rest_c.drop_first(), rest_v) =~= order@
                    + (seq![true] + interleave_of(rest_c.drop_first(), rest_v)));
            }
            order.push(true);
            i = i + 1;
        } else {
            proof {
                lemma_skip_step(v@, j as int);
                if i < c.len() {
                    lemma_skip_step(c@, i as int);
                }
                assert(order@.push(false) + interleave_of(rest_c, rest_v.drop_first()) =~= order@
                    + (seq![false] + interleave_of(rest_c, rest_v.drop_first())));
            }
            order.push(false);
            j = j + 1;
        }
    }
    assert(c@.skip(i as int) =~= Seq::<u64>::empty());
    assert(v@.skip(j as int) =~= Seq::<u64>::empty());
    assert(order@ + Seq::<bool>::empty() =~= order@);
    order
}

} // verus!
