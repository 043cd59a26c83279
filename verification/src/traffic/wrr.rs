//! Smooth weighted round robin.
use vstd::prelude::*;
use crate::traffic::types::UpstreamId;

verus! {

/// Sum of a sequence of `i64`.
pub open spec fn sum_i64(s: Seq<i64>) -> int
    decreases s.len(),
{
    if s.len() == 0 {
        0
    } else {
        sum_i64(s.drop_last()) + s.last()
    }
}

/// Sum of the weights of a candidate list.
pub open spec fn total_weight_of(c: Seq<(UpstreamId, u32)>) -> int
    decreases c.len(),
{
    if c.len() == 0 {
        0
    } else {
        total_weight_of(c.drop_last()) + c.last().1
    }
}

/// The ids of a candidate list.
pub open spec fn ids_of(c: Seq<(UpstreamId, u32)>) -> Seq<UpstreamId> {
    c.map_values(|x: (UpstreamId, u32)| x.0)
}

/// `b` is the first index holding the largest value.
pub open spec fn is_first_argmax(v: Seq<int>, b: int) -> bool {
    &&& 0 <= b < v.len()
    &&& forall|k: int| 0 <= k < v.len() ==> v[k] <= v[b]
    &&& forall|k: int| 0 <= k < b ==> v[k] < v[b]
}

/// Per-service round-robin cursor: a current weight per upstream, the
/// upstream ids and total weight it was built for.
#[derive(Debug, Clone)]
pub struct WrrState {
    current_weights: Vec<i64>,
    upstream_ids: Vec<UpstreamId>,
    total_weight: i64,
}

/// `n` zero weights.
pub open spec fn zeros(n: nat) -> Seq<i64> {
    Seq::new(n, |i: int| 0i64)
}

/// Every current weight raised by its upstream's weight.
pub open spec fn raised(base: Seq<i64>, c: Seq<(UpstreamId, u32)>) -> Seq<int> {
    Seq::new(c.len(), |i: int| base[i] + c[i].1)
}

/// One smooth weighted round-robin step from `base`: `b` is the first
/// largest raised weight, which then loses the total weight; the others
/// keep their raised value.
pub open spec fn swrr_step_ok(base: Seq<i64>, c: Seq<(UpstreamId, u32)>, b: int, after: Seq<i64>) -> bool {
    let v = raised(base, c);
    &&& is_first_argmax(v, b)
    &&& after.len() == c.len()
    &&& forall|i: int| 0 <= i < c.len() && i != b ==> after[i] == v[i]
    &&& after[b] == v[b] - total_weight_of(c)
}

/// No `i64` step of the walk can overflow: `n * total + u32::MAX` fits.
pub open spec fn wrr_fits(c: Seq<(UpstreamId, u32)>) -> bool {
    c.len() * total_weight_of(c) + 0xFFFF_FFFFint <= i64::MAX
}

impl WrrState {
    pub closed spec fn weights_spec(&self) -> Seq<i64> {
        self.current_weights@
    }

    pub closed spec fn ids_spec(&self) -> Seq<UpstreamId> {
        self.upstream_ids@
    }

    pub closed spec fn total_spec(&self) -> int {
        self.total_weight as int
    }

    /// The current weights sum to zero and none is below `-total`.
    pub closed spec fn wf(&self) -> bool {
        &&& self.current_weights@.len() == self.upstream_ids@.len()
        &&& self.total_weight >= 0
        &&& sum_i64(self.current_weights@) == 0
        &&& forall|i: int| 0 <= i < self.current_weights@.len() ==> self.current_weights@[i] >= -self.total_weight
    }

    /// The weights a step starts from: the current ones, or zeros when the
    /// candidate ids or the total weight changed.
    pub open spec fn base_for(&self, c: Seq<(UpstreamId, u32)>) -> Seq<i64> {
        if self.weights_spec().len() != c.len() || self.total_spec() != total_weight_of(c)
            || self.ids_spec() != ids_of(c) {
            zeros(c.len())
        } else {
            self.weights_spec()
        }
    }

    /// A fresh cursor for a candidate list: all current weights zero.
    pub fn fresh(healthy: &Vec<(UpstreamId, u32)>) -> (s: Self)
        requires
            wrr_fits(healthy@),
        ensures
            s.wf(),
            s.weights_spec() == zeros(healthy@.len()),
            s.ids_spec() == ids_of(healthy@),
            s.total_spec() == total_weight_of(healthy@),
    {
        let (ids, total) = ids_and_total(healthy);
        let zeros = zero_weights(healthy.len());
        proof {
            lemma_sum_zeros(zeros@);
        }
        WrrState { current_weights: zeros, upstream_ids: ids, total_weight: total }
    }

    /// Picks the next upstream (smooth weighted round robin): first the
    /// cursor is reset to zeros when the candidate ids or total weight
    /// changed; then every current weight grows by its weight, the first
    /// largest one is picked and loses the total weight.
    pub fn next_index(&mut self, healthy: &Vec<(UpstreamId, u32)>) -> (b: usize)
        requires
            old(self).wf(),
            healthy@.len() > 0,
            wrr_fits(healthy@),
        ensures
            final(self).wf(),
            swrr_step_ok(old(self).base_for(healthy@), healthy@, b as int, final(self).weights_spec()),
            final(self).ids_spec() == ids_of(healthy@),
            final(self).total_spec() == total_weight_of(healthy@),
    {
        let (ids, total) = ids_and_total(healthy);
        let same_ids = ids_equal(&self.upstream_ids, &ids);
        if self.current_weights.len() != healthy.len() || self.total_weight != total || !same_ids {
            self.current_weights = zero_weights(healthy.len());
            self.upstream_ids = ids;
            self.total_weight = total;
            proof {
                lemma_sum_zeros(self.current_weights@);
            }
        }
        let n = healthy.len();
        let ghost base = self.current_weights@;
        let ghost t = total as int;
        let ghost v = Seq::new(n as nat, |i: int| base[i] + healthy@[i].1);
        proof {
            assert(self.upstream_ids@ == ids_of(healthy@));
            lemma_upper_from_sum(base, t);
        }
        let mut best_idx: usize = 0;
        let mut best_val: i64 = i64::MIN;
        let mut i: usize = 0;
        while i < n
            invariant
                n == healthy@.len(),
                n > 0,
                wrr_fits(healthy@),
                t == total_weight_of(healthy@),
                t >= 0,
                base.len() == n,
                sum_i64(base) == 0,
                forall|k: int| 0 <= k < n ==> base[k] >= -t,
                forall|k: int| 0 <= k < n ==> base[k] <= (n - 1) * t,
                v == Seq::new(n as nat, |k: int| base[k] + healthy@[k].1),
                i <= n,
                self.current_weights@.len() == n,
                self.upstream_ids@ == ids_of(healthy@),
                self.total_weight == total,
                total == t,
                forall|k: int| 0 <= k < i ==> self.current_weights@[k] == v[k],
                forall|k: int| i <= k < n ==> self.current_weights@[k] == base[k],
                i > 0 ==> best_idx < i && best_val == v[best_idx as int],
                i > 0 ==> forall|k: int| 0 <= k < i ==> v[k] <= best_val,
                i > 0 ==> forall|k: int| 0 <= k < best_idx ==> v[k] < best_val,
                i == 0 ==> best_idx == 0,
            decreases n - i,
        {
            proof {
                assert(base[i as int] <= (n - 1) * t);
                assert((n - 1) * t + 0xFFFF_FFFF <= n * t + 0xFFFF_FFFF) by (nonlinear_arith)
                    requires
                        t >= 0,
                        n >= 1,
                ;
            }
            let w = healthy[i].1 as i64;
            let cur = self.current_weights[i] + w;
            self.current_weights.set(i, cur);
            if cur > best_val || i == 0 {
                best_val = cur;
                best_idx = i;
            }
            i = i + 1;
        }
        proof {
            assert(is_first_argmax(v, best_idx as int));
            assert forall|k: int| 0 <= k < n implies self.current_weights@[k] == base[k] + healthy@[k].1 by {
                assert(self.current_weights@[k] == v[k]);
            }
            lemma_sum_pointwise_add(base, healthy@, self.current_weights@);
            lemma_max_above_average(v, best_idx as int);
            lemma_sum_as_seq(v, self.current_weights@);
            assert(n * v[best_idx as int] >= t);
            assert(v[best_idx as int] - t >= -t) by (nonlinear_arith)
                requires
                    n * v[best_idx as int] >= t,
                    t >= 0,
                    n >= 1,
            ;
        }
        let ghost before = self.current_weights@;
        let nb = self.current_weights[best_idx] - total;
        self.current_weights.set(best_idx, nb);
        proof {
            lemma_sum_update(before, best_idx as int, nb);
            assert(n * v[best_idx as int] >= t);
            assert(v[best_idx as int] - t >= -t) by (nonlinear_arith)
                requires
                    n * v[best_idx as int] >= t,
                    t >= 0,
                    n >= 1,
            ;
            assert(sum_i64(self.current_weights@) == 0);
            assert(self.current_weights@.len() == self.upstream_ids@.len());
            assert forall|k: int| 0 <= k < n implies self.current_weights@[k] >= -t by {
                if k != best_idx {
                    assert(self.current_weights@[k] == v[k]);
                    assert(v[k] >= base[k]);
                }
            }
        }
        best_idx
    }
}

fn ids_and_total(healthy: &Vec<(UpstreamId, u32)>) -> (r: (Vec<UpstreamId>, i64))
    requires
        wrr_fits(healthy@),
    ensures
        r.0@ == ids_of(healthy@),
        r.1 == total_weight_of(healthy@),
        r.1 >= 0,
{
    let mut ids: Vec<UpstreamId> = Vec::new();
    let mut total: i64 = 0;
    let mut i: usize = 0;
    proof {
        lemma_total_bound(healthy@);
        lemma_total_nonneg(healthy@);
        assert(healthy@.take(0) =~= Seq::<(UpstreamId, u32)>::empty());
        assert(ids@ =~= ids_of(healthy@.take(0)));
    }
    while i < healthy.len()
        invariant
            i <= healthy.len(),
            wrr_fits(healthy@),
            total_weight_of(healthy@) <= i64::MAX,
            ids@ == ids_of(healthy@.take(i as int)),
            total == total_weight_of(healthy@.take(i as int)),
            0 <= total <= total_weight_of(healthy@),
        decreases healthy.len() - i,
    {
        proof {
            let tk = healthy@.take(i + 1);
            assert(tk.drop_last() =~= healthy@.take(i as int));
            lemma_total_prefix(healthy@, i + 1);
        }
        ids.push(healthy[i].0);
        total = total + healthy[i].1 as i64;
        i = i + 1;
        proof {
            assert(ids@ =~= ids_of(healthy@.take(i as int)));
        }
    }
    assert(healthy@.take(healthy.len() as int) =~= healthy@);
    (ids, total)
}

fn ids_equal(a: &Vec<UpstreamId>, b: &Vec<UpstreamId>) -> (r: bool)
    ensures
        r == (a@ == b@),
{
    if a.len() != b.len() {
        return false;
    }
    let mut i: usize = 0;
    while i < a.len()
        invariant
            a.len() == b.len(),
            i <= a.len(),
            forall|k: int| 0 <= k < i ==> a@[k] == b@[k],
        decreases a.len() - i,
    {
        if a[i].0 != b[i].0 {
            return false;
        }
        i = i + 1;
    }
    assert(a@ =~= b@);
    true
}

fn zero_weights(n: usize) -> (v: Vec<i64>)
    ensures
        v@ == Seq::new(n as nat, |i: int| 0i64),
{
    let mut v: Vec<i64> = Vec::new();
    let mut i: usize = 0;
    while i < n
        invariant
            i <= n,
            v@ == Seq::new(i as nat, |k: int| 0i64),
        decreases n - i,
    {
        v.push(0);
        i = i + 1;
        assert(v@ =~= Seq::new(i as nat, |k: int| 0i64));
    }
    v
}

pub proof fn lemma_sum_zeros(s: Seq<i64>)
    requires
        forall|i: int| 0 <= i < s.len() ==> s[i] == 0,
    ensures
        sum_i64(s) == 0,
    decreases s.len(),
{
    if s.len() > 0 {
        lemma_sum_zeros(s.drop_last());
    }
}

pub proof fn lemma_total_prefix(c: Seq<(UpstreamId, u32)>, k: int)
    requires
        0 <= k <= c.len(),
    ensures
        0 <= total_weight_of(c.take(k)) <= total_weight_of(c),
    decreases c.len() - k,
{
    if k < c.len() {
        lemma_total_prefix(c, k + 1);
        let t = c.take(k + 1);
        assert(t.drop_last() =~= c.take(k));
    } else {
        assert(c.take(k) =~= c);
    }
    lemma_total_nonneg(c.take(k));
}

pub proof fn lemma_total_nonneg(c: Seq<(UpstreamId, u32)>)
    ensures
        total_weight_of(c) >= 0,
    decreases c.len(),
{
    if c.len() > 0 {
        lemma_total_nonneg(c.drop_last());
    }
}

pub proof fn lemma_total_bound(c: Seq<(UpstreamId, u32)>)
    requires
        wrr_fits(c),
    ensures
        total_weight_of(c) <= i64::MAX,
{
    lemma_total_nonneg(c);
    if c.len() > 0 {
        assert(c.len() * total_weight_of(c) >= total_weight_of(c)) by (nonlinear_arith)
            requires
                c.len() >= 1,
                total_weight_of(c) >= 0,
        ;
    } else {
        assert(total_weight_of(c) == 0);
    }
}

/// Changing one element changes the sum by the difference.
pub proof fn lemma_sum_update(s: Seq<i64>, i: int, x: i64)
    requires
        0 <= i < s.len(),
    ensures
        sum_i64(s.update(i, x)) == sum_i64(s) - s[i] + x,
    decreases s.len(),
{
    let u = s.update(i, x);
    if i == s.len() - 1 {
        assert(u.drop_last() =~= s.drop_last());
    } else {
        assert(u.drop_last() =~= s.drop_last().update(i, x));
        lemma_sum_update(s.drop_last(), i, x);
    }
}

/// Each element is at most `(n - 1) * t` when the sum is zero and all are at least `-t`.
pub proof fn lemma_upper_from_sum(s: Seq<i64>, t: int)
    requires
        sum_i64(s) == 0,
        t >= 0,
        forall|k: int| 0 <= k < s.len() ==> s[k] >= -t,
    ensures
        forall|k: int| 0 <= k < s.len() ==> s[k] <= (s.len() - 1) * t,
{
    assert forall|k: int| 0 <= k < s.len() implies s[k] <= (s.len() - 1) * t by {
        lemma_sum_lower_except(s, k, t);
        assert(sum_i64(s) - s[k] >= (s.len() - 1) * (-t));
        assert((s.len() - 1) * (-t) == -((s.len() - 1) * t)) by (nonlinear_arith);
    }
}

/// The sum of all elements but one is at least `(n - 1) * lo`.
pub proof fn lemma_sum_lower_except(s: Seq<i64>, k: int, t: int)
    requires
        0 <= k < s.len(),
        forall|j: int| 0 <= j < s.len() ==> s[j] >= -t,
    ensures
        sum_i64(s) - s[k] >= (s.len() - 1) * (-t),
    decreases s.len(),
{
    let n = s.len();
    if n == 1 {
        assert(s.drop_last().len() == 0);
        assert(sum_i64(s.drop_last()) == 0);
        assert(sum_i64(s) == s[0]);
        assert((s.len() - 1) * (-t) == 0) by (nonlinear_arith)
            requires
                s.len() == 1,
        ;
    } else if k == n - 1 {
        lemma_sum_lower_all(s.drop_last(), t);
    } else {
        lemma_sum_lower_except(s.drop_last(), k, t);
        assert(s.drop_last()[k] == s[k]);
        assert((n - 2) * (-t) + (-t) == (n - 1) * (-t)) by (nonlinear_arith);
    }
}

/// The sum is at least `n * lo`.
pub proof fn lemma_sum_lower_all(s: Seq<i64>, t: int)
    requires
        forall|j: int| 0 <= j < s.len() ==> s[j] >= -t,
    ensures
        sum_i64(s) >= s.len() * (-t),
    decreases s.len(),
{
    if s.len() > 0 {
        lemma_sum_lower_all(s.drop_last(), t);
        let n = s.len();
        assert((n - 1) * (-t) + (-t) == n * (-t)) by (nonlinear_arith);
    }
}

/// Sum of an integer sequence.
pub open spec fn sum_int(s: Seq<int>) -> int
    decreases s.len(),
{
    if s.len() == 0 {
        0
    } else {
        sum_int(s.drop_last()) + s.last()
    }
}

/// The first largest value is at least the average.
pub proof fn lemma_max_above_average(v: Seq<int>, b: int)
    requires
        is_first_argmax(v, b),
    ensures
        v.len() * v[b] >= sum_int(v),
{
    lemma_sum_int_upper(v, v[b]);
}

pub proof fn lemma_sum_int_upper(v: Seq<int>, m: int)
    requires
        forall|k: int| 0 <= k < v.len() ==> v[k] <= m,
    ensures
        sum_int(v) <= v.len() * m,
    decreases v.len(),
{
    if v.len() > 0 {
        lemma_sum_int_upper(v.drop_last(), m);
        let n = v.len();
        assert((n - 1) * m + m == n * m) by (nonlinear_arith);
    }
}

/// Adding the weights pointwise adds the total to the sum.
pub proof fn lemma_sum_pointwise_add(base: Seq<i64>, c: Seq<(UpstreamId, u32)>, out: Seq<i64>)
    requires
        base.len() == c.len(),
        out.len() == c.len(),
        forall|k: int| 0 <= k < c.len() ==> out[k] == base[k] + c[k].1,
    ensures
        sum_i64(out) == sum_i64(base) + total_weight_of(c),
    decreases c.len(),
{
    if c.len() > 0 {
        lemma_sum_pointwise_add(base.drop_last(), c.drop_last(), out.drop_last());
    }
}

/// The same sum, over `i64` and over `int` views.
pub proof fn lemma_sum_as_seq(v: Seq<int>, s: Seq<i64>)
    requires
        v.len() == s.len(),
        forall|k: int| 0 <= k < v.len() ==> v[k] == s[k],
    ensures
        sum_int(v) == sum_i64(s),
    decreases v.len(),
{
    if v.len() > 0 {
        lemma_sum_as_seq(v.drop_last(), s.drop_last());
    }
}


/// The first index holding the largest of the first `k` values.
pub open spec fn argmax_prefix(v: Seq<int>, k: nat) -> int
    decreases k,
{
    if k <= 1 {
        0
    } else {
        let b = argmax_prefix(v, (k - 1) as nat);
        if v[k - 1] > v[b] { k - 1 } else { b }
    }
}

pub proof fn lemma_argmax_prefix(v: Seq<int>, k: nat)
    requires
        1 <= k <= v.len(),
    ensures
        0 <= argmax_prefix(v, k) < k,
        forall|j: int| 0 <= j < k ==> #[trigger] v[j] <= v[argmax_prefix(v, k)],
        forall|j: int| 0 <= j < argmax_prefix(v, k) ==> #[trigger] v[j] < v[argmax_prefix(v, k)],
    decreases k,
{
    if k > 1 {
        lemma_argmax_prefix(v, (k - 1) as nat);
    }
}

/// There is one first largest value.
pub proof fn lemma_first_argmax_unique(v: Seq<int>, b: int)
    requires
        is_first_argmax(v, b),
    ensures
        b == argmax_prefix(v, v.len()),
{
    lemma_argmax_prefix(v, v.len());
    let a = argmax_prefix(v, v.len());
    if a < b {
        assert(v[a] < v[b]);
    } else if b < a {
        assert(v[b] < v[a]);
    }
}

/// The weights of the candidates, as integers.
pub open spec fn weights_int(c: Seq<(UpstreamId, u32)>) -> Seq<int> {
    Seq::new(c.len(), |i: int| c[i].1 as int)
}

/// The cursor and the pick counts after `k` picks from the zero cursor
/// over the same candidates.
pub open spec fn swrr_run(c: Seq<(UpstreamId, u32)>, k: nat) -> (Seq<int>, Seq<int>)
    decreases k,
{
    if k == 0 {
        (Seq::new(c.len(), |i: int| 0int), Seq::new(c.len(), |i: int| 0int))
    } else {
        let prev = swrr_run(c, (k - 1) as nat);
        let v = Seq::new(c.len(), |i: int| prev.0[i] + c[i].1);
        let b = argmax_prefix(v, c.len());
        (v.update(b, v[b] - total_weight_of(c)), prev.1.update(b, prev.1[b] + 1))
    }
}

/// The index the `k`-th pick (counting from zero) takes.
pub open spec fn swrr_pick(c: Seq<(UpstreamId, u32)>, k: nat) -> int {
    let prev = swrr_run(c, k);
    argmax_prefix(Seq::new(c.len(), |i: int| prev.0[i] + c[i].1), c.len())
}

pub proof fn lemma_sum_int_update(s: Seq<int>, i: int, x: int)
    requires
        0 <= i < s.len(),
    ensures
        sum_int(s.update(i, x)) == sum_int(s) - s[i] + x,
    decreases s.len(),
{
    if i < s.len() - 1 {
        assert(s.update(i, x).drop_last() =~= s.drop_last().update(i, x));
        lemma_sum_int_update(s.drop_last(), i, x);
    } else {
        assert(s.update(i, x).drop_last() =~= s.drop_last());
    }
}

pub proof fn lemma_sum_int_raised(a: Seq<int>, c: Seq<(UpstreamId, u32)>, v: Seq<int>)
    requires
        a.len() == c.len(),
        v.len() == c.len(),
        forall|k: int| 0 <= k < c.len() ==> v[k] == a[k] + c[k].1,
    ensures
        sum_int(v) == sum_int(a) + total_weight_of(c),
    decreases c.len(),
{
    if c.len() > 0 {
        lemma_sum_int_raised(a.drop_last(), c.drop_last(), v.drop_last());
    }
}

pub proof fn lemma_sum_int_diff(a: Seq<int>, b: Seq<int>, d: Seq<int>)
    requires
        a.len() == b.len(),
        d.len() == a.len(),
        forall|k: int| 0 <= k < a.len() ==> d[k] == a[k] - b[k],
    ensures
        sum_int(d) == sum_int(a) - sum_int(b),
    decreases a.len(),
{
    if a.len() > 0 {
        lemma_sum_int_diff(a.drop_last(), b.drop_last(), d.drop_last());
    }
}

pub proof fn lemma_sum_int_zeros(n: nat)
    ensures
        sum_int(Seq::new(n, |i: int| 0int)) == 0,
    decreases n,
{
    if n > 0 {
        assert(Seq::new(n, |i: int| 0int).drop_last() =~= Seq::new((n - 1) as nat, |i: int| 0int));
        lemma_sum_int_zeros((n - 1) as nat);
    }
}

pub proof fn lemma_weights_int_sum(c: Seq<(UpstreamId, u32)>)
    ensures
        sum_int(weights_int(c)) == total_weight_of(c),
    decreases c.len(),
{
    if c.len() > 0 {
        assert(weights_int(c).drop_last() =~= weights_int(c.drop_last()));
        lemma_weights_int_sum(c.drop_last());
    }
}

/// Non-negative values that sum to zero are all zero.
pub proof fn lemma_nonneg_sum_zero(d: Seq<int>)
    requires
        forall|k: int| 0 <= k < d.len() ==> d[k] >= 0,
        sum_int(d) == 0,
    ensures
        forall|k: int| 0 <= k < d.len() ==> d[k] == 0,
    decreases d.len(),
{
    if d.len() > 0 {
        let p = d.drop_last();
        assert forall|k: int| 0 <= k < p.len() implies p[k] >= 0 by {
            assert(p[k] == d[k]);
        }
        lemma_sum_int_nonneg(p);
        lemma_nonneg_sum_zero(p);
        assert forall|k: int| 0 <= k < d.len() implies d[k] == 0 by {
            if k < d.len() - 1 {
                assert(p[k] == d[k]);
            }
        }
    }
}

pub proof fn lemma_sum_int_nonneg(d: Seq<int>)
    requires
        forall|k: int| 0 <= k < d.len() ==> d[k] >= 0,
    ensures
        sum_int(d) >= 0,
    decreases d.len(),
{
    if d.len() > 0 {
        let p = d.drop_last();
        assert forall|k: int| 0 <= k < p.len() implies p[k] >= 0 by {
            assert(p[k] == d[k]);
        }
        lemma_sum_int_nonneg(p);
    }
}

/// What holds after `k` picks: each current weight is `k` times its
/// weight less the total weight per time it was picked, the picks add up
/// to `k`, and no current weight falls to `-total` or below.
pub proof fn lemma_swrr_run(c: Seq<(UpstreamId, u32)>, k: nat)
    requires
        c.len() > 0,
        total_weight_of(c) > 0,
    ensures
        swrr_run(c, k).0.len() == c.len(),
        swrr_run(c, k).1.len() == c.len(),
        forall|i: int| 0 <= i < c.len() ==> #[trigger] swrr_run(c, k).0[i] == k * c[i].1 - total_weight_of(c) * swrr_run(c, k).1[i],
        forall|i: int| 0 <= i < c.len() ==> #[trigger] swrr_run(c, k).1[i] >= 0,
        forall|i: int| 0 <= i < c.len() ==> #[trigger] swrr_run(c, k).0[i] > -total_weight_of(c),
        sum_int(swrr_run(c, k).1) == k,
        sum_int(swrr_run(c, k).0) == 0,
    decreases k,
{
    let n = c.len();
    let t = total_weight_of(c);
    if k == 0 {
        lemma_sum_int_zeros(n);
    } else {
        lemma_swrr_run(c, (k - 1) as nat);
        let prev = swrr_run(c, (k - 1) as nat);
        let v = Seq::new(n, |i: int| prev.0[i] + c[i].1);
        let b = argmax_prefix(v, n);
        lemma_argmax_prefix(v, n);
        assert(is_first_argmax(v, b));
        lemma_sum_int_raised(prev.0, c, v);
        lemma_max_above_average(v, b);
        assert(v[b] > 0) by (nonlinear_arith)
            requires
                n * v[b] >= t,
                t > 0,
                n >= 1,
        ;
        let cur = swrr_run(c, k);
        assert(cur.0 == v.update(b, v[b] - t));
        assert(cur.1 == prev.1.update(b, prev.1[b] + 1));
        lemma_sum_int_update(v, b, v[b] - t);
        lemma_sum_int_update(prev.1, b, prev.1[b] + 1);
        assert forall|i: int| 0 <= i < n implies #[trigger] cur.0[i] == k * c[i].1 - t * cur.1[i] by {
            let w = c[i].1 as int;
            let pc = prev.1[i];
            assert((k - 1) * w - t * pc + w == k * w - t * pc) by (nonlinear_arith);
            assert(k * w - t * pc - t == k * w - t * (pc + 1)) by (nonlinear_arith);
        }
        assert forall|i: int| 0 <= i < n implies #[trigger] cur.0[i] > -t by {
            if i != b {
                assert(prev.0[i] > -t);
            }
        }
        assert forall|i: int| 0 <= i < n implies #[trigger] cur.1[i] >= 0 by {
            assert(prev.1[i] >= 0);
        }
    }
}

/// Smooth weighted round robin is exact over a period: from the zero
/// cursor, `total` picks over fixed candidates pick each one exactly as
/// often as its weight, and leave the cursor at zero again.
pub proof fn law_swrr_picks_follow_weights(c: Seq<(UpstreamId, u32)>)
    requires
        c.len() > 0,
        total_weight_of(c) > 0,
    ensures
        swrr_run(c, total_weight_of(c) as nat).1 == weights_int(c),
        swrr_run(c, total_weight_of(c) as nat).0 == Seq::new(c.len(), |i: int| 0int),
{
    let n = c.len();
    let t = total_weight_of(c);
    let r = swrr_run(c, t as nat);
    lemma_swrr_run(c, t as nat);
    let d = Seq::new(n, |i: int| c[i].1 - r.1[i]);
    assert forall|i: int| 0 <= i < n implies d[i] >= 0 by {
        let w = c[i].1 as int;
        assert(r.0[i] == t * w - t * r.1[i]);
        assert(r.0[i] > -t);
        assert(w - r.1[i] >= 0) by (nonlinear_arith)
            requires
                t * w - t * r.1[i] > -t,
                t > 0,
        ;
    }
    lemma_weights_int_sum(c);
    lemma_sum_int_diff(weights_int(c), r.1, d);
    lemma_nonneg_sum_zero(d);
    assert forall|i: int| 0 <= i < n implies r.1[i] == weights_int(c)[i] by {
        assert(d[i] == 0);
    }
    assert(r.1 =~= weights_int(c));
    assert forall|i: int| 0 <= i < n implies r.0[i] == 0 by {
        let w = c[i].1 as int;
        assert(r.1[i] == w);
        assert(t * w - t * w == 0) by (nonlinear_arith);
    }
    assert(r.0 =~= Seq::new(n, |i: int| 0int));
}

/// A step of `next_index` is a step of the run: from the cursor after `k`
/// picks it picks the `k`-th index and leaves the cursor after `k + 1`.
pub proof fn law_next_index_steps_the_run(c: Seq<(UpstreamId, u32)>, k: nat, base: Seq<i64>, b: int, after: Seq<i64>)
    requires
        base.len() == c.len(),
        forall|i: int| 0 <= i < c.len() ==> base[i] as int == #[trigger] swrr_run(c, k).0[i],
        swrr_step_ok(base, c, b, after),
    ensures
        b == swrr_pick(c, k),
        forall|i: int| 0 <= i < c.len() ==> after[i] as int == #[trigger] swrr_run(c, k + 1).0[i],
{
    let prev = swrr_run(c, k);
    let v = Seq::new(c.len(), |i: int| prev.0[i] + c[i].1);
    assert(raised(base, c) =~= v);
    lemma_first_argmax_unique(v, b);
    assert(swrr_run(c, k + 1).0 == v.update(b, v[b] - total_weight_of(c)));
}

} // verus!
