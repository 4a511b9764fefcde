//! Enumeration of the unique draws from a [`Cards`], with their probabilities.

use rand::seq::SliceRandom;
use vstd::prelude::*;
use vstd::multiset::Multiset;

use super::{copies, entries_multiset, entries_total, entries_wf, lemma_copies, lemma_entries_count, Cards};

verus! {

broadcast use vstd::multiset::group_multiset_axioms;

/// The binomial coefficient "n choose k".
pub open spec fn spec_binomial(n: nat, k: nat) -> nat
    decreases n,
{
    if k == 0 {
        1
    } else if n == 0 {
        0
    } else {
        spec_binomial((n - 1) as nat, (k - 1) as nat) + spec_binomial((n - 1) as nat, k)
    }
}

/// The number of ways to draw `n` cards (or all of them, if there are fewer) from `total` cards
/// fits in a machine word.
pub open spec fn spec_binomial_fits(total: nat, n: nat) -> bool {
    spec_binomial(total, if n < total { n } else { total }) <= usize::MAX
}

/// `num_integer::binomial`: the binomial coefficient. The crate computes it through the partial
/// coefficients `C(n, 1) .. C(n, k)` (with `k` replaced by `n - k` when that is smaller), each
/// at most the result, so it does not overflow when the result fits.
#[verifier::external_body]
fn binomial(n: usize, k: usize) -> (r: usize)
    requires
        spec_binomial(n as nat, k as nat) <= usize::MAX,
    ensures
        r == spec_binomial(n as nat, k as nat),
{
    num_integer::binomial(n, k)
}

/// `rand::seq::SliceRandom::partial_shuffle` with the thread-local generator: permutes the
/// list in place so that its last `amount` items (all of them, if there are fewer) are chosen at
/// random from the whole list. Which items come where depends on chance, so only that the result
/// is a permutation of the input is stated.
#[verifier::external_body]
pub(crate) fn partial_shuffle(v: &mut Vec<u32>, amount: usize)
    ensures
        final(v)@.to_multiset() == old(v)@.to_multiset(),
        final(v)@.len() == old(v)@.len(),
{
    v.partial_shuffle(&mut rand::thread_rng(), amount);
}

/// The sum of a list of counts.
pub open spec fn sum(d: Seq<usize>) -> nat
    decreases d.len(),
{
    if d.len() == 0 {
        0
    } else {
        d[0] as nat + sum(d.drop_first())
    }
}

/// A list of per-type draw counts is a valid draw of `n` cards from a deck whose per-type
/// counts are `c`.
pub open spec fn valid_draw(c: Seq<usize>, n: nat, d: Seq<usize>) -> bool {
    &&& d.len() == c.len()
    &&& forall|i: int| 0 <= i < d.len() ==> #[trigger] d[i] <= c[i]
    &&& sum(d) == n
}

/// All draws of `n` cards from a deck with per-type counts `c`, as per-type count lists, in
/// lexicographic order: the count of the first type varies slowest.
pub open spec fn all_draws(c: Seq<usize>, n: nat) -> Seq<Seq<usize>>
    decreases c.len(), 1nat, 0int,
{
    if c.len() == 0 {
        if n == 0 {
            seq![Seq::empty()]
        } else {
            Seq::empty()
        }
    } else {
        draws_from(c, n, 0)
    }
}

/// The draws whose first count is at least `d0`, in lexicographic order.
pub open spec fn draws_from(c: Seq<usize>, n: nat, d0: nat) -> Seq<Seq<usize>>
    decreases c.len(), 0nat, (c[0] + 1) - d0,
{
    if c.len() == 0 || d0 > c[0] || d0 > n {
        Seq::empty()
    } else {
        all_draws(c.drop_first(), (n - d0) as nat).map_values(
            |v: Seq<usize>| seq![d0 as usize] + v,
        ) + draws_from(c, n, d0 + 1)
    }
}

/// The per-type counts of a list of entries.
pub open spec fn entry_counts(types: Seq<(u32, usize)>) -> Seq<usize> {
    types.map_values(|p: (u32, usize)| p.1)
}

/// The cards drawn when `d[i]` cards of the `i`-th entry's type are drawn, for `i < k`.
pub open spec fn draw_multiset(types: Seq<(u32, usize)>, d: Seq<usize>, k: nat) -> Multiset<u32>
    decreases k,
{
    if k == 0 {
        Multiset::empty()
    } else {
        draw_multiset(types, d, (k - 1) as nat).add(
            copies(types[k - 1].0, d[k - 1] as nat),
        )
    }
}

/// The number of ways to draw `d[i]` cards of the `i`-th type, for `i < k`.
pub open spec fn draw_ways(types: Seq<(u32, usize)>, d: Seq<usize>, k: nat) -> nat
    decreases k,
{
    if k == 0 {
        1
    } else {
        draw_ways(types, d, (k - 1) as nat) * spec_binomial(
            types[k - 1].1 as nat,
            d[k - 1] as nat,
        )
    }
}


/// The sum of the first `k` counts.
pub open spec fn psum(d: Seq<usize>, k: nat) -> nat
    decreases k,
{
    if k == 0 {
        0
    } else {
        psum(d, (k - 1) as nat) + d[k - 1] as nat
    }
}

/// Summing from the front and summing a prefix agree.
proof fn lemma_sum_psum(d: Seq<usize>, k: nat)
    requires
        1 <= k <= d.len(),
    ensures
        psum(d, k) == d[0] + psum(d.drop_first(), (k - 1) as nat),
    decreases k,
{
    if k > 1 {
        lemma_sum_psum(d, (k - 1) as nat);
        assert(d.drop_first()[k - 2] == d[k - 1]);
        assert(psum(d.drop_first(), (k - 1) as nat) == psum(d.drop_first(), (k - 2) as nat)
            + d.drop_first()[k - 2]);
    } else {
        assert(psum(d, 1) == psum(d, 0) + d[0]);
    }
}

/// The sum of all counts is the sum of the prefix of full length.
pub proof fn lemma_sum_is_psum(d: Seq<usize>)
    ensures
        sum(d) == psum(d, d.len()),
    decreases d.len(),
{
    if d.len() > 0 {
        lemma_sum_is_psum(d.drop_first());
        lemma_sum_psum(d, d.len());
    }
}

/// Every list in `all_draws(c, n)` is a valid draw; every list in `draws_from(c, n, d0)` is a
/// valid draw whose first count is at least `d0`.
pub proof fn lemma_all_draws_valid(c: Seq<usize>, n: nat)
    ensures
        forall|i: int| 0 <= i < all_draws(c, n).len() ==> valid_draw(c, n, #[trigger] all_draws(c, n)[i]),
    decreases c.len(), 1nat, 0int,
{
    if c.len() > 0 {
        lemma_draws_from_valid(c, n, 0);
        assert(all_draws(c, n) == draws_from(c, n, 0));
        assert forall|i: int| 0 <= i < all_draws(c, n).len() implies valid_draw(
            c,
            n,
            #[trigger] all_draws(c, n)[i],
        ) by {
            assert(draws_from(c, n, 0)[i][0] >= 0);
        }
    } else if n == 0 {
        assert(all_draws(c, n)[0] == Seq::<usize>::empty());
        assert(sum(Seq::<usize>::empty()) == 0);
    }
}

proof fn lemma_draws_from_valid(c: Seq<usize>, n: nat, d0: nat)
    requires
        c.len() > 0,
    ensures
        forall|i: int|
            0 <= i < draws_from(c, n, d0).len() ==> valid_draw(c, n, #[trigger] draws_from(c, n, d0)[i])
                && draws_from(c, n, d0)[i][0] >= d0,
    decreases c.len(), 0nat, (c[0] + 1) - d0,
{
    if !(d0 > c[0] || d0 > n) {
        let rest = all_draws(c.drop_first(), (n - d0) as nat);
        let head = rest.map_values(|v: Seq<usize>| seq![d0 as usize] + v);
        lemma_all_draws_valid(c.drop_first(), (n - d0) as nat);
        lemma_draws_from_valid(c, n, d0 + 1);
        assert forall|i: int| 0 <= i < draws_from(c, n, d0).len() implies valid_draw(
            c,
            n,
            #[trigger] draws_from(c, n, d0)[i],
        ) && draws_from(c, n, d0)[i][0] >= d0 by {
            if i < head.len() {
                let v = rest[i];
                let w = seq![d0 as usize] + v;
                assert(draws_from(c, n, d0)[i] == w);
                assert(w.drop_first() =~= v);
                assert forall|j: int| 0 <= j < w.len() implies #[trigger] w[j] <= c[j] by {
                    if j > 0 {
                        assert(w[j] == v[j - 1]);
                        assert(c.drop_first()[j - 1] == c[j]);
                    }
                }
            } else {
                assert(draws_from(c, n, d0)[i] == draws_from(c, n, d0 + 1)[i - head.len()]);
            }
        }
    }
}

/// Every valid draw is listed by `all_draws`.
pub proof fn lemma_all_draws_complete(c: Seq<usize>, n: nat, v: Seq<usize>)
    requires
        valid_draw(c, n, v),
    ensures
        all_draws(c, n).contains(v),
    decreases c.len(), 1nat, 0int,
{
    if c.len() == 0 {
        assert(v =~= Seq::<usize>::empty());
        assert(all_draws(c, n)[0] == v);
    } else {
        lemma_draws_from_complete(c, n, 0, v);
    }
}

proof fn lemma_draws_from_complete(c: Seq<usize>, n: nat, d0: nat, v: Seq<usize>)
    requires
        c.len() > 0,
        valid_draw(c, n, v),
        v[0] >= d0,
    ensures
        draws_from(c, n, d0).contains(v),
    decreases c.len(), 0nat, (c[0] + 1) - d0,
{
    assert(v[0] <= c[0]);
    assert(sum(v) == v[0] + sum(v.drop_first()));
    if v[0] == d0 {
        let rest = v.drop_first();
        assert(valid_draw(c.drop_first(), (n - d0) as nat, rest)) by {
            assert forall|j: int| 0 <= j < rest.len() implies #[trigger] rest[j] <= c.drop_first()[j] by {
                assert(rest[j] == v[j + 1]);
            }
        }
        lemma_all_draws_complete(c.drop_first(), (n - d0) as nat, rest);
        let all = all_draws(c.drop_first(), (n - d0) as nat);
        let k = choose|k: int| 0 <= k < all.len() && #[trigger] all[k] == rest;
        assert(seq![d0 as usize] + rest =~= v);
        assert(draws_from(c, n, d0)[k] == v);
    } else {
        lemma_draws_from_complete(c, n, d0 + 1, v);
        let rest = all_draws(c.drop_first(), (n - d0) as nat).map_values(
            |w: Seq<usize>| seq![d0 as usize] + w,
        );
        let tail = draws_from(c, n, d0 + 1);
        let k = choose|k: int| 0 <= k < tail.len() && #[trigger] tail[k] == v;
        assert(draws_from(c, n, d0)[rest.len() + k] == v);
    }
}

/// No draw is listed twice by `all_draws`.
pub proof fn lemma_all_draws_distinct(c: Seq<usize>, n: nat)
    ensures
        all_draws(c, n).no_duplicates(),
    decreases c.len(), 1nat, 0int,
{
    if c.len() > 0 {
        lemma_draws_from_distinct(c, n, 0);
    }
}

proof fn lemma_draws_from_distinct(c: Seq<usize>, n: nat, d0: nat)
    requires
        c.len() > 0,
    ensures
        draws_from(c, n, d0).no_duplicates(),
    decreases c.len(), 0nat, (c[0] + 1) - d0,
{
    if !(d0 > c[0] || d0 > n) {
        let rest = all_draws(c.drop_first(), (n - d0) as nat);
        let head = rest.map_values(|v: Seq<usize>| seq![d0 as usize] + v);
        let tail = draws_from(c, n, d0 + 1);
        lemma_all_draws_distinct(c.drop_first(), (n - d0) as nat);
        lemma_draws_from_distinct(c, n, d0 + 1);
        lemma_draws_from_valid(c, n, d0 + 1);
        let all = draws_from(c, n, d0);
        assert forall|i: int, j: int| 0 <= i < all.len() && 0 <= j < all.len() && i != j implies all[i]
            != all[j] by {
            if i < head.len() && j < head.len() {
                if all[i] == all[j] {
                    assert(all[i].drop_first() =~= rest[i]);
                    assert(all[j].drop_first() =~= rest[j]);
                }
            } else if i < head.len() {
                assert(all[j] == tail[j - head.len()]);
                assert(all[i][0] == d0);
            } else if j < head.len() {
                assert(all[i] == tail[i - head.len()]);
                assert(all[j][0] == d0);
            } else {
                assert(all[i] == tail[i - head.len()]);
                assert(all[j] == tail[j - head.len()]);
            }
        }
    }
}


/// A binomial coefficient with `k <= n` is positive.
pub proof fn lemma_binomial_positive(n: nat, k: nat)
    requires
        k <= n,
    ensures
        spec_binomial(n, k) >= 1,
    decreases n,
{
    if k > 0 {
        if k - 1 <= n - 1 {
            lemma_binomial_positive((n - 1) as nat, (k - 1) as nat);
        }
    }
}

/// Adding cards to choose from never decreases the number of ways to choose.
pub proof fn lemma_binomial_monotone(n: nat, m: nat, k: nat)
    requires
        n <= m,
    ensures
        spec_binomial(n, k) <= spec_binomial(m, k),
    decreases m,
{
    if n < m {
        lemma_binomial_monotone(n, (m - 1) as nat, k);
        if k > 0 {
            assert(spec_binomial(m, k) == spec_binomial((m - 1) as nat, (k - 1) as nat)
                + spec_binomial((m - 1) as nat, k));
        }
    }
}

/// Choosing `b` of `a` cards and, independently, `d` of `c` other cards is one of the ways to
/// choose `b + d` of all `a + c` cards.
pub proof fn lemma_binomial_product(a: nat, b: nat, c: nat, d: nat)
    ensures
        spec_binomial(a, b) * spec_binomial(c, d) <= spec_binomial(a + c, b + d),
    decreases c,
{
    if c == 0 {
        if d == 0 {
            assert(spec_binomial(a, b) * 1 == spec_binomial(a, b));
        } else {
            assert(spec_binomial(c, d) == 0);
            assert(spec_binomial(a, b) * 0 == 0);
        }
    } else if d == 0 {
        lemma_binomial_monotone(a, a + c, b);
        assert(spec_binomial(a, b) * 1 == spec_binomial(a, b));
    } else {
        let x = spec_binomial((c - 1) as nat, (d - 1) as nat);
        let y = spec_binomial((c - 1) as nat, d);
        lemma_binomial_product(a, b, (c - 1) as nat, (d - 1) as nat);
        lemma_binomial_product(a, b, (c - 1) as nat, d);
        assert(spec_binomial(c, d) == x + y);
        vstd::arithmetic::mul::lemma_mul_is_distributive_add(spec_binomial(a, b) as int, x as int, y as int);
        assert(spec_binomial(a + c, b + d) == spec_binomial((a + c - 1) as nat, (b + d - 1) as nat)
            + spec_binomial((a + c - 1) as nat, (b + d) as nat));
        assert((a + (c - 1)) as nat == (a + c - 1) as nat);
        assert((b + (d - 1)) as nat == (b + d - 1) as nat);
    }
}

/// The prefix sums of two lists that agree on the prefix are equal.
proof fn lemma_psum_prefix(a: Seq<usize>, b: Seq<usize>, k: nat)
    requires
        k <= a.len(),
        k <= b.len(),
        forall|i: int| 0 <= i < k ==> a[i] == b[i],
    ensures
        psum(a, k) == psum(b, k),
    decreases k,
{
    if k > 0 {
        lemma_psum_prefix(a, b, (k - 1) as nat);
    }
}

/// Prefix sums grow with the prefix.
proof fn lemma_psum_monotone(a: Seq<usize>, k: nat, j: nat)
    requires
        k <= j,
    ensures
        psum(a, k) <= psum(a, j),
    decreases j,
{
    if k < j {
        lemma_psum_monotone(a, k, (j - 1) as nat);
    }
}

/// The total of the entries is the sum of their counts.
proof fn lemma_total_is_psum(types: Seq<(u32, usize)>)
    ensures
        entries_total(types) == psum(entry_counts(types), types.len()),
    decreases types.len(),
{
    if types.len() > 0 {
        let p = types.drop_last();
        lemma_total_is_psum(p);
        lemma_psum_prefix(entry_counts(types), entry_counts(p), p.len());
    }
}

/// In a well-formed list of entries, a draw takes `d[i]` cards of the `i`-th type (for
/// `i < k`) and no other cards; it holds `psum(d, k)` cards.
pub proof fn lemma_draw_multiset_count(types: Seq<(u32, usize)>, d: Seq<usize>, k: nat)
    requires
        entries_wf(types),
        k <= types.len(),
        k <= d.len(),
    ensures
        forall|i: int|
            0 <= i < types.len() ==> #[trigger] draw_multiset(types, d, k).count(types[i].0) == if i
                < k {
                d[i] as nat
            } else {
                0
            },
        forall|t: u32|
            (forall|i: int| 0 <= i < types.len() ==> #[trigger] types[i].0 != t) ==> draw_multiset(
                types,
                d,
                k,
            ).count(t) == 0,
        draw_multiset(types, d, k).len() == psum(d, k),
    decreases k,
{
    if k > 0 {
        lemma_draw_multiset_count(types, d, (k - 1) as nat);
        lemma_copies(types[k - 1].0, d[k - 1] as nat);
        assert forall|i: int| 0 <= i < types.len() implies #[trigger] draw_multiset(
            types,
            d,
            k,
        ).count(types[i].0) == if i < k {
            d[i] as nat
        } else {
            0
        } by {
            if i != k - 1 {
                if i < k - 1 {
                    assert(types[i].0 != types[k - 1].0);
                } else {
                    assert(types[k - 1].0 != types[i].0);
                }
            }
        }
    }
}

/// The number of ways is positive when no type is over-drawn, and it grows with the prefix.
proof fn lemma_draw_ways_bounds(types: Seq<(u32, usize)>, d: Seq<usize>, k: nat, j: nat)
    requires
        k <= j <= types.len(),
        j <= d.len(),
        forall|i: int| 0 <= i < j ==> #[trigger] d[i] <= types[i].1,
    ensures
        draw_ways(types, d, k) >= 1,
        draw_ways(types, d, k) <= draw_ways(types, d, j),
    decreases j,
{
    if k < j {
        lemma_draw_ways_bounds(types, d, k, (j - 1) as nat);
        lemma_binomial_positive(types[j - 1].1 as nat, d[j - 1] as nat);
        vstd::arithmetic::mul::lemma_mul_inequality(
            1,
            spec_binomial(types[j - 1].1 as nat, d[j - 1] as nat) as int,
            draw_ways(types, d, (j - 1) as nat) as int,
        );
        vstd::arithmetic::mul::lemma_mul_is_commutative(
            spec_binomial(types[j - 1].1 as nat, d[j - 1] as nat) as int,
            draw_ways(types, d, (j - 1) as nat) as int,
        );
    } else if k > 0 {
        lemma_draw_ways_bounds(types, d, (k - 1) as nat, (k - 1) as nat);
        lemma_binomial_positive(types[k - 1].1 as nat, d[k - 1] as nat);
        vstd::arithmetic::mul::lemma_mul_inequality(
            1,
            draw_ways(types, d, (k - 1) as nat) as int,
            spec_binomial(types[k - 1].1 as nat, d[k - 1] as nat) as int,
        );
    }
}

/// The ways to draw a prefix are at most the ways to draw as many cards from the prefix's
/// cards.
proof fn lemma_draw_ways_le_binomial(types: Seq<(u32, usize)>, d: Seq<usize>, k: nat)
    requires
        k <= types.len(),
        k <= d.len(),
    ensures
        draw_ways(types, d, k) <= spec_binomial(psum(entry_counts(types), k), psum(d, k)),
    decreases k,
{
    if k > 0 {
        let w = draw_ways(types, d, (k - 1) as nat);
        let b = spec_binomial(types[k - 1].1 as nat, d[k - 1] as nat);
        let cs = entry_counts(types);
        lemma_draw_ways_le_binomial(types, d, (k - 1) as nat);
        vstd::arithmetic::mul::lemma_mul_inequality(
            w as int,
            spec_binomial(psum(cs, (k - 1) as nat), psum(d, (k - 1) as nat)) as int,
            b as int,
        );
        lemma_binomial_product(
            psum(cs, (k - 1) as nat),
            psum(d, (k - 1) as nat),
            types[k - 1].1 as nat,
            d[k - 1] as nat,
        );
        assert(cs[k - 1] == types[k - 1].1);
    }
}

/// Copies a list of counts.
fn copy_counts(v: &Vec<usize>) -> (r: Vec<usize>)
    ensures
        r@ == v@,
{
    let mut r: Vec<usize> = Vec::new();
    let mut i: usize = 0;
    while i < v.len()
        invariant
            i <= v@.len(),
            r@ == v@.subrange(0, i as int),
        decreases v@.len() - i,
    {
        r.push(v[i]);
        i += 1;
    }
    assert(r@ == v@);
    r
}

/// Prepends a fixed prefix to every draw of a list.
pub open spec fn with_prefix(p: Seq<usize>, ds: Seq<Seq<usize>>) -> Seq<Seq<usize>> {
    ds.map_values(|v: Seq<usize>| p + v)
}

/// The count lists held by a list of vectors.
pub open spec fn vv(s: Seq<Vec<usize>>) -> Seq<Seq<usize>> {
    s.map_values(|v: Vec<usize>| v@)
}

/// Appends to `out`, in lexicographic order, every draw of `rem` cards from the types at
/// positions `i..` of `c`, each after the counts in `prefix`.
fn push_draws(
    c: &Vec<usize>,
    i: usize,
    rem: usize,
    prefix: &mut Vec<usize>,
    out: &mut Vec<Vec<usize>>,
)
    requires
        i <= c@.len(),
    ensures
        final(prefix)@ == old(prefix)@,
        vv(final(out)@) == vv(old(out)@) + with_prefix(
            old(prefix)@,
            all_draws(c@.skip(i as int), rem as nat),
        ),
    decreases c@.len() - i,
{
    let ghost p0 = prefix@;
    let ghost sub = c@.skip(i as int);
    let n_types = c.len();
    if i == n_types {
        assert(sub.len() == 0);
        if rem == 0 {
            let copy = copy_counts(prefix);
            let ghost o = out@;
            out.push(copy);
            assert(vv(out@) =~= vv(o) + with_prefix(p0, all_draws(sub, rem as nat))) by {
                assert(p0 + Seq::<usize>::empty() =~= p0);
            }
        } else {
            assert(vv(out@) =~= vv(old(out)@) + with_prefix(p0, all_draws(sub, rem as nat)));
        }
        return;
    }
    let max = if rem < c[i] { rem } else { c[i] };
    let mut d: usize = 0;
    assert(all_draws(sub, rem as nat) == draws_from(sub, rem as nat, 0));
    loop
        invariant_except_break
            vv(old(out)@) + with_prefix(p0, draws_from(sub, rem as nat, 0)) == vv(out@)
                + with_prefix(p0, draws_from(sub, rem as nat, d as nat)),
        invariant
            i < n_types,
            n_types == c@.len(),
            sub == c@.skip(i as int),
            max == (if rem < c@[i as int] { rem } else { c@[i as int] }),
            d <= max,
            prefix@ == p0,
        ensures
            vv(old(out)@) + with_prefix(p0, draws_from(sub, rem as nat, 0)) == vv(out@),
        decreases max - d,
    {
        let ghost o = out@;
        prefix.push(d);
        push_draws(c, i + 1, rem - d, prefix, out);
        prefix.pop();
        proof {
            assert(sub[0] == c@[i as int]);
            assert(sub.drop_first() =~= c@.skip(i + 1));
            let rest = all_draws(sub.drop_first(), (rem - d) as nat);
            let head = rest.map_values(|v: Seq<usize>| seq![d as usize] + v);
            assert(draws_from(sub, rem as nat, d as nat) == head + draws_from(
                sub,
                rem as nat,
                (d + 1) as nat,
            ));
            assert(with_prefix(p0.push(d), rest) =~= with_prefix(p0, head)) by {
                assert forall|j: int| 0 <= j < rest.len() implies #[trigger] with_prefix(
                    p0.push(d),
                    rest,
                )[j] == with_prefix(p0, head)[j] by {
                    assert(p0.push(d) + rest[j] =~= p0 + (seq![d as usize] + rest[j]));
                }
            }
            assert(with_prefix(p0, head + draws_from(sub, rem as nat, (d + 1) as nat)) =~= with_prefix(
                p0,
                head,
            ) + with_prefix(p0, draws_from(sub, rem as nat, (d + 1) as nat)));
            assert(vv(out@) == vv(o) + with_prefix(p0, head));
            assert(vv(old(out)@) + with_prefix(p0, draws_from(sub, rem as nat, 0)) =~= vv(out@)
                + with_prefix(p0, draws_from(sub, rem as nat, (d + 1) as nat)));
        }
        if d == max {
            assert(draws_from(sub, rem as nat, (d + 1) as nat) =~= Seq::<Seq<usize>>::empty());
            assert(with_prefix(p0, Seq::<Seq<usize>>::empty()) =~= Seq::<Seq<usize>>::empty());
            assert(vv(old(out)@) + with_prefix(p0, draws_from(sub, rem as nat, 0)) =~= vv(out@));
            break;
        }
        d += 1;
    }
}


/// Splitting every count into two parts splits the prefix sums the same way.
proof fn lemma_psum_split(a: Seq<usize>, b: Seq<usize>, c: Seq<usize>, k: nat)
    requires
        k <= a.len(),
        k <= b.len(),
        k <= c.len(),
        forall|i: int| 0 <= i < k ==> #[trigger] a[i] + b[i] == c[i],
    ensures
        psum(a, k) + psum(b, k) == psum(c, k),
    decreases k,
{
    if k > 0 {
        lemma_psum_split(a, b, c, (k - 1) as nat);
        assert(a[k - 1] + b[k - 1] == c[k - 1]);
    }
}

/// An enumeration of the unique draws of a fixed number of cards from a [`Cards`], in
/// lexicographic order of the per-type counts (the order of the types is not defined).
///
/// Each draw comes with the number of ways to make it: drawn at random, a draw occurs with
/// probability `ways / prob_denominator()`.
pub struct Draws {
    /// The card types of the deck with their counts.
    types: Vec<(u32, usize)>,
    /// The per-type counts of each draw, in enumeration order.
    draws: Vec<Vec<usize>>,
    /// The number of draws already returned.
    pos: usize,
    /// The number of ways to draw `draw_size` cards from the deck.
    prob_denom: usize,
    /// The number of cards in each draw.
    draw_size: usize,
}

impl Draws {
    /// The card types of the deck, with the number of cards of each.
    pub closed spec fn card_types(self) -> Seq<(u32, usize)> {
        self.types@
    }

    /// The number of cards in each draw.
    pub closed spec fn draw_size(self) -> nat {
        self.draw_size as nat
    }

    /// The number of draws already returned.
    pub closed spec fn position(self) -> nat {
        self.pos as nat
    }

    /// The deck the draws are made from.
    pub open spec fn deck(self) -> Multiset<u32> {
        entries_multiset(self.card_types())
    }

    /// The per-type counts of every draw, in enumeration order.
    pub open spec fn all(self) -> Seq<Seq<usize>> {
        all_draws(entry_counts(self.card_types()), self.draw_size())
    }

    /// The number of draws enumerated in all.
    pub open spec fn num_draws(self) -> nat {
        self.all().len()
    }

    /// The cards of the `i`-th draw.
    pub open spec fn draw_at(self, i: int) -> Multiset<u32> {
        draw_multiset(self.card_types(), self.all()[i], self.card_types().len())
    }

    /// The number of ways to make the `i`-th draw.
    pub open spec fn ways_at(self, i: int) -> nat {
        draw_ways(self.card_types(), self.all()[i], self.card_types().len())
    }

    /// The total of the ways of the draws from the `i`-th on.
    pub open spec fn ways_from(self, i: int) -> nat
        decreases self.num_draws() - i,
    {
        if i < 0 || i >= self.num_draws() {
            0
        } else {
            self.ways_at(i) + self.ways_from(i + 1)
        }
    }

    /// The enumeration is consistent with its deck.
    pub closed spec fn wf(self) -> bool {
        &&& entries_wf(self.types@)
        &&& entries_total(self.types@) <= usize::MAX
        &&& self.draw_size <= entries_total(self.types@)
        &&& spec_binomial(entries_total(self.types@), self.draw_size as nat) <= usize::MAX
        &&& self.prob_denom == spec_binomial(entries_total(self.types@), self.draw_size as nat)
        &&& vv(self.draws@) == all_draws(entry_counts(self.types@), self.draw_size as nat)
        &&& self.pos <= self.draws@.len()
    }

    /// Starts the enumeration of the draws of `n` cards (or all cards, if there are fewer).
    pub(crate) fn new(cards: &Cards, n: usize) -> (r: Draws)
        requires
            cards@.len() <= usize::MAX,
            spec_binomial_fits(cards@.len(), n as nat),
        ensures
            r.wf(),
            r.deck() == cards@,
            r.draw_size() == if n < cards@.len() {
                n as nat
            } else {
                cards@.len()
            },
            r.position() == 0,
    {
        let types = cards.iter();
        let total = cards.count();
        proof {
            lemma_entries_count(types@);
        }
        let n = if n < total { n } else { total };
        let denom = binomial(total, n);
        let mut counts: Vec<usize> = Vec::new();
        let mut i: usize = 0;
        while i < types.len()
            invariant
                i <= types@.len(),
                counts@ == entry_counts(types@).subrange(0, i as int),
            decreases types@.len() - i,
        {
            counts.push(types[i].1);
            i += 1;
        }
        assert(counts@ == entry_counts(types@));
        let mut prefix: Vec<usize> = Vec::new();
        let mut draws: Vec<Vec<usize>> = Vec::new();
        push_draws(&counts, 0, n, &mut prefix, &mut draws);
        proof {
            assert(counts@.skip(0) == counts@);
            let all = all_draws(counts@, n as nat);
            assert(with_prefix(Seq::<usize>::empty(), all) =~= all) by {
                assert forall|k: int| 0 <= k < all.len() implies #[trigger] with_prefix(
                    Seq::<usize>::empty(),
                    all,
                )[k] == all[k] by {
                    assert(Seq::<usize>::empty() + all[k] =~= all[k]);
                }
            }
            assert(vv(draws@) =~= all);
        }
        Draws { types, draws, pos: 0, prob_denom: denom, draw_size: n }
    }

    /// Returns the number of ways to draw `draw_size()` cards from the deck: the denominator of
    /// every draw's probability.
    pub fn prob_denominator(&self) -> (r: usize)
        requires
            self.wf(),
        ensures
            r == spec_binomial(self.deck().len(), self.draw_size()),
    {
        proof {
            lemma_entries_count(self.types@);
        }
        self.prob_denom
    }

    /// Returns the next draw as `(reduced_deck, drawn_cards, ways)`, or `None` when every draw
    /// has been returned.
    pub fn next(&mut self) -> (r: Option<(Cards, Cards, usize)>)
        requires
            old(self).wf(),
        ensures
            final(self).wf(),
            final(self).card_types() == old(self).card_types(),
            final(self).draw_size() == old(self).draw_size(),
            old(self).position() < old(self).num_draws() ==> {
                &&& final(self).position() == old(self).position() + 1
                &&& r matches Some(item) && {
                    &&& item.1@ == old(self).draw_at(old(self).position() as int)
                    &&& item.0@ == old(self).deck().sub(item.1@)
                    &&& item.2 == old(self).ways_at(old(self).position() as int)
                }
            },
            old(self).position() >= old(self).num_draws() ==> {
                &&& final(self).position() == old(self).position()
                &&& r is None
            },
    {
        if self.pos >= self.draws.len() {
            return None;
        }
        let p = self.pos;
        let ghost types = self.types@;
        let ghost cs = entry_counts(types);
        let ghost total = entries_total(types);
        let ghost n = self.draw_size as nat;
        let k = self.types.len();
        let d = &self.draws[p];
        let ghost dv = d@;
        let ghost rd = Seq::new(k as nat, |j: int| (cs[j] - dv[j]) as usize);
        proof {
            assert(vv(self.draws@)[p as int] == dv);
            lemma_all_draws_valid(cs, n);
            assert(valid_draw(cs, n, dv));
            lemma_sum_is_psum(dv);
            lemma_total_is_psum(types);
            assert forall|j: int| 0 <= j < k implies #[trigger] dv[j] <= types[j].1 by {
                assert(cs[j] == types[j].1);
            }
            lemma_draw_ways_bounds(types, dv, k as nat, k as nat);
            lemma_draw_ways_le_binomial(types, dv, k as nat);
            lemma_psum_split(rd, dv, cs, k as nat);
        }
        let mut drawn = Cards::new();
        let mut reduced = Cards::new();
        let mut ways: usize = 1;
        let mut i: usize = 0;
        while i < k
            invariant
                k == types.len(),
                types == self.types@,
                dv == d@,
                cs == entry_counts(types),
                dv.len() == k,
                rd.len() == k,
                forall|j: int| 0 <= j < k ==> #[trigger] dv[j] <= types[j].1,
                forall|j: int| 0 <= j < k ==> #[trigger] rd[j] == cs[j] - dv[j],
                i <= k,
                drawn@ == draw_multiset(types, dv, i as nat),
                reduced@ == draw_multiset(types, rd, i as nat),
                ways == draw_ways(types, dv, i as nat),
                draw_ways(types, dv, k as nat) <= usize::MAX,
                psum(cs, k as nat) <= usize::MAX,
                entries_wf(types),
            decreases k - i,
        {
            let (t, c) = self.types[i];
            let di = d[i];
            proof {
                lemma_draw_multiset_count(types, dv, i as nat);
                lemma_draw_multiset_count(types, rd, i as nat);
                lemma_psum_split(rd, dv, cs, i as nat);
                lemma_psum_monotone(cs, (i + 1) as nat, k as nat);
                assert(cs[i as int] == c);
                lemma_draw_ways_bounds(types, dv, (i + 1) as nat, k as nat);
                lemma_draw_ways_bounds(types, dv, i as nat, i as nat);
                vstd::arithmetic::mul::lemma_mul_inequality(
                    1,
                    draw_ways(types, dv, i as nat) as int,
                    spec_binomial(c as nat, di as nat) as int,
                );
            }
            drawn.add(t, di);
            reduced.add(t, c - di);
            let b = binomial(c, di);
            ways = ways * b;
            i += 1;
        }
        proof {
            lemma_draw_multiset_count(types, dv, k as nat);
            lemma_draw_multiset_count(types, rd, k as nat);
            lemma_entries_count(types);
            assert forall|v: u32| #[trigger] reduced@.count(v) == entries_multiset(types).sub(
                drawn@,
            ).count(v) by {
                if exists|j: int| 0 <= j < k && types[j].0 == v {
                    let j = choose|j: int| 0 <= j < k && types[j].0 == v;
                    assert(cs[j] == types[j].1);
                } else {
                    assert(forall|j: int| 0 <= j < types.len() ==> #[trigger] types[j].0 != v);
                }
            }
            assert(reduced@ =~= entries_multiset(types).sub(drawn@));
        }
        self.pos = p + 1;
        Some((reduced, drawn, ways))
    }
}

/// Every enumerated draw is a draw of `draw_size()` cards from the deck; for each type it takes
/// the listed number of cards, so the number of ways to make it is the product, over the types,
/// of the ways to choose that many cards of the type.
pub proof fn lemma_draws_are_draws(d: Draws, i: int)
    requires
        d.wf(),
        0 <= i < d.num_draws(),
    ensures
        d.draw_at(i).subset_of(d.deck()),
        d.draw_at(i).len() == d.draw_size(),
        forall|j: int|
            0 <= j < d.card_types().len() ==> {
                &&& #[trigger] d.draw_at(i).count(d.card_types()[j].0) == d.all()[i][j]
                &&& d.deck().count(d.card_types()[j].0) == d.card_types()[j].1
            },
{
    let types = d.card_types();
    let cs = entry_counts(types);
    let v = d.all()[i];
    lemma_all_draws_valid(cs, d.draw_size());
    lemma_draw_multiset_count(types, v, types.len());
    lemma_entries_count(types);
    lemma_sum_is_psum(v);
    assert forall|t: u32| #[trigger] d.draw_at(i).count(t) <= d.deck().count(t) by {
        if exists|j: int| 0 <= j < types.len() && types[j].0 == t {
            let j = choose|j: int| 0 <= j < types.len() && types[j].0 == t;
            assert(cs[j] == types[j].1);
        } else {
            assert(forall|j: int| 0 <= j < types.len() ==> #[trigger] types[j].0 != t);
        }
    }
}

/// No draw is enumerated twice.
pub proof fn lemma_draws_distinct(d: Draws, i: int, j: int)
    requires
        d.wf(),
        0 <= i < d.num_draws(),
        0 <= j < d.num_draws(),
        i != j,
    ensures
        d.draw_at(i) != d.draw_at(j),
{
    let types = d.card_types();
    let cs = entry_counts(types);
    lemma_all_draws_valid(cs, d.draw_size());
    lemma_all_draws_distinct(cs, d.draw_size());
    lemma_draw_multiset_count(types, d.all()[i], types.len());
    lemma_draw_multiset_count(types, d.all()[j], types.len());
    if d.draw_at(i) == d.draw_at(j) {
        assert forall|k: int| 0 <= k < types.len() implies d.all()[i][k] == d.all()[j][k] by {
            assert(d.draw_at(i).count(types[k].0) == d.draw_at(j).count(types[k].0));
        }
        assert(d.all()[i] =~= d.all()[j]);
    }
}

/// Every draw of `draw_size()` cards from the deck is enumerated.
pub proof fn lemma_draws_complete(d: Draws, m: Multiset<u32>) -> (i: int)
    requires
        d.wf(),
        m.subset_of(d.deck()),
        m.len() == d.draw_size(),
    ensures
        0 <= i < d.num_draws(),
        d.draw_at(i) == m,
{
    let types = d.card_types();
    let cs = entry_counts(types);
    let k = types.len();
    lemma_entries_count(types);
    let v = Seq::new(k, |j: int| m.count(types[j].0) as usize);
    assert forall|j: int| 0 <= j < k implies #[trigger] v[j] <= cs[j] by {
        assert(m.count(types[j].0) <= d.deck().count(types[j].0));
    }
    lemma_draw_multiset_count(types, v, k);
    assert forall|t: u32| #[trigger] draw_multiset(types, v, k).count(t) == m.count(t) by {
        if exists|j: int| 0 <= j < k && types[j].0 == t {
            let j = choose|j: int| 0 <= j < k && types[j].0 == t;
            assert(v[j] == m.count(t));
        } else {
            assert(forall|j: int| 0 <= j < types.len() ==> #[trigger] types[j].0 != t);
            assert(m.count(t) <= d.deck().count(t));
        }
    }
    assert(draw_multiset(types, v, k) =~= m);
    lemma_sum_is_psum(v);
    assert(valid_draw(cs, d.draw_size(), v));
    lemma_all_draws_complete(cs, d.draw_size(), v);
    let i = choose|i: int| 0 <= i < d.all().len() && #[trigger] d.all()[i] == v;
    i
}

/// A binomial coefficient with more to choose than there is is 0.
pub proof fn lemma_binomial_zero(n: nat, k: nat)
    requires
        k > n,
    ensures
        spec_binomial(n, k) == 0,
    decreases n,
{
    if n > 0 {
        lemma_binomial_zero((n - 1) as nat, (k - 1) as nat);
        lemma_binomial_zero((n - 1) as nat, k);
    }
}

/// `C(a, d0) * C(b, n - d0) + C(a, d0 + 1) * C(b, n - d0 - 1) + ... + C(a, n) * C(b, 0)`.
pub open spec fn vandermonde_sum(a: nat, b: nat, n: nat, d0: nat) -> nat
    decreases n + 1 - d0,
{
    if d0 > n {
        0
    } else {
        spec_binomial(a, d0) * spec_binomial(b, (n - d0) as nat) + vandermonde_sum(a, b, n, d0 + 1)
    }
}

/// The terms that choose more than `a` vanish.
proof fn lemma_vandermonde_tail_zero(a: nat, b: nat, n: nat, d0: nat)
    requires
        d0 > a,
    ensures
        vandermonde_sum(a, b, n, d0) == 0,
    decreases n + 1 - d0,
{
    if d0 <= n {
        lemma_binomial_zero(a, d0);
        lemma_vandermonde_tail_zero(a, b, n, d0 + 1);
        assert(0 * spec_binomial(b, (n - d0) as nat) == 0);
    }
}

/// Pascal's rule, term by term: the sum for `a` is the sum for `a - 1` plus the sum for `a - 1`
/// and `n - 1`, shifted by one.
proof fn lemma_vandermonde_split(a: nat, b: nat, n: nat, d0: nat)
    requires
        a >= 1,
        n >= 1,
        d0 >= 1,
    ensures
        vandermonde_sum(a, b, n, d0) == vandermonde_sum((a - 1) as nat, b, n, d0)
            + vandermonde_sum((a - 1) as nat, b, (n - 1) as nat, (d0 - 1) as nat),
    decreases n + 1 - d0,
{
    if d0 <= n {
        lemma_vandermonde_split(a, b, n, d0 + 1);
        let x = spec_binomial((a - 1) as nat, (d0 - 1) as nat);
        let y = spec_binomial((a - 1) as nat, d0);
        let z = spec_binomial(b, (n - d0) as nat);
        assert(spec_binomial(a, d0) == x + y);
        assert((x + y) * z == x * z + y * z) by (nonlinear_arith);
        assert(((n - 1) as nat - (d0 - 1) as nat) as nat == (n - d0) as nat);
    }
}

/// Vandermonde's identity: choosing `n` of `a + b` things is choosing `d` of the first `a` and
/// `n - d` of the other `b`, for some `d`.
pub proof fn lemma_vandermonde(a: nat, b: nat, n: nat)
    ensures
        vandermonde_sum(a, b, n, 0) == spec_binomial(a + b, n),
    decreases a,
{
    if n == 0 {
        assert(vandermonde_sum(a, b, 0, 1) == 0);
        assert(vandermonde_sum(a, b, 0, 0) == 1);
    } else if a == 0 {
        lemma_vandermonde_tail_zero(0, b, n, 1);
        let cb = spec_binomial(b, n);
        assert(spec_binomial(0, 0) == 1);
        assert((n - 0) as nat == n);
        assert(spec_binomial(0, 0) * cb == cb) by (nonlinear_arith)
            requires
                spec_binomial(0, 0) == 1,
        ;
        assert(vandermonde_sum(0, b, n, 0) == cb);
    } else {
        lemma_vandermonde_split(a, b, n, 1);
        lemma_vandermonde((a - 1) as nat, b, n);
        lemma_vandermonde((a - 1) as nat, b, (n - 1) as nat);
        let a1 = (a - 1) as nat;
        assert(spec_binomial(a, 0) == 1);
        assert(spec_binomial(a1, 0) == 1);
        assert((n - 0) as nat == n);
        let cb = spec_binomial(b, n);
        assert(spec_binomial(a, 0) * cb == cb) by (nonlinear_arith)
            requires
                spec_binomial(a, 0) == 1,
        ;
        assert(spec_binomial(a1, 0) * cb == cb) by (nonlinear_arith)
            requires
                spec_binomial(a1, 0) == 1,
        ;
        assert(vandermonde_sum(a, b, n, 0) == spec_binomial(b, n) + vandermonde_sum(a, b, n, 1));
        assert(vandermonde_sum(a1, b, n, 0) == spec_binomial(b, n) + vandermonde_sum(a1, b, n, 1));
        assert(a1 + b == (a + b - 1) as nat);
        assert(spec_binomial(a + b, n) == spec_binomial((a + b - 1) as nat, (n - 1) as nat)
            + spec_binomial((a + b - 1) as nat, n));
    }
}

/// The product, over the types, of the ways to choose `d[j]` of the `c[j]` cards of type `j`.
pub open spec fn choose_product(c: Seq<usize>, d: Seq<usize>) -> nat
    decreases c.len(),
{
    if c.len() == 0 || d.len() == 0 {
        1
    } else {
        spec_binomial(c[0] as nat, d[0] as nat) * choose_product(c.drop_first(), d.drop_first())
    }
}

/// The total of `choose_product(c, d)` over a list of draws `d`.
pub open spec fn ways_total(c: Seq<usize>, ds: Seq<Seq<usize>>) -> nat
    decreases ds.len(),
{
    if ds.len() == 0 {
        0
    } else {
        choose_product(c, ds[0]) + ways_total(c, ds.drop_first())
    }
}

/// The total over two lists one after the other is the sum of their totals.
proof fn lemma_ways_total_concat(c: Seq<usize>, s: Seq<Seq<usize>>, t: Seq<Seq<usize>>)
    ensures
        ways_total(c, s + t) == ways_total(c, s) + ways_total(c, t),
    decreases s.len(),
{
    if s.len() > 0 {
        assert((s + t).drop_first() =~= s.drop_first() + t);
        lemma_ways_total_concat(c, s.drop_first(), t);
    } else {
        assert(s + t =~= t);
    }
}

/// Fixing the count of the first type multiplies the total over the remaining types by the
/// ways to choose that many cards of the first type.
proof fn lemma_ways_total_prefix(c: Seq<usize>, d0: usize, ds: Seq<Seq<usize>>)
    requires
        c.len() > 0,
    ensures
        ways_total(c, ds.map_values(|v: Seq<usize>| seq![d0] + v)) == spec_binomial(
            c[0] as nat,
            d0 as nat,
        ) * ways_total(c.drop_first(), ds),
    decreases ds.len(),
{
    let f = |v: Seq<usize>| seq![d0] + v;
    let k = spec_binomial(c[0] as nat, d0 as nat);
    if ds.len() > 0 {
        let m = ds.map_values(f);
        assert(m.drop_first() =~= ds.drop_first().map_values(f));
        lemma_ways_total_prefix(c, d0, ds.drop_first());
        assert((seq![d0] + ds[0]).drop_first() =~= ds[0]);
        let x = choose_product(c.drop_first(), ds[0]);
        let y = ways_total(c.drop_first(), ds.drop_first());
        assert(k * x + k * y == k * (x + y)) by (nonlinear_arith);
    } else {
        assert(k * 0 == 0);
    }
}

/// The draws whose first count is at least `d0` make up the Vandermonde terms from `d0` on.
proof fn lemma_draws_from_total(c: Seq<usize>, n: nat, d0: nat)
    requires
        c.len() > 0,
        forall|m: nat| #[trigger] ways_total(c.drop_first(), all_draws(c.drop_first(), m))
            == spec_binomial(sum(c.drop_first()), m),
    ensures
        ways_total(c, draws_from(c, n, d0)) == vandermonde_sum(c[0] as nat, sum(c.drop_first()), n, d0),
    decreases (c[0] + 1) - d0,
{
    if d0 > n {
    } else if d0 > c[0] {
        lemma_vandermonde_tail_zero(c[0] as nat, sum(c.drop_first()), n, d0);
    } else {
        let f = |v: Seq<usize>| seq![d0 as usize] + v;
        let ds = all_draws(c.drop_first(), (n - d0) as nat);
        lemma_draws_from_total(c, n, d0 + 1);
        lemma_ways_total_concat(c, ds.map_values(f), draws_from(c, n, d0 + 1));
        lemma_ways_total_prefix(c, d0 as usize, ds);
        assert(ways_total(c.drop_first(), ds) == spec_binomial(sum(c.drop_first()), (n - d0) as nat));
    }
}

/// The ways of all the draws of `n` cards add up to the ways of choosing `n` of the cards.
pub proof fn lemma_all_draws_total(c: Seq<usize>, n: nat)
    ensures
        ways_total(c, all_draws(c, n)) == spec_binomial(sum(c), n),
    decreases c.len(),
{
    if c.len() == 0 {
        assert(sum(c) == 0);
        if n == 0 {
            let ds = all_draws(c, n);
            assert(ds.len() == 1);
            assert(ds.drop_first() =~= Seq::<Seq<usize>>::empty());
            assert(ways_total(c, ds.drop_first()) == 0);
            assert(choose_product(c, ds[0]) == 1);
            assert(ways_total(c, ds) == 1);
        } else {
            assert(all_draws(c, n) =~= Seq::<Seq<usize>>::empty());
            assert(spec_binomial(0, n) == 0);
        }
    } else {
        assert forall|m: nat| #[trigger] ways_total(c.drop_first(), all_draws(c.drop_first(), m))
            == spec_binomial(sum(c.drop_first()), m) by {
            lemma_all_draws_total(c.drop_first(), m);
        }
        lemma_draws_from_total(c, n, 0);
        lemma_vandermonde(c[0] as nat, sum(c.drop_first()), n);
        assert(all_draws(c, n) == draws_from(c, n, 0));
        assert(sum(c) == c[0] + sum(c.drop_first()));
        assert(ways_total(c, all_draws(c, n)) == vandermonde_sum(c[0] as nat, sum(c.drop_first()), n, 0));
    }
}

/// The number of ways to make a draw, counted type by type from the last, is the product of
/// the ways for each type.
proof fn lemma_draw_ways_product(types: Seq<(u32, usize)>, d: Seq<usize>, k: nat)
    requires
        k <= types.len(),
        d.len() == types.len(),
    ensures
        draw_ways(types, d, k) * choose_product(entry_counts(types).skip(k as int), d.skip(k as int))
            == choose_product(entry_counts(types), d),
    decreases k,
{
    let cs = entry_counts(types);
    if k == 0 {
        assert(cs.skip(0) =~= cs);
        assert(d.skip(0) =~= d);
        let p = choose_product(cs, d);
        assert(1 * p == p);
    } else {
        let j = (k - 1) as int;
        lemma_draw_ways_product(types, d, (k - 1) as nat);
        assert(cs.skip(j).drop_first() =~= cs.skip(k as int));
        assert(d.skip(j).drop_first() =~= d.skip(k as int));
        assert(cs.skip(j)[0] == types[j].1);
        let w = draw_ways(types, d, (k - 1) as nat);
        let b = spec_binomial(types[j].1 as nat, d[j] as nat);
        let p = choose_product(cs.skip(k as int), d.skip(k as int));
        assert(choose_product(cs.skip(j), d.skip(j)) == b * p);
        assert((w * b) * p == w * (b * p)) by (nonlinear_arith);
    }
}

/// The ways of the draws from the `i`-th on are their `choose_product` total.
proof fn lemma_ways_from_total(d: Draws, i: int)
    requires
        d.wf(),
        0 <= i <= d.num_draws(),
    ensures
        d.ways_from(i) == ways_total(entry_counts(d.card_types()), d.all().skip(i)),
    decreases d.num_draws() - i,
{
    let cs = entry_counts(d.card_types());
    if i < d.num_draws() {
        lemma_ways_from_total(d, i + 1);
        assert(d.all().skip(i).drop_first() =~= d.all().skip(i + 1));
        lemma_all_draws_valid(cs, d.draw_size());
        assert(valid_draw(cs, d.draw_size(), d.all()[i]));
        lemma_draw_ways_product(d.card_types(), d.all()[i], d.card_types().len());
        assert(cs.skip(cs.len() as int).len() == 0);
        let p = choose_product(cs, d.all()[i]);
        let w = d.ways_at(i);
        assert(w * 1 == w);
    } else {
        assert(d.all().skip(i).len() == 0);
    }
}

/// Drawn at random, one of the enumerated draws always occurs: their numbers of ways add up to
/// the number of ways to draw `draw_size()` cards from the deck, so their probabilities sum
/// to 1.
pub proof fn lemma_draw_ways_sum(d: Draws)
    requires
        d.wf(),
    ensures
        d.ways_from(0) == spec_binomial(d.deck().len(), d.draw_size()),
{
    let types = d.card_types();
    let cs = entry_counts(types);
    lemma_ways_from_total(d, 0);
    assert(d.all().skip(0) =~= d.all());
    lemma_all_draws_total(cs, d.draw_size());
    lemma_sum_is_psum(cs);
    lemma_total_is_psum(types);
    lemma_entries_count(types);
}

} // verus!
