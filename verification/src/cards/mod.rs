//! A multiset of cards, keyed by the integer identity of each card type.

pub mod draws;

use vstd::prelude::*;
use vstd::multiset::Multiset;
use std::collections::HashMap;

use self::draws::{spec_binomial_fits, Draws};


verus! {

broadcast use {
    vstd::multiset::group_multiset_axioms,
    vstd::seq_lib::group_to_multiset_ensures,
    vstd::std_specs::hash::group_hash_axioms,
};

/// `n` copies of the card type `t`.
pub open spec fn copies(t: u32, n: nat) -> Multiset<u32>
    decreases n,
{
    if n == 0 {
        Multiset::empty()
    } else {
        copies(t, (n - 1) as nat).insert(t)
    }
}

/// `copies(t, n)` holds exactly `n` cards, all of type `t`.
pub proof fn lemma_copies(t: u32, n: nat)
    ensures
        copies(t, n).count(t) == n,
        copies(t, n).len() == n,
        forall|u: u32| u != t ==> #[trigger] copies(t, n).count(u) == 0,
    decreases n,
{
    if n > 0 {
        lemma_copies(t, (n - 1) as nat);
    }
}

/// The multiset described by a list of `(card type, count)` entries.
pub open spec fn entries_multiset(s: Seq<(u32, usize)>) -> Multiset<u32>
    decreases s.len(),
{
    if s.len() == 0 {
        Multiset::empty()
    } else {
        entries_multiset(s.drop_last()).add(copies(s.last().0, s.last().1 as nat))
    }
}

/// The total of the counts in a list of entries.
pub open spec fn entries_total(s: Seq<(u32, usize)>) -> nat
    decreases s.len(),
{
    if s.len() == 0 {
        0
    } else {
        entries_total(s.drop_last()) + s.last().1 as nat
    }
}

/// The card types named by a list of entries, in order.
pub open spec fn entries_keys(s: Seq<(u32, usize)>) -> Seq<u32> {
    s.map_values(|p: (u32, usize)| p.0)
}

/// A list of entries names each card type at most once, with a positive count.
pub open spec fn entries_wf(s: Seq<(u32, usize)>) -> bool {
    &&& forall|i: int, j: int| 0 <= i < j < s.len() ==> #[trigger] s[i].0 != #[trigger] s[j].0
    &&& forall|i: int| 0 <= i < s.len() ==> #[trigger] s[i].1 > 0
}

/// In a well-formed list, the multiplicity of a listed type is its count, and an unlisted type
/// does not occur; the size of the multiset is the total of the counts.
pub proof fn lemma_entries_count(s: Seq<(u32, usize)>)
    requires
        entries_wf(s),
    ensures
        forall|i: int| 0 <= i < s.len() ==> #[trigger] entries_multiset(s).count(s[i].0) == s[i].1,
        forall|k: u32|
            (forall|i: int| 0 <= i < s.len() ==> #[trigger] s[i].0 != k) ==> entries_multiset(
                s,
            ).count(k) == 0,
        entries_multiset(s).len() == entries_total(s),
    decreases s.len(),
{
    if s.len() > 0 {
        let p = s.drop_last();
        assert(entries_wf(p));
        lemma_entries_count(p);
        lemma_copies(s.last().0, s.last().1 as nat);
        assert forall|i: int| 0 <= i < s.len() implies #[trigger] entries_multiset(s).count(s[i].0)
            == s[i].1 by {
            if i < s.len() - 1 {
                assert(p[i] == s[i]);
                assert(s[i].0 != s[s.len() - 1].0);
            }
        }
        assert forall|k: u32|
            (forall|i: int| 0 <= i < s.len() ==> #[trigger] s[i].0 != k) implies entries_multiset(
            s,
        ).count(k) == 0 by {
            assert forall|i: int| 0 <= i < p.len() implies #[trigger] p[i].0 != k by {
                assert(p[i] == s[i]);
            }
            assert(s[s.len() - 1].0 != k);
        }
    }
}

/// Removing the cards just added gives back the cards there were.
pub proof fn lemma_add_then_remove(cards: Multiset<u32>, t: u32, n: nat)
    ensures
        cards.add(copies(t, n)).sub(copies(t, n)) == cards,
{
    assert(cards.add(copies(t, n)).sub(copies(t, n)) =~= cards);
}

/// The multiset of a well-formed list is determined by counts: two well-formed lists with the
/// same count for every type describe the same multiset, and the lookup of a type's count is
/// its multiplicity.
pub proof fn lemma_entries_count_of(s: Seq<(u32, usize)>, k: u32) -> (i: int)
    requires
        entries_wf(s),
    ensures
        (0 <= i < s.len() && s[i].0 == k && entries_multiset(s).count(k) == s[i].1) || (i == -1
            && entries_multiset(s).count(k) == 0 && forall|j: int|
            0 <= j < s.len() ==> #[trigger] s[j].0 != k),
{
    lemma_entries_count(s);
    if exists|j: int| 0 <= j < s.len() && s[j].0 == k {
        let j = choose|j: int| 0 <= j < s.len() && s[j].0 == k;
        j
    } else {
        -1
    }
}

/// The set of types of a well-formed list is the domain of its multiset, and it has as many
/// elements as the list has entries.
pub proof fn lemma_entries_dom(s: Seq<(u32, usize)>)
    requires
        entries_wf(s),
    ensures
        entries_multiset(s).dom() == entries_keys(s).to_set(),
        entries_multiset(s).dom().len() == s.len(),
{
    lemma_entries_count(s);
    let ks = entries_keys(s);
    assert forall|k: u32| #[trigger] entries_multiset(s).dom().contains(k) <==> ks.to_set().contains(
        k,
    ) by {
        if ks.to_set().contains(k) {
            assert(ks.contains(k));
            let i = choose|i: int| 0 <= i < ks.len() && ks[i] == k;
            assert(s[i].0 == k);
        }
        if entries_multiset(s).dom().contains(k) {
            if forall|i: int| 0 <= i < s.len() ==> #[trigger] s[i].0 != k {
                assert(entries_multiset(s).count(k) == 0);
            }
            let i = choose|i: int| 0 <= i < s.len() && s[i].0 == k;
            assert(ks[i] == k);
        }
    }
    assert(entries_multiset(s).dom() =~= ks.to_set());
    assert(ks.no_duplicates()) by {
        assert forall|i: int, j: int| 0 <= i < ks.len() && 0 <= j < ks.len() && i != j implies ks[i]
            != ks[j] by {
            if i < j {
                assert(s[i].0 != s[j].0);
            } else {
                assert(s[j].0 != s[i].0);
            }
        }
    }
    ks.unique_seq_to_set();
}

/// The multiset in which each type occurs as often as the map counts it; a type that the map
/// does not hold does not occur.
pub open spec fn counts_multiset(m: Map<u32, usize>) -> Multiset<u32> {
    Multiset::from_map(Map::new(|k: u32| m.dom().contains(k), |k: u32| m[k] as nat))
}

/// Over a finite map, the multiplicity of a type is its count, or 0 where it has none.
pub proof fn lemma_counts_multiset(m: Map<u32, usize>)
    requires
        m.dom().finite(),
    ensures
        forall|k: u32| #[trigger]
            counts_multiset(m).count(k) == if m.dom().contains(k) {
                m[k] as nat
            } else {
                0
            },
{
    let mm = Map::new(|k: u32| m.dom().contains(k), |k: u32| m[k] as nat);
    assert(mm.dom() =~= m.dom());
}

/// Where every count is positive, the types that occur are exactly the keys of the map.
pub proof fn lemma_counts_dom(m: Map<u32, usize>)
    requires
        m.dom().finite(),
        forall|k: u32| #[trigger] m.contains_key(k) ==> m[k] > 0,
    ensures
        counts_multiset(m).dom() == m.dom(),
{
    lemma_counts_multiset(m);
    assert(counts_multiset(m).dom() =~= m.dom());
}

/// A multiset of cards.
pub struct Cards {
    /// The number of cards of each type present; a type with no card has no entry.
    cards: HashMap<u32, usize>,
}

impl View for Cards {
    type V = Multiset<u32>;

    closed spec fn view(&self) -> Multiset<u32> {
        counts_multiset(self.cards@)
    }
}

impl Cards {
    #[verifier::type_invariant]
    spec fn inv(self) -> bool {
        &&& forall|k: u32| #[trigger] self.cards@.contains_key(k) ==> self.cards@[k] > 0
    }

    /// Creates a new, empty [`Cards`].
    pub fn new() -> (r: Cards)
        ensures
            r@ == Multiset::<u32>::empty(),
    {
        let cards: HashMap<u32, usize> = HashMap::new();
        proof {
            lemma_counts_multiset(cards@);
            assert(counts_multiset(cards@) =~= Multiset::empty());
        }
        Cards { cards }
    }

    /// Adds 1 of the given card type to the [`Cards`].
    pub fn add_one(&mut self, card_type: u32)
        requires
            old(self)@.count(card_type) + 1 <= usize::MAX,
        ensures
            final(self)@ == old(self)@.insert(card_type),
    {
        self.add(card_type, 1);
        proof {
            lemma_copies(card_type, 1);
            assert(copies(card_type, 1) =~= Multiset::singleton(card_type));
        }
    }

    /// Adds `n` of the given card type to the [`Cards`].
    pub fn add(&mut self, card_type: u32, n: usize)
        requires
            old(self)@.count(card_type) + n <= usize::MAX,
        ensures
            final(self)@ == old(self)@.add(copies(card_type, n as nat)),
    {
        proof {
            use_type_invariant(&*self);
            lemma_counts_multiset(self.cards@);
            lemma_copies(card_type, n as nat);
        }
        if n == 0 {
            assert(old(self)@.add(copies(card_type, 0)) =~= old(self)@);
            return;
        }
        let c: usize = match self.cards.get(&card_type) {
            Some(c) => *c,
            None => 0,
        };
        assert(c == old(self)@.count(card_type));
        let mut cards: HashMap<u32, usize> = HashMap::new();
        proof {
            lemma_counts_multiset(cards@);
            assert(counts_multiset(cards@) =~= Multiset::empty());
        }
        std::mem::swap(&mut cards, &mut self.cards);
        cards.insert(card_type, c + n);
        proof {
            lemma_counts_multiset(cards@);
            assert(counts_multiset(cards@) =~= old(self)@.add(copies(card_type, n as nat)));
        }
        self.cards = cards;
    }

    /// Removes 1 of the given card type from the [`Cards`].
    pub fn remove_one(&mut self, card_type: u32)
        requires
            old(self)@.count(card_type) >= 1,
        ensures
            final(self)@ == old(self)@.remove(card_type),
    {
        self.remove(card_type, 1);
        proof {
            lemma_copies(card_type, 1);
            assert(copies(card_type, 1) =~= Multiset::singleton(card_type));
        }
    }

    /// Removes `n` of the given card type from the [`Cards`].
    pub fn remove(&mut self, card_type: u32, n: usize)
        requires
            old(self)@.count(card_type) >= n,
        ensures
            final(self)@ == old(self)@.sub(copies(card_type, n as nat)),
    {
        proof {
            use_type_invariant(&*self);
            lemma_counts_multiset(self.cards@);
            lemma_copies(card_type, n as nat);
        }
        if n == 0 {
            assert(old(self)@.sub(copies(card_type, 0)) =~= old(self)@);
            return;
        }
        let c: usize = match self.cards.get(&card_type) {
            Some(c) => *c,
            None => 0,
        };
        assert(c == old(self)@.count(card_type));
        let mut cards: HashMap<u32, usize> = HashMap::new();
        proof {
            lemma_counts_multiset(cards@);
            assert(counts_multiset(cards@) =~= Multiset::empty());
        }
        std::mem::swap(&mut cards, &mut self.cards);
        if c == n {
            cards.remove(&card_type);
        } else {
            cards.insert(card_type, c - n);
        }
        proof {
            lemma_counts_multiset(cards@);
            assert(counts_multiset(cards@) =~= old(self)@.sub(copies(card_type, n as nat)));
            assert(copies(card_type, n as nat).subset_of(old(self)@));
        }
        self.cards = cards;
    }

    /// Removes all cards of the given card type from the [`Cards`].
    pub fn remove_all(&mut self, card_type: u32)
        requires
            old(self)@.count(card_type) >= 1,
        ensures
            final(self)@.count(card_type) == 0,
            forall|v: u32| v != card_type ==> #[trigger] final(self)@.count(v) == old(self)@.count(
                v,
            ),
            final(self)@ == old(self)@.sub(copies(card_type, old(self)@.count(card_type))),
    {
        let c = self.count_of(card_type);
        self.remove(card_type, c);
        proof {
            lemma_copies(card_type, c as nat);
        }
    }

    /// Returns how many cards of the given type are in the [`Cards`].
    pub fn count_of(&self, card_type: u32) -> (r: usize)
        ensures
            r == self@.count(card_type),
    {
        proof {
            lemma_counts_multiset(self.cards@);
        }
        match self.cards.get(&card_type) {
            Some(c) => *c,
            None => 0,
        }
    }

    /// Returns the number of cards in the [`Cards`], counting duplicates.
    pub fn count(&self) -> (r: usize)
        requires
            self@.len() <= usize::MAX,
        ensures
            r == self@.len(),
    {
        let entries = self.iter();
        proof {
            use_type_invariant(self);
            lemma_entries_count(entries@);
        }
        let mut total: usize = 0;
        let mut i: usize = 0;
        while i < entries.len()
            invariant
                i <= entries@.len(),
                total == entries_total(entries@.subrange(0, i as int)),
                entries_total(entries@) <= usize::MAX,
            decreases entries@.len() - i,
        {
            proof {
                lemma_total_prefix_le(entries@, i as int + 1);
                assert(entries@.subrange(0, i + 1).drop_last() == entries@.subrange(0, i as int));
            }
            total = total + entries[i].1;
            i += 1;
        }
        assert(entries@.subrange(0, i as int) == entries@);
        total
    }

    /// Returns the number of unique card types in the [`Cards`].
    pub fn count_unique(&self) -> (r: usize)
        ensures
            r == self@.dom().len(),
    {
        proof {
            use_type_invariant(self);
            lemma_counts_dom(self.cards@);
        }
        self.cards.len()
    }

    /// Returns `true` if the [`Cards`] contains no cards.
    pub fn is_empty(&self) -> (r: bool)
        ensures
            r == (self@.len() == 0),
    {
        proof {
            use_type_invariant(self);
            lemma_counts_dom(self.cards@);
            lemma_counts_multiset(self.cards@);
            if self.cards@.dom().is_empty() {
                assert(self@ =~= Multiset::empty());
            } else {
                let k = self.cards@.dom().choose();
                assert(self@.count(k) > 0);
            }
        }
        self.cards.is_empty()
    }

    /// Returns the unique card types in the [`Cards`], in no particular order.
    pub fn iter_unique(&self) -> (r: Vec<u32>)
        ensures
            r@.to_set() == self@.dom(),
            r@.no_duplicates(),
            r@.len() == self@.dom().len(),
    {
        let entries = self.iter();
        proof {
            lemma_entries_dom(entries@);
        }
        let mut r: Vec<u32> = Vec::new();
        let mut i: usize = 0;
        while i < entries.len()
            invariant
                i <= entries@.len(),
                r@ == entries_keys(entries@).subrange(0, i as int),
            decreases entries@.len() - i,
        {
            r.push(entries[i].0);
            i += 1;
        }
        assert(r@ == entries_keys(entries@));
        proof {
            let ks = entries_keys(entries@);
            assert forall|a: int, b: int| 0 <= a < ks.len() && 0 <= b < ks.len() && a != b implies ks[a]
                != ks[b] by {
                if a < b {
                    assert(entries@[a].0 != entries@[b].0);
                } else {
                    assert(entries@[b].0 != entries@[a].0);
                }
            }
        }
        r
    }

    /// Returns the `(card type, count)` pairs of the [`Cards`], in no particular order.
    pub fn iter(&self) -> (r: Vec<(u32, usize)>)
        ensures
            entries_wf(r@),
            entries_multiset(r@) == self@,
            forall|i: int| 0 <= i < r@.len() ==> #[trigger] self@.count(r@[i].0) == r@[i].1,
            r@.len() == self@.dom().len(),
    {
        proof {
            use_type_invariant(self);
            lemma_counts_multiset(self.cards@);
            use_type_invariant(self);
            lemma_counts_dom(self.cards@);
        }
        let ghost m = self.cards@;
        let mut r: Vec<(u32, usize)> = Vec::new();
        for (k, v) in it: self.cards.iter()
            invariant
                m == self.cards@,
                r@.len() == it.index(),
                it.seq().len() == m.dom().len(),
                it.seq().no_duplicates(),
                forall|i: int| 0 <= i < r@.len() ==> r@[i] == (*it.seq()[i].0, *it.seq()[i].1),
                forall|i: int|
                    0 <= i < r@.len() ==> #[trigger] m.contains_key(r@[i].0) && m[r@[i].0]
                        == r@[i].1,
                forall|i: int, j: int|
                    0 <= i < j < r@.len() ==> #[trigger] r@[i].0 != #[trigger] r@[j].0,
        {
            proof {
                let n = r@.len() as int;
                assert(it.index() == n);
                assert(m.contains_key(*k));
                assert(*it.seq()[n].0 == *k);
                assert forall|i: int| 0 <= i < n implies #[trigger] r@[i].0 != *k by {
                    if r@[i].0 == *k {
                        assert(it.seq()[i] == it.seq()[n]);
                    }
                }
            }
            r.push((*k, *v));
        }
        proof {
            assert forall|i: int| 0 <= i < r@.len() implies #[trigger] r@[i].1 > 0 by {
                assert(m.contains_key(r@[i].0));
            }
            assert(entries_wf(r@));
            lemma_entries_count(r@);
            lemma_entries_dom(r@);
            let ks = entries_keys(r@);
            assert(ks.to_set().subset_of(m.dom())) by {
                assert forall|k: u32| ks.to_set().contains(k) implies m.dom().contains(k) by {
                    assert(ks.contains(k));
                    let i = choose|i: int| 0 <= i < ks.len() && ks[i] == k;
                    assert(r@[i].0 == k);
                }
            }
            assert forall|k: u32| #[trigger] entries_multiset(r@).count(k) == self@.count(k) by {
                let a = lemma_entries_count_of(r@, k);
                if a == -1 && m.dom().contains(k) {
                    lemma_dom_subset_len(ks.to_set(), m.dom(), k);
                    assert(ks.contains(k));
                    let i = choose|i: int| 0 <= i < ks.len() && ks[i] == k;
                    assert(r@[i].0 == k);
                }
            }
            assert(entries_multiset(r@) =~= self@);
        }
        r
    }

    /// Builds a [`Cards`] holding each card type in the list once per occurrence.
    pub fn from_slice(card_types: &[u32]) -> (r: Cards)
        requires
            card_types@.len() <= usize::MAX,
        ensures
            r@ == card_types@.to_multiset(),
    {
        let mut cards = Cards::new();
        let mut i: usize = 0;
        while i < card_types.len()
            invariant
                i <= card_types@.len(),
                cards@ == card_types@.subrange(0, i as int).to_multiset(),
                cards@.len() == i,
            decreases card_types@.len() - i,
        {
            assert(card_types@.subrange(0, i + 1) == card_types@.subrange(0, i as int).push(
                card_types@[i as int],
            ));
            assert(card_types@.subrange(0, i as int).push(card_types@[i as int]).to_multiset()
                =~= card_types@.subrange(0, i as int).to_multiset().insert(card_types@[i as int]));
            cards.add_one(card_types[i]);
            i += 1;
        }
        assert(card_types@.subrange(0, i as int) == card_types@);
        cards
    }

    /// Lists every card, with repetitions, in no particular order.
    pub fn to_list(&self) -> (r: Vec<u32>)
        ensures
            r@.to_multiset() == self@,
            r@.len() == self@.len(),
    {
        let entries = self.iter();
        proof {
            lemma_entries_count(entries@);
        }
        let mut r: Vec<u32> = Vec::new();
        let mut i: usize = 0;
        while i < entries.len()
            invariant
                i <= entries@.len(),
                r@.to_multiset() == entries_multiset(entries@.subrange(0, i as int)),
                entries_wf(entries@),
            decreases entries@.len() - i,
        {
            let (t, c) = entries[i];
            let ghost before = r@;
            let mut j: usize = 0;
            while j < c
                invariant
                    j <= c,
                    r@.to_multiset() == before.to_multiset().add(copies(t, j as nat)),
                decreases c - j,
            {
                let ghost r0 = r@;
                r.push(t);
                j += 1;
                assert(r0.push(t).to_multiset() =~= r0.to_multiset().insert(t));
                assert(r@.to_multiset() =~= before.to_multiset().add(copies(t, j as nat)));
            }
            assert(entries@.subrange(0, i + 1).drop_last() == entries@.subrange(0, i as int));
            i += 1;
        }
        assert(entries@.subrange(0, i as int) == entries@);
        r
    }

    /// Returns whether the two [`Cards`] hold the same cards.
    pub fn same_cards(&self, other: &Cards) -> (r: bool)
        ensures
            r == (self@ == other@),
    {
        if self.count_unique() != other.count_unique() {
            return false;
        }
        let entries = self.iter();
        proof {
            lemma_entries_count(entries@);
        }
        let mut i: usize = 0;
        while i < entries.len()
            invariant
                i <= entries@.len(),
                entries@.len() == self@.dom().len(),
                self@.dom().len() == other@.dom().len(),
                entries_wf(entries@),
                entries_multiset(entries@) == self@,
                forall|j: int| 0 <= j < i ==> #[trigger] other@.count(entries@[j].0)
                    == entries@[j].1,
                forall|j: int|
                    0 <= j < entries@.len() ==> #[trigger] self@.count(entries@[j].0)
                        == entries@[j].1,
            decreases entries@.len() - i,
        {
            let (t, c) = entries[i];
            if other.count_of(t) != c {
                return false;
            }
            i += 1;
        }
        proof {
            // every type of `self` has the same count in `other`; the domains have equal size,
            // so `other` holds nothing else
            assert(self@.dom().subset_of(other@.dom())) by {
                assert forall|v: u32| self@.dom().contains(v) implies other@.dom().contains(v) by {
                    let a = lemma_entries_count_of(entries@, v);
                }
            }
            assert forall|v: u32| #[trigger] self@.count(v) == other@.count(v) by {
                let a = lemma_entries_count_of(entries@, v);
                if a == -1 {
                    if other@.count(v) > 0 {
                        lemma_dom_subset_len(self@.dom(), other@.dom(), v);
                    }
                }
            }
            assert(self@ =~= other@);
        }
        true
    }

    /// Draws (up to) `n` random cards from this [`Cards`].
    /// Returns the updated [`Cards`], and the drawn [`Cards`].
    pub fn draw_random(&self, n: usize) -> (r: (Cards, Cards))
        ensures
            r.0@.add(r.1@) == self@,
            r.1@.len() == if n < self@.len() {
                n as nat
            } else {
                self@.len()
            },
    {
        // create a list of all the cards, with repetitions
        let mut card_list = self.to_list();
        if n >= card_list.len() {
            // we're drawing as many cards as we have or more, so just draw all
            let all = self.clone();
            assert(Multiset::<u32>::empty().add(all@) =~= self@);
            return (Cards::new(), all);
        }
        // pick `n` cards at random (the partial shuffle moves them to the end of the list) and
        // split them off
        crate::cards::draws::partial_shuffle(&mut card_list, n);
        let keep = card_list.len() - n;
        let (rest, drawn) = split_at(&card_list, keep);
        proof {
            vstd::seq_lib::lemma_multiset_commutative(rest@, drawn@);
            assert(rest@ + drawn@ == card_list@);
        }
        (Cards::from_slice(rest.as_slice()), Cards::from_slice(drawn.as_slice()))
    }
    /// Returns an enumeration of the possible unique draws of `n` cards (or of all cards, if
    /// there are fewer) from the [`Cards`]; see [`Draws`].
    pub fn enumerate_draws(&self, n: usize) -> (r: Draws)
        requires
            self@.len() <= usize::MAX,
            spec_binomial_fits(self@.len(), n as nat),
        ensures
            r.wf(),
            r.deck() == self@,
            r.draw_size() == if n < self@.len() {
                n as nat
            } else {
                self@.len()
            },
            r.position() == 0,
    {
        Draws::new(self, n)
    }
}

/// Splits a list into its first `n` items and the rest.
fn split_at(v: &Vec<u32>, n: usize) -> (r: (Vec<u32>, Vec<u32>))
    requires
        n <= v@.len(),
    ensures
        r.0@ == v@.subrange(0, n as int),
        r.1@ == v@.subrange(n as int, v@.len() as int),
{
    let mut a: Vec<u32> = Vec::new();
    let mut b: Vec<u32> = Vec::new();
    let mut i: usize = 0;
    while i < v.len()
        invariant
            i <= v@.len(),
            n <= v@.len(),
            a@ == v@.subrange(0, if i < n { i as int } else { n as int }),
            b@ == if i < n { Seq::empty() } else { v@.subrange(n as int, i as int) },
        decreases v@.len() - i,
    {
        if i < n {
            a.push(v[i]);
        } else {
            b.push(v[i]);
        }
        i += 1;
    }
    (a, b)
}

/// A finite subset of a finite set, with as many elements, holds all of its elements.
proof fn lemma_dom_subset_len(a: Set<u32>, b: Set<u32>, v: u32)
    requires
        a.finite(),
        b.finite(),
        a.len() == b.len(),
        a.subset_of(b),
        b.contains(v),
    ensures
        a.contains(v),
{
    if !a.contains(v) {
        vstd::set_lib::lemma_len_subset(a.insert(v), b);
    }
}

/// The total of a prefix of the entries is at most the total of all of them.
proof fn lemma_total_prefix_le(s: Seq<(u32, usize)>, k: int)
    requires
        0 <= k <= s.len(),
    ensures
        entries_total(s.subrange(0, k)) <= entries_total(s),
    decreases s.len(),
{
    if k < s.len() {
        assert(s.drop_last().subrange(0, k) == s.subrange(0, k));
        lemma_total_prefix_le(s.drop_last(), k);
    } else {
        assert(s.subrange(0, k) == s);
    }
}

impl Clone for Cards {
    fn clone(&self) -> (r: Cards)
        ensures
            r@ == self@,
    {
        proof {
            use_type_invariant(self);
        }
        Cards { cards: self.cards.clone() }
    }
}

impl Default for Cards {
    fn default() -> (r: Cards)
        ensures
            r@ == Multiset::<u32>::empty(),
    {
        Cards::new()
    }
}

} // verus!
