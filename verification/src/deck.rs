//! The 53-card deck: predicates over card collections and the small
//! executable helpers the phases share for handling hands as sets.

use vstd::prelude::*;
use crate::card::Card;
use crate::card::Suit;

verus! {

/// Every card in the sequence can occur in the deck.
pub open spec fn all_valid(s: Seq<Card>) -> bool {
    forall|i: int| 0 <= i < s.len() ==> (#[trigger] s[i]).valid()
}

/// Every card of the deck occurs in the sequence.
pub open spec fn complete(s: Seq<Card>) -> bool {
    forall|c: Card| c.valid() ==> #[trigger] s.contains(c)
}

/// The sequence holds each of the 53 deck cards exactly once.
pub open spec fn is_full_deck(s: Seq<Card>) -> bool {
    &&& s.len() == 53
    &&& s.no_duplicates()
    &&& all_valid(s)
    &&& complete(s)
}

/// Pushing an element that is not yet present keeps a sequence duplicate-free.
pub proof fn lemma_no_dup_push<A>(s: Seq<A>, x: A)
    requires
        s.no_duplicates(),
        !s.contains(x),
    ensures
        s.push(x).no_duplicates(),
{
    let t = s.push(x);
    assert forall|i: int, j: int| 0 <= i < j < t.len() implies t[i] != t[j] by {
        if j == t.len() - 1 {
            assert(t[i] == s[i]);
        }
    }
}

/// Both halves of a duplicate-free concatenation are duplicate-free and share
/// no element.
pub proof fn lemma_no_dup_parts<A>(a: Seq<A>, b: Seq<A>)
    requires
        (a + b).no_duplicates(),
    ensures
        a.no_duplicates(),
        b.no_duplicates(),
        forall|x: A| !(a.contains(x) && b.contains(x)),
{
    let t = a + b;
    assert forall|i: int, j: int| 0 <= i < j < a.len() implies a[i] != a[j] by {
        assert(t[i] == a[i] && t[j] == a[j]);
    }
    assert forall|i: int, j: int| 0 <= i < j < b.len() implies b[i] != b[j] by {
        assert(t[a.len() + i] == b[i] && t[a.len() + j] == b[j]);
    }
    assert forall|x: A| a.contains(x) implies !b.contains(x) by {
        if b.contains(x) {
            let i = choose|i: int| 0 <= i < a.len() && a[i] == x;
            let j = choose|j: int| 0 <= j < b.len() && b[j] == x;
            assert(t[i] == x && t[a.len() + j] == x);
        }
    }
}

/// A sequence with the same multiset of elements as a duplicate-free one is
/// itself duplicate-free, has the same length, and holds the same elements.
pub proof fn lemma_permutation_of_no_dup<A>(a: Seq<A>, b: Seq<A>)
    requires
        a.to_multiset() == b.to_multiset(),
        a.no_duplicates(),
    ensures
        b.no_duplicates(),
        a.len() == b.len(),
        forall|x: A| a.contains(x) <==> b.contains(x),
{
    a.to_multiset_ensures();
    b.to_multiset_ensures();
    a.lemma_multiset_has_no_duplicates();
    b.lemma_multiset_has_no_duplicates_conv();
    assert forall|x: A| a.contains(x) <==> b.contains(x) by {
        assert(a.contains(x) <==> a.to_multiset().count(x) > 0);
        assert(b.contains(x) <==> b.to_multiset().count(x) > 0);
    }
}

/// Removing the first occurrence of a held card from a duplicate-free hand
/// drops exactly that card.
pub proof fn lemma_remove_value_props(s: Seq<Card>, c: Card)
    requires
        s.no_duplicates(),
        s.contains(c),
    ensures
        s.remove_value(c).len() == s.len() - 1,
        s.remove_value(c).no_duplicates(),
        !s.remove_value(c).contains(c),
        forall|d: Card| d != c ==> (s.remove_value(c).contains(d) <==> s.contains(d)),
{
    s.index_of_first_ensures(c);
    let i = s.index_of_first(c).unwrap();
    let r = s.remove(i);
    assert forall|p: int, q: int| 0 <= p < q < r.len() implies r[p] != r[q] by {
        let sp: int = if p < i { p } else { p + 1 };
        let sq: int = if q < i { q } else { q + 1 };
        assert(r[p] == s[sp] && r[q] == s[sq]);
    }
    assert forall|j: int| 0 <= j < r.len() implies r[j] != c by {
        let sj: int = if j < i { j } else { j + 1 };
        assert(r[j] == s[sj]);
        assert(s[i] == c);
    }
    assert forall|d: Card| d != c && s.contains(d) implies r.contains(d) by {
        let j = choose|j: int| 0 <= j < s.len() && s[j] == d;
        if j < i {
            assert(r[j] == d);
        } else {
            assert(j != i);
            assert(r[j - 1] == d);
        }
    }
    assert forall|d: Card| r.contains(d) implies s.contains(d) by {
        let j = choose|j: int| 0 <= j < r.len() && r[j] == d;
        let sj: int = if j < i { j } else { j + 1 };
        assert(r[j] == s[sj]);
    }
}

/// An order-preserving copy of a hand.
pub fn clone_cards(v: &Vec<Card>) -> (r: Vec<Card>)
    ensures
        r@ == v@,
{
    let mut r: Vec<Card> = Vec::new();
    let mut i: usize = 0;
    while i < v.len()
        invariant
            i <= v@.len(),
            r@ == v@.subrange(0, i as int),
        decreases v@.len() - i,
    {
        r.push(v[i]);
        assert(r@ =~= v@.subrange(0, i + 1 as int));
        i += 1;
    }
    assert(r@ =~= v@);
    r
}

/// Whether the hand holds the given card.
pub fn contains_card(v: &Vec<Card>, c: Card) -> (r: bool)
    ensures
        r == v@.contains(c),
{
    let mut i: usize = 0;
    while i < v.len()
        invariant
            i <= v@.len(),
            forall|j: int| 0 <= j < i ==> v@[j] != c,
        decreases v@.len() - i,
    {
        if v[i] == c {
            return true;
        }
        i += 1;
    }
    false
}

/// Whether the hand holds any card of the given suit.
pub open spec fn hand_has_suit(h: Seq<Card>, s: Suit) -> bool {
    exists|i: int| 0 <= i < h.len() && ((#[trigger] h[i]) matches Card::Shaped(hs, _) && hs == s)
}

pub fn contains_suit(v: &Vec<Card>, s: Suit) -> (r: bool)
    ensures
        r == hand_has_suit(v@, s),
{
    let mut i: usize = 0;
    while i < v.len()
        invariant
            i <= v@.len(),
            forall|j: int| 0 <= j < i ==> !((#[trigger] v@[j]) matches Card::Shaped(hs, _)
                && hs == s),
        decreases v@.len() - i,
    {
        match v[i] {
            Card::Shaped(hs, _) => {
                if hs == s {
                    return true;
                }
            },
            Card::Joker => {},
        }
        i += 1;
    }
    false
}

/// A copy of the hand without the first occurrence of the given card.
pub fn remove_card(v: &Vec<Card>, c: Card) -> (r: Vec<Card>)
    requires
        v@.contains(c),
    ensures
        r@ == v@.remove_value(c),
{
    proof {
        let w = choose|w: int| 0 <= w < v@.len() && v@[w] == c;
    }
    let n: usize = v.len();
    let mut i: usize = 0;
    while v[i] != c
        invariant
            v@.contains(c),
            n == v@.len(),
            0 <= i < n,
            forall|j: int| 0 <= j < i ==> v@[j] != c,
        decreases v@.len() - i,
    {
        i += 1;
        proof {
            if i == v@.len() {
                let w = choose|w: int| 0 <= w < v@.len() && v@[w] == c;
                assert(v@[w] != c);
                assert(false);
            }
        }
    }
    let mut r = clone_cards(v);
    r.remove(i);
    proof {
        v@.index_of_first_ensures(c);
        let k = v@.index_of_first(c).unwrap();
        if k < i {
            assert(v@[k] != c);
        }
        if i < k {
            assert(v@[i as int] != c);
        }
        assert(k == i);
    }
    r
}

} // verus!
