//! Sorting lists of strings into lexicographic order.

use crate::text::{is_sorted, lemma_lex_le_connected, lemma_lex_le_transitive, lex_le, str_le, texts};
use vstd::multiset::Multiset;
use vstd::prelude::*;

verus! {

/// An empty list holds nothing, also as a multiset.
proof fn lemma_empty_multiset(s: Seq<Seq<char>>)
    requires
        s.len() == 0,
    ensures
        s.to_multiset() =~= Multiset::empty(),
{
    broadcast use vstd::seq_lib::group_to_multiset_ensures;
    broadcast use vstd::multiset::group_multiset_axioms;

    assert forall|x: Seq<char>| s.to_multiset().count(x) == 0 by {
        if s.to_multiset().count(x) > 0 {
            assert(s.to_multiset().contains(x));
            assert(s.contains(x));
        }
    }
}

/// The first position of `sorted` whose element is strictly above `item`.
fn insertion_point(sorted: &Vec<String>, item: &String) -> (at: usize)
    requires
        is_sorted(texts(sorted@)),
    ensures
        at <= sorted@.len(),
        forall|i: int| 0 <= i < at ==> lex_le(#[trigger] texts(sorted@)[i], item@),
        forall|i: int| at <= i < sorted@.len() ==> lex_le(item@, #[trigger] texts(sorted@)[i]),
{
    let mut at: usize = 0;
    while at < sorted.len()
        invariant
            at <= sorted@.len(),
            is_sorted(texts(sorted@)),
            forall|i: int| 0 <= i < at ==> lex_le(#[trigger] texts(sorted@)[i], item@),
        decreases sorted@.len() - at,
    {
        if !str_le(sorted[at].as_str(), item.as_str()) {
            proof {
                let pivot = texts(sorted@)[at as int];
                lemma_lex_le_connected(pivot, item@);
                assert forall|i: int| at <= i < sorted@.len() implies lex_le(
                    item@,
                    #[trigger] texts(sorted@)[i],
                ) by {
                    if i > at {
                        lemma_lex_le_transitive(item@, pivot, texts(sorted@)[i]);
                    }
                }
            }
            return at;
        }
        at = at + 1;
    }
    at
}

/// Sorts `items` into lexicographic order; equal strings are all kept.
pub fn sort_strings(items: Vec<String>) -> (sorted: Vec<String>)
    ensures
        is_sorted(texts(sorted@)),
        texts(sorted@).to_multiset() == texts(items@).to_multiset(),
{
    let ghost all = texts(items@);
    let mut rest = items;
    let mut sorted: Vec<String> = Vec::new();
    proof {
        assert(texts(sorted@) =~= Seq::<Seq<char>>::empty());
        lemma_empty_multiset(texts(sorted@));
        assert(texts(sorted@).to_multiset().add(all.to_multiset()) =~= all.to_multiset());
    }
    while rest.len() > 0
        invariant
            is_sorted(texts(sorted@)),
            texts(sorted@).to_multiset().add(texts(rest@).to_multiset()) == all.to_multiset(),
        decreases rest@.len(),
    {
        let ghost before = texts(sorted@);
        let ghost waiting = texts(rest@);
        let item = rest.pop().unwrap();
        let at = insertion_point(&sorted, &item);
        sorted.insert(at, item);
        proof {
            let after = texts(sorted@);
            assert(after =~= before.insert(at as int, item@));
            assert(waiting =~= texts(rest@).push(item@));
            vstd::seq_lib::to_multiset_insert(before, at as int, item@);
            vstd::seq_lib::to_multiset_build(texts(rest@), item@);
            assert(after.to_multiset().add(texts(rest@).to_multiset()) =~= before.to_multiset().add(
                waiting.to_multiset(),
            ));
            assert forall|i: int, j: int| 0 <= i < j < after.len() implies lex_le(
                #[trigger] after[i],
                #[trigger] after[j],
            ) by {
                let bi = if i < at { i } else { i - 1 };
                let bj = if j < at { j } else { j - 1 };
                if i != at && j != at {
                    assert(after[i] == before[bi] && after[j] == before[bj]);
                } else if i == at {
                    assert(after[j] == before[bj]);
                } else {
                    assert(after[i] == before[bi]);
                }
            }
        }
    }
    proof {
        assert(texts(rest@) =~= Seq::<Seq<char>>::empty());
        lemma_empty_multiset(texts(rest@));
        assert(texts(sorted@).to_multiset().add(texts(rest@).to_multiset()) =~= texts(
            sorted@,
        ).to_multiset());
    }
    sorted
}

} // verus!
