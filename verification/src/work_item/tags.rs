//! Tag sets, kept as alphabetically sorted vectors without repetition.

use crate::text::{
    lemma_text_before_asymmetric, lemma_text_before_total, lemma_text_before_transitive, str_before,
    str_eq, strictly_ascending,
};
use vstd::prelude::*;

verus! {

/// The tags as texts, in the order of the vector.
pub open spec fn tag_texts(tags: Seq<String>) -> Seq<Seq<char>> {
    Seq::new(tags.len(), |i: int| tags[i]@)
}

/// The set of tags that a vector holds.
pub open spec fn tag_set(tags: Seq<String>) -> Set<Seq<char>> {
    tag_texts(tags).to_set()
}

/// Adds a tag to a sorted tag vector, at its alphabetical place; a tag
/// that is already there is not added again.
pub fn insert_tag(tags: &mut Vec<String>, tag: String)
    requires
        strictly_ascending(tag_texts(old(tags)@)),
    ensures
        strictly_ascending(tag_texts(final(tags)@)),
        tag_set(final(tags)@) == tag_set(old(tags)@).insert(tag@),
        tag_set(old(tags)@).contains(tag@) ==> tag_texts(final(tags)@) == tag_texts(old(tags)@),
{
    let ghost before = tag_texts(tags@);
    let mut place: usize = 0;
    while place < tags.len() && str_before(tags[place].as_str(), tag.as_str())
        invariant
            tags@ == old(tags)@,
            before == tag_texts(tags@),
            place <= tags@.len(),
            forall|k: int| 0 <= k < place ==> crate::text::text_before(before[k], tag@),
        decreases tags@.len() - place,
    {
        place = place + 1;
    }
    if place < tags.len() && str_eq(tags[place].as_str(), tag.as_str()) {
        proof {
            assert(before[place as int] == tag@);
            assert(before.to_set().insert(tag@) =~= before.to_set());
        }
        return ;
    }
    proof {
        assert forall|k: int| place <= k < before.len() implies crate::text::text_before(
            tag@,
            before[k],
        ) by {
            lemma_text_before_total(before[place as int], tag@);
            if k > place {
                lemma_text_before_transitive(tag@, before[place as int], before[k]);
            }
        }
        assert forall|k: int| 0 <= k < before.len() implies before[k] != tag@ by {
            if k < place {
                lemma_text_before_asymmetric(before[k], tag@);
            } else {
                lemma_text_before_asymmetric(tag@, before[k]);
            }
        }
    }
    tags.insert(place, tag);
    proof {
        let after = tag_texts(tags@);
        assert(after =~= before.insert(place as int, tag@));
        assert forall|i: int, j: int| 0 <= i < j < after.len() implies crate::text::text_before(
            after[i],
            after[j],
        ) by {
            if i < place && j > place {
                assert(crate::text::text_before(before[i], before[j - 1]));
            } else if i > place {
                assert(crate::text::text_before(before[i - 1], before[j - 1]));
            }
        }
        assert forall|text: Seq<char>| after.to_set().contains(text) <==> before.to_set().insert(
            tag@,
        ).contains(text) by {
            if after.to_set().contains(text) {
                let k = choose|k: int| 0 <= k < after.len() && after[k] == text;
                if k < place {
                    assert(before[k] == text);
                } else if k > place {
                    assert(before[k - 1] == text);
                }
            }
            if before.to_set().contains(text) {
                let k = choose|k: int| 0 <= k < before.len() && before[k] == text;
                if k < place {
                    assert(after[k] == text);
                } else {
                    assert(after[k + 1] == text);
                }
            }
            if text == tag@ {
                assert(after[place as int] == text);
            }
        }
        assert(after.to_set() =~= before.to_set().insert(tag@));
        assert(!before.to_set().contains(tag@));
    }
}

/// Sorts the tags alphabetically and drops repetitions.
pub fn normalize_tags(tags: Vec<String>) -> (sorted: Vec<String>)
    ensures
        strictly_ascending(tag_texts(sorted@)),
        tag_set(sorted@) == tag_set(tags@),
{
    let mut sorted: Vec<String> = Vec::new();
    let mut i: usize = 0;
    proof {
        assert(tag_texts(tags@.take(0)) =~= Seq::<Seq<char>>::empty());
        assert(tag_texts(sorted@) =~= Seq::<Seq<char>>::empty());
        assert(tag_set(sorted@) =~= tag_set(tags@.take(0)));
    }
    while i < tags.len()
        invariant
            i <= tags@.len(),
            strictly_ascending(tag_texts(sorted@)),
            tag_set(sorted@) == tag_set(tags@.take(i as int)),
        decreases tags@.len() - i,
    {
        let tag: String = tags[i].clone();
        proof {
            let head = tag_texts(tags@.take(i as int));
            let next = tag_texts(tags@.take(i + 1));
            assert(next =~= head.push(tags@[i as int]@));
            lemma_push_to_set(head, tags@[i as int]@);
        }
        insert_tag(&mut sorted, tag);
        i = i + 1;
    }
    proof {
        assert(tags@.take(tags@.len() as int) =~= tags@);
    }
    sorted
}

/// The set of a sequence with one more element is the set of the sequence plus that element.
pub proof fn lemma_push_to_set(texts: Seq<Seq<char>>, text: Seq<char>)
    ensures
        texts.push(text).to_set() == texts.to_set().insert(text),
{
    let pushed = texts.push(text);
    assert forall|other: Seq<char>| pushed.to_set().contains(other) <==> texts.to_set().insert(
        text,
    ).contains(other) by {
        if pushed.to_set().contains(other) {
            let k = choose|k: int| 0 <= k < pushed.len() && pushed[k] == other;
            if k < texts.len() {
                assert(texts[k] == other);
            }
        }
        if texts.to_set().contains(other) {
            let k = choose|k: int| 0 <= k < texts.len() && texts[k] == other;
            assert(pushed[k] == other);
        }
        if other == text {
            assert(pushed[texts.len() as int] == other);
        }
    }
    assert(pushed.to_set() =~= texts.to_set().insert(text));
}

/// A copy of the tag vector.
pub fn copy_tags(tags: &Vec<String>) -> (copy: Vec<String>)
    ensures
        tag_texts(copy@) == tag_texts(tags@),
{
    let mut copy: Vec<String> = Vec::new();
    let mut i: usize = 0;
    while i < tags.len()
        invariant
            i <= tags@.len(),
            copy@.len() == i,
            forall|k: int| 0 <= k < i ==> copy@[k]@ == tags@[k]@,
        decreases tags@.len() - i,
    {
        copy.push(tags[i].clone());
        i = i + 1;
    }
    proof {
        assert(tag_texts(copy@) =~= tag_texts(tags@));
    }
    copy
}

} // verus!
