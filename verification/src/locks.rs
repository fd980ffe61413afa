//! The order in which a shared change takes the locks of the VMs it
//! touches: each VM once, in ascending order of id, so that two changes
//! never wait for each other.
use crate::seed::{
    TextOrder, lemma_text_less_total, lemma_text_less_transitive, order_of, text_less,
};
use crate::text::{chars_of, texts};
use vstd::prelude::*;

verus! {

pub open spec fn strictly_ascending(s: Seq<Seq<char>>) -> bool {
    forall|i: int, j: int| 0 <= i < j < s.len() ==> text_less(#[trigger] s[i], #[trigger] s[j])
}

/// Inserts `id` into the ascending `order`, unless it is there already.
fn insert_ordered(order: &mut Vec<String>, id: &String)
    requires
        strictly_ascending(texts(old(order)@)),
    ensures
        strictly_ascending(texts(final(order)@)),
        forall|x: Seq<char>| #[trigger] texts(final(order)@).contains(x) <==> (texts(
            old(order)@,
        ).contains(x) || x == id@),
{
    let ghost before = texts(order@);
    let c = chars_of(id.as_str());
    let mut k: usize = 0;
    while k < order.len()
        invariant
            k <= order.len(),
            order@ == old(order)@,
            before == texts(order@),
            c@ == id@,
            strictly_ascending(before),
            forall|j: int| 0 <= j < k ==> text_less(#[trigger] before[j], id@),
        ensures
            k <= order.len(),
            order@ == old(order)@,
            before == texts(order@),
            forall|j: int| 0 <= j < k ==> text_less(#[trigger] before[j], id@),
            k < order.len() ==> text_less(id@, before[k as int]),
        decreases order.len() - k,
    {
        let o = order_of(&chars_of(order[k].as_str()), &c);
        assert(before[k as int] == order@[k as int]@);
        match o {
            TextOrder::Less => {},
            TextOrder::Equal => {
                assert(before.contains(id@)) by {
                    assert(before[k as int] == id@);
                }
                return;
            },
            TextOrder::Greater => {
                break;
            },
        }
        k += 1;
    }
    order.insert(k, id.clone());
    let ghost after = texts(order@);
    assert(after =~= before.insert(k as int, id@));
    proof {
        assert forall|i: int, j: int| 0 <= i < j < after.len() implies text_less(
            #[trigger] after[i],
            #[trigger] after[j],
        ) by {
            if j < k {
                assert(after[i] == before[i] && after[j] == before[j]);
            } else if j == k {
                assert(after[i] == before[i]);
            } else if i == k {
                assert(after[j] == before[j - 1]);
                if j - 1 > k {
                    lemma_text_less_transitive(id@, before[k as int], before[j - 1]);
                }
            } else if i < k {
                assert(after[i] == before[i] && after[j] == before[j - 1]);
            } else {
                assert(after[i] == before[i - 1] && after[j] == before[j - 1]);
            }
        }
        assert forall|x: Seq<char>| #[trigger] after.contains(x) <==> (before.contains(x) || x
            == id@) by {
            if after.contains(x) {
                let i = choose|i: int| 0 <= i < after.len() && after[i] == x;
                if i < k {
                    assert(before[i] == x);
                } else if i > k {
                    assert(before[i - 1] == x);
                }
            }
            if before.contains(x) {
                let i = choose|i: int| 0 <= i < before.len() && before[i] == x;
                if i < k {
                    assert(after[i] == x);
                } else {
                    assert(after[i + 1] == x);
                }
            }
            if x == id@ {
                assert(after[k as int] == x);
            }
        }
    }
}

/// The VM ids whose locks a shared change takes, in the order it takes
/// them: every id of `ids` once, in strictly ascending order.
pub fn lock_order(ids: &[String]) -> (r: Vec<String>)
    ensures
        strictly_ascending(texts(r@)),
        forall|x: Seq<char>| #[trigger] texts(r@).contains(x) <==> texts(ids@).contains(x),
{
    let mut order: Vec<String> = Vec::new();
    let mut i: usize = 0;
    assert(texts(order@) =~= Seq::<Seq<char>>::empty());
    while i < ids.len()
        invariant
            i <= ids.len(),
            strictly_ascending(texts(order@)),
            forall|x: Seq<char>| #[trigger] texts(order@).contains(x) <==> texts(ids@).take(
                i as int,
            ).contains(x),
        decreases ids.len() - i,
    {
        insert_ordered(&mut order, &ids[i]);
        assert(texts(ids@).take(i + 1) =~= texts(ids@).take(i as int).push(ids@[i as int]@));
        assert forall|x: Seq<char>| #[trigger] texts(order@).contains(x) <==> texts(ids@).take(
            i + 1,
        ).contains(x) by {
            vstd::seq_lib::lemma_seq_contains_after_push(
                texts(ids@).take(i as int),
                ids@[i as int]@,
                x,
            );
        }
        i += 1;
    }
    assert(texts(ids@).take(i as int) =~= texts(ids@));
    order
}

/// Locks taken in this order are taken once each: no id repeats.
pub proof fn lemma_lock_order_has_no_repeats(order: Seq<Seq<char>>)
    requires
        strictly_ascending(order),
    ensures
        order.no_duplicates(),
{
    assert forall|i: int, j: int| 0 <= i < order.len() && 0 <= j < order.len() && i != j implies order[i]
        != order[j] by {
        if i < j {
            lemma_text_less_total(order[i], order[j]);
        } else {
            lemma_text_less_total(order[j], order[i]);
        }
    }
}

} // verus!
