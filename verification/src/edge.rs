//! Rising-edge detection: comparing one device snapshot with the next and
//! keeping exactly the labels that have just become pressed.

use crate::freq::occurrences;
use vstd::prelude::*;

verus! {

/// The labels of `curr` that are absent from `prev`, in `curr`'s order: the
/// presses that this sample makes visible. A label held across both
/// snapshots produces nothing; one released and pressed again between the
/// two snapshots is a single edge, since only presence is observed.
pub open spec fn rising_edges(prev: Seq<Seq<char>>, curr: Seq<Seq<char>>) -> Seq<Seq<char>>
    decreases curr.len(),
{
    if curr.len() == 0 {
        Seq::empty()
    } else {
        (if prev.contains(curr.first()) {
            Seq::empty()
        } else {
            seq![curr.first()]
        }) + rising_edges(prev, curr.drop_first())
    }
}

/// Extending the current snapshot extends the edges at the end.
pub proof fn lemma_rising_push(prev: Seq<Seq<char>>, curr: Seq<Seq<char>>, k: Seq<char>)
    ensures
        rising_edges(prev, curr.push(k)) == rising_edges(prev, curr) + (if prev.contains(k) {
            Seq::<Seq<char>>::empty()
        } else {
            seq![k]
        }),
    decreases curr.len(),
{
    if curr.len() == 0 {
        assert(curr.push(k).first() == k);
        assert(curr.push(k).drop_first() =~= Seq::<Seq<char>>::empty());
        assert(curr =~= Seq::<Seq<char>>::empty());
        assert(rising_edges(prev, Seq::<Seq<char>>::empty()) =~= Seq::<Seq<char>>::empty());
        if prev.contains(k) {
            assert(rising_edges(prev, curr.push(k)) =~= rising_edges(prev, curr) + Seq::<
                Seq<char>,
            >::empty());
        } else {
            assert(rising_edges(prev, curr.push(k)) =~= rising_edges(prev, curr) + seq![k]);
        }
    } else {
        assert(curr.push(k).first() == curr.first());
        assert(curr.push(k).drop_first() =~= curr.drop_first().push(k));
        lemma_rising_push(prev, curr.drop_first(), k);
        if prev.contains(curr.first()) {
            assert(rising_edges(prev, curr.push(k)) =~= rising_edges(prev, curr.drop_first().push(
                k,
            )));
            assert(rising_edges(prev, curr) =~= rising_edges(prev, curr.drop_first()));
        } else {
            assert(rising_edges(prev, curr.push(k)) =~= seq![curr.first()] + rising_edges(
                prev,
                curr.drop_first().push(k),
            ));
            assert(rising_edges(prev, curr) =~= seq![curr.first()] + rising_edges(
                prev,
                curr.drop_first(),
            ));
        }
        if prev.contains(k) {
            assert(rising_edges(prev, curr.push(k)) =~= rising_edges(prev, curr) + Seq::<
                Seq<char>,
            >::empty());
        } else {
            assert(rising_edges(prev, curr.push(k)) =~= rising_edges(prev, curr) + seq![k]);
        }
    }
}

/// A sample never yields more edges than the snapshot has labels.
pub proof fn lemma_rising_len(prev: Seq<Seq<char>>, curr: Seq<Seq<char>>)
    ensures
        rising_edges(prev, curr).len() <= curr.len(),
    decreases curr.len(),
{
    if curr.len() > 0 {
        lemma_rising_len(prev, curr.drop_first());
    }
}

/// How often a label fires in one sample: never when the previous snapshot
/// already held it, else exactly as often as the current snapshot lists it.
pub proof fn lemma_rising_count(prev: Seq<Seq<char>>, curr: Seq<Seq<char>>, k: Seq<char>)
    ensures
        occurrences(rising_edges(prev, curr), k) == (if prev.contains(k) {
            0int
        } else {
            occurrences(curr, k)
        }),
    decreases curr.len(),
{
    if curr.len() == 0 {
    } else {
        lemma_rising_count(prev, curr.drop_first(), k);
        let rest = rising_edges(prev, curr.drop_first());
        if prev.contains(curr.first()) {
            assert(rising_edges(prev, curr) =~= rest);
        } else {
            assert(rising_edges(prev, curr).first() == curr.first());
            assert(rising_edges(prev, curr).drop_first() =~= rest);
        }
    }
}

/// A key held across both snapshots contributes no event.
pub proof fn lemma_held_key_no_event(prev: Seq<Seq<char>>, curr: Seq<Seq<char>>, k: Seq<char>)
    requires
        prev.contains(k),
    ensures
        occurrences(rising_edges(prev, curr), k) == 0,
{
    lemma_rising_count(prev, curr, k);
}

/// A key absent before and listed once now contributes exactly one event.
pub proof fn lemma_new_key_one_event(prev: Seq<Seq<char>>, curr: Seq<Seq<char>>, k: Seq<char>)
    requires
        !prev.contains(k),
        occurrences(curr, k) == 1,
    ensures
        occurrences(rising_edges(prev, curr), k) == 1,
{
    lemma_rising_count(prev, curr, k);
}

/// Whether some label of `hay` reads as `needle`.
fn contains_label(hay: &Vec<String>, needle: &String) -> (r: bool)
    ensures
        r == hay.deep_view().contains(needle@),
{
    let n = hay.len();
    let mut i: usize = 0;
    while i < n
        invariant
            n == hay.len(),
            0 <= i <= n,
            forall|j: int| 0 <= j < i ==> hay.deep_view()[j] != needle@,
        decreases n - i,
    {
        if hay[i] == *needle {
            proof {
                assert(hay.deep_view()[i as int] == needle@);
            }
            return true;
        }
        i = i + 1;
    }
    proof {
        assert(!hay.deep_view().contains(needle@));
    }
    false
}

/// The labels of `curr` that are absent from `prev`, in `curr`'s order.
pub fn newly_pressed(prev: &Vec<String>, curr: &Vec<String>) -> (out: Vec<String>)
    ensures
        out.deep_view() == rising_edges(prev.deep_view(), curr.deep_view()),
{
    let n = curr.len();
    let mut out: Vec<String> = Vec::new();
    let mut i: usize = 0;
    while i < n
        invariant
            n == curr.len(),
            0 <= i <= n,
            out.deep_view() == rising_edges(prev.deep_view(), curr.deep_view().take(i as int)),
        decreases n - i,
    {
        let ghost pre = out.deep_view();
        let is_old = contains_label(prev, &curr[i]);
        if !is_old {
            out.push(curr[i].clone());
            proof {
                assert(out.deep_view() =~= pre.push(curr.deep_view()[i as int]));
            }
        }
        proof {
            lemma_rising_push(
                prev.deep_view(),
                curr.deep_view().take(i as int),
                curr.deep_view()[i as int],
            );
            assert(curr.deep_view().take(i + 1) =~= curr.deep_view().take(i as int).push(
                curr.deep_view()[i as int],
            ));
            if is_old {
                assert(out.deep_view() =~= rising_edges(
                    prev.deep_view(),
                    curr.deep_view().take(i + 1),
                ));
            } else {
                assert(out.deep_view() =~= rising_edges(
                    prev.deep_view(),
                    curr.deep_view().take(i + 1),
                ));
            }
        }
        i = i + 1;
    }
    proof {
        assert(curr.deep_view().take(n as int) =~= curr.deep_view());
    }
    out
}

} // verus!
