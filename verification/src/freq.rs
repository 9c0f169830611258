//! Frequency tables: insertion-ordered label/count pairs with distinct
//! labels, the store behind per-key and per-button statistics.

use vstd::prelude::*;

verus! {

/// One observed label together with how many times it has been seen.
pub struct LabelCount {
    pub label: String,
    pub count: u64,
}

/// A frequency table: labels in first-seen order, each with a positive count.
pub struct FreqTable {
    entries: Vec<LabelCount>,
}

/// The mathematical content of a run of entries: each label's characters with
/// its count, in the entries' order.
pub open spec fn entry_views(es: Seq<LabelCount>) -> Seq<(Seq<char>, u64)> {
    es.map_values(|e: LabelCount| (e.label@, e.count))
}

impl View for FreqTable {
    type V = Seq<(Seq<char>, u64)>;

    closed spec fn view(&self) -> Seq<(Seq<char>, u64)> {
        entry_views(self.entries@)
    }
}

/// The sum of all counts in the table.
pub open spec fn table_total(t: Seq<(Seq<char>, u64)>) -> int
    decreases t.len(),
{
    if t.len() == 0 {
        0
    } else {
        t.first().1 + table_total(t.drop_first())
    }
}

/// The count recorded for `l`: the sum of the counts of every entry whose
/// label is `l` (with distinct labels, the one entry's count, or zero).
pub open spec fn count_of(t: Seq<(Seq<char>, u64)>, l: Seq<char>) -> int
    decreases t.len(),
{
    if t.len() == 0 {
        0
    } else {
        (if t.first().0 == l {
            t.first().1 as int
        } else {
            0
        }) + count_of(t.drop_first(), l)
    }
}

/// Whether some entry carries the label `l`.
pub open spec fn has_label(t: Seq<(Seq<char>, u64)>, l: Seq<char>) -> bool {
    exists|i: int| 0 <= i < t.len() && t[i].0 == l
}

/// Well-formedness: labels are pairwise distinct and every count is positive.
pub open spec fn table_wf(t: Seq<(Seq<char>, u64)>) -> bool {
    &&& forall|i: int, j: int| 0 <= i < j < t.len() ==> t[i].0 != t[j].0
    &&& forall|i: int| 0 <= i < t.len() ==> t[i].1 >= 1
}

/// One observation of `l`: the first entry for `l` counts one more; a label
/// never seen before enters at the end with count one.
pub open spec fn bump(t: Seq<(Seq<char>, u64)>, l: Seq<char>) -> Seq<(Seq<char>, u64)>
    decreases t.len(),
{
    if t.len() == 0 {
        seq![(l, 1u64)]
    } else if t.first().0 == l {
        seq![(t.first().0, (t.first().1 + 1) as u64)] + t.drop_first()
    } else {
        seq![t.first()] + bump(t.drop_first(), l)
    }
}

/// A table's total is never negative.
pub proof fn lemma_total_nonneg(t: Seq<(Seq<char>, u64)>)
    ensures
        table_total(t) >= 0,
    decreases t.len(),
{
    if t.len() > 0 {
        lemma_total_nonneg(t.drop_first());
    }
}

/// Every single count is bounded by the table's total.
pub proof fn lemma_entry_le_total(t: Seq<(Seq<char>, u64)>, i: int)
    requires
        0 <= i < t.len(),
    ensures
        t[i].1 <= table_total(t),
    decreases t.len(),
{
    if i == 0 {
        lemma_total_nonneg(t.drop_first());
    } else {
        lemma_entry_le_total(t.drop_first(), i - 1);
    }
}

/// Observing `l` raises the count of `l` by one and touches no other label.
pub proof fn lemma_count_bump(t: Seq<(Seq<char>, u64)>, l: Seq<char>, m: Seq<char>)
    requires
        table_total(t) < u64::MAX,
    ensures
        count_of(bump(t, l), m) == count_of(t, m) + (if m == l {
            1int
        } else {
            0int
        }),
    decreases t.len(),
{
    lemma_total_nonneg(t);
    if t.len() == 0 {
        assert(bump(t, l) =~= seq![(l, 1u64)]);
        assert(bump(t, l).drop_first() =~= Seq::<(Seq<char>, u64)>::empty());
        assert(count_of(Seq::<(Seq<char>, u64)>::empty(), m) == 0);
    } else if t.first().0 == l {
        lemma_entry_le_total(t, 0);
        assert(bump(t, l).drop_first() =~= t.drop_first());
        assert(bump(t, l).first().1 == t.first().1 + 1);
        assert(count_of(t, m) == (if t.first().0 == m {
            t.first().1 as int
        } else {
            0int
        }) + count_of(t.drop_first(), m));
    } else {
        lemma_total_nonneg(t.drop_first());
        lemma_count_bump(t.drop_first(), l, m);
        assert(bump(t, l).drop_first() =~= bump(t.drop_first(), l));
        assert(bump(t, l).first() == t.first());
        assert(count_of(t, m) == (if t.first().0 == m {
            t.first().1 as int
        } else {
            0int
        }) + count_of(t.drop_first(), m));
    }
}

/// Observing one label raises the table's total by exactly one.
pub proof fn lemma_total_bump(t: Seq<(Seq<char>, u64)>, l: Seq<char>)
    requires
        table_total(t) < u64::MAX,
    ensures
        table_total(bump(t, l)) == table_total(t) + 1,
    decreases t.len(),
{
    if t.len() == 0 {
        assert(bump(t, l).drop_first() =~= Seq::<(Seq<char>, u64)>::empty());
        assert(table_total(Seq::<(Seq<char>, u64)>::empty()) == 0);
    } else if t.first().0 == l {
        lemma_entry_le_total(t, 0);
        lemma_total_nonneg(t.drop_first());
        assert(bump(t, l).drop_first() =~= t.drop_first());
    } else {
        lemma_total_nonneg(t.drop_first());
        lemma_total_bump(t.drop_first(), l);
        assert(bump(t, l).drop_first() =~= bump(t.drop_first(), l));
    }
}

/// After an observation of `l`, a label is present iff it was present before
/// or it is `l` itself.
pub proof fn lemma_bump_label(t: Seq<(Seq<char>, u64)>, l: Seq<char>, m: Seq<char>)
    ensures
        has_label(bump(t, l), m) <==> (has_label(t, m) || m == l),
    decreases t.len(),
{
    if t.len() == 0 {
        assert(bump(t, l)[0].0 == l);
        if has_label(bump(t, l), m) {
            let i = choose|i: int| 0 <= i < bump(t, l).len() && bump(t, l)[i].0 == m;
            assert(i == 0);
        }
    } else if t.first().0 == l {
        if has_label(t, m) {
            let i = choose|i: int| 0 <= i < t.len() && t[i].0 == m;
            assert(bump(t, l)[i].0 == m);
        }
        if m == l {
            assert(bump(t, l)[0].0 == m);
        }
        if has_label(bump(t, l), m) {
            let i = choose|i: int| 0 <= i < bump(t, l).len() && bump(t, l)[i].0 == m;
            assert(t[i].0 == m);
        }
    } else {
        lemma_bump_label(t.drop_first(), l, m);
        if has_label(t, m) {
            let i = choose|i: int| 0 <= i < t.len() && t[i].0 == m;
            if i == 0 {
                assert(bump(t, l)[0].0 == m);
            } else {
                assert(t.drop_first()[i - 1].0 == m);
                assert(has_label(t.drop_first(), m));
                let j = choose|j: int|
                    0 <= j < bump(t.drop_first(), l).len() && bump(t.drop_first(), l)[j].0 == m;
                assert(bump(t, l)[j + 1].0 == m);
            }
        }
        if m == l {
            let j = choose|j: int|
                0 <= j < bump(t.drop_first(), l).len() && bump(t.drop_first(), l)[j].0 == m;
            assert(bump(t, l)[j + 1].0 == m);
        }
        if has_label(bump(t, l), m) {
            let i = choose|i: int| 0 <= i < bump(t, l).len() && bump(t, l)[i].0 == m;
            if i == 0 {
                assert(t[0].0 == m);
            } else {
                assert(bump(t.drop_first(), l)[i - 1].0 == m);
                assert(has_label(bump(t.drop_first(), l), m));
                if has_label(t.drop_first(), m) {
                    let j = choose|j: int|
                        0 <= j < t.drop_first().len() && t.drop_first()[j].0 == m;
                    assert(t[j + 1].0 == m);
                }
            }
        }
    }
}

/// An observation keeps the table well formed.
pub proof fn lemma_wf_bump(t: Seq<(Seq<char>, u64)>, l: Seq<char>)
    requires
        table_wf(t),
        table_total(t) < u64::MAX,
    ensures
        table_wf(bump(t, l)),
    decreases t.len(),
{
    if t.len() == 0 {
    } else if t.first().0 == l {
        lemma_entry_le_total(t, 0);
        lemma_total_nonneg(t.drop_first());
        assert forall|i: int, j: int|
            0 <= i < j < bump(t, l).len() implies bump(t, l)[i].0 != bump(t, l)[j].0 by {
            assert(bump(t, l)[i].0 == t[i].0);
            assert(bump(t, l)[j].0 == t[j].0);
        }
    } else {
        assert(table_wf(t.drop_first())) by {
            assert(forall|i: int, j: int|
                0 <= i < j < t.drop_first().len() ==> t.drop_first()[i].0 == t[i + 1].0
                    && t.drop_first()[j].0 == t[j + 1].0);
        }
        lemma_total_nonneg(t.drop_first());
        lemma_wf_bump(t.drop_first(), l);
        assert(!has_label(t.drop_first(), t.first().0)) by {
            if has_label(t.drop_first(), t.first().0) {
                let j = choose|j: int|
                    0 <= j < t.drop_first().len() && t.drop_first()[j].0 == t.first().0;
                assert(t[j + 1].0 == t[0].0);
            }
        }
        lemma_bump_label(t.drop_first(), l, t.first().0);
        assert(!has_label(bump(t.drop_first(), l), t.first().0));
        assert forall|i: int, j: int|
            0 <= i < j < bump(t, l).len() implies bump(t, l)[i].0 != bump(t, l)[j].0 by {
            if i == 0 {
                assert(bump(t, l)[j].0 == bump(t.drop_first(), l)[j - 1].0);
                assert(has_label(bump(t.drop_first(), l), bump(t, l)[j].0));
            } else {
                assert(bump(t, l)[i].0 == bump(t.drop_first(), l)[i - 1].0);
                assert(bump(t, l)[j].0 == bump(t.drop_first(), l)[j - 1].0);
            }
        }
        assert forall|i: int| 0 <= i < bump(t, l).len() implies bump(t, l)[i].1 >= 1 by {
            if i > 0 {
                assert(bump(t, l)[i].1 == bump(t.drop_first(), l)[i - 1].1);
            }
        }
    }
}

/// When the first entry for `l` stands at position `i`, the observation is an
/// in-place update there.
pub proof fn lemma_bump_found(t: Seq<(Seq<char>, u64)>, l: Seq<char>, i: int)
    requires
        0 <= i < t.len(),
        t[i].0 == l,
        forall|j: int| 0 <= j < i ==> t[j].0 != l,
    ensures
        bump(t, l) =~= t.update(i, (l, (t[i].1 + 1) as u64)),
    decreases t.len(),
{
    if i == 0 {
    } else {
        assert(forall|j: int| 0 <= j < i - 1 ==> t.drop_first()[j].0 == t[j + 1].0);
        lemma_bump_found(t.drop_first(), l, i - 1);
    }
}

/// When no entry carries `l`, the observation appends a fresh entry.
pub proof fn lemma_bump_absent(t: Seq<(Seq<char>, u64)>, l: Seq<char>)
    requires
        forall|j: int| 0 <= j < t.len() ==> t[j].0 != l,
    ensures
        bump(t, l) =~= t.push((l, 1u64)),
    decreases t.len(),
{
    if t.len() > 0 {
        assert(forall|j: int| 0 <= j < t.drop_first().len() ==> t.drop_first()[j].0 == t[j + 1].0);
        lemma_bump_absent(t.drop_first(), l);
    }
}

/// With distinct labels, the count of the label at `i` is that entry's count.
pub proof fn lemma_count_at(t: Seq<(Seq<char>, u64)>, i: int)
    requires
        table_wf(t),
        0 <= i < t.len(),
    ensures
        count_of(t, t[i].0) == t[i].1,
    decreases t.len(),
{
    if i == 0 {
        assert(forall|j: int|
            0 <= j < t.drop_first().len() ==> t.drop_first()[j].0 == t[j + 1].0);
        lemma_count_absent(t.drop_first(), t[0].0);
    } else {
        assert(table_wf(t.drop_first())) by {
            assert(forall|p: int, q: int|
                0 <= p < q < t.drop_first().len() ==> t.drop_first()[p].0 == t[p + 1].0
                    && t.drop_first()[q].0 == t[q + 1].0);
        }
        assert(t.drop_first()[i - 1] == t[i]);
        lemma_count_at(t.drop_first(), i - 1);
    }
}

/// A label no entry carries has count zero.
pub proof fn lemma_count_absent(t: Seq<(Seq<char>, u64)>, l: Seq<char>)
    requires
        forall|j: int| 0 <= j < t.len() ==> t[j].0 != l,
    ensures
        count_of(t, l) == 0,
    decreases t.len(),
{
    if t.len() > 0 {
        assert(forall|j: int| 0 <= j < t.drop_first().len() ==> t.drop_first()[j].0 == t[j + 1].0);
        lemma_count_absent(t.drop_first(), l);
    }
}

/// How many entries of `s` equal `x`.
pub open spec fn occurrences(s: Seq<Seq<char>>, x: Seq<char>) -> int
    decreases s.len(),
{
    if s.len() == 0 {
        0
    } else {
        (if s.first() == x {
            1int
        } else {
            0int
        }) + occurrences(s.drop_first(), x)
    }
}

/// One observation of each label in `ks`, applied in order.
pub open spec fn apply_bumps(t: Seq<(Seq<char>, u64)>, ks: Seq<Seq<char>>) -> Seq<
    (Seq<char>, u64),
>
    decreases ks.len(),
{
    if ks.len() == 0 {
        t
    } else {
        apply_bumps(bump(t, ks.first()), ks.drop_first())
    }
}

/// Observing one more label is one more bump at the end of the fold.
pub proof fn lemma_apply_bumps_push(t: Seq<(Seq<char>, u64)>, ks: Seq<Seq<char>>, k: Seq<char>)
    ensures
        apply_bumps(t, ks.push(k)) == bump(apply_bumps(t, ks), k),
    decreases ks.len(),
{
    if ks.len() == 0 {
        assert(ks.push(k).first() == k);
        assert(ks.push(k).drop_first() =~= Seq::<Seq<char>>::empty());
        assert(apply_bumps(bump(t, k), Seq::<Seq<char>>::empty()) == bump(t, k));
    } else {
        assert(ks.push(k).first() == ks.first());
        assert(ks.push(k).drop_first() =~= ks.drop_first().push(k));
        lemma_apply_bumps_push(bump(t, ks.first()), ks.drop_first(), k);
    }
}

/// A run of observations raises the total by its length and each label's
/// count by the label's occurrences, and keeps the table well formed.
pub proof fn lemma_apply_bumps_props(t: Seq<(Seq<char>, u64)>, ks: Seq<Seq<char>>, k: Seq<char>)
    requires
        table_total(t) + ks.len() <= u64::MAX,
    ensures
        table_total(apply_bumps(t, ks)) == table_total(t) + ks.len(),
        count_of(apply_bumps(t, ks), k) == count_of(t, k) + occurrences(ks, k),
        table_wf(t) ==> table_wf(apply_bumps(t, ks)),
    decreases ks.len(),
{
    if ks.len() > 0 {
        lemma_total_bump(t, ks.first());
        lemma_count_bump(t, ks.first(), k);
        if table_wf(t) {
            lemma_wf_bump(t, ks.first());
        }
        lemma_apply_bumps_props(bump(t, ks.first()), ks.drop_first(), k);
    }
}

impl FreqTable {
    /// The empty table.
    pub fn new() -> (r: FreqTable)
        ensures
            r@ =~= Seq::<(Seq<char>, u64)>::empty(),
    {
        FreqTable { entries: Vec::new() }
    }

    /// How many distinct labels have been observed.
    pub fn len(&self) -> (n: usize)
        ensures
            n == self@.len(),
    {
        self.entries.len()
    }

    /// The recorded count for `label`, zero when it was never observed.
    pub fn get(&self, label: &String) -> (c: u64)
        requires
            table_wf(self@),
        ensures
            c == count_of(self@, label@),
    {
        let n = self.entries.len();
        let mut i: usize = 0;
        while i < n
            invariant
                n == self.entries.len(),
                0 <= i <= n,
                table_wf(self@),
                forall|j: int| 0 <= j < i ==> self@[j].0 != label@,
            decreases n - i,
        {
            if self.entries[i].label == *label {
                proof {
                    lemma_count_at(self@, i as int);
                }
                return self.entries[i].count;
            }
            i = i + 1;
        }
        proof {
            lemma_count_absent(self@, label@);
        }
        0
    }

    /// Record one observation of `label`.
    pub fn increment(&mut self, label: &String)
        requires
            table_total(old(self)@) < u64::MAX,
        ensures
            final(self)@ == bump(old(self)@, label@),
    {
        let n = self.entries.len();
        let mut i: usize = 0;
        while i < n
            invariant
                n == self.entries.len(),
                0 <= i <= n,
                *self == *old(self),
                table_total(self@) < u64::MAX,
                forall|j: int| 0 <= j < i ==> self@[j].0 != label@,
            decreases n - i,
        {
            if self.entries[i].label == *label {
                proof {
                    lemma_entry_le_total(self@, i as int);
                    lemma_total_nonneg(self@);
                    lemma_bump_found(self@, label@, i as int);
                }
                let c = self.entries[i].count;
                self.entries[i].count = c + 1;
                proof {
                    assert(self@ =~= bump(old(self)@, label@));
                }
                return ;
            }
            i = i + 1;
        }
        proof {
            lemma_bump_absent(self@, label@);
        }
        self.entries.push(LabelCount { label: label.clone(), count: 1 });
        proof {
            assert(self@ =~= bump(old(self)@, label@));
        }
    }

    /// An equal, independently owned copy of the table.
    pub fn duplicate(&self) -> (r: FreqTable)
        ensures
            r@ == self@,
    {
        let n = self.entries.len();
        let mut out: Vec<LabelCount> = Vec::new();
        let mut i: usize = 0;
        while i < n
            invariant
                n == self.entries.len(),
                0 <= i <= n,
                out@.len() == i,
                forall|j: int| 0 <= j < i ==> out@[j] == self.entries@[j],
            decreases n - i,
        {
            let e = &self.entries[i];
            out.push(LabelCount { label: e.label.clone(), count: e.count });
            i = i + 1;
        }
        let r = FreqTable { entries: out };
        proof {
            assert(r@ =~= self@);
        }
        r
    }
}

} // verus!
