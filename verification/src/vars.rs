//! The variable table: an ordered, mutable mapping from label to value.
//!
//! Labels are unique. Storing under an existing label overwrites its value in
//! place, keeping its position; storing under a new label appends. The table
//! is modelled as a sequence of (label characters, value) pairs.

use crate::value::Num;
use vstd::prelude::*;

verus! {

/// A named numeric value.
#[derive(Debug)]
pub struct Variable {
    pub label: String,
    pub value: Num,
}

/// Whether the modelled table holds an entry for `name`.
pub open spec fn tbl_has(m: Seq<(Seq<char>, Num)>, name: Seq<char>) -> bool {
    exists|i: int| 0 <= i < m.len() && m[i].0 == name
}

/// The index of the entry for `name`; meaningful when labels are unique.
pub open spec fn tbl_index(m: Seq<(Seq<char>, Num)>, name: Seq<char>) -> int {
    choose|i: int| 0 <= i < m.len() && m[i].0 == name
}

/// The value stored under `name`.
pub open spec fn tbl_value(m: Seq<(Seq<char>, Num)>, name: Seq<char>) -> Num {
    m[tbl_index(m, name)].1
}

/// The table after a store: overwrite in place when the label exists,
/// append otherwise.
pub open spec fn tbl_store(m: Seq<(Seq<char>, Num)>, name: Seq<char>, v: Num) -> Seq<
    (Seq<char>, Num),
> {
    if tbl_has(m, name) {
        m.update(tbl_index(m, name), (name, v))
    } else {
        m.push((name, v))
    }
}

/// Labels are unique within the modelled table.
pub open spec fn tbl_wf(m: Seq<(Seq<char>, Num)>) -> bool {
    forall|i: int, j: int| 0 <= i < j < m.len() ==> m[i].0 != m[j].0
}

/// Storing keeps labels unique.
pub proof fn lemma_tbl_store_wf(m: Seq<(Seq<char>, Num)>, name: Seq<char>, v: Num)
    requires
        tbl_wf(m),
    ensures
        tbl_wf(tbl_store(m, name, v)),
{
    let m2 = tbl_store(m, name, v);
    if tbl_has(m, name) {
        let k = tbl_index(m, name);
        assert(0 <= k < m.len() && m[k].0 == name);
        assert forall|a: int, b: int| 0 <= a < b < m2.len() implies m2[a].0 != m2[b].0 by {
            assert(m[a].0 != m[b].0);
            assert(m2[a].0 == m[a].0);
            assert(m2[b].0 == m[b].0);
        }
    } else {
        assert(forall|a: int| 0 <= a < m.len() ==> m[a].0 != name);
        assert forall|a: int, b: int| 0 <= a < b < m2.len() implies m2[a].0 != m2[b].0 by {
            if b == m.len() {
                assert(m2[b].0 == name);
                assert(m2[a].0 == m[a].0);
            } else {
                assert(m2[a].0 == m[a].0);
                assert(m2[b].0 == m[b].0);
                assert(m[a].0 != m[b].0);
            }
        }
    }
}

/// After a store, the label is defined and holds the stored value.
pub proof fn lemma_store_then_lookup(m: Seq<(Seq<char>, Num)>, name: Seq<char>, v: Num)
    requires
        tbl_wf(m),
    ensures
        tbl_has(tbl_store(m, name, v), name),
        tbl_value(tbl_store(m, name, v), name) == v,
{
    lemma_tbl_store_wf(m, name, v);
    let m2 = tbl_store(m, name, v);
    if tbl_has(m, name) {
        let k = tbl_index(m, name);
        assert(0 <= k < m.len() && m[k].0 == name);
        assert(m2[k].0 == name);
        assert(tbl_has(m2, name));
        let k2 = tbl_index(m2, name);
        assert(0 <= k2 < m2.len() && m2[k2].0 == name);
        assert(forall|a: int, b: int| 0 <= a < b < m2.len() ==> m2[a].0 != m2[b].0);
        if k2 < k {
            assert(m2[k2].0 != m2[k].0);
        } else if k < k2 {
            assert(m2[k].0 != m2[k2].0);
        }
        assert(m2[k].1 == v);
    } else {
        assert(forall|a: int| 0 <= a < m.len() ==> m[a].0 != name);
        let n = m.len() as int;
        assert(m2[n].0 == name);
        assert(tbl_has(m2, name));
        let k2 = tbl_index(m2, name);
        assert(0 <= k2 < m2.len() && m2[k2].0 == name);
        if k2 < n {
            assert(m2[k2] == m[k2]);
        }
        assert(k2 == n);
        assert(m2[n].1 == v);
    }
}

/// A store leaves every other label, present or absent, and its value
/// unchanged.
pub proof fn lemma_store_preserves_others(
    m: Seq<(Seq<char>, Num)>,
    name: Seq<char>,
    v: Num,
    other: Seq<char>,
)
    requires
        tbl_wf(m),
        other != name,
    ensures
        tbl_has(tbl_store(m, name, v), other) == tbl_has(m, other),
        tbl_has(m, other) ==> tbl_value(tbl_store(m, name, v), other) == tbl_value(m, other),
{
    let m2 = tbl_store(m, name, v);
    if tbl_has(m, name) {
        let k = tbl_index(m, name);
        assert(0 <= k < m.len() && m[k].0 == name);
        assert(forall|i: int| 0 <= i < m2.len() ==> m2[i].0 == m[i].0);
        if tbl_has(m, other) {
            let j = tbl_index(m, other);
            assert(0 <= j < m.len() && m[j].0 == other);
            assert(m2[j].0 == other);
            assert(tbl_has(m2, other));
            let j2 = tbl_index(m2, other);
            assert(0 <= j2 < m2.len() && m2[j2].0 == other);
            assert(m[j2].0 == other);
            assert(forall|a: int, b: int| 0 <= a < b < m.len() ==> m[a].0 != m[b].0);
            if j2 < j {
                assert(m[j2].0 != m[j].0);
            } else if j < j2 {
                assert(m[j].0 != m[j2].0);
            }
            assert(j2 != k);
            assert(m2[j2].1 == m[j2].1);
        }
        if tbl_has(m2, other) {
            let j2 = tbl_index(m2, other);
            assert(0 <= j2 < m2.len() && m2[j2].0 == other);
            assert(m[j2].0 == other);
            assert(tbl_has(m, other));
        }
    } else {
        let n = m.len() as int;
        if tbl_has(m, other) {
            let j = tbl_index(m, other);
            assert(0 <= j < m.len() && m[j].0 == other);
            assert(m2[j] == m[j]);
            assert(tbl_has(m2, other));
            lemma_tbl_store_wf(m, name, v);
            let j2 = tbl_index(m2, other);
            assert(0 <= j2 < m2.len() && m2[j2].0 == other);
            assert(j2 != n);
            assert(m2[j2] == m[j2]);
            assert(forall|a: int, b: int| 0 <= a < b < m.len() ==> m[a].0 != m[b].0);
            if j2 < j {
                assert(m[j2].0 != m[j].0);
            } else if j < j2 {
                assert(m[j].0 != m[j2].0);
            }
        }
        if tbl_has(m2, other) {
            let j2 = tbl_index(m2, other);
            assert(0 <= j2 < m2.len() && m2[j2].0 == other);
            if j2 < n {
                assert(m[j2].0 == other);
                assert(tbl_has(m, other));
            }
        }
    }
}

/// Storing under an existing label overwrites in place: the table's size and
/// every label, in order, are unchanged.
pub proof fn lemma_store_existing_in_place(m: Seq<(Seq<char>, Num)>, name: Seq<char>, v: Num)
    requires
        tbl_wf(m),
        tbl_has(m, name),
    ensures
        tbl_store(m, name, v).len() == m.len(),
        forall|i: int| 0 <= i < m.len() ==> tbl_store(m, name, v)[i].0 == m[i].0,
{
    let k = tbl_index(m, name);
    assert(0 <= k < m.len() && m[k].0 == name);
}

/// An ordered collection of variables with unique labels.
pub struct VarTable(pub Vec<Variable>);

impl VarTable {
    /// The table as a sequence of (label characters, value) pairs.
    pub open spec fn model(&self) -> Seq<(Seq<char>, Num)> {
        self.0@.map(|i: int, v: Variable| (v.label@, v.value))
    }

    /// Labels are unique.
    pub open spec fn wf(&self) -> bool {
        tbl_wf(self.model())
    }

    /// Overwrite the value under an existing label in place, or append a new
    /// entry for a label not yet present.
    pub fn store(&mut self, label: &String, value: Num)
        requires
            old(self).wf(),
        ensures
            final(self).wf(),
            final(self).model() == tbl_store(old(self).model(), label@, value),
    {
        let n = self.0.len();
        let mut i: usize = 0;
        while i < n
            invariant
                n == self.0.len(),
                i <= n,
                *self == *old(self),
                old(self).wf(),
                forall|j: int| 0 <= j < i ==> self.0@[j].label@ != label@,
            decreases n - i,
        {
            if self.0[i].label.eq(label) {
                let kept = self.0[i].label.clone();
                self.0[i] = Variable { label: kept, value };
                proof {
                    let m = old(self).model();
                    assert(forall|a: int, b: int|
                        0 <= a < b < m.len() ==> m[a].0 != m[b].0);
                    assert(m[i as int].0 == label@);
                    assert(tbl_has(m, label@));
                    let k = tbl_index(m, label@);
                    assert(0 <= k < m.len() && m[k].0 == label@);
                    assert(k == i as int) by {
                        if k < i as int {
                            assert(m[k].0 != m[i as int].0);
                        } else if (i as int) < k {
                            assert(m[i as int].0 != m[k].0);
                        }
                    }
                    assert(self.model() =~= tbl_store(m, label@, value));
                    assert(forall|a: int|
                        0 <= a < self.model().len() ==> self.model()[a].0 == m[a].0);
                    assert(tbl_wf(self.model())) by {
                        assert forall|a: int, b: int|
                            0 <= a < b < self.model().len() implies self.model()[a].0
                            != self.model()[b].0 by {
                            assert(self.model()[a].0 == m[a].0);
                            assert(self.model()[b].0 == m[b].0);
                            assert(m[a].0 != m[b].0);
                        }
                    }
                }
                return ;
            }
            i += 1;
        }
        self.0.push(Variable { label: label.clone(), value });
        proof {
            let m = old(self).model();
            assert(forall|a: int, b: int| 0 <= a < b < m.len() ==> m[a].0 != m[b].0);
            assert(!tbl_has(m, label@));
            assert(forall|a: int| 0 <= a < m.len() ==> m[a].0 != label@);
            assert(self.model() =~= tbl_store(m, label@, value));
            assert(tbl_wf(self.model())) by {
                assert forall|a: int, b: int|
                    0 <= a < b < self.model().len() implies self.model()[a].0
                    != self.model()[b].0 by {
                    if b == m.len() {
                        assert(self.model()[a].0 == m[a].0);
                        assert(self.model()[b].0 == label@);
                        assert(m[a].0 != label@);
                    } else {
                        assert(self.model()[a].0 == m[a].0);
                        assert(self.model()[b].0 == m[b].0);
                        assert(m[a].0 != m[b].0);
                    }
                }
            }
        }
    }

    /// Whether the table holds an entry for `label`.
    pub fn contains(&self, label: &String) -> (r: bool)
        ensures
            r == tbl_has(self.model(), label@),
    {
        let n = self.0.len();
        let mut i: usize = 0;
        while i < n
            invariant
                n == self.0.len(),
                i <= n,
                forall|j: int| 0 <= j < i ==> self.0@[j].label@ != label@,
            decreases n - i,
        {
            if self.0[i].label.eq(label) {
                assert(self.model()[i as int].0 == label@);
                return true;
            }
            i += 1;
        }
        assert(forall|j: int| 0 <= j < self.model().len() ==> self.model()[j].0 != label@);
        false
    }

    /// The value stored under `label`, or nothing when the label is absent.
    pub fn retrieve(&self, label: &String) -> (r: Option<Num>)
        requires
            self.wf(),
        ensures
            r == if tbl_has(self.model(), label@) {
                Some(tbl_value(self.model(), label@))
            } else {
                Option::<Num>::None
            },
    {
        let n = self.0.len();
        let mut i: usize = 0;
        while i < n
            invariant
                self.wf(),
                n == self.0.len(),
                i <= n,
                forall|j: int| 0 <= j < i ==> self.0@[j].label@ != label@,
            decreases n - i,
        {
            if self.0[i].label.eq(label) {
                proof {
                    let m = self.model();
                    assert(m[i as int].0 == label@);
                    assert(tbl_has(m, label@));
                    let k = tbl_index(m, label@);
                    assert(0 <= k < m.len() && m[k].0 == label@);
                    assert(k == i as int);
                }
                return Some(self.0[i].value);
            }
            i += 1;
        }
        assert(forall|j: int| 0 <= j < self.model().len() ==> self.model()[j].0 != label@);
        None
    }
}

} // verus!
