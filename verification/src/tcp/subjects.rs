//! Subjects that workers call back with.

use crate::keyed_table::TableKey;
use crate::seqs;
use crate::text;
use vstd::prelude::*;

verus! {

/// A subject.
#[derive(Debug)]
pub struct Subject {
    pub text: String,
}

impl TableKey for Subject {
    type Key = Seq<char>;

    open spec fn key(&self) -> Seq<char> {
        self.text@
    }

    fn same(&self, other: &Subject) -> (r: bool) {
        self.text == other.text
    }

    fn duplicate(&self) -> (r: Self) {
        Subject { text: self.text.clone() }
    }
}

impl Subject {
    pub fn new(text: &str) -> (r: Self)
        ensures
            r.key() == text@,
    {
        Subject { text: text.to_owned() }
    }
}

/// A set of subjects.
pub struct SubjectSet {
    items: Vec<String>,
}

impl View for SubjectSet {
    type V = Set<Seq<char>>;

    closed spec fn view(&self) -> Set<Seq<char>> {
        self.texts().to_set()
    }
}

impl SubjectSet {
    spec fn texts(&self) -> Seq<Seq<char>> {
        self.items@.map_values(|item: String| item@)
    }

    /// No subject is listed twice.
    pub closed spec fn wf(&self) -> bool {
        self.texts().no_duplicates()
    }

    pub fn new() -> (r: Self)
        ensures
            r.wf(),
            r@ == Set::<Seq<char>>::empty(),
    {
        let r = SubjectSet { items: Vec::new() };
        assert(r@ =~= Set::<Seq<char>>::empty());
        r
    }

    fn find(&self, subject: &str) -> (r: Option<usize>)
        ensures
            match r {
                Some(i) => i < self.texts().len() && self.texts()[i as int] == subject@,
                None => !self.texts().contains(subject@),
            },
    {
        let mut i: usize = 0;
        while i < self.items.len()
            invariant
                i <= self.items@.len(),
                forall|j: int| 0 <= j < i ==> #[trigger] self.texts()[j] != subject@,
            decreases self.items@.len() - i,
        {
            if text::same_text(self.items[i].as_str(), subject) {
                return Some(i);
            }
            assert(self.texts()[i as int] == self.items@[i as int]@);
            i += 1;
        }
        None
    }

    pub fn insert(&mut self, subject: &str)
        requires
            old(self).wf(),
        ensures
            final(self).wf(),
            final(self)@ == old(self)@.insert(subject@),
    {
        match self.find(subject) {
            Some(i) => {
                assert(self.texts().contains(subject@));
                assert(self@ =~= self@.insert(subject@));
            },
            None => {
                let ghost before = self.texts();
                self.items.push(subject.to_owned());
                proof {
                    assert(self.texts() =~= before.push(subject@));
                    seqs::lemma_push_to_set(before, subject@);
                    assert(before.to_set().union(set![subject@]) =~= before.to_set().insert(
                        subject@,
                    ));
                }
            },
        }
    }

    pub fn remove(&mut self, subject: &str)
        requires
            old(self).wf(),
        ensures
            final(self).wf(),
            final(self)@ == old(self)@.remove(subject@),
    {
        match self.find(subject) {
            Some(i) => {
                let ghost before = self.texts();
                self.items.remove(i);
                proof {
                    let after = self.texts();
                    assert(after =~= before.remove(i as int));
                    assert forall|x: Seq<char>| #[trigger]
                        after.to_set().contains(x) <==> before.to_set().remove(
                            subject@,
                        ).contains(x) by {
                        if after.contains(x) {
                            let j = choose|j: int| 0 <= j < after.len() && after[j] == x;
                            let k = if j < i {
                                j
                            } else {
                                j + 1
                            };
                            assert(before[k] == x);
                            assert(before[i as int] == subject@);
                        }
                        if before.contains(x) && x != subject@ {
                            let k = choose|k: int| 0 <= k < before.len() && before[k] == x;
                            let j = if k < i {
                                k
                            } else {
                                k - 1
                            };
                            assert(after[j] == x);
                        }
                    }
                    assert(after.to_set() =~= before.to_set().remove(subject@));
                }
            },
            None => {
                assert(self@ =~= self@.remove(subject@));
            },
        }
    }

    pub fn is_empty(&self) -> (r: bool)
        ensures
            r == (self@ == Set::<Seq<char>>::empty()),
    {
        proof {
            if self.items@.len() == 0 {
                assert(self@ =~= Set::<Seq<char>>::empty());
            } else {
                assert(self.texts().contains(self.texts()[0]));
                assert(self@.contains(self.texts()[0]));
            }
        }
        self.items.len() == 0
    }

    /// The subjects, each once, in no particular order.
    pub fn into_vec(self) -> (r: Vec<String>)
        requires
            self.wf(),
        ensures
            seqs::texts(r@).to_set() == self@,
            seqs::texts(r@).no_duplicates(),
            r@.len() == self@.len(),
            self@.finite(),
    {
        proof {
            assert(self.texts() =~= seqs::texts(self.items@));
            self.texts().unique_seq_to_set();
            vstd::seq_lib::seq_to_set_is_finite(self.texts());
        }
        self.items
    }
}

/// Two subjects are the same just if they are the same text.
pub proof fn subjects_are_told_apart(a: Subject, b: Subject)
    ensures
        a.key() == b.key() <==> a.text@ == b.text@,
{
}

} // verus!
