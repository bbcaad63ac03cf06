use vstd::prelude::*;
use linked_hash_map::LinkedHashMap;
use crate::linked::{index_entries, index_get, index_insert_new, index_new};
use crate::question::{Question, QuestionView};

verus! {

/// The position of the question keyed `id`, if any.
pub open spec fn position_of(qs: Seq<QuestionView>, id: Seq<char>) -> Option<int> {
    if exists|i: int| 0 <= i < qs.len() && #[trigger] qs[i].id == id {
        Some(choose|i: int| 0 <= i < qs.len() && #[trigger] qs[i].id == id)
    } else {
        None
    }
}

/// No two questions share an id.
pub open spec fn unique_ids(qs: Seq<QuestionView>) -> bool {
    forall|i: int, j: int|
        0 <= i < qs.len() && 0 <= j < qs.len() && i != j ==> #[trigger] qs[i].id
            != #[trigger] qs[j].id
}

/// The bank after storing `q`: an existing question with the same id is replaced
/// in place, otherwise `q` goes to the end.
pub open spec fn stored(qs: Seq<QuestionView>, q: QuestionView) -> Seq<QuestionView> {
    match position_of(qs, q.id) {
        Some(i) => qs.update(i, q),
        None => qs.push(q),
    }
}

/// The questions from position `skip` on, at most `take` of them.
pub open spec fn window(qs: Seq<QuestionView>, skip: int, take: int) -> Seq<QuestionView> {
    let lo = if skip < qs.len() { skip } else { qs.len() as int };
    let hi = if take < qs.len() - lo { lo + take } else { qs.len() as int };
    qs.subrange(lo, hi)
}

/// The views of a sequence of questions.
pub open spec fn views(qs: Seq<Question>) -> Seq<QuestionView> {
    qs.map_values(|q: Question| q@)
}

/// An ordered collection of questions keyed by their text, in load order. The
/// questions stand in a vector; an index maps each text to its position.
pub struct Bank {
    questions: Vec<Question>,
    index: LinkedHashMap<String, usize>,
}

impl Bank {
    pub closed spec fn view(&self) -> Seq<QuestionView> {
        views(self.questions@)
    }

    /// Ids are unique and every question has at most one option per label.
    pub open spec fn wf(&self) -> bool {
        &&& unique_ids(self@)
        &&& forall|i: int| 0 <= i < self@.len() ==> (#[trigger] self@[i]).wf()
    }

    #[verifier::type_invariant]
    spec fn inv(&self) -> bool {
        &&& self.wf()
        &&& index_entries(self.index).len() == self.questions@.len()
        &&& forall|i: int|
            0 <= i < self.questions@.len() ==> #[trigger] index_entries(self.index)[i].0
                == self.questions@[i].id@ && index_entries(self.index)[i].1 == i
    }

    /// An empty bank.
    pub fn new() -> (b: Bank)
        ensures
            b.wf(),
            b@ == Seq::<QuestionView>::empty(),
    {
        let b = Bank { questions: Vec::new(), index: index_new() };
        assert(b@ =~= Seq::<QuestionView>::empty());
        b
    }

    /// Number of questions.
    pub fn size(&self) -> (n: usize)
        ensures
            n == self@.len(),
    {
        self.questions.len()
    }

    /// The position of the question keyed `id`, or `None` when there is none.
    pub fn find(&self, id: &str) -> (r: Option<usize>)
        ensures
            self.wf(),
            r matches Some(i) ==> position_of(self@, id@) == Some(i as int),
            r is None ==> position_of(self@, id@) is None,
    {
        proof {
            use_type_invariant(self);
        }
        let ghost e = index_entries(self.index);
        match index_get(&self.index, id) {
            Some(p) => {
                let i = *p;
                proof {
                    let j = choose|j: int| 0 <= j < e.len() && #[trigger] e[j] == (id@, i);
                    assert(e.len() == self.questions@.len());
                    assert(index_entries(self.index)[j].0 == self.questions@[j].id@);
                    assert(e[j].0 == self.questions@[j].id@ && e[j].1 == j);
                    assert(j == i as int);
                    assert(self@[j].id == id@);
                    let k = position_of(self@, id@);
                    assert(k is Some);
                    assert(0 <= k->0 < self@.len());
                    if k->0 != j {
                        assert(self@[k->0].id != self@[j].id);
                    }
                }
                Some(i)
            },
            None => {
                proof {
                    assert forall|j: int| 0 <= j < self@.len() implies #[trigger] self@[j].id != id@ by {
                        assert(e[j].0 == self.questions@[j].id@);
                    }
                }
                None
            },
        }
    }

    /// The question keyed `id`, or `None` when there is none.
    pub fn get(&self, id: &str) -> (r: Option<&Question>)
        ensures
            r matches Some(q) ==> position_of(self@, id@) matches Some(i) && q@ == self@[i],
            r is None ==> position_of(self@, id@) is None,
    {
        match self.find(id) {
            Some(i) => Some(&self.questions[i]),
            None => None,
        }
    }

    /// The question at position `i` in load order.
    pub fn at(&self, i: usize) -> (q: &Question)
        requires
            i < self@.len(),
        ensures
            q@ == self@[i as int],
    {
        &self.questions[i]
    }

    /// All questions in load order.
    pub fn questions(&self) -> (qs: &Vec<Question>)
        ensures
            qs@.map_values(|q: Question| q@) == self@,
    {
        &self.questions
    }

    /// Stores `q`. A question already keyed by `q.id` is overwritten where it
    /// stands; a new one goes to the end.
    pub fn insert(&mut self, q: Question)
        requires
            q.wf(),
        ensures
            final(self).wf(),
            final(self)@ == stored(old(self)@, q@),
    {
        proof {
            use_type_invariant(&*self);
        }
        let ghost q0 = q@;
        let ghost prev = self@;
        let pos = self.find(q.id.as_str());
        let mut taken = Bank::new();
        std::mem::swap(self, &mut taken);
        let Bank { questions: mut qs, index: mut index } = taken;
        let ghost e = index_entries(index);
        assert(views(qs@) == prev);
        match pos {
            Some(i) => {
                qs.set(i, q);
                proof {
                    let s = views(qs@);
                    assert(s =~= prev.update(i as int, q0));
                    assert forall|a: int, b: int|
                        0 <= a < s.len() && 0 <= b < s.len() && a != b implies #[trigger] s[a].id
                        != #[trigger] s[b].id by {
                        if a != i && b != i {
                            assert(prev[a].id != prev[b].id);
                        } else if a == i {
                            assert(prev[b].id != prev[i as int].id);
                        } else {
                            assert(prev[a].id != prev[i as int].id);
                        }
                    }
                    assert forall|k: int| 0 <= k < qs@.len() implies #[trigger] index_entries(index)[k].0
                        == qs@[k].id@ && index_entries(index)[k].1 == k by {
                        assert(s[k].id == qs@[k].id@);
                    }
                }
            },
            None => {
                let n = qs.len();
                proof {
                    assert forall|j: int| 0 <= j < e.len() implies #[trigger] e[j].0 != q0.id by {
                        assert(prev[j].id != q0.id);
                    }
                }
                index_insert_new(&mut index, q.id.clone(), n);
                qs.push(q);
                proof {
                    let s = views(qs@);
                    assert(s =~= prev.push(q0));
                    assert forall|a: int, b: int|
                        0 <= a < s.len() && 0 <= b < s.len() && a != b implies #[trigger] s[a].id
                        != #[trigger] s[b].id by {
                        if a < s.len() - 1 && b < s.len() - 1 {
                            assert(prev[a].id != prev[b].id);
                        } else if a == s.len() - 1 {
                            assert(s[b] == prev[b]);
                        } else {
                            assert(s[a] == prev[a]);
                        }
                    }
                    assert forall|k: int| 0 <= k < qs@.len() implies #[trigger] index_entries(index)[k].0
                        == qs@[k].id@ && index_entries(index)[k].1 == k by {
                        if k < n {
                            assert(index_entries(index)[k] == e[k]);
                        }
                    }
                }
            },
        }
        assert(views(qs@) =~= stored(prev, q0));
        let mut rebuilt = Bank { questions: qs, index };
        std::mem::swap(self, &mut rebuilt);
    }

    /// The questions from position `skip` on, at most `take` of them, in load
    /// order; this is what one page of a paged display shows.
    pub fn windowed(&self, skip: usize, take: usize) -> (r: Vec<&Question>)
        ensures
            r@.len() == window(self@, skip as int, take as int).len(),
            forall|j: int|
                0 <= j < r@.len() ==> r@[j]@ == window(self@, skip as int, take as int)[j],
    {
        let n = self.questions.len();
        let lo = if skip < n { skip } else { n };
        let hi = if take < n - lo { lo + take } else { n };
        let mut r: Vec<&Question> = Vec::new();
        let mut i: usize = lo;
        while i < hi
            invariant
                n == self@.len(),
                lo <= i <= hi <= n,
                r@.len() == i - lo,
                forall|j: int| 0 <= j < r@.len() ==> r@[j]@ == self@[lo + j],
            decreases hi - i,
        {
            r.push(&self.questions[i]);
            i = i + 1;
        }
        r
    }
}

} // verus!
