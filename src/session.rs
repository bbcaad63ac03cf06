use vstd::prelude::*;
use crate::bank::{position_of, Bank};
use crate::question::QuestionView;

verus! {

/// Where one question stands in a session.
pub enum Status {
    /// Nothing chosen yet.
    Unanswered,
    /// The label chosen for a single-select question.
    Single(char),
    /// One flag per option of a multi-select question.
    Multi(Vec<bool>),
}

/// What a question's status is, as plain values.
pub ghost enum Answer {
    Unanswered,
    Single(char),
    Multi(Seq<bool>),
}

impl View for Status {
    type V = Answer;

    open spec fn view(&self) -> Answer {
        match self {
            Status::Unanswered => Answer::Unanswered,
            Status::Single(c) => Answer::Single(*c),
            Status::Multi(v) => Answer::Multi(v@),
        }
    }
}

/// Why a session operation was refused.
#[derive(PartialEq, Eq, Structural, Clone, Copy, Debug)]
pub enum SessionError {
    /// No question has that id.
    NotFound,
    /// The option index is past the question's last option.
    IndexOutOfRange,
}

/// The flags of a multi-select answer before a toggle: what was there, or all
/// unset on first use.
pub open spec fn flags_before(a: Answer, n: nat) -> Seq<bool> {
    match a {
        Answer::Multi(v) => v,
        _ => Seq::new(n, |k: int| false),
    }
}

/// The status of a question after its option `index` is toggled.
pub open spec fn toggled(a: Answer, n: nat, index: int) -> Answer {
    let v = flags_before(a, n);
    Answer::Multi(v.update(index, !v[index]))
}

/// The answers given so far, one status per question of the bank, in bank order.
pub struct SessionState {
    status: Vec<Status>,
}

impl SessionState {
    pub closed spec fn view(&self) -> Seq<Answer> {
        self.status@.map_values(|s: Status| s@)
    }

    /// One status per question, and every flag vector as long as its question's
    /// option list.
    pub open spec fn wf(&self, qs: Seq<QuestionView>) -> bool {
        &&& self@.len() == qs.len()
        &&& forall|i: int|
            0 <= i < qs.len() ==> (#[trigger] self@[i] matches Answer::Multi(v) ==> v.len()
                == qs[i].options.len())
    }

    /// A session in which nothing is answered yet.
    pub fn new(bank: &Bank) -> (s: SessionState)
        ensures
            s.wf(bank@),
            forall|i: int| 0 <= i < bank@.len() ==> #[trigger] s@[i] == Answer::Unanswered,
    {
        let n = bank.size();
        let mut status: Vec<Status> = Vec::new();
        let mut i: usize = 0;
        while i < n
            invariant
                n == bank@.len(),
                i <= n,
                status@.len() == i,
                forall|k: int| 0 <= k < i ==> #[trigger] status@[k]@ == Answer::Unanswered,
            decreases n - i,
        {
            status.push(Status::Unanswered);
            i = i + 1;
        }
        SessionState { status }
    }

    /// The status of the question keyed `id`.
    pub fn status(&self, bank: &Bank, id: &str) -> (r: Result<&Status, SessionError>)
        requires
            self.wf(bank@),
        ensures
            match r {
                Ok(s) => position_of(bank@, id@) matches Some(i) && s@ == self@[i],
                Err(e) => e == SessionError::NotFound && position_of(bank@, id@) is None,
            },
    {
        match bank.find(id) {
            Some(i) => Ok(&self.status[i]),
            None => Err(SessionError::NotFound),
        }
    }

    /// The status of the question at position `i` of the bank.
    pub fn status_at(&self, i: usize) -> (s: &Status)
        requires
            i < self@.len(),
        ensures
            s@ == self@[i as int],
    {
        &self.status[i]
    }

    /// Sets (or overwrites) the label chosen for the question keyed `id`. The
    /// choice is not checked against the correct answer here.
    pub fn select_single(&mut self, bank: &Bank, id: &str, label: char) -> (r: Result<
        (),
        SessionError,
    >)
        requires
            old(self).wf(bank@),
        ensures
            final(self).wf(bank@),
            match position_of(bank@, id@) {
                Some(i) => r is Ok && final(self)@ == old(self)@.update(i, Answer::Single(label)),
                None => r == Err::<(), SessionError>(SessionError::NotFound) && final(self)@
                    == old(self)@,
            },
    {
        match bank.find(id) {
            Some(i) => {
                self.status.set(i, Status::Single(label));
                assert(self@ =~= old(self)@.update(i as int, Answer::Single(label)));
                Ok(())
            },
            None => Err(SessionError::NotFound),
        }
    }

    /// Flips option `index` of the question keyed `id`. A question toggled for
    /// the first time starts from all options unset. An index past the last
    /// option is refused and changes nothing.
    pub fn toggle_multi_option(&mut self, bank: &Bank, id: &str, index: usize) -> (r: Result<
        (),
        SessionError,
    >)
        requires
            old(self).wf(bank@),
        ensures
            final(self).wf(bank@),
            match position_of(bank@, id@) {
                Some(i) => if index < bank@[i].options.len() {
                    r is Ok && final(self)@ == old(self)@.update(
                        i,
                        toggled(old(self)@[i], bank@[i].options.len(), index as int),
                    )
                } else {
                    r == Err::<(), SessionError>(SessionError::IndexOutOfRange) && final(self)@
                        == old(self)@
                },
                None => r == Err::<(), SessionError>(SessionError::NotFound) && final(self)@
                    == old(self)@,
            },
    {
        let i = match bank.find(id) {
            Some(i) => i,
            None => {
                return Err(SessionError::NotFound);
            },
        };
        let n = bank.at(i).options.len();
        if index >= n {
            return Err(SessionError::IndexOutOfRange);
        }
        let ghost before = flags_before(self@[i as int], n as nat);
        let mut flags: Vec<bool> = Vec::new();
        let mut k: usize = 0;
        while k < n
            invariant
                i < self@.len(),
                before == flags_before(self@[i as int], n as nat),
                before.len() == n,
                index < n,
                k <= n,
                flags@.len() == k,
                forall|j: int|
                    0 <= j < k ==> #[trigger] flags@[j] == before.update(
                        index as int,
                        !before[index as int],
                    )[j],
            decreases n - k,
        {
            let cur = match &self.status[i] {
                Status::Multi(v) => v[k],
                _ => false,
            };
            flags.push(if k == index { !cur } else { cur });
            k = k + 1;
        }
        let ghost after = Answer::Multi(flags@);
        assert(flags@ =~= before.update(index as int, !before[index as int]));
        self.status.set(i, Status::Multi(flags));
        assert(self@ =~= old(self)@.update(i as int, after));
        Ok(())
    }
}

} // verus!
