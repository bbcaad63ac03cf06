use vstd::prelude::*;
use vstd::string::*;
use crate::bank::Bank;
use crate::question::{evaluate_multi, evaluate_single, Question, QuestionView};
use crate::linked::{has_key, Entries};
use crate::record::{noted, WrongRecord};
use crate::session::{Answer, SessionState, Status};

verus! {

/// The lines of `lines` joined by newlines.
pub open spec fn joined(lines: Seq<Seq<char>>) -> Seq<char>
    decreases lines.len(),
{
    if lines.len() == 0 {
        Seq::empty()
    } else if lines.len() == 1 {
        lines[0]
    } else {
        joined(lines.drop_last()) + seq!['\n'] + lines.last()
    }
}

/// A question's options and correct answer as one text: the options one per
/// line, then the correct-answer specification on the last line.
pub open spec fn option_text_of(q: QuestionView) -> Seq<char> {
    joined(q.options) + seq!['\n'] + q.correct_spec
}

/// Whether `a` is a single-select choice that does not match `q`'s answer.
pub open spec fn answered_wrong(q: QuestionView, a: Answer) -> bool {
    a matches Answer::Single(l) && q.correct_spec != seq![l]
}

/// Whether `a` is a single-select choice that matches `q`'s answer.
pub open spec fn answered_right(q: QuestionView, a: Answer) -> bool {
    a matches Answer::Single(l) && q.correct_spec == seq![l]
}

/// How many of the first `k` questions carry a matching single-select choice.
/// Unanswered questions, and multi-select answers, count for nothing.
pub open spec fn score_of(qs: Seq<QuestionView>, ans: Seq<Answer>, k: int) -> nat
    decreases k,
{
    if k <= 0 {
        0
    } else {
        score_of(qs, ans, k - 1) + if answered_right(qs[k - 1], ans[k - 1]) { 1nat } else { 0nat }
    }
}

/// The record after grading the first `k` questions: each one answered wrong is
/// added, in bank order, unless already there.
pub open spec fn graded(
    e: Entries,
    qs: Seq<QuestionView>,
    ans: Seq<Answer>,
    k: int,
) -> Entries
    decreases k,
{
    if k <= 0 {
        e
    } else {
        let before = graded(e, qs, ans, k - 1);
        if answered_wrong(qs[k - 1], ans[k - 1]) {
            noted(before, qs[k - 1].id, option_text_of(qs[k - 1]))
        } else {
            before
        }
    }
}

/// The options and correct answer of `q` as one text, as the wrong-answer
/// record keeps it.
pub fn option_text(q: &Question) -> (r: String)
    ensures
        r@ == option_text_of(q@),
{
    let mut r = String::new();
    let mut i: usize = 0;
    while i < q.options.len()
        invariant
            i <= q@.options.len(),
            r@ == joined(q@.options.take(i as int)),
        decreases q@.options.len() - i,
    {
        let ghost pre = r@;
        assert(q@.options.take(i + 1).drop_last() =~= q@.options.take(i as int));
        assert(q@.options.take(i + 1).last() == q.options@[i as int]@);
        assert(q@.options.take(i + 1).len() == i + 1);
        if i > 0 {
            proof {
                reveal_strlit("\n");
            }
            assert("\n"@ =~= seq!['\n']);
            r.append("\n");
            assert(r@ =~= pre + seq!['\n']);
        } else {
            assert(pre == Seq::<char>::empty());
        }
        r.append(q.options[i].as_str());
        if i == 0 {
            assert(r@ =~= q@.options.take(1)[0]);
        } else {
            let ghost last = q@.options.take(i + 1).last();
            assert(r@ =~= joined(q@.options.take(i as int)) + seq!['\n'] + last);
        }
        i = i + 1;
    }
    assert(q@.options.take(q@.options.len() as int) =~= q@.options);
    proof {
        reveal_strlit("\n");
    }
    assert("\n"@ =~= seq!['\n']);
    r.append("\n");
    r.append(q.correct_spec.as_str());
    r
}

/// Whether an answer in the given status is right. Unanswered is never right.
pub fn evaluate(q: &Question, s: &Status) -> (r: bool)
    requires
        q.wf(),
    ensures
        r == match s@ {
            Answer::Unanswered => false,
            Answer::Single(l) => q@.correct_spec == seq![l],
            Answer::Multi(v) => v == q.correctness(),
        },
{
    match s {
        Status::Unanswered => false,
        Status::Single(l) => evaluate_single(q, *l),
        Status::Multi(v) => evaluate_multi(q, v),
    }
}

/// The number of questions whose single-select choice is right.
pub fn score(bank: &Bank, session: &SessionState) -> (n: usize)
    requires
        session.wf(bank@),
    ensures
        n == score_of(bank@, session@, bank@.len() as int),
{
    let mut n: usize = 0;
    let mut i: usize = 0;
    while i < bank.size()
        invariant
            session.wf(bank@),
            i <= bank@.len(),
            n == score_of(bank@, session@, i as int),
            n <= i,
        decreases bank@.len() - i,
    {
        if let Status::Single(l) = session.status_at(i) {
            if evaluate_single(bank.at(i), *l) {
                n = n + 1;
            }
        }
        i = i + 1;
    }
    n
}

/// Notes `q` as answered wrong when `selection` is not its answer. A question
/// already in the record stays as it was.
pub fn record_wrong(wrong: &mut WrongRecord, q: &Question, selection: char)
    ensures
        final(wrong)@ == if q@.correct_spec != seq![selection] {
            noted(old(wrong)@, q@.id, option_text_of(q@))
        } else {
            old(wrong)@
        },
{
    if !evaluate_single(q, selection) {
        let text = option_text(q);
        wrong.note(q.id.clone(), text);
    }
}

/// One grading pass: returns the score and adds to `wrong` every question whose
/// single-select choice is wrong and that is not recorded yet. Nothing already
/// recorded is removed or changed.
pub fn check_answers(bank: &Bank, session: &SessionState, wrong: &mut WrongRecord) -> (n: usize)
    requires
        session.wf(bank@),
    ensures
        n == score_of(bank@, session@, bank@.len() as int),
        final(wrong)@ == graded(old(wrong)@, bank@, session@, bank@.len() as int),
        old(wrong)@.is_prefix_of(final(wrong)@),
{
    let mut n: usize = 0;
    let mut i: usize = 0;
    while i < bank.size()
        invariant
            session.wf(bank@),
            i <= bank@.len(),
            n == score_of(bank@, session@, i as int),
            n <= i,
            wrong@ == graded(old(wrong)@, bank@, session@, i as int),
        decreases bank@.len() - i,
    {
        if let Status::Single(l) = session.status_at(i) {
            let q = bank.at(i);
            if evaluate_single(q, *l) {
                n = n + 1;
            } else {
                record_wrong(wrong, q, *l);
            }
        }
        i = i + 1;
    }
    proof {
        lemma_grading_keeps_record(old(wrong)@, bank@, session@, bank@.len() as int);
    }
    n
}

/// Grading never takes anything out of the wrong-answer record: whatever it
/// held before a pass, in the same order, it holds after, whatever the answers.
pub proof fn lemma_grading_keeps_record(
    e: Entries,
    qs: Seq<QuestionView>,
    ans: Seq<Answer>,
    k: int,
)
    ensures
        e.is_prefix_of(graded(e, qs, ans, k)),
        forall|id: Seq<char>| has_key(e, id) ==> has_key(graded(e, qs, ans, k), id),
    decreases k,
{
    if k > 0 {
        lemma_grading_keeps_record(e, qs, ans, k - 1);
        let before = graded(e, qs, ans, k - 1);
        assert forall|id: Seq<char>| has_key(e, id) implies has_key(graded(e, qs, ans, k), id) by {
            let i = choose|i: int| 0 <= i < e.len() && (#[trigger] e[i]).0 == id;
            assert(before[i] == e[i]);
            if answered_wrong(qs[k - 1], ans[k - 1]) && !has_key(before, qs[k - 1].id) {
                let after = before.push((qs[k - 1].id, option_text_of(qs[k - 1])));
                assert(after[i] == e[i]);
            }
        }
    }
}

} // verus!
