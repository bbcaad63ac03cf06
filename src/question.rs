use vstd::prelude::*;

verus! {

/// Largest number of options a question may carry: one per label `A`..`H`.
pub const MAX_OPTIONS: usize = 8;

/// The label of the option at position `i` (`A` for the first, up to `H`).
pub open spec fn label_of(i: int) -> char {
    seq!['A', 'B', 'C', 'D', 'E', 'F', 'G', 'H'][i]
}

/// The position named by label `c`, if `c` is one of `A`..`H`.
pub open spec fn label_index(c: char) -> Option<int> {
    if 'A' <= c && c <= 'H' {
        Some(c as int - 'A' as int)
    } else {
        None
    }
}

/// A correct-answer specification of one character makes a single-select question.
pub open spec fn is_single_spec(spec: Seq<char>) -> bool {
    spec.len() == 1
}

/// The flag vector that a correct-answer specification yields over `n` options:
/// position `i` is set exactly when its label occurs in `spec`.
pub open spec fn correctness_spec(n: nat, spec: Seq<char>) -> Seq<bool> {
    Seq::new(n, |i: int| spec.contains(label_of(i)))
}

/// What a question is, as plain sequences.
pub ghost struct QuestionView {
    pub id: Seq<char>,
    pub options: Seq<Seq<char>>,
    pub correct_spec: Seq<char>,
}

impl QuestionView {
    pub open spec fn wf(self) -> bool {
        self.options.len() <= MAX_OPTIONS
    }

    pub open spec fn is_single(self) -> bool {
        is_single_spec(self.correct_spec)
    }

    pub open spec fn correctness(self) -> Seq<bool> {
        correctness_spec(self.options.len(), self.correct_spec)
    }
}

/// One question: its text (also its key), its options in label order, and the
/// encoded correct answer.
pub struct Question {
    pub id: String,
    pub options: Vec<String>,
    pub correct_spec: String,
}

impl View for Question {
    type V = QuestionView;

    open spec fn view(&self) -> QuestionView {
        QuestionView {
            id: self.id@,
            options: self.options@.map_values(|s: String| s@),
            correct_spec: self.correct_spec@,
        }
    }
}

impl Question {
    pub open spec fn wf(&self) -> bool {
        self@.wf()
    }

    pub open spec fn is_single(&self) -> bool {
        self@.is_single()
    }

    pub open spec fn correctness(&self) -> Seq<bool> {
        self@.correctness()
    }

    /// True when exactly one character names the correct option.
    pub fn single_select(&self) -> (r: bool)
        ensures
            r == self.is_single(),
    {
        self.correct_spec.as_str().unicode_len() == 1
    }
}

/// The label of the option at position `i`.
pub fn option_label(i: usize) -> (c: char)
    requires
        i < MAX_OPTIONS,
    ensures
        c == label_of(i as int),
        label_index(c) == Some(i as int),
{
    let labels: [char; 8] = ['A', 'B', 'C', 'D', 'E', 'F', 'G', 'H'];
    labels[i]
}

/// Whether `c` occurs anywhere in `s`.
fn spec_contains(s: &str, c: char) -> (r: bool)
    ensures
        r == s@.contains(c),
{
    let n = s.unicode_len();
    let mut k: usize = 0;
    while k < n
        invariant
            n == s@.len(),
            k <= n,
            forall|j: int| 0 <= j < k ==> s@[j] != c,
        decreases n - k,
    {
        if s.get_char(k) == c {
            return true;
        }
        k = k + 1;
    }
    false
}

/// The correctness vector of `q`: one flag per option, set where the option's
/// label occurs in the correct-answer specification. Characters outside `A`..`H`
/// set no flag.
pub fn derive_correctness(q: &Question) -> (r: Vec<bool>)
    requires
        q.wf(),
    ensures
        r@ == q.correctness(),
{
    let n = q.options.len();
    let mut r: Vec<bool> = Vec::new();
    let mut i: usize = 0;
    while i < n
        invariant
            n == q.options@.len(),
            n <= MAX_OPTIONS,
            i <= n,
            r@ == correctness_spec(i as nat, q.correct_spec@),
        decreases n - i,
    {
        let c = option_label(i);
        let b = spec_contains(q.correct_spec.as_str(), c);
        r.push(b);
        assert(r@ =~= correctness_spec((i + 1) as nat, q.correct_spec@));
        i = i + 1;
    }
    r
}

/// A single-select answer is right exactly when the chosen label is the whole
/// correct-answer specification.
pub fn evaluate_single(q: &Question, selection: char) -> (r: bool)
    ensures
        r == (q.correct_spec@ == seq![selection]),
{
    let s = q.correct_spec.as_str();
    if s.unicode_len() != 1 {
        assert(q.correct_spec@ != seq![selection]);
        return false;
    }
    let c = s.get_char(0);
    if c == selection {
        assert(q.correct_spec@ =~= seq![selection]);
        true
    } else {
        false
    }
}

/// A multi-select answer is right exactly when it equals the correctness vector
/// flag for flag.
pub fn evaluate_multi(q: &Question, selection: &Vec<bool>) -> (r: bool)
    requires
        q.wf(),
    ensures
        r == (selection@ == q.correctness()),
{
    let expected = derive_correctness(q);
    if expected.len() != selection.len() {
        return false;
    }
    let mut i: usize = 0;
    while i < expected.len()
        invariant
            expected@ == q.correctness(),
            expected@.len() == selection@.len(),
            i <= expected@.len(),
            forall|j: int| 0 <= j < i ==> expected@[j] == selection@[j],
        decreases expected@.len() - i,
    {
        if expected[i] != selection[i] {
            return false;
        }
        i = i + 1;
    }
    assert(selection@ =~= expected@);
    true
}

} // verus!
