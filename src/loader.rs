use vstd::prelude::*;
use crate::bank::{stored, unique_ids, Bank};
use crate::question::{Question, QuestionView, MAX_OPTIONS};

verus! {

/// One raw cell of the question sheet, already converted where possible.
pub enum Cell {
    /// Nothing in the cell.
    Empty,
    /// A cell that reads as text.
    Text(String),
    /// A cell that holds something other than text.
    Other,
}

/// Why a row could not become a question.
#[derive(PartialEq, Eq, Structural, Clone, Copy, Debug)]
pub enum RowFault {
    /// Fewer than two non-empty cells: no way to tell the text from the answer.
    TooFewCells,
    /// More options than there are labels.
    TooManyOptions,
    /// A non-empty cell that does not read as text.
    NotText,
}

/// A row of the sheet that could not be loaded, with its position in the sheet.
#[derive(PartialEq, Eq, Structural, Clone, Copy, Debug)]
pub struct MalformedRowError {
    pub row: usize,
    pub fault: RowFault,
}

/// The non-empty cells of `row`, in their order.
pub open spec fn compact(row: Seq<Cell>) -> Seq<Cell>
    decreases row.len(),
{
    if row.len() == 0 {
        Seq::empty()
    } else {
        let rest = compact(row.drop_last());
        if row.last() is Empty {
            rest
        } else {
            rest.push(row.last())
        }
    }
}

/// The text of a cell; empty for a cell that holds none.
pub open spec fn cell_text(c: Cell) -> Seq<char> {
    match c {
        Cell::Text(s) => s@,
        _ => Seq::empty(),
    }
}

/// What a row yields: the first non-empty cell is the question's text, the last
/// its correct-answer specification, and those between are its options.
pub open spec fn row_result(row: Seq<Cell>) -> Result<QuestionView, RowFault> {
    let c = compact(row);
    if c.len() < 2 {
        Err(RowFault::TooFewCells)
    } else if c.len() - 2 > MAX_OPTIONS {
        Err(RowFault::TooManyOptions)
    } else if exists|k: int| 0 <= k < c.len() && !(#[trigger] c[k] is Text) {
        Err(RowFault::NotText)
    } else {
        Ok(
            QuestionView {
                id: cell_text(c[0]),
                options: Seq::new((c.len() - 2) as nat, |k: int| cell_text(c[k + 1])),
                correct_spec: cell_text(c[c.len() - 1]),
            },
        )
    }
}

/// The questions a sheet yields, or the first row that fails and why.
pub type SheetOutcome = Result<Seq<QuestionView>, (int, RowFault)>;

/// The bank that rows `1..k` of a sheet build, or the first of them that fails.
/// Row `0` is the header.
pub open spec fn sheet_result(rows: Seq<Vec<Cell>>, k: int) -> SheetOutcome
    decreases k,
{
    if k <= 1 {
        Ok(Seq::empty())
    } else {
        match sheet_result(rows, k - 1) {
            Err(e) => Err(e),
            Ok(qs) => match row_result(rows[k - 1]@) {
                Err(f) => Err((k - 1, f)),
                Ok(q) => Ok(stored(qs, q)),
            },
        }
    }
}

/// A row whose last non-empty cell is one character yields a single-select
/// question whose correct answer is that character.
pub proof fn lemma_one_char_answer_is_single(row: Seq<Cell>, c: char)
    requires
        row_result(row) is Ok,
        cell_text(compact(row).last()) == seq![c],
    ensures
        row_result(row)->Ok_0.is_single(),
        row_result(row)->Ok_0.correct_spec == seq![c],
{
}

/// Once a row fails, the load has failed for good: later rows change nothing.
proof fn lemma_sheet_failure_sticks(rows: Seq<Vec<Cell>>, k: int, m: int)
    requires
        k <= m,
        sheet_result(rows, k) is Err,
    ensures
        sheet_result(rows, m) == sheet_result(rows, k),
    decreases m - k,
{
    if k < m {
        lemma_sheet_failure_sticks(rows, k, m - 1);
    }
}

/// The positions of the non-empty cells of `row`.
fn non_empty_positions(row: &Vec<Cell>) -> (r: Vec<usize>)
    ensures
        r@.len() == compact(row@).len(),
        forall|k: int|
            0 <= k < r@.len() ==> #[trigger] r@[k] < row@.len() && row@[r@[k] as int] == compact(row@)[k],
{
    let mut r: Vec<usize> = Vec::new();
    let mut i: usize = 0;
    while i < row.len()
        invariant
            i <= row@.len(),
            r@.len() == compact(row@.take(i as int)).len(),
            forall|k: int|
                0 <= k < r@.len() ==> #[trigger] r@[k] < i && row@[r@[k] as int] == compact(
                    row@.take(i as int),
                )[k],
        decreases row@.len() - i,
    {
        assert(row@.take(i + 1).drop_last() =~= row@.take(i as int));
        assert(row@.take(i + 1).last() == row@[i as int]);
        let ghost before = compact(row@.take(i as int));
        match &row[i] {
            Cell::Empty => {},
            _ => {
                r.push(i);
            },
        }
        assert(forall|k: int|
            0 <= k < before.len() ==> #[trigger] compact(row@.take(i + 1))[k] == before[k]);
        i = i + 1;
    }
    assert(row@.take(row@.len() as int) =~= row@);
    r
}

/// Turns one row (the header already left out) into a question.
pub fn parse_row(row: &Vec<Cell>) -> (r: Result<Question, RowFault>)
    ensures
        match r {
            Ok(q) => row_result(row@) == Ok::<QuestionView, RowFault>(q@),
            Err(f) => row_result(row@) == Err::<QuestionView, RowFault>(f),
        },
{
    let pos = non_empty_positions(row);
    let ghost c = compact(row@);
    let n = pos.len();
    if n < 2 {
        return Err(RowFault::TooFewCells);
    }
    if n - 2 > MAX_OPTIONS {
        return Err(RowFault::TooManyOptions);
    }
    let mut id = String::new();
    let mut options: Vec<String> = Vec::new();
    let mut correct_spec = String::new();
    let mut j: usize = 0;
    while j < n
        invariant
            n == pos@.len() == c.len(),
            2 <= n <= MAX_OPTIONS + 2,
            c == compact(row@),
            forall|k: int|
                0 <= k < n ==> #[trigger] pos@[k] < row@.len() && row@[pos@[k] as int] == c[k],
            j <= n,
            forall|k: int| 0 <= k < j ==> #[trigger] c[k] is Text,
            j > 0 ==> id@ == cell_text(c[0]),
            options@.len() == if j <= 1 { 0 } else if j < n { j - 1 } else { n - 2 },
            forall|k: int|
                0 <= k < options@.len() ==> #[trigger] options@[k]@ == cell_text(c[k + 1]),
            j == n ==> correct_spec@ == cell_text(c[n - 1]),
        decreases n - j,
    {
        match &row[pos[j]] {
            Cell::Text(s) => {
                if j == 0 {
                    id = s.clone();
                } else if j == n - 1 {
                    correct_spec = s.clone();
                } else {
                    options.push(s.clone());
                }
            },
            _ => {
                assert(!(c[j as int] is Text));
                return Err(RowFault::NotText);
            },
        }
        j = j + 1;
    }
    let q = Question { id, options, correct_spec };
    assert(q@.options =~= Seq::new((n - 2) as nat, |k: int| cell_text(c[k + 1])));
    Ok(q)
}

/// Builds the bank from a sheet's rows, row `0` being the header. The first row
/// that cannot become a question stops the load; a question whose text repeats
/// an earlier one overwrites it where it stands.
pub fn load_bank(rows: &Vec<Vec<Cell>>) -> (r: Result<Bank, MalformedRowError>)
    ensures
        match r {
            Ok(b) => b.wf() && sheet_result(rows@, rows@.len() as int) == SheetOutcome::Ok(b@),
            Err(e) => sheet_result(rows@, rows@.len() as int) == SheetOutcome::Err(
                (e.row as int, e.fault),
            ),
        },
{
    let mut bank = Bank::new();
    let mut i: usize = 1;
    if rows.len() <= 1 {
        return Ok(bank);
    }
    while i < rows.len()
        invariant
            1 <= i <= rows@.len(),
            bank.wf(),
            sheet_result(rows@, i as int) == SheetOutcome::Ok(bank@),
        decreases rows@.len() - i,
    {
        match parse_row(&rows[i]) {
            Ok(q) => {
                bank.insert(q);
            },
            Err(fault) => {
                proof {
                    lemma_sheet_failure_sticks(rows@, i + 1, rows@.len() as int);
                }
                return Err(MalformedRowError { row: i, fault });
            },
        }
        i = i + 1;
    }
    Ok(bank)
}

} // verus!
