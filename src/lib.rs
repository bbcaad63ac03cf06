//! Question model, per-session selection state and grading for a quiz runner.
//!
//! A sheet of rows becomes a [`Bank`] of questions ([`load_bank`]); a
//! [`SessionState`] holds what has been chosen for each; grading
//! ([`check_answers`]) counts right single-select choices and adds the wrong ones
//! to a [`WrongRecord`], which only ever grows.

pub mod bank;
pub mod grading;
pub mod linked;
pub mod loader;
pub mod question;
pub mod record;
pub mod session;

pub use bank::Bank;
pub use grading::{check_answers, evaluate, option_text, record_wrong, score};
pub use loader::{load_bank, parse_row, Cell, MalformedRowError, RowFault};
pub use question::{
    derive_correctness, evaluate_multi, evaluate_single, option_label, Question, MAX_OPTIONS,
};
pub use record::WrongRecord;
pub use session::{SessionError, SessionState, Status};
