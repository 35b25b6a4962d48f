//! The core of a command-line study tool: a named collection of quiz
//! questions, a session that presents some of them in an order drawn from a
//! seed, one grading rule for each type of question, and the score.
//!
//! The library decides and never does: reading files, prompting and
//! printing are left to the program around it. That program tells the
//! session what happened, as an [`Event`], and is told what to do next, as
//! an [`Action`].
//!
//! - [`question`] and [`exam`] hold the data model;
//! - [`loader`] makes an exam from the fields of a document;
//! - [`grader`] grades a response, [`reading`] reads one from a line;
//! - [`order`] draws the order of presentation;
//! - [`session`] is the state machine;
//! - [`input`] and [`catalog`] say what the lines mean that the user types;
//! - [`text`], [`text_set`] and [`outcome`] serve the others.

pub mod catalog;
pub mod exam;
pub mod grader;
pub mod input;
pub mod loader;
pub mod order;
pub mod outcome;
pub mod question;
pub mod reading;
pub mod session;
pub mod text;
pub mod text_set;

pub use exam::Exam;
pub use grader::{grade, Response, Verdict};
pub use question::{LoadError, Question, QuestionType};
pub use session::{Action, Event, QuizSession, Score, SessionState};
