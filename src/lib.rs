//! Structured reports from TeX and LaTeX build logs: the shapes of the
//! diagnostic lines, the records they yield, and the pass that folds
//! continuation lines into the record they continue.
pub mod grammar;
pub mod laws;
pub mod parser;
pub mod report;
