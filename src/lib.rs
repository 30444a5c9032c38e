//! Window-focus activity tracking: a verified session engine, the format
//! of its log lines, and the rules for choosing a log file and resuming
//! record numbering.
pub mod engine;
pub mod line;
pub mod logfile;
pub mod runs;
