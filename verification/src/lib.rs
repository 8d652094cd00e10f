//! Tima: the argument grammar and duration resolution of a countdown timer.
//!
//! A run of the timer is described by a sequence of textual tokens. The
//! [`grammar`] module holds the shape of a token and the value of a numeral,
//! [`units`] names the unit that a spelling stands for, [`token`] classifies
//! one token, and [`parser`] works on whole token sequences. The [`engine`] module folds a
//! token sequence into one [`engine::Tima`] configuration, and [`timer`] holds
//! the bare countdown that is left once the quiet flag is set aside.
pub mod grammar;
pub mod units;
pub mod token;
pub mod parser;
pub mod engine;
pub mod timer;
