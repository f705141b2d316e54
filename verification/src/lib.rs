//! Local captcha solving: image preprocessing, math-expression evaluation,
//! audio-format detection, slide-notch location, and a captcha crawler.
pub mod crawler;
pub mod html;
pub mod regex_search;
pub mod solver;
pub mod strings;
pub mod weburl;

pub use solver::{solve, SolverKind};
