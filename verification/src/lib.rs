//! sloppy: regex-based detection of AI prose tells, with a score from 0 to 100.
use vstd::prelude::*;

pub mod text;
pub mod entries;
pub mod matching;
pub mod models;
pub mod value;
pub mod stats;
pub mod double;
pub mod checks;
pub mod config;
pub mod detector;
pub mod voice;
pub mod defaults;
pub mod skill;
pub mod report;

pub use config::{Config, CheckConfig, load_config};
pub use detector::{analyze, analyze_checked};
pub use models::{CheckScore, SlopFlag, SlopResult};
pub use voice::{generate_chat_prompt, generate_voice_directive};

verus! {

} // verus!
