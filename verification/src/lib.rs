//! A verified interpreter for a small dice-notation language.
//!
//! The library parses whitespace-delimited tokens such as `3d6`, `+d20`,
//! `-2` or `! a comment` into a structured request, evaluates the request
//! by drawing from an injected random source, and offers a streaming
//! moment accumulator for statistical self-testing of that source.

pub mod numbers;
pub mod request;
pub mod token;
pub mod parser;
pub mod rng;
pub mod eval;
pub mod stats;

pub use eval::evaluate;
pub use parser::clause_tokens;
pub use parser::parse;
pub use request::DiceGroup;
pub use request::DiceRequest;
pub use request::Mode;
pub use request::ParseError;
pub use request::RollOutcome;
pub use request::ValidationError;
pub use rng::EntropyRandomSource;
pub use rng::FixedRandomSource;
pub use rng::RandomSource;
pub use stats::self_test;
pub use stats::MomentAccumulator;
pub use stats::Statistics;
