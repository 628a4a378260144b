//! Benchmark scores and the filter pipeline that selects and orders them.

pub mod builder;
pub mod collection;
pub mod db;
pub mod error;
pub mod filter;
pub mod identity;
pub mod names;
pub mod order;
pub mod score;
pub mod scoreboard;
pub mod select;
pub mod seqs;
pub mod text;
pub mod time;

pub use builder::Builder;
pub use collection::Collection;
pub use db::Db;
pub use error::Error;
pub use error::Flaw;
pub use filter::Filter;
pub use filter::FilterView;
pub use filter::Slot;
pub use filter::SortColumn;
pub use score::Field;
pub use score::Score;
pub use score::ScoreView;
pub use score::Value;
pub use scoreboard::ScoreBoard;
pub use time::NiceTime;
pub use time::TimeUnit;
