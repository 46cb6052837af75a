pub mod dates;
pub mod filter;
pub mod parse;
pub mod state;
pub mod task;
pub mod text;
