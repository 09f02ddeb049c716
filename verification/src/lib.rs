pub mod admission;
pub mod config;
pub mod dispatcher;
pub mod error;
pub mod job;
pub mod queue;
pub mod record;
pub mod source;
pub mod table;
pub mod text;
