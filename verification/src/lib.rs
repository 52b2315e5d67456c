pub mod convert;
pub mod error;
pub mod laws;
pub mod order;
pub mod pattern;
pub mod pipeline;
pub mod record;
pub mod report;
pub mod template;
pub mod text;
