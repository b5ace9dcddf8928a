pub mod inject;
pub mod lines;
pub mod packages;
pub mod pipeline;
pub mod plan;
pub mod search;
pub mod text;
pub mod tooling;
pub mod version;
