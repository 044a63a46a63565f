//! The values that travel between the host and an adapter.

pub mod failure;
pub mod frame;
pub mod json;
pub mod line_laws;
pub mod page;
pub mod record;
pub mod spelling_laws;
pub mod status;
pub mod timestamp;
