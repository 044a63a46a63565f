//! The observation store: what is kept, how a sweep fills it, and what the
//! user is shown of it.

pub mod adapter_run;
pub mod balances_laws;
pub mod cli;
pub mod coherence_laws;
pub mod column_laws;
pub mod command_line_laws;
pub mod commands;
pub mod content_laws;
pub mod error;
pub mod evidence_laws;
pub mod gate;
pub mod hash;
pub mod history_laws;
pub mod ingest;
pub mod live;
pub mod load;
pub mod model;
pub mod order;
pub mod page_laws;
pub mod picking_laws;
pub mod profile;
pub mod raw;
pub mod raw_rows;
pub mod refresh;
pub mod refresh_laws;
pub mod render;
pub mod report;
pub mod retake_laws;
pub mod retake_pages_laws;
pub mod retract;
pub mod retraction_laws;
pub mod rows;
pub mod show_laws;
pub mod status_laws;
pub mod sweep;
pub mod sweep_laws;
pub mod table_laws;
pub mod tables;
