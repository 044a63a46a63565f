//! Personal-finance core: exact money, the adapter host and the observation
//! store, with every rule stated as a contract and proved.

pub mod host;
pub mod money;
pub mod store;
pub mod text;
pub mod wire;
