//! The dependency graph and the state of a browsing session over it.

pub mod dependency;
pub mod filter;
pub mod json;
pub mod load;
pub mod lock;
pub mod metadata;
pub mod reach;
pub mod resolve;
pub mod sort;
pub mod state;
pub mod store;
pub mod summary;
pub mod text;
pub mod trim;

pub use dependency::Dependency;
pub use filter::Filter;
pub use metadata::Metadata;
pub use state::DataState;
pub use store::MetadataStore;
