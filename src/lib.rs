//! A runtime version manager: the catalog of remote versions, the store of
//! installed versions, and the set of links that makes one of them active.
pub mod catalog;
pub mod cli;
pub mod error;
pub mod install;
pub mod platform;
pub mod store;
pub mod text;
pub mod version;
