pub mod error;
pub mod parse;
pub mod catalog;
pub mod install;
pub mod paths;
pub mod proxy;
pub mod registry;
pub mod version;
