//! A file locator: an index of the files beneath a root directory, regular
//! expression queries over their names, and a paged browser over the matches.
pub mod browse;
pub mod command;
pub mod handle;
pub mod matcher;
pub mod paths;
pub mod search_engine;
pub mod walk;
