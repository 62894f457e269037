//! Indexing of delimited text corpora ("fortune" files) into a compact binary
//! offset table, and weighted random retrieval of records across many indexes.

pub mod build_options;
pub mod builder;
pub mod codec;
pub mod data_file;
pub mod error;
pub mod flags;
pub mod fortune;
pub mod header;
pub mod paths;
pub mod query_options;
pub mod select;
pub mod store;

pub use data_file::DataFile;
pub use error::FortuneError;
pub use flags::Flags;
pub use fortune::{Fortune, FortuneStats};
pub use header::Header;
pub use store::FortuneFileInfo;
