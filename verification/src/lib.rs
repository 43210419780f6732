//! Reading and writing the data model of Windows Installer (MSI) packages:
//! the relational database stored inside a compound file, its string pool,
//! its summary information, and the queries that read and change it.

mod bytes;
pub mod error;
mod text;
pub mod category;
pub mod codepage;
pub mod column;
pub mod streamname;
pub mod stringpool;
pub mod value;
pub mod table;
pub mod expr;
pub mod query;
pub mod propset;
pub mod time;
pub mod timestamp;
pub mod language;
pub mod summary;
pub mod package;
