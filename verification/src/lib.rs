//! Editing of game-asset containers and tables: nested SARC archives, the
//! resource size table, and the textual forms of AAMP, BYML and MSBT files.

pub mod aamp;
pub mod archive;
pub mod args;
pub mod assoc;
pub mod byml;
pub mod bytes;
pub mod error;
pub mod names;
pub mod nesting;
pub mod paths;
pub mod rstb;
pub mod sarc;
pub mod scan;
pub mod stock;
pub mod text;
pub mod tree;
pub mod view;
pub mod yaml;
pub mod yaz0;
