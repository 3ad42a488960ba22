pub mod algo;
pub mod base36;
pub mod config;
pub mod dbms;
pub mod docs;
pub mod error;
pub mod fsnames;
pub mod identity;
pub mod map;
pub mod meta;
pub mod pathutil;
pub mod rawmap;
pub mod seal;
pub mod sewer;
pub mod snapshot;
pub mod textutil;
pub mod timeutil;
pub mod weight;
