pub mod text;
pub mod error;
pub mod format;
pub mod key;
pub mod tags;
pub mod maxspeed;
pub mod analyzers;
pub mod config;
pub mod storage;
pub mod selection;
pub mod api;
pub mod statistics;
pub mod columns;
