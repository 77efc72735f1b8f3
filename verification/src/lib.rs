//! Core of a tabular-statistics front end: projection of numeric columns out
//! of heterogeneous spreadsheet cells, the request/response protocol to an
//! external statistics engine run as a subprocess, and an ephemeral
//! token-addressed store that hands a result table from one caller to another.

pub mod cell;
pub mod engine;
pub mod json;
pub mod options;
pub mod project;
pub mod store;
pub mod table;
pub mod text;

