//! The core of an RPG Maker localization tool: index-list parsing, engine
//! detection, title classification, configuration precedence, the decisions
//! of a run, archive unpacking and the media asset transform.
pub mod archive;
pub mod asset;
pub mod config;
pub mod layout;
pub mod ranges;
pub mod run;
pub mod text;
pub mod title;
