//! The decisions of a client that keeps a local folder and a folder of a Cloudreve server in step,
//! and the requests of its file provider.
pub mod agenda;
pub mod aliases;
pub mod change;
pub mod change_laws;
pub mod change_outcomes;
pub mod commands;
pub mod deletions;
pub mod events;
pub mod failure_reasons;
pub mod faults;
pub mod finder;
pub mod hashing;
pub mod local_file;
pub mod local_scan;
pub mod mutations;
pub mod order;
pub mod outside;
pub mod path;
pub mod path_map;
pub mod plan;
pub mod provider;
pub mod reading;
pub mod reading_outcomes;
pub mod reconcile;
pub mod reconcile_laws;
pub mod reconcile_outcomes;
pub mod records;
pub mod remote_scan;
pub mod scan_outcomes;
pub mod scope;
pub mod steps;
pub mod sync;
pub mod sync_error;
pub mod text;
pub mod toast;
pub mod transfer_outcomes;
pub mod work;
