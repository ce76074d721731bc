//! An in-memory static-site content engine: a sorted content store with
//! layout injection, clean-URL request resolution with dotfile protection,
//! request-time template substitution (visit counter, operator strings,
//! image gallery), and a dedup-windowed visit tracker with periodic
//! persistence decisions.

pub mod config;
pub mod consts;
pub mod customs;
pub mod ext;
pub mod render;
pub mod router;
pub mod store;
pub mod textops;
pub mod visits;
