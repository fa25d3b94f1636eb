//! A command-line weather client's core: the on-disk response cache (key
//! encoding, entry names, sweep-on-read lookups), the request URLs of the
//! lookup chain, the reading and conversion of observed temperatures, and the
//! layout of forecast periods into terminal columns.

pub mod api;
pub mod cache;
pub mod clock;
pub mod keys;
pub mod layout;
pub mod observe;
pub mod stamp;
pub mod text;
pub mod units;
pub mod wrap;
