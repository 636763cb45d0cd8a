//! Enrollment service core: machines, tokens and the configuration written for
//! the tunnel and the browser terminal that carry the traffic.

pub mod clock;
pub mod clocked;
pub mod config;
pub mod db;
pub mod digest;
pub mod effects;
pub mod json;
pub mod laws;
pub mod notices;
pub mod ops;
pub mod outcomes;
pub mod random;
pub mod rathole;
pub mod requests;
pub mod serve;
pub mod termix;
pub mod text;
pub mod util;
pub mod wording;
