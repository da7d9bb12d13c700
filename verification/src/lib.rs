//! Request authorization for a small HTTP backend: a per-client token bucket
//! rate limiter, a verifier for signed bearer credentials, and the entry
//! point that composes the two in a fixed order in front of every route.

pub mod bucket;
pub mod credential;
pub mod decimal;
pub mod error;
pub mod gate;
pub mod hex;
pub mod html;
pub mod limiter;
pub mod mac;
pub mod models;
pub mod routes;
pub mod verify;
