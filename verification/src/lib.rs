//! A location-reporting library: a single-row-per-user position store with
//! upsert-with-freshness queries, a bearer-credential gate on the write path,
//! and the request-handling decisions that map store results to responses.
//!
//! Positions carry latitude and longitude as opaque 64-bit values and a
//! server-assigned timestamp in milliseconds; the store never interprets the
//! coordinate values and never keeps more than one row per name.

pub mod auth;
pub mod bootstrap;
pub mod db;
pub mod models;
pub mod routes;
