//! Core logic of a small package manager front end: deciding when a
//! repository's file-manifest cache is stale, planning how an archive is
//! mirrored into that cache, parsing package metadata records, matching
//! file-ownership queries against package file lists, and ranking package
//! records against a free-text search term.
//!
//! Everything here is pure: filesystem, archive and transaction-engine
//! calls live in the surrounding application, which feeds plain values in
//! and carries the decisions out.

pub mod commands;
pub mod freshness;
pub mod owners;
pub mod rank;
pub mod record;
pub mod text;
pub mod unpack;
