//! Backend core of a desktop companion application that records audio in
//! chunks and lets its frontend adjust capture parameters at runtime.
//!
//! The core is three pieces, each with a proved contract: a key/value
//! store of configuration overrides with a typed, never-failing view
//! ([`config`]); a stateless validator that keeps malformed chunk metadata
//! out of downstream processing ([`chunk`]); and a state machine mapping
//! tray, menu and window events to lifecycle actions ([`tray`]). The
//! [`dispatch`] module is the thin boundary that exposes the store and the
//! validator to the frontend as named operations. Everything effectful —
//! capture, rendering, the window itself — is an external collaborator of
//! the embedding layer.

pub mod chunk;
pub mod config;
pub mod dispatch;
pub mod tray;
