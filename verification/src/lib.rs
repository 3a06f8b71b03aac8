//! Back-translation pipeline: language-tag validation, a bounded translation
//! cache, retry and backoff decisions for an unreliable translation endpoint,
//! and a cancellable batch coordinator.

pub mod back_translation;
pub mod batch;
pub mod cancel;
pub mod cli;
pub mod clock;
pub mod epub;
pub mod error;
pub mod export;
pub mod file_service;
pub mod html;
pub mod language;
pub mod memory;
pub mod models;
pub mod request;
pub mod response;
pub mod retry;
pub mod text;
pub mod translation;
