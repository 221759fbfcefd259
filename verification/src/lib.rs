//! Narrative-delivery core of an interactive-fiction game.
//!
//! The crate turns a small embedded dialogue language into a sequence of
//! displayable lines and resolves user-visible strings through a
//! localization layer with fallback and change-detection semantics.

pub mod class;
pub mod director;
pub mod fluent;
pub mod language;
pub mod lexer;
pub mod scripts;
pub mod setting;
pub mod text;
