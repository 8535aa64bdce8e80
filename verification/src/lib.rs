//! A small framework core for multi-screen, event-driven terminal
//! applications.
//!
//! An application is a stack of *screens*. The crate owns the decision logic
//! of the main loop: which screen is on top, which lifecycle callbacks are
//! owed after each navigation action, and when the frame must be redrawn.
//! A thin asynchronous runner performs the callbacks and the terminal I/O;
//! this crate tells it, step by step, exactly what to do.
//!
//! - [`navigation`] holds the [`navigation::Navigator`] handle and the
//!   [`navigation::Action`] values that screens enqueue.
//! - [`lifecycle`] models the legal callback history of screen instances and
//!   proves the lifecycle laws (enter once, exit terminal, pauses and resumes
//!   alternate).
//! - [`engine`] is the screen stack and transition engine: it applies one
//!   action at a time and hands back the callback script the runner must
//!   execute.
//! - [`state`] is a small shared-state convenience for screen authors.

pub mod engine;
pub mod lifecycle;
pub mod navigation;
pub mod state;
