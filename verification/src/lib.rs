//! Navigation engine for browsing a package dependency graph.
//!
//! `data` holds the graph, the way its records are listed, ordered and
//! filtered, and the session that walks through it. `ui` holds what the
//! screen keeps between two drawings. `app` joins a session and a screen
//! and runs the commands that keys give. `error` names what can go wrong
//! around a session.

pub mod app;
pub mod data;
pub mod error;
pub mod ui;
