//! DemoStage — demos as code: the verified core.
//!
//! A terminal session is captured as a sequence of events, normalized into a
//! clean score, and compiled to several output formats. This crate holds the
//! logic of that pipeline with its contracts.

use vstd::prelude::*;

pub mod browser;
pub mod canvas;
pub mod cast;
pub mod cells;
pub mod capture;
pub mod cli;
pub mod composite;
pub mod decode;
pub mod control;
pub mod doctor;
pub mod edit;
pub mod error;
pub mod export;
pub mod focus;
pub mod fonts;
pub mod gif;
pub mod html;
pub mod mime;
pub mod open;
pub mod pdf;
pub mod playback;
pub mod model;
pub mod raster;
pub mod recording;
pub mod replay;
pub mod reveal_edit;
pub mod reveals;
pub mod screenshot;
pub mod session;
pub mod setup;
pub mod shell;
pub mod stage;
pub mod text;

verus! {

/// The command a user types inside a capture to end it. The normalizer drops
/// it from the score so it never shows up in the finished demo.
pub const STOP_COMMAND: &'static str = "demo stop";

/// The DemoStage wordmark, shown at the top of a capture. Each line keeps its
/// leading spaces.
pub const BANNER: &'static str = "\n     █████                                    █████████   █████\n    ░░███                                    ███░░░░░███ ░░███\n  ███████   ██████  █████████████    ██████ ░███    ░░░  ███████    ██████    ███████  ██████\n ███░░███  ███░░███░░███░░███░░███  ███░░███░░█████████ ░░░███░    ░░░░░███  ███░░███ ███░░███\n░███ ░███ ░███████  ░███ ░███ ░███ ░███ ░███ ░░░░░░░░███  ░███      ███████ ░███ ░███░███████\n░███ ░███ ░███░░░   ░███ ░███ ░███ ░███ ░███ ███    ░███  ░███ ███ ███░░███ ░███ ░███░███░░░\n░░████████░░██████  █████░███ █████░░██████ ░░█████████   ░░█████ ░░████████░░███████░░██████\n ░░░░░░░░  ░░░░░░  ░░░░░ ░░░ ░░░░░  ░░░░░░   ░░░░░░░░░     ░░░░░   ░░░░░░░░  ░░░░░███ ░░░░░░\n                                                                              ███ ░███\n                                                                             ░░██████\n                                                                              ░░░░░░";

} // verus!
