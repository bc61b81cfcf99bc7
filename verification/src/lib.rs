//! Slate: block-device provenance resolution and transactional deployment of
//! themed application configuration for a single-user desktop.
//!
//! The functions of this crate are checked by Verus against the contracts
//! they carry, but for the few that call an outside crate: of `tera`,
//! `serde_json`, `regex` and `shellexpand`, and of `String::push`, the
//! contract is believed as it stands, and says so. Text is modelled as
//! `Seq<char>`, the view of `str` and `String`.
//!
//! - `color`: hexadecimal colours and the formats templates ask for.
//! - `config`: the configuration and the keys that can be set by name.
//! - `system`: from a mount point down to the physical partition and its
//!   stable identifiers, over a snapshot of the system.
//! - `template`: the colour filters and the template engine.
//! - `reload`: the deployment pipeline, as a machine of stages that names
//!   each action and takes its outcome.
//! - `path`, `text`: paths and text as the other modules need them.
//! - `forge`, `preflight`, `install`, `wall`: what setting up a disk, a boot
//!   loader and a wallpaper has to decide.

pub mod text;
pub mod path;
pub mod color;
pub mod config;
pub mod system;
pub mod template;
pub mod reload;
pub mod forge;
pub mod preflight;
pub mod install;
pub mod wall;
