//! Task-manager core: process rows and their ordering, formatting helpers,
//! desktop-entry autostart logic, systemd unit listing rules and the
//! console front end's state machine.

use vstd::prelude::*;

pub mod actions;
pub mod console;
pub mod desktop;
pub mod performance;
pub mod ordering;
pub mod processes;
pub mod sampler;
pub mod services;
pub mod startup;
pub mod text;
pub mod util;
pub mod view;

pub use actions::KillSignal;
pub use performance::{DiskStats, MemStats, NetStats};
pub use processes::{ProcessRow, ProcessStatus, SortColumn, SortOrder, SortState};
pub use sampler::RefreshKind;
pub use util::{human_bytes, opt_bytes, truncate};

verus! {

/// `std::io::Error`, carried by [`CoreError::Io`] without being looked into.
#[verifier::external_type_specification]
#[verifier::external_body]
pub struct ExIoError(std::io::Error);

/// Why a core operation failed.
#[derive(Debug)]
pub enum CoreError {
    Io(std::io::Error),
    PermissionDenied(Option<String>),
    NotFound(String),
    DBus(String),
    Invalid(String),
}

} // verus!
