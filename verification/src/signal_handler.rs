//! The interrupt-cleanup decision: what an asynchronously delivered signal
//! must do, given the shared interrupt slot written before each recipe runs.
//!
//! The handler itself — registering with the operating system, deleting the
//! file, exiting — lives in the program around the library; it calls
//! [`interrupt_action`] with the slot's contents and performs exactly what
//! the returned action says.

use vstd::prelude::*;

verus! {

/// What a delivered signal must do.
#[derive(Debug, Clone, PartialEq, Eq)]
pub struct InterruptAction {
    /// Whether an interrupt notice is printed: a recipe was in progress.
    pub announce: bool,
    /// The half-built, non-precious target file to delete, if any.
    pub delete: Option<String>,
    /// The process exit status: 128 plus the signal number.
    pub exit_code: i32,
}

/// Decides the cleanup for a delivered signal: if the slot names a target
/// and that target is not precious, its file is deleted; either way the
/// process exits with `128 + signal_code`.
pub fn interrupt_action(slot: &Option<(String, bool)>, signal_code: i32) -> (r: InterruptAction)
    requires
        0 <= signal_code <= 1024,
    ensures
        r.announce == slot.is_some(),
        r.exit_code == 128 + signal_code,
        match slot {
            Some(pair) => r.delete == (if !pair.1 {
                Some(pair.0)
            } else {
                None::<String>
            }),
            None => r.delete is None,
        },
{
    match slot {
        Some(pair) => {
            let delete = if !pair.1 {
                Some(pair.0.clone())
            } else {
                None
            };
            InterruptAction { announce: true, delete, exit_code: 128 + signal_code }
        },
        None => InterruptAction { announce: false, delete: None, exit_code: 128 + signal_code },
    }
}

} // verus!
