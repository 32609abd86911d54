//! Status of a feature module that is not available on this host.
use vstd::prelude::*;

verus! {

/// What the stub endpoints answer for a module.
#[derive(Debug, Clone, Copy)]
pub struct ModuleStatus {
    pub module: &'static str,
    pub status: &'static str,
    pub message: &'static str,
}

} // verus!
