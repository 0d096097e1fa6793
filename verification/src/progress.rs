//! Output-mode configuration and progress arithmetic.
//!
//! The mode is an explicit value threaded from the boundary into
//! whatever renders output — no process-wide state.

use vstd::arithmetic::div_mod::lemma_multiply_divide_lt;
use vstd::prelude::*;

verus! {

/// How the boundary should render results and progress.
#[derive(Debug, Clone, Copy, PartialEq, Eq, Structural)]
pub struct OutputMode {
    /// Emit machine-readable JSON instead of human-readable text.
    pub json: bool,
    /// Emit progress updates.
    pub progress: bool,
}

pub open spec fn default_output_mode() -> OutputMode {
    OutputMode { json: false, progress: true }
}

/// Build the output mode from the boundary's flags.
pub fn set_output_mode(json: bool, progress: bool) -> (r: OutputMode)
    ensures
        r == (OutputMode { json, progress }),
{
    OutputMode { json, progress }
}

/// The mode to use: the configured one, or the default of human-readable
/// output with progress.
pub fn output_mode(configured: Option<OutputMode>) -> (r: OutputMode)
    ensures
        configured is Some ==> r == configured->0,
        configured is None ==> r == default_output_mode(),
{
    match configured {
        Some(mode) => mode,
        None => OutputMode { json: false, progress: true },
    }
}

/// Progress as a fraction in permille: 1000 once `current` reaches
/// `total`, and also for an empty total, where there is nothing left to
/// do.
pub open spec fn permille_spec(current: nat, total: nat) -> nat {
    if total == 0 || current >= total {
        1000
    } else {
        current * 1000 / total
    }
}

/// The permille fraction of work done, for progress events.
pub fn progress_permille(current: u64, total: u64) -> (r: u32)
    ensures
        r as nat == permille_spec(current as nat, total as nat),
        r <= 1000,
{
    if total == 0 || current >= total {
        1000
    } else {
        let wide: u128 = (current as u128) * 1000 / (total as u128);
        proof {
            assert((current as int) * 1000 < (total as int) * 1000) by (nonlinear_arith)
                requires
                    (current as int) < (total as int),
            ;
            lemma_multiply_divide_lt((current as int) * 1000, total as int, 1000);
        }
        wide as u32
    }
}

} // verus!
