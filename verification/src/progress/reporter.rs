//! Render mode and its resolution.
use crate::cli::ProgressStyle;
use vstd::prelude::*;

verus! {

/// Resolved render mode (no `Auto`, which is resolved at startup).
#[derive(Debug, Clone, Copy, PartialEq, Eq, Structural)]
pub enum RenderMode {
    /// Rich output: phase animations, progress bar, colored summary.
    Fancy,
    /// Uncolored plain-text output with timing.
    Plain,
    /// Colored per-mutant lines and phase checkmarks (no progress bar).
    Verbose,
    /// Suppress all stderr progress output.
    Quiet,
}

impl RenderMode {
    /// Whether output in this mode is colored.
    pub open spec fn colors(self) -> bool {
        self is Fancy || self is Verbose
    }

    /// Whether output in this mode is colored.
    pub fn is_colored(&self) -> (r: bool)
        ensures
            r == self.colors(),
    {
        matches!(self, RenderMode::Fancy | RenderMode::Verbose)
    }
}

/// Resolve a [`ProgressStyle`] CLI value into a concrete [`RenderMode`].
///
/// - `--verbose` flag overrides `--progress` to [`RenderMode::Verbose`].
/// - `Auto` selects `Fancy` when stderr is a terminal, `Quiet` otherwise.
pub fn resolve_render_mode(
    verbose: bool,
    progress_style: ProgressStyle,
    stderr_is_terminal: bool,
) -> (r: RenderMode)
    ensures
        r == if verbose {
            RenderMode::Verbose
        } else {
            match progress_style {
                ProgressStyle::Auto => if stderr_is_terminal {
                    RenderMode::Fancy
                } else {
                    RenderMode::Quiet
                },
                ProgressStyle::Fancy => RenderMode::Fancy,
                ProgressStyle::Plain => RenderMode::Plain,
                ProgressStyle::Verbose => RenderMode::Verbose,
                ProgressStyle::Quiet => RenderMode::Quiet,
            }
        },
{
    if verbose {
        return RenderMode::Verbose;
    }
    match progress_style {
        ProgressStyle::Auto => {
            if stderr_is_terminal {
                RenderMode::Fancy
            } else {
                RenderMode::Quiet
            }
        },
        ProgressStyle::Fancy => RenderMode::Fancy,
        ProgressStyle::Plain => RenderMode::Plain,
        ProgressStyle::Verbose => RenderMode::Verbose,
        ProgressStyle::Quiet => RenderMode::Quiet,
    }
}

} // verus!
