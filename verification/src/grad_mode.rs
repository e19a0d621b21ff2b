use vstd::prelude::*;

verus! {

/// Whether differentiable operations record autograd graphs. A runtime
/// keeps one per thread; it starts enabled.
#[derive(Clone, Copy, Debug, PartialEq, Eq, Structural)]
pub struct GradMode {
    pub enabled: bool,
}

impl GradMode {
    pub fn new() -> (m: Self)
        ensures
            m.enabled,
    {
        GradMode { enabled: true }
    }
}

pub fn is_grad_enabled(mode: &GradMode) -> (b: bool)
    ensures
        b == mode.enabled,
{
    mode.enabled
}

/// Runs `f` with recording disabled and then restores the previous mode,
/// whatever it was.
pub fn no_grad<R, F: FnOnce(&GradMode) -> R>(mode: &mut GradMode, f: F) -> (r: R)
    requires
        f.requires((&GradMode { enabled: false },)),
    ensures
        *final(mode) == *old(mode),
        f.ensures((&GradMode { enabled: false },), r),
{
    let previous = mode.enabled;
    mode.enabled = false;
    let result = f(&*mode);
    mode.enabled = previous;
    result
}

/// A value records gradients only when it asks for them and recording is on.
pub fn should_track_grad(mode: &GradMode, requires_grad: bool) -> (b: bool)
    ensures
        b == (requires_grad && mode.enabled),
{
    requires_grad && is_grad_enabled(mode)
}

} // verus!
