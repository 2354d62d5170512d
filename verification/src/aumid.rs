//! The client's AppUserModelID, under which Windows attributes its toasts.
//! Registering it is a Windows-only shell operation; on other platforms
//! registration is a no-op that succeeds.

use vstd::prelude::*;

verus! {

/// This app's AppUserModelID.
pub const APP_ID: &'static str = "UpsMonitor.Client";

/// Whether the AppUserModelID was registered this run (toasts are sent
/// under it only then, since Windows drops toasts from an unregistered id).
#[derive(Debug, Clone, Copy)]
pub struct Registration {
    registered: bool,
}

impl Registration {
    /// Whether registration succeeded.
    pub closed spec fn succeeded(&self) -> bool {
        self.registered
    }

    /// Nothing registered yet.
    pub fn new() -> (r: Self)
        ensures
            !r.succeeded(),
    {
        Registration { registered: false }
    }
}

/// Register the AppUserModelID. On this platform there is nothing to
/// register, and it succeeds.
pub fn try_register() -> (r: Result<(), String>)
    ensures
        r is Ok,
{
    Ok(())
}

/// Register (idempotent, safe to call every startup) and remember whether
/// it worked.
pub fn ensure_registered(reg: &mut Registration)
    ensures
        final(reg).succeeded(),
{
    let ok = match try_register() {
        Ok(()) => true,
        Err(_) => false,
    };
    reg.registered = ok;
}

/// Whether `ensure_registered` succeeded this run.
pub fn is_registered(reg: &Registration) -> (r: bool)
    ensures
        r == reg.succeeded(),
{
    reg.registered
}

} // verus!
