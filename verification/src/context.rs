//! The process-scoped context: the application's identity and its
//! logging state, constructed once at startup and passed to whoever needs
//! them.  (Initialization-order hazards of ambient globals become plain
//! constructor obligations this way.)  The localization system the
//! process may also set up at startup is an external collaborator and has
//! no state here.

use crate::logging::Logging;
use vstd::prelude::*;

verus! {

/// Identity of the application, fixed at startup.
#[derive(Debug)]
pub struct About {
    pub qualifier: &'static str,
    pub organization: &'static str,
    pub app_name: &'static str,
    pub binary_name: &'static str,
    pub version: &'static str,
}

/// Builds the application's identity record.
pub fn about_init(
    qualifier: &'static str,
    organization: &'static str,
    app_name: &'static str,
    binary_name: &'static str,
    version: &'static str,
) -> (r: About)
    ensures
        r.qualifier@ == qualifier@,
        r.organization@ == organization@,
        r.app_name@ == app_name@,
        r.binary_name@ == binary_name@,
        r.version@ == version@,
{
    About { qualifier, organization, app_name, binary_name, version }
}

/// The process context.
pub struct AppContext {
    /// The application's identity.
    pub about: About,
    /// The process's logging state.
    pub logging: Logging,
}

/// Constructs the process context, as the first thing a process does.
pub fn init(
    qualifier: &'static str,
    organization: &'static str,
    app_name: &'static str,
    binary_name: &'static str,
    version: &'static str,
) -> (r: AppContext)
    ensures
        r.about.qualifier@ == qualifier@,
        r.about.organization@ == organization@,
        r.about.app_name@ == app_name@,
        r.about.binary_name@ == binary_name@,
        r.about.version@ == version@,
        r.logging.log_file_log_level is Trace,
        r.logging.console_log_level is Warn,
        r.logging.current_log_file is None,
{
    AppContext {
        about: about_init(qualifier, organization, app_name, binary_name, version),
        logging: Logging::new(),
    }
}

impl AppContext {
    /// The application's identity.
    pub fn about(&self) -> (r: &About)
        ensures
            r.qualifier@ == self.about.qualifier@,
            r.organization@ == self.about.organization@,
            r.app_name@ == self.about.app_name@,
            r.binary_name@ == self.about.binary_name@,
            r.version@ == self.about.version@,
    {
        &self.about
    }
}

} // verus!
