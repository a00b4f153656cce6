//! The command line: which way the program is to run.

use crate::text::str_eq;
use vstd::prelude::*;

verus! {

/// Exit code of a run that went well.
pub const EXIT_OK: i32 = 0;

/// Exit code of a run that failed.
pub const EXIT_FAILURE: i32 = 1;

/// Exit code of what only Windows can do, elsewhere.
pub const EXIT_WINDOWS_ONLY: i32 = 2;

/// Which way the program is to run.
#[derive(Debug, PartialEq, Eq)]
pub enum Dispatch {
    /// In the foreground.
    Console,
    /// Under the service manager.
    Service,
    /// Register the service.
    Install,
    /// Remove the service.
    Uninstall,
    /// The argument means nothing.
    Unknown(String),
}

/// What a way to run stands for.
#[verifier::ext_equal]
pub enum DispatchView {
    Console,
    Service,
    Install,
    Uninstall,
    Unknown(Seq<char>),
}

impl View for Dispatch {
    type V = DispatchView;

    open spec fn view(&self) -> DispatchView {
        match self {
            Dispatch::Console => DispatchView::Console,
            Dispatch::Service => DispatchView::Service,
            Dispatch::Install => DispatchView::Install,
            Dispatch::Uninstall => DispatchView::Uninstall,
            Dispatch::Unknown(a) => DispatchView::Unknown(a@),
        }
    }
}

/// What the first argument asks for; the others do not count.
pub open spec fn dispatch_for(args: Seq<String>) -> DispatchView {
    if args.len() == 0 {
        DispatchView::Console
    } else if args[0]@ == "--service"@ {
        DispatchView::Service
    } else if args[0]@ == "--install"@ {
        DispatchView::Install
    } else if args[0]@ == "--uninstall"@ {
        DispatchView::Uninstall
    } else {
        DispatchView::Unknown(args[0]@)
    }
}

/// Reads the command line, without the program's name.
pub fn parse_dispatch(args: &[String]) -> (r: Dispatch)
    ensures
        r@ == dispatch_for(args@),
{
    if args.len() == 0 {
        return Dispatch::Console;
    }
    let first = args[0].as_str();
    if str_eq(first, "--service") {
        Dispatch::Service
    } else if str_eq(first, "--install") {
        Dispatch::Install
    } else if str_eq(first, "--uninstall") {
        Dispatch::Uninstall
    } else {
        Dispatch::Unknown(first.to_owned())
    }
}

} // verus!
