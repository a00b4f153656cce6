//! Administrator rights: whether the program has them, and whether it could be started with them.

use crate::text::{decimal, push_decimal};
use vstd::prelude::*;

verus! {

/// What the system told of the process's token.
#[derive(Debug, Clone, Copy, PartialEq, Eq, Structural)]
pub struct TokenQuery {
    /// Whether the token could be opened.
    pub opened: bool,
    /// Whether it could be asked.
    pub answered: bool,
    /// What it answered; not 0 with administrator rights.
    pub elevation: u32,
}

/// Decides whether the process has administrator rights. What cannot be asked has none; where there
/// are no tokens there is nothing to ask.
pub fn is_elevated(query: Option<TokenQuery>) -> (r: bool)
    ensures
        r == (match query {
            None => true,
            Some(q) => q.opened && q.answered && q.elevation != 0,
        }),
{
    match query {
        None => true,
        Some(q) => q.opened && q.answered && q.elevation != 0,
    }
}

/// Why the program could not be started with administrator rights.
#[derive(Debug, Clone, Copy, PartialEq, Eq, Structural)]
pub enum RelaunchError {
    /// Only Windows can do this.
    WindowsOnly,
    /// The user declined, or the launch failed with this code.
    Declined(i64),
}

/// Codes above this say that a launch went well.
pub const LAUNCH_FAILURE_MAX: i64 = 32;

/// Judges the launch of the program with administrator rights by its code, where there is one.
pub fn relaunch_elevated(code: Option<i64>) -> (r: Result<(), RelaunchError>)
    ensures
        r == (match code {
            None => Err::<(), RelaunchError>(RelaunchError::WindowsOnly),
            Some(c) => if c > LAUNCH_FAILURE_MAX {
                Ok(())
            } else {
                Err(RelaunchError::Declined(c))
            },
        }),
{
    match code {
        None => Err(RelaunchError::WindowsOnly),
        Some(c) => if c > LAUNCH_FAILURE_MAX {
            Ok(())
        } else {
            Err(RelaunchError::Declined(c))
        },
    }
}

/// The decimal numeral of a number that may be negative.
pub open spec fn signed_decimal(n: int) -> Seq<char> {
    if n < 0 {
        "-"@ + decimal((-n) as nat)
    } else {
        decimal(n as nat)
    }
}

/// How an error is told.
pub open spec fn relaunch_text(e: RelaunchError) -> Seq<char> {
    match e {
        RelaunchError::WindowsOnly => "UAC elevation is only available on Windows"@,
        RelaunchError::Declined(code) => "elevation declined or launch failed (ShellExecuteW returned "@
            + signed_decimal(code as int) + "); run as administrator"@,
    }
}

impl RelaunchError {
    /// The error in words.
    pub fn message(&self) -> (r: String)
        ensures
            r@ == relaunch_text(*self),
    {
        match self {
            RelaunchError::WindowsOnly => "UAC elevation is only available on Windows".to_owned(),
            RelaunchError::Declined(code) => {
                let mut out = "elevation declined or launch failed (ShellExecuteW returned ".to_owned();
                let mut digits = String::new();
                if *code < 0 {
                    digits.append("-");
                    push_decimal(&mut digits, (-(*code as i128)) as u64);
                    assert(digits@ =~= signed_decimal(*code as int));
                } else {
                    push_decimal(&mut digits, *code as u64);
                    assert(digits@ =~= signed_decimal(*code as int));
                }
                out.append(digits.as_str());
                out.append("); run as administrator");
                out
            },
        }
    }
}

} // verus!
