//! Launch at login: what the app writes to (or removes from) the user's
//! `Run` registry key.

use vstd::prelude::*;
use crate::config::StartupSettings;
use crate::text::push_str_chars;
use crate::utf16::{encode, wide_null};

verus! {

#[derive(Debug, Clone, PartialEq, Eq)]
pub enum StartupError {
    /// The path of the running executable could not be read.
    ExecutablePath(String),
    /// The registry refused a change.
    Windows(String),
}

pub open spec fn startup_error_text(e: StartupError) -> Seq<char> {
    match e {
        StartupError::ExecutablePath(s) => "failed to resolve BGWM executable path: "@ + s@,
        StartupError::Windows(s) => "failed to update Windows startup registration: "@ + s@,
    }
}

impl StartupError {
    /// The error's message.
    pub fn message(&self) -> (r: String)
        ensures
            r@ == startup_error_text(*self),
    {
        let mut s = String::new();
        match self {
            StartupError::ExecutablePath(m) => {
                push_str_chars(&mut s, "failed to resolve BGWM executable path: ");
                push_str_chars(&mut s, m.as_str());
            },
            StartupError::Windows(m) => {
                push_str_chars(&mut s, "failed to update Windows startup registration: ");
                push_str_chars(&mut s, m.as_str());
            },
        }
        assert(s@ =~= startup_error_text(*self));
        s
    }
}

pub open spec fn quoted(exe: Seq<char>) -> Seq<char> {
    seq!['"'] + exe + seq!['"']
}

/// The command line registered to run at login: the executable path in
/// double quotes.
pub fn startup_command(exe: &str) -> (r: String)
    ensures
        r@ == quoted(exe@),
{
    let mut s = String::new();
    s.push('"');
    push_str_chars(&mut s, exe);
    s.push('"');
    assert(s@ =~= quoted(exe@));
    s
}

/// What to do with the registry.
#[derive(Debug, Clone, PartialEq, Eq)]
pub enum StartupRegistration {
    /// Remove the app's value from the `Run` key and from the legacy
    /// `StartupApproved\Run` key.
    Unregister,
    /// Write the command (and its zero-terminated UTF-16 data) to the
    /// `Run` key.
    Register { command: String, value_data: Vec<u16> },
}

/// The registration that the settings ask for. `exe` is the path of the
/// running executable, or the error met reading it; it is only needed when
/// the app is to run at login.
pub fn registration_plan(settings: &StartupSettings, exe: Result<String, StartupError>) -> (r: Result<
    StartupRegistration,
    StartupError,
>)
    ensures
        !settings.launch_at_login ==> r == Ok::<StartupRegistration, StartupError>(
            StartupRegistration::Unregister,
        ),
        settings.launch_at_login ==> match exe {
            Err(e) => r == Err::<StartupRegistration, StartupError>(e),
            Ok(p) => match r {
                Ok(StartupRegistration::Register { command, value_data }) => command@ == quoted(p@)
                    && value_data@ == encode(quoted(p@)).push(0),
                _ => false,
            },
        },
{
    if !settings.launch_at_login {
        return Ok(StartupRegistration::Unregister);
    }
    match exe {
        Err(e) => Err(e),
        Ok(p) => {
            let command = startup_command(p.as_str());
            let value_data = wide_null(command.as_str());
            Ok(StartupRegistration::Register { command, value_data })
        },
    }
}

/// Registry results that mean "nothing there": `ERROR_FILE_NOT_FOUND` and
/// `ERROR_NOT_FOUND`.
pub fn is_not_found_code(code: u32) -> (r: bool)
    ensures
        r == (code == 2 || code == 1168),
{
    code == 2 || code == 1168
}

} // verus!
