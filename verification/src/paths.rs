//! Where the app keeps its files: `%LOCALAPPDATA%\bgwm\`, with the user's
//! local application data directory (`LOCALAPPDATA`) or `.` when it is not
//! set. Paths are Windows paths joined the way `Path::join` joins a relative
//! component.

use vstd::prelude::*;
use crate::text::{chars_of, push_all, push_str_chars};

verus! {

pub open spec fn is_path_sep(c: char) -> bool {
    c == '\\' || c == '/'
}

/// A bare drive prefix such as `C:`.
pub open spec fn is_bare_drive(p: Seq<char>) -> bool {
    p.len() == 2 && p[1] == ':' && (('a' <= p[0] && p[0] <= 'z') || ('A' <= p[0] && p[0] <= 'Z'))
}

/// `base` joined with a relative component: a `\` goes between them unless
/// `base` is empty, ends with a separator, or is a bare drive.
pub open spec fn join_spec(base: Seq<char>, component: Seq<char>) -> Seq<char> {
    if base.len() == 0 || is_path_sep(base.last()) || is_bare_drive(base) {
        base + component
    } else {
        base + seq!['\\'] + component
    }
}

/// Joins a relative component to a path.
pub fn join_path(base: &str, component: &str) -> (r: String)
    ensures
        r@ == join_spec(base@, component@),
{
    let b = chars_of(base);
    let n = b.len();
    let bare_drive = n == 2 && b[1] == ':' && (('a' <= b[0] && b[0] <= 'z') || ('A' <= b[0] && b[0]
        <= 'Z'));
    let mut s = String::new();
    push_all(&mut s, &b);
    if !(n == 0 || b[n - 1] == '\\' || b[n - 1] == '/' || bare_drive) {
        s.push('\\');
    }
    push_str_chars(&mut s, component);
    assert(s@ =~= join_spec(base@, component@));
    s
}

pub open spec fn app_data_or_dot(local_app_data: Option<Seq<char>>) -> Seq<char> {
    match local_app_data {
        Some(p) => p,
        None => "."@,
    }
}

pub open spec fn config_dir_spec(local_app_data: Option<Seq<char>>) -> Seq<char> {
    join_spec(app_data_or_dot(local_app_data), "bgwm"@)
}

pub open spec fn opt_str_view(s: Option<&str>) -> Option<Seq<char>> {
    match s {
        Some(t) => Some(t@),
        None => None,
    }
}

/// The app's directory in the user's local application data directory.
pub fn config_dir(local_app_data: Option<&str>) -> (r: String)
    ensures
        r@ == config_dir_spec(opt_str_view(local_app_data)),
{
    let base = match local_app_data {
        Some(p) => p,
        None => ".",
    };
    join_path(base, "bgwm")
}

/// The configuration file, `config.json` in the app's directory.
pub fn config_path(local_app_data: Option<&str>) -> (r: String)
    ensures
        r@ == join_spec(config_dir_spec(opt_str_view(local_app_data)), "config.json"@),
{
    let d = config_dir(local_app_data);
    join_path(d.as_str(), "config.json")
}

/// The updater's state file, `update_state.json` in the app's directory.
pub fn update_state_path(local_app_data: Option<&str>) -> (r: String)
    ensures
        r@ == join_spec(config_dir_spec(opt_str_view(local_app_data)), "update_state.json"@),
{
    let d = config_dir(local_app_data);
    join_path(d.as_str(), "update_state.json")
}

} // verus!
