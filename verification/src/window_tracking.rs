//! Window facts the app routing relies on: which windows count as main
//! application windows, which processes run a configured executable, and
//! the file name of a process image path.

use vstd::prelude::*;
use std::collections::HashSet;
use crate::config::{matches_executable, matches_spec};
use crate::text::{chars_eq_str, chars_of, find_first_sep, first_sep, split, split_chars, string_from, subvec, views, Sep};

verus! {

broadcast use {
    vstd::std_specs::hash::group_hash_axioms,
    vstd::std_specs::hash::axiom_u32_obeys_hash_table_key_model,
    vstd::std_specs::hash::axiom_random_state_builds_valid_hashers,
};

pub const MAIN_WINDOW_MIN_WIDTH: i32 = 100;
pub const MAIN_WINDOW_MIN_HEIGHT: i32 = 100;
pub const WS_POPUP: u32 = 0x8000_0000;
pub const WS_CAPTION: u32 = 0x00C0_0000;
pub const WS_EX_TOOLWINDOW: u32 = 0x0000_0080;

/// Events of the window watcher.
#[derive(Debug, Clone, PartialEq, Eq)]
pub enum AppWindowEvent {
    MainWindowShown { hwnd: isize, executable: String },
    MainWindowDestroyed { pid: u32, hwnd: isize },
}

/// What the system reports about a window.
#[derive(Debug, Clone, PartialEq, Eq)]
pub struct WindowAttributes {
    pub is_null: bool,
    pub visible: bool,
    pub has_owner: bool,
    pub style: u32,
    pub ex_style: u32,
    /// Window class, when the system reported a non-empty one.
    pub class_name: Option<String>,
    /// Width and height of the window rectangle, when known.
    pub size: Option<(i32, i32)>,
}

pub open spec fn is_shell_class(c: Seq<char>) -> bool {
    c == "Shell_TrayWnd"@ || c == "Progman"@ || c == "WorkerW"@
}

/// A main application window: unowned, not a caption-less popup, not a
/// tool window, not a shell surface, at least 100×100; visible when asked.
pub open spec fn is_main_window_spec(w: WindowAttributes, require_visible: bool) -> bool {
    &&& !w.is_null
    &&& !(require_visible && !w.visible)
    &&& !w.has_owner
    &&& !((w.style & WS_POPUP) != 0 && (w.style & WS_CAPTION) == 0)
    &&& (w.ex_style & WS_EX_TOOLWINDOW) == 0
    &&& !(w.class_name matches Some(c) && is_shell_class(c@))
    &&& (w.size matches Some((width, height)) && width >= MAIN_WINDOW_MIN_WIDTH && height
        >= MAIN_WINDOW_MIN_HEIGHT)
}

pub fn is_main_window_inner(w: &WindowAttributes, require_visible: bool) -> (r: bool)
    ensures
        r == is_main_window_spec(*w, require_visible),
{
    if w.is_null {
        return false;
    }
    if require_visible && !w.visible {
        return false;
    }
    if w.has_owner {
        return false;
    }
    if (w.style & WS_POPUP) != 0 && (w.style & WS_CAPTION) == 0 {
        return false;
    }
    if (w.ex_style & WS_EX_TOOLWINDOW) != 0 {
        return false;
    }
    if let Some(class) = &w.class_name {
        let c = chars_of(class.as_str());
        if chars_eq_str(&c, "Shell_TrayWnd") || chars_eq_str(&c, "Progman") || chars_eq_str(
            &c,
            "WorkerW",
        ) {
            return false;
        }
    }
    match w.size {
        Some((width, height)) => width >= MAIN_WINDOW_MIN_WIDTH && height >= MAIN_WINDOW_MIN_HEIGHT,
        None => false,
    }
}

/// A main window is at least 100 wide and 100 high: a window of unknown
/// size, or narrower or lower than that, never is one; and a main window
/// stays one when only its size changes to another of at least 100×100.
pub proof fn lemma_main_window_size(w: WindowAttributes, require_visible: bool, other: (i32, i32))
    ensures
        is_main_window_spec(w, require_visible) ==> w.size is Some && w.size.unwrap().0 >= 100
            && w.size.unwrap().1 >= 100,
        w.size is None ==> !is_main_window_spec(w, require_visible),
        (w.size matches Some((width, height)) && (width < 100 || height < 100)) ==> !is_main_window_spec(
            w,
            require_visible,
        ),
        is_main_window_spec(w, require_visible) && other.0 >= 100 && other.1 >= 100
            ==> is_main_window_spec(WindowAttributes { size: Some(other), ..w }, require_visible),
{
}

/// Main-window test for a visible window.
pub fn is_main_window(w: &WindowAttributes) -> (r: bool)
    ensures
        r == is_main_window_spec(*w, true),
{
    is_main_window_inner(w, true)
}

/// Process ids of running processes whose executable matches a rule.
pub open spec fn matching_pids(executable: Seq<char>, processes: Seq<(u32, String)>) -> Set<u32> {
    Set::new(|pid: u32| exists|i: int| 0 <= i < processes.len() && (#[trigger] processes[i]).0 == pid
        && matches_spec(executable, processes[i].1@))
}

/// Running process ids whose executable matches a configured app rule.
pub fn running_pids_for_executable(executable: &str, processes: &Vec<(u32, String)>) -> (r: HashSet<u32>)
    ensures
        r@ == matching_pids(executable@, processes@),
{
    let mut pids: HashSet<u32> = HashSet::new();
    let mut i: usize = 0;
    while i < processes.len()
        invariant
            i <= processes@.len(),
            pids@ == matching_pids(executable@, processes@.take(i as int)),
        decreases processes@.len() - i,
    {
        let ghost before = pids@;
        if matches_executable(executable, processes[i].1.as_str()) {
            pids.insert(processes[i].0);
        }
        assert(pids@ =~= matching_pids(executable@, processes@.take(i + 1))) by {
            assert forall|pid: u32| pids@.contains(pid) <==> matching_pids(executable@, processes@.take(i + 1)).contains(pid) by {
                if matching_pids(executable@, processes@.take(i + 1)).contains(pid) {
                    let k = choose|k: int| 0 <= k < processes@.take(i + 1).len() && (#[trigger] processes@.take(i + 1)[k]).0 == pid
                        && matches_spec(executable@, processes@.take(i + 1)[k].1@);
                    if k < i {
                        assert(processes@.take(i as int)[k] == processes@.take(i + 1)[k]);
                    }
                }
                if before.contains(pid) {
                    let k = choose|k: int| 0 <= k < processes@.take(i as int).len() && (#[trigger] processes@.take(i as int)[k]).0 == pid
                        && matches_spec(executable@, processes@.take(i as int)[k].1@);
                    assert(processes@.take(i + 1)[k] == processes@.take(i as int)[k]);
                }
                if pids@.contains(pid) && !before.contains(pid) {
                    assert(processes@.take(i + 1)[i as int] == processes@[i as int]);
                }
            }
        }
        i = i + 1;
    }
    assert(processes@.take(processes@.len() as int) =~= processes@);
    pids
}

/// Whether a path begins with a drive prefix such as `C:`.
pub open spec fn has_drive(p: Seq<char>) -> bool {
    p.len() >= 2 && p[1] == ':' && (('a' <= p[0] && p[0] <= 'z') || ('A' <= p[0] && p[0] <= 'Z'))
}

/// A separator in the leading bytes of a prefix, where `/` reads as `\`.
pub open spec fn is_bs(c: char) -> bool {
    c == '\\' || c == '/'
}

/// The separators between components: only `\` in verbatim paths.
pub open spec fn sep_kind(verbatim: bool) -> Sep {
    if verbatim {
        Sep::Backslash
    } else {
        Sep::Slash
    }
}

/// The text up to the first separator, and what follows that separator
/// (nothing when there is none).
pub open spec fn next_component(s: Seq<char>, verbatim: bool) -> (Seq<char>, Seq<char>) {
    let i = first_sep(s, sep_kind(verbatim));
    if i == s.len() {
        (s, Seq::empty())
    } else {
        (s.take(i), s.skip(i + 1))
    }
}

/// The length of a path's Windows prefix, and whether it is verbatim, as
/// `std::path` reads it on Windows: `\\?\UNC\server\share`, `\\?\name`
/// (a drive `\\?\C:` among them), `\\.\device`, `\\server\share` (both
/// parts non-empty), or a drive `C:`. In the leading `\\`, `.\` and `UNC\`,
/// `/` reads as `\`; a `/` among the first four characters makes a path
/// with `?` there non-verbatim.
pub open spec fn path_prefix(p: Seq<char>) -> (int, bool) {
    if p.len() >= 2 && is_bs(p[0]) && is_bs(p[1]) {
        if p.len() >= 4 && p[0] == '\\' && p[1] == '\\' && p[2] == '?' && p[3] == '\\' {
            if p.len() >= 8 && p[4] == 'U' && p[5] == 'N' && p[6] == 'C' && is_bs(p[7]) {
                let (server, rest) = next_component(p.skip(8), true);
                let (share, _) = next_component(rest, true);
                let extra: int = if share.len() > 0 { share.len() + 1int } else { 0int };
                (8 + server.len() + extra, true)
            } else {
                let (pre, _) = next_component(p.skip(4), true);
                (4 + pre.len() as int, true)
            }
        } else if p.len() >= 4 && p[2] == '.' && is_bs(p[3]) {
            let (name, _) = next_component(p.skip(4), false);
            (4 + name.len() as int, false)
        } else {
            let (server, rest) = next_component(p.skip(2), false);
            let (share, _) = next_component(rest, false);
            if server.len() > 0 && share.len() > 0 {
                (3 + server.len() + share.len() as int, false)
            } else {
                (0, false)
            }
        }
    } else if has_drive(p) {
        (2, false)
    } else {
        (0, false)
    }
}

/// Path components after the prefix: the pieces between separators,
/// without empty pieces, and without `.` pieces unless the path is verbatim.
pub open spec fn components(pieces: Seq<Seq<char>>, verbatim: bool) -> Seq<Seq<char>>
    decreases pieces.len(),
{
    if pieces.len() == 0 {
        Seq::empty()
    } else {
        let rest = components(pieces.drop_last(), verbatim);
        let p = pieces.last();
        if p.len() == 0 || (!verbatim && p == "."@) {
            rest
        } else {
            rest.push(p)
        }
    }
}

/// File name of a Windows path (`Path::file_name`): the last component
/// after the prefix; none when there is none or it is `.` or `..`.
pub open spec fn file_name_spec(p: Seq<char>) -> Option<Seq<char>> {
    let (len, verbatim) = path_prefix(p);
    let c = components(split(p.skip(len), sep_kind(verbatim)), verbatim);
    if c.len() == 0 || c.last() == ".."@ || c.last() == "."@ {
        None
    } else {
        Some(c.last())
    }
}

/// The file name of a process image path, or the path itself when it has
/// none.
pub open spec fn exe_name_spec(p: Seq<char>) -> Seq<char> {
    match file_name_spec(p) {
        Some(n) => n,
        None => p,
    }
}

fn next_component_exec(s: &Vec<char>, verbatim: bool) -> (r: (Vec<char>, Vec<char>))
    ensures
        r.0@ == next_component(s@, verbatim).0,
        r.1@ == next_component(s@, verbatim).1,
        r.0@.len() <= s@.len(),
        r.0@.len() < s@.len() ==> r.0@.len() + 1 + r.1@.len() == s@.len(),
        r.0@.len() == s@.len() ==> r.1@.len() == 0,
{
    let k = if verbatim { Sep::Backslash } else { Sep::Slash };
    proof {
        crate::text::lemma_first_sep(s@, k);
    }
    match find_first_sep(s, k) {
        Some(i) => (subvec(s, 0, i), subvec(s, i + 1, s.len())),
        None => {
            let all = subvec(s, 0, s.len());
            assert(all@ =~= s@);
            (all, Vec::new())
        },
    }
}

fn is_bs_exec(c: char) -> (r: bool)
    ensures
        r == is_bs(c),
{
    c == '\\' || c == '/'
}

fn path_prefix_exec(p: &Vec<char>) -> (r: (usize, bool))
    ensures
        r.0 as int == path_prefix(p@).0,
        r.1 == path_prefix(p@).1,
        r.0 <= p@.len(),
{
    let n = p.len();
    if n >= 2 && is_bs_exec(p[0]) && is_bs_exec(p[1]) {
        if n >= 4 && p[0] == '\\' && p[1] == '\\' && p[2] == '?' && p[3] == '\\' {
            if n >= 8 && p[4] == 'U' && p[5] == 'N' && p[6] == 'C' && is_bs_exec(p[7]) {
                let tail = subvec(p, 8, n);
                assert(tail@ =~= p@.skip(8));
                let (server, rest) = next_component_exec(&tail, true);
                let (share, _) = next_component_exec(&rest, true);
                let extra = if share.len() > 0 { share.len() + 1 } else { 0 };
                (8 + server.len() + extra, true)
            } else {
                let tail = subvec(p, 4, n);
                assert(tail@ =~= p@.skip(4));
                let (pre, _) = next_component_exec(&tail, true);
                (4 + pre.len(), true)
            }
        } else if n >= 4 && p[2] == '.' && is_bs_exec(p[3]) {
            let tail = subvec(p, 4, n);
            assert(tail@ =~= p@.skip(4));
            let (name, _) = next_component_exec(&tail, false);
            (4 + name.len(), false)
        } else {
            let tail = subvec(p, 2, n);
            assert(tail@ =~= p@.skip(2));
            let (server, rest) = next_component_exec(&tail, false);
            let (share, _) = next_component_exec(&rest, false);
            if server.len() > 0 && share.len() > 0 {
                (3 + server.len() + share.len(), false)
            } else {
                (0, false)
            }
        }
    } else if n >= 2 && p[1] == ':' && (('a' <= p[0] && p[0] <= 'z') || ('A' <= p[0] && p[0] <= 'Z')) {
        (2, false)
    } else {
        (0, false)
    }
}

/// The file name of a process image path, as `Path::file_name` reads a
/// Windows path, or the whole path when it has none.
pub fn normalize_exe_path(path: &str) -> (r: String)
    ensures
        r@ == exe_name_spec(path@),
{
    let p = chars_of(path);
    let (len, verbatim) = path_prefix_exec(&p);
    let body = subvec(&p, len, p.len());
    assert(body@ =~= p@.skip(len as int));
    let kind = if verbatim { Sep::Backslash } else { Sep::Slash };
    let pieces = split_chars(&body, kind);
    let ghost ps = views(pieces@);
    let mut last: Option<usize> = None;
    let mut i: usize = 0;
    assert(ps.take(0) =~= Seq::<Seq<char>>::empty());
    while i < pieces.len()
        invariant
            i <= pieces.len(),
            ps == views(pieces@),
            match last {
                Some(j) => j < i && components(ps.take(i as int), verbatim).len() > 0 && components(
                    ps.take(i as int),
                    verbatim,
                ).last() == ps[j as int],
                None => components(ps.take(i as int), verbatim).len() == 0,
            },
        decreases pieces.len() - i,
    {
        assert(ps.take(i + 1).drop_last() =~= ps.take(i as int));
        assert(ps.take(i + 1).last() == pieces@[i as int]@);
        let piece = &pieces[i];
        if piece.len() > 0 && (verbatim || !chars_eq_str(piece, ".")) {
            last = Some(i);
        }
        i = i + 1;
    }
    assert(ps.take(pieces.len() as int) =~= ps);
    match last {
        Some(j) => {
            if chars_eq_str(&pieces[j], "..") || chars_eq_str(&pieces[j], ".") {
                string_from(&p)
            } else {
                string_from(&pieces[j])
            }
        },
        None => string_from(&p),
    }
}

/// Kinds of window events the watcher listens to.
pub const EVENT_OBJECT_DESTROY: u32 = 0x8001;
pub const EVENT_OBJECT_SHOW: u32 = 0x8002;

#[derive(Debug, Clone, Copy, PartialEq, Eq, Structural)]
pub enum WinEventKind {
    Ignore,
    /// A window went away: report its process.
    Destroyed,
    /// A window appeared: report it if it is a main window.
    Shown,
}

pub fn classify_win_event(event: u32, hwnd_is_null: bool) -> (k: WinEventKind)
    ensures
        k == (if hwnd_is_null {
            WinEventKind::Ignore
        } else if event == EVENT_OBJECT_DESTROY {
            WinEventKind::Destroyed
        } else if event == EVENT_OBJECT_SHOW {
            WinEventKind::Shown
        } else {
            WinEventKind::Ignore
        }),
{
    if hwnd_is_null {
        WinEventKind::Ignore
    } else if event == EVENT_OBJECT_DESTROY {
        WinEventKind::Destroyed
    } else if event == EVENT_OBJECT_SHOW {
        WinEventKind::Shown
    } else {
        WinEventKind::Ignore
    }
}

} // verus!
