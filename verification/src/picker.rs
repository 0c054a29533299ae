//! The settings window's pickers: which windows can be picked for an app
//! rule, how they are listed, and the path read back from the file dialog.

use vstd::prelude::*;
use crate::sort::{kview, sorted_by_key, stable_sort, Keyed, KeyedView};
use crate::text::{chars_eq_str, chars_of, lower, lower_chars, string_from, trim, trim_chars, trim_str};
use crate::utf16::{decode_lossy, decode_utf16_lossy};
use crate::window_tracking::{exe_name_spec, normalize_exe_path};

verus! {

/// A window the user can pick to fill in an app rule.
#[derive(Debug, Clone, PartialEq, Eq)]
pub struct PickableWindow {
    pub title: String,
    pub executable: String,
    pub full_path: String,
}

pub struct PickableWindowView {
    pub title: Seq<char>,
    pub executable: Seq<char>,
    pub full_path: Seq<char>,
}

impl View for PickableWindow {
    type V = PickableWindowView;

    open spec fn view(&self) -> PickableWindowView {
        PickableWindowView {
            title: self.title@,
            executable: self.executable@,
            full_path: self.full_path@,
        }
    }
}

pub open spec fn shell_class_spec(class: Seq<char>) -> bool {
    ||| class == "Shell_TrayWnd"@
    ||| class == "Shell_SecondaryTrayWnd"@
    ||| class == "Progman"@
    ||| class == "WorkerW"@
    ||| class == "DV2ControlHost"@
    ||| class == "MultitaskingOverlayFrame"@
}

/// Window classes of the Windows shell: taskbars, desktop, task view.
pub fn is_shell_window_class(class: &str) -> (r: bool)
    ensures
        r == shell_class_spec(class@),
{
    let v = chars_of(class);
    chars_eq_str(&v, "Shell_TrayWnd") || chars_eq_str(&v, "Shell_SecondaryTrayWnd")
        || chars_eq_str(&v, "Progman") || chars_eq_str(&v, "WorkerW") || chars_eq_str(
        &v,
        "DV2ControlHost",
    ) || chars_eq_str(&v, "MultitaskingOverlayFrame")
}

/// An Explorer window is a shell surface unless it is a folder window with
/// a title.
pub open spec fn explorer_shell_spec(class: Option<Seq<char>>, title: Option<Seq<char>>) -> bool {
    match class {
        Some(c) => if c == "CabinetWClass"@ || c == "ExploreWClass"@ {
            match title {
                None => true,
                Some(t) => trim(t).len() == 0,
            }
        } else {
            true
        },
        None => true,
    }
}

pub open spec fn opt_view(s: Option<&str>) -> Option<Seq<char>> {
    match s {
        Some(t) => Some(t@),
        None => None,
    }
}

/// Whether a window of `explorer.exe` (with its class and title, when the
/// system gave them) is a shell surface.
pub fn is_shell_explorer_window(class: Option<&str>, title: Option<&str>) -> (r: bool)
    ensures
        r == explorer_shell_spec(opt_view(class), opt_view(title)),
{
    match class {
        Some(c) => {
            let v = chars_of(c);
            if chars_eq_str(&v, "CabinetWClass") || chars_eq_str(&v, "ExploreWClass") {
                match title {
                    None => true,
                    Some(t) => trim_str(t).len() == 0,
                }
            } else {
                true
            }
        },
        None => true,
    }
}

pub open spec fn shell_host_spec(lowered: Seq<char>) -> bool {
    ||| lowered == "searchhost.exe"@
    ||| lowered == "shellexperiencehost.exe"@
    ||| lowered == "startmenuexperiencehost.exe"@
}

pub open spec fn shell_executable_spec(
    executable: Seq<char>,
    class: Option<Seq<char>>,
    title: Option<Seq<char>>,
) -> bool {
    if lower(executable) == "explorer.exe"@ {
        explorer_shell_spec(class, title)
    } else {
        shell_host_spec(lower(executable))
    }
}

/// Shell host processes (search, shell experience, start menu), and
/// Explorer when the window is a shell surface. Case is ignored (ASCII).
pub fn is_shell_executable(executable: &str, class: Option<&str>, title: Option<&str>) -> (r: bool)
    ensures
        r == shell_executable_spec(executable@, opt_view(class), opt_view(title)),
{
    let v = chars_of(executable);
    let low = lower_chars(&v);
    if chars_eq_str(&low, "explorer.exe") {
        return is_shell_explorer_window(class, title);
    }
    chars_eq_str(&low, "searchhost.exe") || chars_eq_str(&low, "shellexperiencehost.exe")
        || chars_eq_str(&low, "startmenuexperiencehost.exe")
}

pub open spec fn shell_window_spec(
    class: Option<Seq<char>>,
    image_path: Option<Seq<char>>,
    title: Option<Seq<char>>,
) -> bool {
    if class matches Some(c) && shell_class_spec(c) {
        true
    } else {
        match image_path {
            None => false,
            Some(p) => shell_executable_spec(exe_name_spec(p), class, title),
        }
    }
}

/// Whether a window belongs to the Windows shell, from its class, the
/// image path of its process and its title (each when the system gave it).
pub fn is_windows_shell_window(class: Option<&str>, image_path: Option<&str>, title: Option<&str>) -> (r: bool)
    ensures
        r == shell_window_spec(opt_view(class), opt_view(image_path), opt_view(title)),
{
    if let Some(c) = class {
        if is_shell_window_class(c) {
            return true;
        }
    }
    match image_path {
        None => false,
        Some(p) => {
            let exe = normalize_exe_path(p);
            is_shell_executable(exe.as_str(), class, title)
        },
    }
}

/// The window picker's filter: a shown main window of another process that
/// is not part of the shell.
pub fn is_pickable_window(shown: bool, own_process: bool, main_window: bool, shell: bool) -> (r: bool)
    ensures
        r == (shown && !own_process && main_window && !shell),
{
    shown && !own_process && main_window && !shell
}

pub open spec fn untitled() -> Seq<char> {
    "(Untitled)"@
}

pub open spec fn pickable_entry_spec(
    executable: Option<Seq<char>>,
    full_path: Option<Seq<char>>,
    title: Option<Seq<char>>,
) -> Option<PickableWindowView> {
    match executable {
        None => None,
        Some(e) => if lower(e) == "bgwm.exe"@ {
            None
        } else {
            Some(
                PickableWindowView {
                    title: match title {
                        Some(t) => t,
                        None => untitled(),
                    },
                    executable: e,
                    full_path: match full_path {
                        Some(p) => p,
                        None => e,
                    },
                },
            )
        },
    }
}

pub open spec fn opt_string_view(s: Option<String>) -> Option<Seq<char>> {
    match s {
        Some(t) => Some(t@),
        None => None,
    }
}

/// The picker entry of a window, from its executable name, the full image
/// path and the title (each when the system gave it). Windows without an
/// executable name, and this app's own windows, are left out.
pub fn pickable_entry(executable: Option<String>, full_path: Option<String>, title: Option<String>) -> (r: Option<PickableWindow>)
    ensures
        match r {
            Some(w) => pickable_entry_spec(
                opt_string_view(executable),
                opt_string_view(full_path),
                opt_string_view(title),
            ) == Some(w@),
            None => pickable_entry_spec(
                opt_string_view(executable),
                opt_string_view(full_path),
                opt_string_view(title),
            ) is None,
        },
{
    let exe = match executable {
        None => {
            return None;
        },
        Some(e) => e,
    };
    let low = lower_chars(&chars_of(exe.as_str()));
    if chars_eq_str(&low, "bgwm.exe") {
        return None;
    }
    let full = match full_path {
        Some(p) => p,
        None => exe.clone(),
    };
    let t = match title {
        Some(t) => t,
        None => "(Untitled)".to_string(),
    };
    Some(PickableWindow { title: t, executable: exe, full_path: full })
}

pub open spec fn pickable_keys(s: Seq<PickableWindowView>) -> Seq<KeyedView<PickableWindowView>> {
    Seq::new(s.len(), |i: int| (lower(s[i].title), 0nat, s[i]))
}

pub open spec fn pickable_views(s: Seq<PickableWindow>) -> Seq<PickableWindowView> {
    Seq::new(s.len(), |i: int| s[i]@)
}

pub open spec fn values_of<V>(s: Seq<KeyedView<V>>) -> Seq<V> {
    Seq::new(s.len(), |i: int| s[i].2)
}

/// The picker's list in display order: by title, ignoring ASCII case;
/// windows with equal titles keep their order.
pub fn sort_pickable(windows: Vec<PickableWindow>) -> (r: Vec<PickableWindow>)
    ensures
        pickable_views(r@) == values_of(sorted_by_key(pickable_keys(pickable_views(windows@)))),
{
    let ghost orig = pickable_views(windows@);
    let mut keyed: Vec<Keyed<PickableWindow>> = Vec::new();
    let mut rest = windows;
    let n = rest.len();
    while rest.len() > 0
        invariant
            n == orig.len(),
            rest.len() <= n,
            keyed@.len() == n - rest.len(),
            pickable_views(rest@) == orig.skip(n - rest.len()),
            kview(keyed@) == pickable_keys(orig).take(n - rest.len()),
        decreases rest.len(),
    {
        let ghost done = n - rest.len();
        let ghost before_rest = rest@;
        let ghost before_keyed = kview(keyed@);
        let w = rest.remove(0);
        assert(w@ == orig[done]) by {
            assert(pickable_views(before_rest)[0] == orig.skip(done)[0]);
        }
        assert(pickable_views(rest@) =~= orig.skip(done + 1)) by {
            assert forall|i: int| 0 <= i < rest@.len() implies pickable_views(rest@)[i] == orig.skip(done + 1)[i] by {
                assert(rest@[i] == before_rest[i + 1]);
                assert(pickable_views(before_rest)[i + 1] == orig.skip(done)[i + 1]);
            }
        }
        let text = lower_chars(&chars_of(w.title.as_str()));
        keyed.push(Keyed { text, num: 0, item: w });
        assert(kview(keyed@) =~= pickable_keys(orig).take(done + 1)) by {
            assert forall|i: int| 0 <= i < keyed@.len() implies kview(keyed@)[i] == pickable_keys(orig).take(done + 1)[i] by {
                if i < done {
                    assert(kview(keyed@)[i] == before_keyed[i]);
                }
            }
        }
    }
    assert(pickable_keys(orig).take(n as int) =~= pickable_keys(orig));
    let sorted = stable_sort(keyed);
    let ghost ks = kview(sorted@);
    let mut out: Vec<PickableWindow> = Vec::new();
    let mut src = sorted;
    let m = src.len();
    while src.len() > 0
        invariant
            m == ks.len(),
            src.len() <= m,
            kview(src@) == ks.skip(m - src.len()),
            out@.len() == m - src.len(),
            pickable_views(out@) == values_of(ks).take(m - src.len()),
        decreases src.len(),
    {
        let ghost done = m - src.len();
        let ghost before_src = src@;
        let ghost before_out = out@;
        let k = src.remove(0);
        assert(k.item@ == ks[done].2) by {
            assert(kview(before_src)[0] == ks.skip(done)[0]);
        }
        assert(kview(src@) =~= ks.skip(done + 1)) by {
            assert forall|i: int| 0 <= i < src@.len() implies kview(src@)[i] == ks.skip(done + 1)[i] by {
                assert(src@[i] == before_src[i + 1]);
                assert(kview(before_src)[i + 1] == ks.skip(done)[i + 1]);
            }
        }
        out.push(k.item);
        assert(pickable_views(out@) =~= values_of(ks).take(done + 1)) by {
            assert forall|i: int| 0 <= i < out@.len() implies pickable_views(out@)[i] == values_of(ks).take(done + 1)[i] by {
                if i < done {
                    assert(out@[i] == before_out[i]);
                    assert(pickable_views(before_out)[i] == values_of(ks).take(done)[i]);
                }
            }
        }
    }
    assert(values_of(ks).take(m as int) =~= values_of(ks));
    out
}

pub open spec fn trim_nuls(s: Seq<char>) -> Seq<char>
    decreases s.len(),
{
    if s.len() > 0 && s.last() == '\0' {
        trim_nuls(s.drop_last())
    } else {
        s
    }
}

pub open spec fn dialog_path_spec(buffer: Seq<u16>) -> Option<Seq<char>> {
    let p = trim(trim_nuls(decode_lossy(buffer)));
    if p.len() == 0 {
        None
    } else {
        Some(p)
    }
}

/// The path that the open-file dialog left in its buffer: decoded, with the
/// trailing zero units and surrounding whitespace removed; none when empty.
pub fn path_from_dialog_buffer(buffer: &[u16]) -> (r: Option<String>)
    ensures
        opt_string_view(r) == dialog_path_spec(buffer@),
{
    let text = decode_utf16_lossy(buffer);
    let mut end: usize = text.len();
    assert(text@.take(text.len() as int) =~= text@);
    while end > 0 && text[end - 1] == '\0'
        invariant
            end <= text.len(),
            trim_nuls(text@) == trim_nuls(text@.take(end as int)),
        decreases end,
    {
        assert(text@.take(end as int).drop_last() =~= text@.take(end - 1));
        end = end - 1;
    }
    assert(text@.take(text.len() as int) =~= text@);
    let mut head: Vec<char> = Vec::new();
    let mut i: usize = 0;
    while i < end
        invariant
            i <= end <= text.len(),
            head@ == text@.take(i as int),
        decreases end - i,
    {
        head.push(text[i]);
        assert(head@ =~= text@.take(i + 1));
        i = i + 1;
    }
    assert(trim_nuls(text@.take(end as int)) == text@.take(end as int));
    let p = trim_chars(&head);
    if p.len() == 0 {
        None
    } else {
        Some(string_from(&p))
    }
}

} // verus!
