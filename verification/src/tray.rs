//! The tray: the menu's item ids and labels, the tooltip, reading a clicked
//! item's id back, and the workspace pictures (`0.png` to `9.png`) shown as
//! the tray icon.

use vstd::prelude::*;
use crate::text::{chars_eq_str, chars_of, decimal, parse_u32, parse_u32_spec, push_decimal, push_str_chars, starts_with, starts_with_str, subvec};
use crate::virtual_desktop::WORKSPACE_INDEX_BASE;

verus! {

/// Id prefix of the workspace items.
pub open spec fn ws_prefix() -> Seq<char> {
    "ws:"@
}

pub open spec fn settings_id() -> Seq<char> {
    "settings"@
}

pub open spec fn exit_id() -> Seq<char> {
    "exit"@
}

/// Id of the menu item of a workspace: `ws:` and its number.
pub open spec fn workspace_id_spec(ws: u32) -> Seq<char> {
    ws_prefix() + decimal(ws as nat)
}

pub open spec fn workspace_label_spec(ws: u32, current: u32) -> Seq<char> {
    if ws == current {
        "✓ Workspace "@ + decimal(ws as nat)
    } else {
        "Workspace "@ + decimal(ws as nat)
    }
}

pub open spec fn tooltip_spec(current: u32) -> Seq<char> {
    "BGWM — Workspace "@ + decimal(current as nat)
}

pub fn workspace_menu_id(ws: u32) -> (r: String)
    ensures
        r@ == workspace_id_spec(ws),
{
    let mut s = String::new();
    push_str_chars(&mut s, "ws:");
    push_decimal(&mut s, ws);
    assert(s@ =~= workspace_id_spec(ws));
    s
}

/// Label of a workspace item; the current workspace is checked.
pub fn workspace_menu_label(ws: u32, current: u32) -> (r: String)
    ensures
        r@ == workspace_label_spec(ws, current),
{
    let mut s = String::new();
    if ws == current {
        push_str_chars(&mut s, "✓ Workspace ");
    } else {
        push_str_chars(&mut s, "Workspace ");
    }
    push_decimal(&mut s, ws);
    assert(s@ =~= workspace_label_spec(ws, current));
    s
}

pub fn tray_tooltip(current: u32) -> (r: String)
    ensures
        r@ == tooltip_spec(current),
{
    let mut s = String::new();
    push_str_chars(&mut s, "BGWM — Workspace ");
    push_decimal(&mut s, current);
    assert(s@ =~= tooltip_spec(current));
    s
}

/// The workspace items of the menu, as (id, label): one for each workspace
/// from 1 to the count (at least one item).
pub fn workspace_menu_entries(workspace_count: u32, current: u32) -> (r: Vec<(String, String)>)
    ensures
        r@.len() == (if workspace_count < WORKSPACE_INDEX_BASE {
            WORKSPACE_INDEX_BASE
        } else {
            workspace_count
        }),
        forall|i: int| 0 <= i < r@.len() ==> {
            &&& (#[trigger] r@[i]).0@ == workspace_id_spec((i + 1) as u32)
            &&& r@[i].1@ == workspace_label_spec((i + 1) as u32, current)
        },
{
    let last = if workspace_count < WORKSPACE_INDEX_BASE {
        WORKSPACE_INDEX_BASE
    } else {
        workspace_count
    };
    let mut r: Vec<(String, String)> = Vec::new();
    let mut n: u64 = 1;
    while n <= last as u64
        invariant
            1 <= n <= last as u64 + 1,
            last >= 1,
            r@.len() == n - 1,
            forall|i: int| 0 <= i < r@.len() ==> {
                &&& (#[trigger] r@[i]).0@ == workspace_id_spec((i + 1) as u32)
                &&& r@[i].1@ == workspace_label_spec((i + 1) as u32, current)
            },
        decreases last as u64 + 1 - n,
    {
        let ws = n as u32;
        let id = workspace_menu_id(ws);
        let label = workspace_menu_label(ws, current);
        r.push((id, label));
        n = n + 1;
    }
    r
}

/// The workspace of a menu item id, when it is a workspace item.
pub open spec fn menu_workspace_spec(id: Seq<char>) -> Option<u32> {
    if starts_with(id, ws_prefix()) {
        parse_u32_spec(id.subrange(3, id.len() as int))
    } else {
        None
    }
}

pub fn menu_workspace_from_id(id: &str) -> (r: Option<u32>)
    ensures
        r == menu_workspace_spec(id@),
{
    let v = chars_of(id);
    if !starts_with_str(&v, "ws:") {
        return None;
    }
    proof {
        reveal_strlit("ws:");
    }
    let rest = subvec(&v, 3, v.len());
    parse_u32(&rest)
}

pub fn is_settings_menu(id: &str) -> (r: bool)
    ensures
        r == (id@ == settings_id()),
{
    let v = chars_of(id);
    chars_eq_str(&v, "settings")
}

pub fn is_exit_menu(id: &str) -> (r: bool)
    ensures
        r == (id@ == exit_id()),
{
    let v = chars_of(id);
    chars_eq_str(&v, "exit")
}

/// Which of the ten tray pictures (`0` to `9`) shows a workspace.
pub fn tray_icon_index(workspace: u32) -> (r: usize)
    ensures
        r == (if workspace < 9 { workspace } else { 9 }),
{
    if workspace < 9 {
        workspace as usize
    } else {
        9
    }
}

/// The id of a workspace item reads back as its workspace, and is neither
/// the settings item nor the exit item.
pub proof fn lemma_menu_id_round_trip(ws: u32)
    ensures
        menu_workspace_spec(workspace_id_spec(ws)) == Some(ws),
        workspace_id_spec(ws) != settings_id(),
        workspace_id_spec(ws) != exit_id(),
{
    reveal_strlit("ws:");
    reveal_strlit("settings");
    reveal_strlit("exit");
    let id = workspace_id_spec(ws);
    assert(id.subrange(0, 3) =~= ws_prefix());
    assert(id.subrange(3, id.len() as int) =~= decimal(ws as nat));
    crate::text::lemma_parse_decimal(ws);
    assert(id[0] == 'w');
    assert(settings_id()[0] == 's');
    assert(exit_id()[0] == 'e');
}

/// A decoded picture: width, height and RGBA bytes, row by row.
#[derive(Debug, Clone, PartialEq, Eq)]
pub struct RgbaImage {
    pub width: u32,
    pub height: u32,
    pub rgba: Vec<u8>,
}

impl View for RgbaImage {
    type V = (u32, u32, Seq<u8>);

    open spec fn view(&self) -> (u32, u32, Seq<u8>) {
        (self.width, self.height, self.rgba@)
    }
}

/// What the `image` crate makes of PNG bytes: the picture as RGBA (width,
/// height, bytes), or the text of its decoding error.
pub uninterp spec fn decoded_png(bytes: Seq<u8>) -> Result<(u32, u32, Seq<u8>), Seq<char>>;

pub open spec fn decoded_view(r: Result<RgbaImage, String>) -> Result<(u32, u32, Seq<u8>), Seq<char>> {
    match r {
        Ok(img) => Ok(img@),
        Err(e) => Err(e@),
    }
}

/// Decodes PNG bytes with `image::load_from_memory_with_format` and converts
/// the picture with `DynamicImage::to_rgba8`. Trusted: the result (or the
/// error's text) is what the `image` crate gives for these bytes, named
/// `decoded_png`; nothing is stated of how PNG is decoded.
#[verifier::external_body]
fn decode_png(bytes: &[u8]) -> (r: Result<RgbaImage, String>)
    ensures
        decoded_view(r) == decoded_png(bytes@),
{
    match image::load_from_memory_with_format(bytes, image::ImageFormat::Png) {
        Ok(img) => {
            let rgba = img.to_rgba8();
            let (width, height) = rgba.dimensions();
            Ok(RgbaImage { width, height, rgba: rgba.into_raw() })
        },
        Err(e) => Err(e.to_string()),
    }
}

pub open spec fn file_view(f: Result<Vec<u8>, String>) -> Result<Seq<u8>, Seq<char>> {
    match f {
        Ok(b) => Ok(b@),
        Err(e) => Err(e@),
    }
}

/// The pictures, when every decoding succeeded, in order; otherwise the
/// first error.
pub open spec fn icons_outcome(decoded: Seq<Result<(u32, u32, Seq<u8>), Seq<char>>>) -> Result<
    Seq<(u32, u32, Seq<u8>)>,
    Seq<char>,
>
    decreases decoded.len(),
{
    if decoded.len() == 0 {
        Ok(Seq::empty())
    } else {
        match decoded[0] {
            Err(e) => Err(e),
            Ok(img) => match icons_outcome(decoded.drop_first()) {
                Err(e) => Err(e),
                Ok(rest) => Ok(seq![img] + rest),
            },
        }
    }
}

/// What each file gives: its decoded picture, or the error met reading or
/// decoding it.
pub open spec fn decode_all(files: Seq<Result<Seq<u8>, Seq<char>>>) -> Seq<Result<(u32, u32, Seq<u8>), Seq<char>>> {
    Seq::new(
        files.len(),
        |i: int|
            match files[i] {
                Ok(b) => decoded_png(b),
                Err(e) => Err(e),
            },
    )
}

pub open spec fn images_view(s: Seq<RgbaImage>) -> Seq<(u32, u32, Seq<u8>)> {
    Seq::new(s.len(), |i: int| s[i]@)
}

pub open spec fn decoded_views(s: Seq<Result<RgbaImage, String>>) -> Seq<Result<(u32, u32, Seq<u8>), Seq<char>>> {
    Seq::new(s.len(), |i: int| decoded_view(s[i]))
}

/// The tray's picture set from the decoded pictures (or the errors met):
/// all of them in order, or nothing when one is an error (the tray then
/// reports the pictures as missing).
pub fn collect_tray_icons(decoded: Vec<Result<RgbaImage, String>>) -> (r: Vec<RgbaImage>)
    ensures
        match icons_outcome(decoded_views(decoded@)) {
            Ok(imgs) => images_view(r@) == imgs,
            Err(_) => r@.len() == 0,
        },
{
    let ghost dv = decoded_views(decoded@);
    let n = decoded.len();
    let mut out: Vec<RgbaImage> = Vec::new();
    let mut rest = decoded;
    assert(dv.skip(0) =~= dv);
    while rest.len() > 0
        invariant
            rest.len() <= n,
            n == dv.len(),
            dv == decoded_views(decoded@),
            decoded_views(rest@) == dv.skip(n - rest.len()),
            icons_outcome(dv) == match icons_outcome(dv.skip(n - rest.len())) {
                Err(e) => Err(e),
                Ok(tail) => Ok(images_view(out@) + tail),
            },
        decreases rest.len(),
    {
        let ghost k = n - rest.len();
        let ghost before_rest = rest@;
        let d = rest.remove(0);
        assert(decoded_view(d) == dv.skip(k)[0]) by {
            assert(decoded_views(before_rest)[0] == dv.skip(k)[0]);
        }
        assert(dv.skip(k).drop_first() =~= dv.skip(k + 1));
        assert(decoded_views(rest@) =~= dv.skip(k + 1)) by {
            assert forall|i: int| 0 <= i < rest@.len() implies decoded_views(rest@)[i] == dv.skip(k + 1)[i] by {
                assert(rest@[i] == before_rest[i + 1]);
                assert(decoded_views(before_rest)[i + 1] == dv.skip(k)[i + 1]);
            }
        }
        match d {
            Err(_) => {
                assert(dv.skip(k).len() > 0);
                assert(icons_outcome(dv.skip(k)) is Err);
                return Vec::new();
            },
            Ok(img) => {
                let ghost before = images_view(out@);
                let ghost iv = img@;
                out.push(img);
                assert(images_view(out@) =~= before.push(iv));
                proof {
                    match icons_outcome(dv.skip(k + 1)) {
                        Err(e) => {},
                        Ok(tail) => {
                            assert(before + (seq![iv] + tail) =~= before.push(iv) + tail);
                        },
                    }
                }
            },
        }
    }
    assert(dv.skip(n as int).len() == 0);
    assert(images_view(out@) + Seq::<(u32, u32, Seq<u8>)>::empty() =~= images_view(out@));
    out
}

/// The tray pictures from the files' contents (the pictures `0.png` to
/// `9.png`, as read, or the error met reading each), each decoded with the
/// `image` crate: all of them, or nothing when one could not be read or
/// decoded.
pub fn load_tray_icons(files: &Vec<Result<Vec<u8>, String>>) -> (r: Vec<RgbaImage>)
    ensures
        ({
            let fv = Seq::new(files@.len(), |i: int| file_view(files@[i]));
            match icons_outcome(decode_all(fv)) {
                Ok(imgs) => images_view(r@) == imgs,
                Err(_) => r@.len() == 0,
            }
        }),
{
    let ghost fv = Seq::new(files@.len(), |i: int| file_view(files@[i]));
    let mut decoded: Vec<Result<RgbaImage, String>> = Vec::new();
    let mut i: usize = 0;
    while i < files.len()
        invariant
            i <= files@.len(),
            fv == Seq::new(files@.len(), |i: int| file_view(files@[i])),
            decoded@.len() == i,
            forall|j: int| 0 <= j < i ==> decoded_view(#[trigger] decoded@[j]) == decode_all(fv)[j],
        decreases files@.len() - i,
    {
        let d = match &files[i] {
            Ok(bytes) => decode_png(bytes.as_slice()),
            Err(e) => Err(e.clone()),
        };
        decoded.push(d);
        i = i + 1;
    }
    assert(decoded_views(decoded@) =~= decode_all(fv));
    collect_tray_icons(decoded)
}

/// The picture that shows a workspace: picture `n` for workspace `n`, the
/// last picture for workspaces from 9 on.
pub fn workspace_icon_image(icons: &Vec<RgbaImage>, workspace: u32) -> (r: Result<&RgbaImage, String>)
    ensures
        ({
            let k = if workspace < 9 { workspace as int } else { 9 };
            &&& k < icons@.len() ==> (r matches Ok(img) && *img == icons@[k])
            &&& k >= icons@.len() ==> (r matches Err(e) && e@ == "tray icon assets not found"@)
        }),
{
    let k = tray_icon_index(workspace);
    if k < icons.len() {
        Ok(&icons[k])
    } else {
        Err("tray icon assets not found".to_string())
    }
}

} // verus!
