use bgwm::tray::{
    collect_tray_icons, load_tray_icons, workspace_icon_image, RgbaImage,
    is_exit_menu, is_settings_menu, menu_workspace_from_id, tray_icon_index, tray_tooltip, workspace_menu_entries,
    workspace_menu_id, workspace_menu_label,
};

#[test]
fn menu_entries_check_the_current_workspace() {
    let entries = workspace_menu_entries(3, 2);
    assert_eq!(
        entries,
        vec![
            ("ws:1".to_string(), "Workspace 1".to_string()),
            ("ws:2".to_string(), "✓ Workspace 2".to_string()),
            ("ws:3".to_string(), "Workspace 3".to_string()),
        ]
    );
    assert_eq!(workspace_menu_entries(0, 1), vec![("ws:1".to_string(), "✓ Workspace 1".to_string())]);
}

#[test]
fn menu_ids_read_back() {
    for ws in [1u32, 9, 10, 4_294_967_295] {
        assert_eq!(menu_workspace_from_id(&workspace_menu_id(ws)), Some(ws));
    }
    assert_eq!(menu_workspace_from_id("ws:+7"), Some(7));
    assert_eq!(menu_workspace_from_id("ws:"), None);
    assert_eq!(menu_workspace_from_id("ws:4294967296"), None);
    assert_eq!(menu_workspace_from_id("settings"), None);
    assert!(is_settings_menu("settings"));
    assert!(!is_settings_menu("ws:1"));
    assert!(is_exit_menu("exit"));
    assert!(!is_exit_menu("Exit"));
}

#[test]
fn labels_tooltip_and_icons() {
    assert_eq!(workspace_menu_label(4, 1), "Workspace 4");
    assert_eq!(tray_tooltip(3), "BGWM — Workspace 3");
    assert_eq!(tray_icon_index(0), 0);
    assert_eq!(tray_icon_index(3), 3);
    assert_eq!(tray_icon_index(12), 9);
}

fn png_bytes(width: u32, height: u32, seed: u8) -> Vec<u8> {
    let mut img = image::RgbaImage::new(width, height);
    for (i, p) in img.pixels_mut().enumerate() {
        let v = seed.wrapping_add(i as u8);
        *p = image::Rgba([v, v.wrapping_mul(3), 255 - v, 200]);
    }
    let mut out = std::io::Cursor::new(Vec::new());
    img.write_to(&mut out, image::ImageFormat::Png).unwrap();
    out.into_inner()
}

#[test]
fn tray_pictures_are_decoded() {
    let files: Vec<Result<Vec<u8>, String>> = (0..10u8).map(|d| Ok(png_bytes(2, 3, d))).collect();
    let icons = load_tray_icons(&files);
    assert_eq!(icons.len(), 10);
    let expected = image::load_from_memory(&png_bytes(2, 3, 4)).unwrap().to_rgba8();
    assert_eq!(icons[4].width, 2);
    assert_eq!(icons[4].height, 3);
    assert_eq!(icons[4].rgba, expected.into_raw());
    assert_eq!(icons[4].rgba.len(), 24);
    assert_eq!(workspace_icon_image(&icons, 4).unwrap(), &icons[4]);
    assert_eq!(workspace_icon_image(&icons, 42).unwrap(), &icons[9]);
}

#[test]
fn missing_or_broken_pictures_leave_no_icons() {
    let mut files: Vec<Result<Vec<u8>, String>> = (0..10u8).map(|d| Ok(png_bytes(1, 1, d))).collect();
    files[3] = Ok(b"not a png".to_vec());
    assert!(load_tray_icons(&files).is_empty());
    files[3] = Err("missing".to_string());
    let icons = load_tray_icons(&files);
    assert!(icons.is_empty());
    assert_eq!(workspace_icon_image(&icons, 1), Err("tray icon assets not found".to_string()));
}

#[test]
fn collected_pictures_stop_at_an_error() {
    let img = |w: u32| RgbaImage { width: w, height: 1, rgba: vec![0; 4 * w as usize] };
    assert_eq!(collect_tray_icons(vec![Ok(img(1)), Ok(img(2))]), vec![img(1), img(2)]);
    assert!(collect_tray_icons(vec![Ok(img(1)), Err("bad".to_string()), Ok(img(3))]).is_empty());
    assert!(collect_tray_icons(vec![]).is_empty());
}
