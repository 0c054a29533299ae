use bgwm::font_icons::{icons, parse_line, resolve, spec, Icon, IconRef, IconStyle};

const REGULAR: &str = "address-book f2b9\nbell f0f3\n\n  star f005  \n";
const SOLID: &str = "house f015\nbell f0f3\nnot-a-char d800\nbroken\n";
const BRANDS: &str = "github f09b\n";

fn generated(prefix: &str, count: u32) -> String {
    let mut s = String::new();
    for i in 0..count {
        s.push_str(&format!("{prefix}-{i} {:x}\n", 0xe000 + i));
    }
    s
}

#[test]
fn resolves_known_icon() {
    let list = icons(REGULAR, SOLID, BRANDS);
    let icon = list.iter().find(|i| i.style == IconStyle::Solid).unwrap();
    let resolved = resolve(&icon.spec(), &list).expect("spec resolves");
    assert_eq!(resolved.ch, icon.ch);
    assert_eq!(resolved.style, IconStyle::Solid);
}

#[test]
fn icon_list_has_all_styles() {
    let regular = generated("r", 400);
    let solid = generated("s", 400);
    let brands = generated("b", 400);
    let list = icons(&regular, &solid, &brands);
    assert!(list.iter().any(|i| i.style == IconStyle::Regular));
    assert!(list.iter().any(|i| i.style == IconStyle::Solid));
    assert!(list.iter().any(|i| i.style == IconStyle::Brands));
    assert!(list.len() > 1000);
}

#[test]
fn unknown_spec_resolves_to_none() {
    let list = icons(REGULAR, SOLID, BRANDS);
    assert!(resolve("solid:definitely_not_an_icon_xyz", &list).is_none());
    assert!(resolve("no_style_separator", &list).is_none());
    assert!(resolve("bogus:house", &list).is_none());
}

#[test]
fn catalogue_is_sorted_by_name_then_style() {
    let list = icons(REGULAR, SOLID, BRANDS);
    let names: Vec<(String, IconStyle)> = list.iter().map(|i| (i.name.clone(), i.style)).collect();
    assert_eq!(
        names,
        vec![
            ("address-book".to_string(), IconStyle::Regular),
            ("bell".to_string(), IconStyle::Regular),
            ("bell".to_string(), IconStyle::Solid),
            ("github".to_string(), IconStyle::Brands),
            ("house".to_string(), IconStyle::Solid),
            ("star".to_string(), IconStyle::Regular),
        ]
    );
}

#[test]
fn same_name_resolves_per_style() {
    let list = icons(REGULAR, SOLID, BRANDS);
    assert_eq!(resolve("regular:bell", &list), Some(IconRef { ch: '\u{f0f3}', style: IconStyle::Regular }));
    assert_eq!(resolve("solid:bell", &list), Some(IconRef { ch: '\u{f0f3}', style: IconStyle::Solid }));
    assert_eq!(resolve("brands:bell", &list), None);
    assert_eq!(resolve("brands:github", &list), Some(IconRef { ch: '\u{f09b}', style: IconStyle::Brands }));
}

#[test]
fn codepoint_lines() {
    let line: Vec<char> = "  house f015 ".chars().collect();
    assert_eq!(parse_line(&line), Some(("house".to_string(), '\u{f015}')));
    let bad: Vec<char> = "house zz".chars().collect();
    assert_eq!(parse_line(&bad), None);
    let surrogate: Vec<char> = "x d800".chars().collect();
    assert_eq!(parse_line(&surrogate), None);
    let blank: Vec<char> = "   ".chars().collect();
    assert_eq!(parse_line(&blank), None);
}

#[test]
fn styles_and_specs() {
    assert_eq!(spec(IconStyle::Brands, "github"), "brands:github");
    let icon = Icon { name: "house".to_string(), ch: '\u{f015}', style: IconStyle::Solid };
    assert_eq!(icon.spec(), "solid:house");
    for style in [IconStyle::Regular, IconStyle::Solid, IconStyle::Brands] {
        assert_eq!(IconStyle::from_tag(style.tag()), Some(style));
    }
    assert_eq!(IconStyle::from_tag("Solid"), None);
    assert_eq!(IconStyle::Solid.index(), 1);
    assert_eq!(IconStyle::Brands.label(), "Brands");
    assert_eq!(IconStyle::Regular.family(), "fa-regular");
}

#[test]
fn all_styles_in_index_order() {
    let all = IconStyle::all();
    assert_eq!(all, [IconStyle::Regular, IconStyle::Solid, IconStyle::Brands]);
    for (i, s) in all.iter().enumerate() {
        assert_eq!(s.index(), i);
    }
}

#[test]
fn every_spec_resolves_to_its_icon() {
    let list = icons(REGULAR, SOLID, BRANDS);
    for icon in &list {
        let r = resolve(&icon.spec(), &list).unwrap();
        assert_eq!((r.ch, r.style), (icon.ch, icon.style));
    }
    assert!(resolve("regular:house", &list).is_none());
}
