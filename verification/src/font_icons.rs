//! Font Awesome icon catalogue shared by the tray renderer and settings UI.
//!
//! Icons live across three fonts (Regular, Solid, Brands). The same icon name
//! can exist in more than one font, so a configured icon is identified by a
//! `"<style>:<name>"` spec (e.g. `"solid:house"`). Glyphs are addressed by
//! their Private Use Area codepoints, read from `.codepoints` listings (one
//! `name hex` pair per line).

use vstd::prelude::*;
use crate::sort::{kview, sorted_by_key, stable_sort, Keyed, KeyedView};
use crate::text::{
    chars_eq, chars_eq_str, chars_of, find_first_sep, first_sep, is_scalar, parse_hex_u32,
    parse_hex_u32_spec, push_str_chars, split, split_chars, string_from, subvec, trim,
    trim_chars, views, Sep,
};

verus! {

#[derive(Debug, Clone, Copy, PartialEq, Eq, Hash, Structural)]
pub enum IconStyle {
    Regular,
    Solid,
    Brands,
}

pub open spec fn style_index(s: IconStyle) -> nat {
    match s {
        IconStyle::Regular => 0,
        IconStyle::Solid => 1,
        IconStyle::Brands => 2,
    }
}

pub open spec fn style_tag(s: IconStyle) -> Seq<char> {
    match s {
        IconStyle::Regular => "regular"@,
        IconStyle::Solid => "solid"@,
        IconStyle::Brands => "brands"@,
    }
}

pub open spec fn style_from_tag(t: Seq<char>) -> Option<IconStyle> {
    if t == "regular"@ {
        Some(IconStyle::Regular)
    } else if t == "solid"@ {
        Some(IconStyle::Solid)
    } else if t == "brands"@ {
        Some(IconStyle::Brands)
    } else {
        None
    }
}

impl IconStyle {
    /// The three styles, in index order.
    pub fn all() -> (r: [IconStyle; 3])
        ensures
            r@ == seq![IconStyle::Regular, IconStyle::Solid, IconStyle::Brands],
    {
        let r = [IconStyle::Regular, IconStyle::Solid, IconStyle::Brands];
        assert(r@ =~= seq![IconStyle::Regular, IconStyle::Solid, IconStyle::Brands]);
        r
    }

    /// Stable index used to address the per-style font arrays.
    pub fn index(self) -> (r: usize)
        ensures
            r == style_index(self),
    {
        match self {
            IconStyle::Regular => 0,
            IconStyle::Solid => 1,
            IconStyle::Brands => 2,
        }
    }

    /// Short tag persisted in config specs.
    pub fn tag(self) -> (r: &'static str)
        ensures
            r@ == style_tag(self),
    {
        match self {
            IconStyle::Regular => "regular",
            IconStyle::Solid => "solid",
            IconStyle::Brands => "brands",
        }
    }

    /// Human-readable label for the UI.
    pub fn label(self) -> (r: &'static str)
        ensures
            r@ == (match self {
                IconStyle::Regular => "Regular"@,
                IconStyle::Solid => "Solid"@,
                IconStyle::Brands => "Brands"@,
            }),
    {
        match self {
            IconStyle::Regular => "Regular",
            IconStyle::Solid => "Solid",
            IconStyle::Brands => "Brands",
        }
    }

    /// Font family name registered for this style.
    pub fn family(self) -> (r: &'static str)
        ensures
            r@ == (match self {
                IconStyle::Regular => "fa-regular"@,
                IconStyle::Solid => "fa-solid"@,
                IconStyle::Brands => "fa-brands"@,
            }),
    {
        match self {
            IconStyle::Regular => "fa-regular",
            IconStyle::Solid => "fa-solid",
            IconStyle::Brands => "fa-brands",
        }
    }

    pub fn from_tag(tag: &str) -> (r: Option<Self>)
        ensures
            r == style_from_tag(tag@),
    {
        let t = chars_of(tag);
        if chars_eq_str(&t, "regular") {
            Some(IconStyle::Regular)
        } else if chars_eq_str(&t, "solid") {
            Some(IconStyle::Solid)
        } else if chars_eq_str(&t, "brands") {
            Some(IconStyle::Brands)
        } else {
            None
        }
    }
}

/// Reading a tag back gives the style.
pub proof fn lemma_tag_round_trip(s: IconStyle)
    ensures
        style_from_tag(style_tag(s)) == Some(s),
{
    reveal_strlit("regular");
    reveal_strlit("solid");
    reveal_strlit("brands");
    assert("solid"@[0] != "regular"@[0]);
    assert("brands"@[0] != "regular"@[0]);
    assert("brands"@[0] != "solid"@[0]);
}

#[derive(Debug, Clone, PartialEq, Eq)]
pub struct Icon {
    pub name: String,
    pub ch: char,
    pub style: IconStyle,
}

impl View for Icon {
    type V = (Seq<char>, char, IconStyle);

    open spec fn view(&self) -> (Seq<char>, char, IconStyle) {
        (self.name@, self.ch, self.style)
    }
}

/// A resolved icon ready to render: glyph plus the font to render it with.
#[derive(Debug, Clone, Copy, PartialEq, Eq, Structural)]
pub struct IconRef {
    pub ch: char,
    pub style: IconStyle,
}

/// The persisted config spec of a style/name pair: `"<tag>:<name>"`.
pub open spec fn spec_text(style: IconStyle, name: Seq<char>) -> Seq<char> {
    style_tag(style) + ":"@ + name
}

/// Builds the persisted config spec for a style/name pair.
pub fn spec(style: IconStyle, name: &str) -> (r: String)
    ensures
        r@ == spec_text(style, name@),
{
    let mut s = String::new();
    push_str_chars(&mut s, style.tag());
    push_str_chars(&mut s, ":");
    push_str_chars(&mut s, name);
    assert(Seq::<char>::empty() + style_tag(style) =~= style_tag(style));
    s
}

impl Icon {
    /// Config spec identifying this icon (`"<style>:<name>"`).
    pub fn spec(&self) -> (r: String)
        ensures
            r@ == spec_text(self.style, self.name@),
    {
        spec(self.style, self.name.as_str())
    }
}

/// A codepoints line: `name hex`, surrounding whitespace ignored; `None`
/// for blank lines, lines without a space, and values that are not a
/// character.
pub open spec fn parse_line_spec(line: Seq<char>) -> Option<(Seq<char>, char)> {
    let t = trim(line);
    let i = first_sep(t, Sep::Space);
    if t.len() == 0 || i == t.len() {
        None
    } else {
        match parse_hex_u32_spec(trim(t.skip(i + 1))) {
            None => None,
            Some(u) => if is_scalar(u) {
                Some((t.take(i), u as char))
            } else {
                None
            },
        }
    }
}

pub fn parse_line(line: &Vec<char>) -> (r: Option<(String, char)>)
    ensures
        match parse_line_spec(line@) {
            None => r is None,
            Some((n, c)) => r matches Some((s, d)) && s@ == n && d == c,
        },
{
    let t = trim_chars(line);
    if t.len() == 0 {
        return None;
    }
    proof {
        crate::text::lemma_first_sep(t@, Sep::Space);
    }
    let i = match find_first_sep(&t, Sep::Space) {
        Some(i) => i,
        None => {
            return None;
        },
    };
    let name = subvec(&t, 0, i);
    let hex_raw = subvec(&t, i + 1, t.len());
    let hex = trim_chars(&hex_raw);
    assert(hex_raw@ =~= t@.skip(i + 1));
    assert(name@ =~= t@.take(i as int));
    let code = match parse_hex_u32(&hex) {
        Some(u) => u,
        None => {
            return None;
        },
    };
    match char::from_u32(code) {
        Some(ch) => {
            proof {
                lemma_char_round_trip(ch);
            }
            assert(ch == code as char);
            Some((string_from(&name), ch))
        },
        None => None,
    }
}

proof fn lemma_char_round_trip(c: char)
    ensures
        (c as u32) as char == c,
{
}

/// Icons of one listing, in line order.
pub open spec fn listing_icons(lines: Seq<Seq<char>>, style: IconStyle) -> Seq<KeyedView<(Seq<char>, char, IconStyle)>>
    decreases lines.len(),
{
    if lines.len() == 0 {
        Seq::empty()
    } else {
        let rest = listing_icons(lines.drop_last(), style);
        match parse_line_spec(lines.last()) {
            None => rest,
            Some((n, c)) => rest.push((n, style_index(style), (n, c, style))),
        }
    }
}

/// Every icon of the three listings, sorted by name then style.
pub open spec fn catalogue_spec(regular: Seq<char>, solid: Seq<char>, brands: Seq<char>) -> Seq<
    (Seq<char>, char, IconStyle),
> {
    let all = listing_icons(split(regular, Sep::Newline), IconStyle::Regular) + listing_icons(
        split(solid, Sep::Newline),
        IconStyle::Solid,
    ) + listing_icons(split(brands, Sep::Newline), IconStyle::Brands);
    let s = sorted_by_key(all);
    Seq::new(s.len(), |i: int| s[i].2)
}

pub open spec fn icons_view(v: Seq<Icon>) -> Seq<(Seq<char>, char, IconStyle)> {
    Seq::new(v.len(), |i: int| v[i]@)
}

fn add_listing(items: &mut Vec<Keyed<Icon>>, text: &str, style: IconStyle)
    ensures
        kview(final(items)@) == kview(old(items)@) + listing_icons(split(text@, Sep::Newline), style),
{
    let chars = chars_of(text);
    let lines = split_chars(&chars, Sep::Newline);
    let ghost ls = views(lines@);
    let ghost start = kview(items@);
    let mut i: usize = 0;
    assert(ls.take(0) =~= Seq::<Seq<char>>::empty());
    assert(start + listing_icons(ls.take(0), style) =~= start);
    while i < lines.len()
        invariant
            i <= lines.len(),
            ls == views(lines@),
            ls == split(text@, Sep::Newline),
            kview(items@) == start + listing_icons(ls.take(i as int), style),
        decreases lines.len() - i,
    {
        assert(ls.take(i + 1).drop_last() =~= ls.take(i as int));
        assert(ls.take(i + 1).last() == lines@[i as int]@);
        match parse_line(&lines[i]) {
            Some((name, ch)) => {
                let ghost before = kview(items@);
                let text_key = chars_of(name.as_str());
                let idx = style.index();
                items.push(Keyed { text: text_key, num: idx as u64, item: Icon { name, ch, style } });
                assert(kview(items@) =~= before.push(
                    (text_key@, style_index(style), (text_key@, ch, style)),
                ));
                assert(start + listing_icons(ls.take(i + 1), style) =~= before.push(
                    (text_key@, style_index(style), (text_key@, ch, style)),
                ));
            },
            None => {},
        }
        i = i + 1;
    }
    assert(ls.take(lines.len() as int) =~= ls);
}

/// The full icon list, sorted by name then style.
pub fn icons(regular: &str, solid: &str, brands: &str) -> (r: Vec<Icon>)
    ensures
        icons_view(r@) == catalogue_spec(regular@, solid@, brands@),
{
    let mut items: Vec<Keyed<Icon>> = Vec::new();
    assert(kview(items@) =~= Seq::<KeyedView<(Seq<char>, char, IconStyle)>>::empty());
    add_listing(&mut items, regular, IconStyle::Regular);
    add_listing(&mut items, solid, IconStyle::Solid);
    add_listing(&mut items, brands, IconStyle::Brands);
    let ghost all = kview(items@);
    assert(all =~= listing_icons(split(regular@, Sep::Newline), IconStyle::Regular)
        + listing_icons(split(solid@, Sep::Newline), IconStyle::Solid) + listing_icons(
        split(brands@, Sep::Newline),
        IconStyle::Brands,
    ));
    let sorted = stable_sort(items);
    let ghost sv = kview(sorted@);
    let mut out: Vec<Icon> = Vec::new();
    let mut rest = sorted;
    let mut k: usize = 0;
    let n = rest.len();
    while rest.len() > 0
        invariant
            k + rest.len() == n,
            n == sv.len(),
            forall|j: int| 0 <= j < rest@.len() ==> kview(rest@)[j] == sv[k + j],
            icons_view(out@) == Seq::new(k as nat, |j: int| sv[j].2),
        decreases rest.len(),
    {
        let ghost rb = kview(rest@);
        let x = rest.remove(0);
        assert(rb[0] == (x.text@, x.num as nat, x.item@));
        assert forall|j: int| 0 <= j < rest@.len() implies kview(rest@)[j] == sv[k + 1 + j] by {
            assert(rb[j + 1] == sv[k + j + 1]);
        }
        let ghost ob = icons_view(out@);
        out.push(x.item);
        assert(icons_view(out@) =~= Seq::new((k + 1) as nat, |j: int| sv[j].2)) by {
            assert(icons_view(out@) =~= ob.push(x.item@));
        }
        k = k + 1;
    }
    out
}

/// Index of the last icon with the given spec, or -1.
pub open spec fn last_with_spec(v: Seq<(Seq<char>, char, IconStyle)>, s: Seq<char>) -> int
    decreases v.len(),
{
    if v.len() == 0 {
        -1
    } else if spec_text(v.last().2, v.last().0) == s {
        v.len() - 1
    } else {
        last_with_spec(v.drop_last(), s)
    }
}

/// Resolution of a config spec: the style named before the first `:`, and
/// the glyph of the icon with exactly that spec (the last such icon).
pub open spec fn resolve_spec(s: Seq<char>, v: Seq<(Seq<char>, char, IconStyle)>) -> Option<IconRef> {
    let i = first_sep(s, Sep::Colon);
    if i == s.len() {
        None
    } else {
        match style_from_tag(s.take(i)) {
            None => None,
            Some(style) => {
                let j = last_with_spec(v, s);
                if j < 0 {
                    None
                } else {
                    Some(IconRef { ch: v[j].1, style })
                }
            },
        }
    }
}

proof fn lemma_last_with_spec(v: Seq<(Seq<char>, char, IconStyle)>, s: Seq<char>)
    ensures
        -1 <= last_with_spec(v, s) < v.len(),
    decreases v.len(),
{
    if v.len() > 0 {
        lemma_last_with_spec(v.drop_last(), s);
    }
}

/// Resolves a config spec (`"<style>:<name>"`) against an icon list.
pub fn resolve(spec_str: &str, list: &Vec<Icon>) -> (r: Option<IconRef>)
    ensures
        r == resolve_spec(spec_str@, icons_view(list@)),
{
    let s = chars_of(spec_str);
    proof {
        crate::text::lemma_first_sep(s@, Sep::Colon);
    }
    let i = match find_first_sep(&s, Sep::Colon) {
        Some(i) => i,
        None => {
            return None;
        },
    };
    let tag = subvec(&s, 0, i);
    assert(tag@ =~= s@.take(i as int));
    let tag_s = string_from(&tag);
    let style = match IconStyle::from_tag(tag_s.as_str()) {
        Some(st) => st,
        None => {
            return None;
        },
    };
    let ghost v = icons_view(list@);
    let mut j = list.len();
    assert(v.take(j as int) =~= v);
    while j > 0
        invariant
            j <= list.len(),
            v == icons_view(list@),
            i == first_sep(s@, Sep::Colon),
            i < s@.len(),
            s@ == spec_str@,
            style_from_tag(s@.take(i as int)) == Some(style),
            last_with_spec(v, s@) == last_with_spec(v.take(j as int), s@),
        decreases j,
    {
        assert(v.take(j as int).drop_last() =~= v.take(j - 1));
        assert(v.take(j as int).last() == list@[j - 1]@);
        let sp = list[j - 1].spec();
        let spc = chars_of(sp.as_str());
        if chars_eq(&spc, &s) {
            assert(spec_text(v[j - 1].2, v[j - 1].0) == s@);
            assert(last_with_spec(v.take(j as int), s@) == j - 1);
            return Some(IconRef { ch: list[j - 1].ch, style });
        }
        j = j - 1;
    }
    None
}

/// The spec built for an icon of a list resolves to that icon's glyph in its
/// style, when no later icon of the list has the same spec.
pub proof fn lemma_icon_spec_resolves(v: Seq<(Seq<char>, char, IconStyle)>, k: int)
    requires
        0 <= k < v.len(),
        forall|j: int| k < j < v.len() ==> spec_text((#[trigger] v[j]).2, v[j].0) != spec_text(v[k].2, v[k].0),
    ensures
        resolve_spec(spec_text(v[k].2, v[k].0), v) == Some(IconRef { ch: v[k].1, style: v[k].2 }),
{
    let s = spec_text(v[k].2, v[k].0);
    lemma_tag_round_trip(v[k].2);
    reveal_strlit(":");
    reveal_strlit("regular");
    reveal_strlit("solid");
    reveal_strlit("brands");
    let t = style_tag(v[k].2);
    assert(forall|j: int| 0 <= j < t.len() ==> t[j] != ':');
    assert(s[t.len() as int] == ':');
    crate::text::lemma_first_sep(s, Sep::Colon);
    assert(first_sep(s, Sep::Colon) == t.len()) by {
        let f = first_sep(s, Sep::Colon);
        if f < t.len() {
            assert(s[f] == t[f]);
        } else if f > t.len() {
            assert(!is_sep_colon(s[t.len() as int]));
        }
    }
    assert(s.take(t.len() as int) =~= t);
    lemma_last_from_k(v, s, k);
}

spec fn is_sep_colon(c: char) -> bool {
    crate::text::is_sep(Sep::Colon, c)
}

proof fn lemma_last_from_k(v: Seq<(Seq<char>, char, IconStyle)>, s: Seq<char>, k: int)
    requires
        0 <= k < v.len(),
        spec_text(v[k].2, v[k].0) == s,
        forall|j: int| k < j < v.len() ==> spec_text((#[trigger] v[j]).2, v[j].0) != s,
    ensures
        last_with_spec(v, s) == k,
    decreases v.len(),
{
    if k < v.len() - 1 {
        assert forall|j: int| k < j < v.drop_last().len() implies spec_text(
            (#[trigger] v.drop_last()[j]).2,
            v.drop_last()[j].0,
        ) != s by {
            assert(v.drop_last()[j] == v[j]);
        }
        lemma_last_from_k(v.drop_last(), s, k);
        assert(spec_text(v[v.len() - 1].2, v[v.len() - 1].0) != s);
    }
}

/// The spec text of a style and name determines both: the style is read
/// back from the text before the first `:`, the name after it.
proof fn lemma_spec_text_injective(a: IconStyle, n1: Seq<char>, b: IconStyle, n2: Seq<char>)
    requires
        spec_text(a, n1) == spec_text(b, n2),
    ensures
        a == b,
        n1 == n2,
{
    reveal_strlit(":");
    reveal_strlit("regular");
    reveal_strlit("solid");
    reveal_strlit("brands");
    let s = spec_text(a, n1);
    let ta = style_tag(a);
    let tb = style_tag(b);
    assert(forall|j: int| 0 <= j < ta.len() ==> ta[j] != ':');
    assert(forall|j: int| 0 <= j < tb.len() ==> tb[j] != ':');
    if ta.len() != tb.len() {
        if ta.len() < tb.len() {
            assert(s[ta.len() as int] == ':');
            assert(spec_text(b, n2)[ta.len() as int] == tb[ta.len() as int]);
        } else {
            assert(spec_text(b, n2)[tb.len() as int] == ':');
            assert(s[tb.len() as int] == ta[tb.len() as int]);
        }
    }
    assert(ta.len() == tb.len());
    assert(ta =~= s.take(ta.len() as int));
    assert(tb =~= spec_text(b, n2).take(tb.len() as int));
    lemma_tag_round_trip(a);
    lemma_tag_round_trip(b);
    assert(n1 =~= s.skip(ta.len() as int + 1));
    assert(n2 =~= spec_text(b, n2).skip(tb.len() as int + 1));
}

/// In a list where no two icons share style and name, a spec resolves
/// exactly when some icon has that spec, and then to that icon's glyph and
/// style.
pub proof fn lemma_resolve_iff_present(v: Seq<(Seq<char>, char, IconStyle)>, s: Seq<char>)
    requires
        forall|a: int, b: int|
            0 <= a < b < v.len() ==> !((#[trigger] v[a]).2 == (#[trigger] v[b]).2 && v[a].0 == v[b].0),
    ensures
        resolve_spec(s, v) is Some <==> exists|i: int| 0 <= i < v.len() && spec_text((#[trigger] v[i]).2, v[i].0) == s,
        forall|i: int| 0 <= i < v.len() && spec_text((#[trigger] v[i]).2, v[i].0) == s ==> resolve_spec(s, v)
            == Some(IconRef { ch: v[i].1, style: v[i].2 }),
{
    assert forall|i: int| 0 <= i < v.len() && spec_text((#[trigger] v[i]).2, v[i].0) == s implies resolve_spec(s, v)
        == Some(IconRef { ch: v[i].1, style: v[i].2 }) by {
        assert forall|j: int| i < j < v.len() implies spec_text((#[trigger] v[j]).2, v[j].0) != spec_text(v[i].2, v[i].0) by {
            if spec_text(v[j].2, v[j].0) == spec_text(v[i].2, v[i].0) {
                lemma_spec_text_injective(v[j].2, v[j].0, v[i].2, v[i].0);
            }
        }
        lemma_icon_spec_resolves(v, i);
    }
    if resolve_spec(s, v) is Some {
        lemma_last_with_spec(v, s);
        lemma_last_with_spec_found(v, s);
        let j = last_with_spec(v, s);
        assert(spec_text(v[j].2, v[j].0) == s);
    }
}

proof fn lemma_last_with_spec_found(v: Seq<(Seq<char>, char, IconStyle)>, s: Seq<char>)
    ensures
        last_with_spec(v, s) >= 0 ==> spec_text(v[last_with_spec(v, s)].2, v[last_with_spec(v, s)].0) == s,
    decreases v.len(),
{
    if v.len() > 0 && spec_text(v.last().2, v.last().0) != s {
        lemma_last_with_spec_found(v.drop_last(), s);
        lemma_last_with_spec(v.drop_last(), s);
        if last_with_spec(v, s) >= 0 {
            assert(v.drop_last()[last_with_spec(v, s)] == v[last_with_spec(v, s)]);
        }
    }
}

} // verus!
