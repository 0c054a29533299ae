//! Hotkey grammar: `"Win+Shift+6"` style strings, their parse into a
//! modifier set plus a virtual-key code, and the canonical display form.

use vstd::prelude::*;
use crate::text::{
    chars_eq_str, chars_of, is_digit, lower, lower_chars, push_str_chars, split, split_chars,
    string_from, trim, trim_chars, upper, upper_chars, views, Sep,
};

verus! {

/// Modifier keys held with a hotkey.
#[derive(Debug, Clone, Copy, PartialEq, Eq, Hash, Structural)]
pub struct Modifiers {
    pub ctrl: bool,
    pub alt: bool,
    pub shift: bool,
    pub win: bool,
}

impl Modifiers {
    pub open spec fn spec_none() -> Modifiers {
        Modifiers { ctrl: false, alt: false, shift: false, win: false }
    }

    pub fn from_parts(ctrl: bool, alt: bool, shift: bool, win: bool) -> (m: Self)
        ensures
            m == (Modifiers { ctrl, alt, shift, win }),
    {
        Self { ctrl, alt, shift, win }
    }
}

/// A parsed hotkey: modifiers, the Windows virtual-key code of the main key,
/// and the canonical text it is displayed with.
#[derive(Debug, Clone, PartialEq, Eq)]
pub struct Hotkey {
    pub modifiers: Modifiers,
    pub key: u16,
    pub display: String,
}

/// The mathematical content of a hotkey.
pub struct HotkeyView {
    pub modifiers: Modifiers,
    pub key: u16,
    pub display: Seq<char>,
}

impl View for Hotkey {
    type V = HotkeyView;

    open spec fn view(&self) -> HotkeyView {
        HotkeyView { modifiers: self.modifiers, key: self.key, display: self.display@ }
    }
}

/// Field-wise equality of two hotkeys (modifiers, key code and display text).
pub fn hotkey_eq(a: &Hotkey, b: &Hotkey) -> (r: bool)
    ensures
        r == (a@ == b@),
{
    let same_mods = a.modifiers == b.modifiers;
    let same_key = a.key == b.key;
    let da = chars_of(a.display.as_str());
    let db = chars_of(b.display.as_str());
    same_mods && same_key && crate::text::chars_eq(&da, &db)
}

/// Why a hotkey string was rejected.
#[derive(Debug, Clone, PartialEq, Eq)]
pub enum HotkeyParseError {
    Empty,
    UnknownToken(String),
    MissingKey,
}

/// What a hotkey string means.
pub enum HotkeyMeaning {
    Parsed { modifiers: Modifiers, key: u16, display: Seq<char> },
    Empty,
    UnknownToken(Seq<char>),
    MissingKey,
}

pub open spec fn meaning_of(r: Result<Hotkey, HotkeyParseError>) -> HotkeyMeaning {
    match r {
        Ok(h) => HotkeyMeaning::Parsed { modifiers: h.modifiers, key: h.key, display: h.display@ },
        Err(HotkeyParseError::Empty) => HotkeyMeaning::Empty,
        Err(HotkeyParseError::UnknownToken(t)) => HotkeyMeaning::UnknownToken(t@),
        Err(HotkeyParseError::MissingKey) => HotkeyMeaning::MissingKey,
    }
}

#[derive(Clone, Copy, PartialEq, Eq, Structural)]
pub enum ModifierToken {
    Ctrl,
    Alt,
    Shift,
    Win,
}

/// The non-empty trimmed pieces between `+` signs.
pub open spec fn clean_tokens(parts: Seq<Seq<char>>) -> Seq<Seq<char>>
    decreases parts.len(),
{
    if parts.len() == 0 {
        Seq::empty()
    } else {
        let rest = clean_tokens(parts.drop_last());
        let t = trim(parts.last());
        if t.len() == 0 {
            rest
        } else {
            rest.push(t)
        }
    }
}

pub open spec fn hotkey_tokens(s: Seq<char>) -> Seq<Seq<char>> {
    clean_tokens(split(s, Sep::Plus))
}

/// Modifier names, matched without regard to ASCII case.
pub open spec fn modifier_of(tok: Seq<char>) -> Option<ModifierToken> {
    let l = lower(tok);
    if l == "ctrl"@ || l == "control"@ {
        Some(ModifierToken::Ctrl)
    } else if l == "alt"@ {
        Some(ModifierToken::Alt)
    } else if l == "shift"@ {
        Some(ModifierToken::Shift)
    } else if l == "win"@ || l == "super"@ || l == "meta"@ || l == "windows"@ {
        Some(ModifierToken::Win)
    } else {
        None
    }
}

/// Virtual-key codes of the named keys (token already upper-cased).
pub open spec fn named_key(u: Seq<char>) -> Option<u16> {
    if u == "F1"@ { Some(0x70u16) }
    else if u == "F2"@ { Some(0x71u16) }
    else if u == "F3"@ { Some(0x72u16) }
    else if u == "F4"@ { Some(0x73u16) }
    else if u == "F5"@ { Some(0x74u16) }
    else if u == "F6"@ { Some(0x75u16) }
    else if u == "F7"@ { Some(0x76u16) }
    else if u == "F8"@ { Some(0x77u16) }
    else if u == "F9"@ { Some(0x78u16) }
    else if u == "F10"@ { Some(0x79u16) }
    else if u == "F11"@ { Some(0x7Au16) }
    else if u == "F12"@ { Some(0x7Bu16) }
    else if u == "TAB"@ { Some(0x09u16) }
    else if u == "SPACE"@ { Some(0x20u16) }
    else if u == "ENTER"@ || u == "RETURN"@ { Some(0x0Du16) }
    else if u == "ESCAPE"@ || u == "ESC"@ { Some(0x1Bu16) }
    else if u == "LEFT"@ { Some(0x25u16) }
    else if u == "RIGHT"@ { Some(0x27u16) }
    else if u == "UP"@ { Some(0x26u16) }
    else if u == "DOWN"@ { Some(0x28u16) }
    else { None }
}

/// Virtual-key code of a key token: a single letter or digit is its own
/// upper-case code; otherwise one of the named keys.
pub open spec fn key_code(tok: Seq<char>) -> Option<u16> {
    let u = upper(tok);
    if u.len() == 1 && (('A' <= u[0] && u[0] <= 'Z') || is_digit(u[0])) {
        Some(u[0] as u16)
    } else {
        named_key(u)
    }
}

/// Progress of the left-to-right token scan.
pub enum TokenScan {
    Scanning { modifiers: Modifiers, key: Option<Seq<char>> },
    Failed(Seq<char>),
}

pub open spec fn scan_step(st: TokenScan, t: Seq<char>) -> TokenScan {
    match st {
        TokenScan::Failed(f) => TokenScan::Failed(f),
        TokenScan::Scanning { modifiers: m, key } => match modifier_of(t) {
            Some(ModifierToken::Ctrl) => TokenScan::Scanning { modifiers: Modifiers { ctrl: true, ..m }, key },
            Some(ModifierToken::Alt) => TokenScan::Scanning { modifiers: Modifiers { alt: true, ..m }, key },
            Some(ModifierToken::Shift) => TokenScan::Scanning { modifiers: Modifiers { shift: true, ..m }, key },
            Some(ModifierToken::Win) => TokenScan::Scanning { modifiers: Modifiers { win: true, ..m }, key },
            None => if key is Some {
                TokenScan::Failed(t)
            } else {
                TokenScan::Scanning { modifiers: m, key: Some(t) }
            },
        },
    }
}

pub open spec fn scan(toks: Seq<Seq<char>>) -> TokenScan
    decreases toks.len(),
{
    if toks.len() == 0 {
        TokenScan::Scanning { modifiers: Modifiers::spec_none(), key: None }
    } else {
        scan_step(scan(toks.drop_last()), toks.last())
    }
}

/// Canonical modifier prefix: `Ctrl+`, `Alt+`, `Shift+`, `Win+` in that order.
pub open spec fn modifier_prefix(m: Modifiers) -> Seq<char> {
    (if m.ctrl { "Ctrl+"@ } else { Seq::empty() }) + (if m.alt { "Alt+"@ } else { Seq::empty() })
        + (if m.shift { "Shift+"@ } else { Seq::empty() }) + (if m.win { "Win+"@ } else {
        Seq::empty()
    })
}

/// Display text: the modifier prefix followed by the key token as typed.
pub open spec fn display_of(m: Modifiers, key_token: Seq<char>) -> Seq<char> {
    modifier_prefix(m) + key_token
}

/// The meaning of a hotkey string.
pub open spec fn parse_spec(s: Seq<char>) -> HotkeyMeaning {
    let toks = hotkey_tokens(s);
    if toks.len() == 0 {
        HotkeyMeaning::Empty
    } else {
        match scan(toks) {
            TokenScan::Failed(t) => HotkeyMeaning::UnknownToken(t),
            TokenScan::Scanning { modifiers, key: None } => HotkeyMeaning::MissingKey,
            TokenScan::Scanning { modifiers, key: Some(k) } => match key_code(k) {
                None => HotkeyMeaning::UnknownToken(k),
                Some(code) => HotkeyMeaning::Parsed {
                    modifiers,
                    key: code,
                    display: display_of(modifiers, k),
                },
            },
        }
    }
}

proof fn lemma_clean_tokens_push(parts: Seq<Seq<char>>, p: Seq<char>)
    ensures
        clean_tokens(parts.push(p)) == (if trim(p).len() == 0 {
            clean_tokens(parts)
        } else {
            clean_tokens(parts).push(trim(p))
        }),
{
    assert(parts.push(p).drop_last() =~= parts);
}

/// The non-empty trimmed `+`-separated tokens of `v`.
fn tokens_of(v: &Vec<char>) -> (r: Vec<Vec<char>>)
    ensures
        views(r@) == hotkey_tokens(v@),
{
    let parts = split_chars(v, Sep::Plus);
    let mut r: Vec<Vec<char>> = Vec::new();
    let mut i: usize = 0;
    assert(views(parts@).take(0) =~= Seq::<Seq<char>>::empty());
    assert(views(r@) =~= Seq::<Seq<char>>::empty());
    while i < parts.len()
        invariant
            i <= parts.len(),
            views(r@) == clean_tokens(views(parts@).take(i as int)),
        decreases parts.len() - i,
    {
        let t = trim_chars(&parts[i]);
        proof {
            lemma_clean_tokens_push(views(parts@).take(i as int), parts@[i as int]@);
            assert(views(parts@).take(i + 1) =~= views(parts@).take(i as int).push(
                parts@[i as int]@,
            ));
        }
        if t.len() > 0 {
            let ghost before = views(r@);
            r.push(t);
            assert(views(r@) =~= before.push(t@));
        }
        i = i + 1;
    }
    assert(views(parts@).take(parts.len() as int) =~= views(parts@));
    r
}

/// Recognises a modifier name.
pub fn normalize_token(token: &Vec<char>) -> (r: Option<ModifierToken>)
    ensures
        r == modifier_of(token@),
{
    let l = lower_chars(token);
    if chars_eq_str(&l, "ctrl") || chars_eq_str(&l, "control") {
        Some(ModifierToken::Ctrl)
    } else if chars_eq_str(&l, "alt") {
        Some(ModifierToken::Alt)
    } else if chars_eq_str(&l, "shift") {
        Some(ModifierToken::Shift)
    } else if chars_eq_str(&l, "win") || chars_eq_str(&l, "super") || chars_eq_str(&l, "meta")
        || chars_eq_str(&l, "windows") {
        Some(ModifierToken::Win)
    } else {
        None
    }
}

fn named_key_exec(u: &Vec<char>) -> (r: Option<u16>)
    ensures
        r == named_key(u@),
{
    if chars_eq_str(u, "F1") { Some(0x70) }
    else if chars_eq_str(u, "F2") { Some(0x71) }
    else if chars_eq_str(u, "F3") { Some(0x72) }
    else if chars_eq_str(u, "F4") { Some(0x73) }
    else if chars_eq_str(u, "F5") { Some(0x74) }
    else if chars_eq_str(u, "F6") { Some(0x75) }
    else if chars_eq_str(u, "F7") { Some(0x76) }
    else if chars_eq_str(u, "F8") { Some(0x77) }
    else if chars_eq_str(u, "F9") { Some(0x78) }
    else if chars_eq_str(u, "F10") { Some(0x79) }
    else if chars_eq_str(u, "F11") { Some(0x7A) }
    else if chars_eq_str(u, "F12") { Some(0x7B) }
    else if chars_eq_str(u, "TAB") { Some(0x09) }
    else if chars_eq_str(u, "SPACE") { Some(0x20) }
    else if chars_eq_str(u, "ENTER") || chars_eq_str(u, "RETURN") { Some(0x0D) }
    else if chars_eq_str(u, "ESCAPE") || chars_eq_str(u, "ESC") { Some(0x1B) }
    else if chars_eq_str(u, "LEFT") { Some(0x25) }
    else if chars_eq_str(u, "RIGHT") { Some(0x27) }
    else if chars_eq_str(u, "UP") { Some(0x26) }
    else if chars_eq_str(u, "DOWN") { Some(0x28) }
    else { None }
}

/// Virtual-key code of a key token.
pub fn token_to_vk(token: &Vec<char>) -> (r: Option<u16>)
    ensures
        r == key_code(token@),
{
    let u = upper_chars(token);
    if u.len() == 1 {
        let ch = u[0];
        if ('A' <= ch && ch <= 'Z') || ('0' <= ch && ch <= '9') {
            return Some(ch as u32 as u16);
        }
    }
    named_key_exec(&u)
}

/// Canonical display text of a hotkey.
pub fn format_hotkey(modifiers: &Modifiers, key_token: &str) -> (s: String)
    ensures
        s@ == display_of(*modifiers, key_token@),
{
    let mut s = String::new();
    let ghost e = Seq::<char>::empty();
    if modifiers.ctrl {
        push_str_chars(&mut s, "Ctrl+");
    }
    let ghost a = s@;
    if modifiers.alt {
        push_str_chars(&mut s, "Alt+");
    }
    let ghost b = s@;
    if modifiers.shift {
        push_str_chars(&mut s, "Shift+");
    }
    let ghost c = s@;
    if modifiers.win {
        push_str_chars(&mut s, "Win+");
    }
    let ghost d = s@;
    push_str_chars(&mut s, key_token);
    proof {
        assert(a =~= (if modifiers.ctrl { "Ctrl+"@ } else { e }));
        assert(d =~= modifier_prefix(*modifiers));
    }
    s
}

proof fn lemma_scan_failed_stays(toks: Seq<Seq<char>>, i: int, t: Seq<char>)
    requires
        0 <= i <= toks.len(),
        scan(toks.take(i)) == TokenScan::Failed(t),
    ensures
        scan(toks) == TokenScan::Failed(t),
    decreases toks.len() - i,
{
    if i < toks.len() {
        assert(toks.take(i + 1).drop_last() =~= toks.take(i));
        lemma_scan_failed_stays(toks, i + 1, t);
    } else {
        assert(toks.take(i) =~= toks);
    }
}

/// The text a parse failure is reported with.
pub open spec fn parse_error_text(m: HotkeyMeaning) -> Seq<char> {
    match m {
        HotkeyMeaning::Empty => "empty hotkey"@,
        HotkeyMeaning::UnknownToken(t) => "unknown key token: "@ + t,
        HotkeyMeaning::MissingKey => "missing key after modifiers"@,
        HotkeyMeaning::Parsed { .. } => Seq::empty(),
    }
}

impl HotkeyParseError {
    /// Human-readable description of the failure.
    pub fn message(&self) -> (s: String)
        ensures
            s@ == parse_error_text(meaning_of(Err(*self))),
    {
        let mut s = String::new();
        match self {
            HotkeyParseError::Empty => push_str_chars(&mut s, "empty hotkey"),
            HotkeyParseError::UnknownToken(t) => {
                push_str_chars(&mut s, "unknown key token: ");
                push_str_chars(&mut s, t.as_str());
            },
            HotkeyParseError::MissingKey => push_str_chars(&mut s, "missing key after modifiers"),
        }
        proof {
            let e = Seq::<char>::empty();
            assert(e + "empty hotkey"@ =~= "empty hotkey"@);
            assert(e + "missing key after modifiers"@ =~= "missing key after modifiers"@);
            assert(e + "unknown key token: "@ =~= "unknown key token: "@);
        }
        s
    }
}

impl Hotkey {
    /// Parses a hotkey string such as `"Win+Shift+6"`.
    pub fn parse(input: &str) -> (r: Result<Self, HotkeyParseError>)
        ensures
            meaning_of(r) == parse_spec(input@),
    {
        let chars = chars_of(input);
        let tokens = tokens_of(&chars);
        let ghost toks = hotkey_tokens(input@);
        if tokens.len() == 0 {
            return Err(HotkeyParseError::Empty);
        }
        let mut modifiers = Modifiers::from_parts(false, false, false, false);
        let mut key_index: Option<usize> = None;
        let mut i: usize = 0;
        assert(toks.take(0) =~= Seq::<Seq<char>>::empty());
        while i < tokens.len()
            invariant
                toks == views(tokens@),
                toks == hotkey_tokens(input@),
                toks.len() > 0,
                i <= tokens.len(),
                key_index matches Some(j) ==> j < i,
                scan(toks.take(i as int)) == (TokenScan::Scanning {
                    modifiers,
                    key: match key_index {
                        Some(j) => Some(toks[j as int]),
                        None => None,
                    },
                }),
            decreases tokens.len() - i,
        {
            assert(toks.take(i + 1).drop_last() =~= toks.take(i as int));
            assert(toks.take(i + 1).last() == tokens@[i as int]@);
            match normalize_token(&tokens[i]) {
                Some(ModifierToken::Ctrl) => modifiers.ctrl = true,
                Some(ModifierToken::Alt) => modifiers.alt = true,
                Some(ModifierToken::Shift) => modifiers.shift = true,
                Some(ModifierToken::Win) => modifiers.win = true,
                None => {
                    if key_index.is_some() {
                        proof {
                            assert(scan(toks.take(i + 1)) == TokenScan::Failed(tokens@[i as int]@));
                            lemma_scan_failed_stays(toks, i + 1, tokens@[i as int]@);
                        }
                        return Err(HotkeyParseError::UnknownToken(string_from(&tokens[i])));
                    }
                    key_index = Some(i);
                },
            }
            i = i + 1;
        }
        assert(toks.take(tokens.len() as int) =~= toks);
        let k = match key_index {
            Some(j) => j,
            None => {
                return Err(HotkeyParseError::MissingKey);
            },
        };
        let key = match token_to_vk(&tokens[k]) {
            Some(code) => code,
            None => {
                return Err(HotkeyParseError::UnknownToken(string_from(&tokens[k])));
            },
        };
        let key_text = string_from(&tokens[k]);
        let display = format_hotkey(&modifiers, key_text.as_str());
        Ok(Self { modifiers, key, display })
    }

    /// The canonical display form of a hotkey string.
    pub fn normalize(input: &str) -> (r: Result<String, HotkeyParseError>)
        ensures
            match parse_spec(input@) {
                HotkeyMeaning::Parsed { display, .. } => r matches Ok(d) && d@ == display,
                HotkeyMeaning::Empty => r matches Err(HotkeyParseError::Empty),
                HotkeyMeaning::UnknownToken(t) => r matches Err(HotkeyParseError::UnknownToken(u))
                    && u@ == t,
                HotkeyMeaning::MissingKey => r matches Err(HotkeyParseError::MissingKey),
            },
    {
        match Self::parse(input) {
            Ok(h) => Ok(h.display),
            Err(e) => Err(e),
        }
    }
}

} // verus!

verus! {

// ---------------------------------------------------------------------------
// The display form parses back to the same hotkey
// ---------------------------------------------------------------------------

pub open spec fn no_plus(t: Seq<char>) -> bool {
    forall|j: int| 0 <= j < t.len() ==> #[trigger] t[j] != '+'
}

proof fn lemma_split_pieces(s: Seq<char>)
    ensures
        forall|i: int| 0 <= i < split(s, Sep::Plus).len() ==> no_plus(#[trigger] split(s, Sep::Plus)[i]),
    decreases s.len(),
{
    crate::text::lemma_split_len(s, Sep::Plus);
    if s.len() > 0 {
        lemma_split_pieces(s.drop_last());
        crate::text::lemma_split_len(s.drop_last(), Sep::Plus);
        let p = split(s.drop_last(), Sep::Plus);
        assert forall|i: int| 0 <= i < split(s, Sep::Plus).len() implies no_plus(
            #[trigger] split(s, Sep::Plus)[i],
        ) by {
            if i < p.len() - 1 {
                assert(split(s, Sep::Plus)[i] == p[i]);
            } else if !(s.last() == '+') {
                if i == p.len() - 1 {
                    let q = p.last().push(s.last());
                    assert(split(s, Sep::Plus)[i] == q);
                    assert(no_plus(p[p.len() - 1]));
                    assert forall|j: int| 0 <= j < q.len() implies #[trigger] q[j] != '+' by {
                        if j < q.len() - 1 {
                            assert(q[j] == p.last()[j]);
                        }
                    }
                }
            }
        }
    }
}

proof fn lemma_trim_subrange_no_plus(t: Seq<char>)
    requires
        no_plus(t),
    ensures
        no_plus(trim(t)),
        trim(trim(t)) == trim(t),
{
    crate::text::lemma_trim_start_no_lead(t);
    let a = crate::text::trim_start(t);
    crate::text::lemma_trim_end_no_trail(a);
    let b = trim(t);
    assert forall|j: int| 0 <= j < b.len() implies #[trigger] b[j] != '+' by {
        assert(b[j] == a[j]);
        assert(a[j] == t[t.len() - a.len() + j]);
    }
    crate::text::lemma_trim_idempotent(t);
}

proof fn lemma_clean_tokens_shape(parts: Seq<Seq<char>>)
    requires
        forall|i: int| 0 <= i < parts.len() ==> no_plus(#[trigger] parts[i]),
    ensures
        forall|i: int|
            0 <= i < clean_tokens(parts).len() ==> {
                &&& no_plus(#[trigger] clean_tokens(parts)[i])
                &&& clean_tokens(parts)[i].len() > 0
                &&& trim(clean_tokens(parts)[i]) == clean_tokens(parts)[i]
            },
    decreases parts.len(),
{
    if parts.len() > 0 {
        assert forall|i: int| 0 <= i < parts.drop_last().len() implies no_plus(
            #[trigger] parts.drop_last()[i],
        ) by {
            assert(parts.drop_last()[i] == parts[i]);
        }
        lemma_clean_tokens_shape(parts.drop_last());
        assert(no_plus(parts[parts.len() - 1]));
        lemma_trim_subrange_no_plus(parts.last());
        let rest = clean_tokens(parts.drop_last());
        let t = trim(parts.last());
        let c = clean_tokens(parts);
        assert forall|i: int| 0 <= i < c.len() implies {
            &&& no_plus(#[trigger] c[i])
            &&& c[i].len() > 0
            &&& trim(c[i]) == c[i]
        } by {
            if i < rest.len() {
                assert(c[i] == rest[i]);
            } else {
                assert(c[i] == t);
            }
        }
    }
}

proof fn lemma_scan_key(toks: Seq<Seq<char>>)
    ensures
        scan(toks) matches TokenScan::Scanning { key: Some(k), .. } ==> toks.contains(k)
            && modifier_of(k) is None,
    decreases toks.len(),
{
    if toks.len() > 0 {
        lemma_scan_key(toks.drop_last());
        if let TokenScan::Scanning { key: Some(k), .. } = scan(toks.drop_last()) {
            let j = toks.drop_last().index_of(k);
            assert(toks[j] == k);
        }
    }
}

/// Modifier names in canonical order, one per modifier held.
pub open spec fn piece(b: bool, name: Seq<char>) -> Seq<Seq<char>> {
    if b {
        seq![name]
    } else {
        Seq::empty()
    }
}

pub open spec fn modifier_names(m: Modifiers) -> Seq<Seq<char>> {
    piece(m.ctrl, "Ctrl"@) + (piece(m.alt, "Alt"@) + (piece(m.shift, "Shift"@) + piece(
        m.win,
        "Win"@,
    )))
}

/// `n0+n1+...+k`.
pub open spec fn joined(ns: Seq<Seq<char>>, k: Seq<char>) -> Seq<char>
    decreases ns.len(),
{
    if ns.len() == 0 {
        k
    } else {
        ns[0].push('+') + joined(ns.drop_first(), k)
    }
}

proof fn lemma_joined_piece(b: bool, name: Seq<char>, rest: Seq<Seq<char>>, k: Seq<char>)
    ensures
        joined(piece(b, name) + rest, k) == (if b { name.push('+') } else { Seq::empty() })
            + joined(rest, k),
{
    if b {
        assert((seq![name] + rest).drop_first() =~= rest);
        assert((seq![name] + rest)[0] == name);
    } else {
        assert(Seq::<Seq<char>>::empty() + rest =~= rest);
        assert(Seq::<char>::empty() + joined(rest, k) =~= joined(rest, k));
    }
}

proof fn lemma_prefix_is_joined(m: Modifiers, k: Seq<char>)
    ensures
        display_of(m, k) == joined(modifier_names(m), k),
{
    reveal_strlit("Ctrl+");
    reveal_strlit("Alt+");
    reveal_strlit("Shift+");
    reveal_strlit("Win+");
    reveal_strlit("Ctrl");
    reveal_strlit("Alt");
    reveal_strlit("Shift");
    reveal_strlit("Win");
    let e = Seq::<Seq<char>>::empty();
    lemma_joined_piece(m.win, "Win"@, e, k);
    lemma_joined_piece(m.shift, "Shift"@, piece(m.win, "Win"@), k);
    lemma_joined_piece(m.alt, "Alt"@, piece(m.shift, "Shift"@) + piece(m.win, "Win"@), k);
    lemma_joined_piece(
        m.ctrl,
        "Ctrl"@,
        piece(m.alt, "Alt"@) + (piece(m.shift, "Shift"@) + piece(m.win, "Win"@)),
        k,
    );
    assert(piece(m.win, "Win"@) + e =~= piece(m.win, "Win"@));
    assert("Ctrl+"@ =~= "Ctrl"@.push('+'));
    assert("Alt+"@ =~= "Alt"@.push('+'));
    assert("Shift+"@ =~= "Shift"@.push('+'));
    assert("Win+"@ =~= "Win"@.push('+'));
    let pc = if m.ctrl { "Ctrl+"@ } else { Seq::<char>::empty() };
    let pa = if m.alt { "Alt+"@ } else { Seq::<char>::empty() };
    let ps = if m.shift { "Shift+"@ } else { Seq::<char>::empty() };
    let pw = if m.win { "Win+"@ } else { Seq::<char>::empty() };
    assert(joined(e, k) == k);
    assert(pc + pa + ps + pw + k =~= pc + (pa + (ps + (pw + k))));
}

proof fn lemma_split_joined(ns: Seq<Seq<char>>, k: Seq<char>)
    requires
        forall|i: int| 0 <= i < ns.len() ==> no_plus(#[trigger] ns[i]),
        no_plus(k),
    ensures
        split(joined(ns, k), Sep::Plus) == ns.push(k),
    decreases ns.len(),
{
    if ns.len() == 0 {
        crate::text::lemma_split_no_sep(k, Sep::Plus);
        assert(ns.push(k) =~= seq![k]);
    } else {
        let rest = ns.drop_first();
        assert forall|i: int| 0 <= i < rest.len() implies no_plus(#[trigger] rest[i]) by {
            assert(rest[i] == ns[i + 1]);
        }
        lemma_split_joined(rest, k);
        assert(no_plus(ns[0]));
        crate::text::lemma_split_append(ns[0], '+', joined(rest, k), Sep::Plus);
        crate::text::lemma_split_no_sep(ns[0], Sep::Plus);
        assert(seq![ns[0]] + rest.push(k) =~= ns.push(k));
    }
}

proof fn lemma_clean_fixed(ts: Seq<Seq<char>>)
    requires
        forall|i: int| 0 <= i < ts.len() ==> (#[trigger] ts[i]).len() > 0 && trim(ts[i]) == ts[i],
    ensures
        clean_tokens(ts) == ts,
    decreases ts.len(),
{
    if ts.len() > 0 {
        assert forall|i: int| 0 <= i < ts.drop_last().len() implies (#[trigger] ts.drop_last()[i]).len()
            > 0 && trim(ts.drop_last()[i]) == ts.drop_last()[i] by {
            assert(ts.drop_last()[i] == ts[i]);
        }
        lemma_clean_fixed(ts.drop_last());
        assert(ts[ts.len() - 1].len() > 0);
        assert(ts.drop_last().push(ts.last()) =~= ts);
    }
}

proof fn lemma_modifier_names_words()
    ensures
        modifier_of("Ctrl"@) == Some(ModifierToken::Ctrl),
        modifier_of("Alt"@) == Some(ModifierToken::Alt),
        modifier_of("Shift"@) == Some(ModifierToken::Shift),
        modifier_of("Win"@) == Some(ModifierToken::Win),
        "Ctrl"@.len() > 0 && trim("Ctrl"@) == "Ctrl"@ && no_plus("Ctrl"@),
        "Alt"@.len() > 0 && trim("Alt"@) == "Alt"@ && no_plus("Alt"@),
        "Shift"@.len() > 0 && trim("Shift"@) == "Shift"@ && no_plus("Shift"@),
        "Win"@.len() > 0 && trim("Win"@) == "Win"@ && no_plus("Win"@),
{
    reveal_strlit("Ctrl");
    reveal_strlit("Alt");
    reveal_strlit("Shift");
    reveal_strlit("Win");
    reveal_strlit("ctrl");
    reveal_strlit("alt");
    reveal_strlit("shift");
    reveal_strlit("win");
    reveal_strlit("control");
    reveal_strlit("super");
    reveal_strlit("meta");
    reveal_strlit("windows");
    assert(lower("Ctrl"@) =~= "ctrl"@);
    assert(lower("Alt"@) =~= "alt"@);
    assert(lower("Shift"@) =~= "shift"@);
    assert(lower("Win"@) =~= "win"@);
    assert("win"@[0] != "alt"@[0]);
    crate::text::lemma_trim_fixed("Ctrl"@);
    crate::text::lemma_trim_fixed("Alt"@);
    crate::text::lemma_trim_fixed("Shift"@);
    crate::text::lemma_trim_fixed("Win"@);
}

proof fn lemma_scan_names(m: Modifiers, k: Seq<char>)
    requires
        modifier_of(k) is None,
    ensures
        scan(modifier_names(m).push(k)) == (TokenScan::Scanning { modifiers: m, key: Some(k) }),
{
    lemma_modifier_names_words();
    let n = modifier_names(m).push(k);
    reveal_with_fuel(scan, 6);
    let e = Seq::<Seq<char>>::empty();
    assert(piece(m.win, "Win"@) + e =~= piece(m.win, "Win"@));
    if m.ctrl {
        if m.alt {
            if m.shift {
                if m.win {
                    assert(n =~= seq!["Ctrl"@, "Alt"@, "Shift"@, "Win"@, k]);
                } else {
                    assert(n =~= seq!["Ctrl"@, "Alt"@, "Shift"@, k]);
                }
            } else if m.win {
                assert(n =~= seq!["Ctrl"@, "Alt"@, "Win"@, k]);
            } else {
                assert(n =~= seq!["Ctrl"@, "Alt"@, k]);
            }
        } else if m.shift {
            if m.win {
                assert(n =~= seq!["Ctrl"@, "Shift"@, "Win"@, k]);
            } else {
                assert(n =~= seq!["Ctrl"@, "Shift"@, k]);
            }
        } else if m.win {
            assert(n =~= seq!["Ctrl"@, "Win"@, k]);
        } else {
            assert(n =~= seq!["Ctrl"@, k]);
        }
    } else if m.alt {
        if m.shift {
            if m.win {
                assert(n =~= seq!["Alt"@, "Shift"@, "Win"@, k]);
            } else {
                assert(n =~= seq!["Alt"@, "Shift"@, k]);
            }
        } else if m.win {
            assert(n =~= seq!["Alt"@, "Win"@, k]);
        } else {
            assert(n =~= seq!["Alt"@, k]);
        }
    } else if m.shift {
        if m.win {
            assert(n =~= seq!["Shift"@, "Win"@, k]);
        } else {
            assert(n =~= seq!["Shift"@, k]);
        }
    } else if m.win {
        assert(n =~= seq!["Win"@, k]);
    } else {
        assert(n =~= seq![k]);
    }
}

/// The display text of a parsed hotkey parses back to the same hotkey:
/// same modifiers, same key code, same display text.
pub proof fn lemma_display_reparses(s: Seq<char>)
    requires
        parse_spec(s) is Parsed,
    ensures
        parse_spec(s) matches HotkeyMeaning::Parsed { display, .. } && parse_spec(display)
            == parse_spec(s),
{
    let toks = hotkey_tokens(s);
    lemma_split_pieces(s);
    lemma_clean_tokens_shape(split(s, Sep::Plus));
    lemma_scan_key(toks);
    if let TokenScan::Scanning { modifiers: m, key: Some(k) } = scan(toks) {
        let i = toks.index_of(k);
        assert(toks[i] == k);
        let d = display_of(m, k);
        let ns = modifier_names(m);
        lemma_modifier_names_words();
        let e = Seq::<Seq<char>>::empty();
        assert(forall|j: int| 0 <= j < ns.len() ==> no_plus(#[trigger] ns[j]) && ns[j].len() > 0
            && trim(ns[j]) == ns[j]) by {
            assert forall|j: int| 0 <= j < ns.len() implies no_plus(#[trigger] ns[j]) && ns[j].len()
                > 0 && trim(ns[j]) == ns[j] by {
                assert(ns[j] == "Ctrl"@ || ns[j] == "Alt"@ || ns[j] == "Shift"@ || ns[j]
                    == "Win"@);
            }
        }
        lemma_prefix_is_joined(m, k);
        lemma_split_joined(ns, k);
        assert forall|j: int| 0 <= j < ns.push(k).len() implies (#[trigger] ns.push(k)[j]).len() > 0
            && trim(ns.push(k)[j]) == ns.push(k)[j] by {
            if j < ns.len() {
                assert(ns.push(k)[j] == ns[j]);
            }
        }
        lemma_clean_fixed(ns.push(k));
        lemma_scan_names(m, k);
        assert(hotkey_tokens(d) == ns.push(k));
    }
}


/// The named keys, written in any ASCII case, stand for their virtual-key
/// codes: `F1`..`F12` for 0x70..0x7B, `Tab` 0x09, `Space` 0x20,
/// `Enter`/`Return` 0x0D, `Esc`/`Escape` 0x1B, `Left` 0x25, `Up` 0x26,
/// `Right` 0x27, `Down` 0x28.
pub proof fn lemma_named_key_codes(tok: Seq<char>)
    ensures
        upper(tok) == "F1"@ ==> key_code(tok) == Some(0x70u16),
        upper(tok) == "F2"@ ==> key_code(tok) == Some(0x71u16),
        upper(tok) == "F3"@ ==> key_code(tok) == Some(0x72u16),
        upper(tok) == "F4"@ ==> key_code(tok) == Some(0x73u16),
        upper(tok) == "F5"@ ==> key_code(tok) == Some(0x74u16),
        upper(tok) == "F6"@ ==> key_code(tok) == Some(0x75u16),
        upper(tok) == "F7"@ ==> key_code(tok) == Some(0x76u16),
        upper(tok) == "F8"@ ==> key_code(tok) == Some(0x77u16),
        upper(tok) == "F9"@ ==> key_code(tok) == Some(0x78u16),
        upper(tok) == "F10"@ ==> key_code(tok) == Some(0x79u16),
        upper(tok) == "F11"@ ==> key_code(tok) == Some(0x7Au16),
        upper(tok) == "F12"@ ==> key_code(tok) == Some(0x7Bu16),
        upper(tok) == "TAB"@ ==> key_code(tok) == Some(0x09u16),
        upper(tok) == "SPACE"@ ==> key_code(tok) == Some(0x20u16),
        upper(tok) == "ENTER"@ ==> key_code(tok) == Some(0x0Du16),
        upper(tok) == "RETURN"@ ==> key_code(tok) == Some(0x0Du16),
        upper(tok) == "ESC"@ ==> key_code(tok) == Some(0x1Bu16),
        upper(tok) == "ESCAPE"@ ==> key_code(tok) == Some(0x1Bu16),
        upper(tok) == "LEFT"@ ==> key_code(tok) == Some(0x25u16),
        upper(tok) == "UP"@ ==> key_code(tok) == Some(0x26u16),
        upper(tok) == "RIGHT"@ ==> key_code(tok) == Some(0x27u16),
        upper(tok) == "DOWN"@ ==> key_code(tok) == Some(0x28u16),
{
    reveal_strlit("F1");
    reveal_strlit("F2");
    reveal_strlit("F3");
    reveal_strlit("F4");
    reveal_strlit("F5");
    reveal_strlit("F6");
    reveal_strlit("F7");
    reveal_strlit("F8");
    reveal_strlit("F9");
    reveal_strlit("F10");
    reveal_strlit("F11");
    reveal_strlit("F12");
    reveal_strlit("TAB");
    reveal_strlit("SPACE");
    reveal_strlit("ENTER");
    reveal_strlit("RETURN");
    reveal_strlit("ESC");
    reveal_strlit("ESCAPE");
    reveal_strlit("LEFT");
    reveal_strlit("UP");
    reveal_strlit("RIGHT");
    reveal_strlit("DOWN");
    let u = upper(tok);
    if u == "F1"@ {
        assert(u.len() == 2);
        assert(key_code(tok) == named_key(u));
    }
    if u == "F2"@ {
        assert(u.len() == 2);
        assert(u[1] == '2' && "F1"@[1] == '1');
        assert(key_code(tok) == named_key(u));
    }
    if u == "F3"@ {
        assert(u.len() == 2);
        assert(u[1] == '3' && "F1"@[1] == '1');
        assert(u[1] == '3' && "F2"@[1] == '2');
        assert(key_code(tok) == named_key(u));
    }
    if u == "F4"@ {
        assert(u.len() == 2);
        assert(u[1] == '4' && "F1"@[1] == '1');
        assert(u[1] == '4' && "F2"@[1] == '2');
        assert(u[1] == '4' && "F3"@[1] == '3');
        assert(key_code(tok) == named_key(u));
    }
    if u == "F5"@ {
        assert(u.len() == 2);
        assert(u[1] == '5' && "F1"@[1] == '1');
        assert(u[1] == '5' && "F2"@[1] == '2');
        assert(u[1] == '5' && "F3"@[1] == '3');
        assert(u[1] == '5' && "F4"@[1] == '4');
        assert(key_code(tok) == named_key(u));
    }
    if u == "F6"@ {
        assert(u.len() == 2);
        assert(u[1] == '6' && "F1"@[1] == '1');
        assert(u[1] == '6' && "F2"@[1] == '2');
        assert(u[1] == '6' && "F3"@[1] == '3');
        assert(u[1] == '6' && "F4"@[1] == '4');
        assert(u[1] == '6' && "F5"@[1] == '5');
        assert(key_code(tok) == named_key(u));
    }
    if u == "F7"@ {
        assert(u.len() == 2);
        assert(u[1] == '7' && "F1"@[1] == '1');
        assert(u[1] == '7' && "F2"@[1] == '2');
        assert(u[1] == '7' && "F3"@[1] == '3');
        assert(u[1] == '7' && "F4"@[1] == '4');
        assert(u[1] == '7' && "F5"@[1] == '5');
        assert(u[1] == '7' && "F6"@[1] == '6');
        assert(key_code(tok) == named_key(u));
    }
    if u == "F8"@ {
        assert(u.len() == 2);
        assert(u[1] == '8' && "F1"@[1] == '1');
        assert(u[1] == '8' && "F2"@[1] == '2');
        assert(u[1] == '8' && "F3"@[1] == '3');
        assert(u[1] == '8' && "F4"@[1] == '4');
        assert(u[1] == '8' && "F5"@[1] == '5');
        assert(u[1] == '8' && "F6"@[1] == '6');
        assert(u[1] == '8' && "F7"@[1] == '7');
        assert(key_code(tok) == named_key(u));
    }
    if u == "F9"@ {
        assert(u.len() == 2);
        assert(u[1] == '9' && "F1"@[1] == '1');
        assert(u[1] == '9' && "F2"@[1] == '2');
        assert(u[1] == '9' && "F3"@[1] == '3');
        assert(u[1] == '9' && "F4"@[1] == '4');
        assert(u[1] == '9' && "F5"@[1] == '5');
        assert(u[1] == '9' && "F6"@[1] == '6');
        assert(u[1] == '9' && "F7"@[1] == '7');
        assert(u[1] == '9' && "F8"@[1] == '8');
        assert(key_code(tok) == named_key(u));
    }
    if u == "F10"@ {
        assert(u.len() == 3);
        assert(key_code(tok) == named_key(u));
    }
    if u == "F11"@ {
        assert(u.len() == 3);
        assert(u[2] == '1' && "F10"@[2] == '0');
        assert(key_code(tok) == named_key(u));
    }
    if u == "F12"@ {
        assert(u.len() == 3);
        assert(u[2] == '2' && "F10"@[2] == '0');
        assert(u[2] == '2' && "F11"@[2] == '1');
        assert(key_code(tok) == named_key(u));
    }
    if u == "TAB"@ {
        assert(u.len() == 3);
        assert(u[0] == 'T' && "F10"@[0] == 'F');
        assert(u[0] == 'T' && "F11"@[0] == 'F');
        assert(u[0] == 'T' && "F12"@[0] == 'F');
        assert(key_code(tok) == named_key(u));
    }
    if u == "SPACE"@ {
        assert(u.len() == 5);
        assert(key_code(tok) == named_key(u));
    }
    if u == "ENTER"@ {
        assert(u.len() == 5);
        assert(u[0] == 'E' && "SPACE"@[0] == 'S');
        assert(key_code(tok) == named_key(u));
    }
    if u == "RETURN"@ {
        assert(u.len() == 6);
        assert(key_code(tok) == named_key(u));
    }
    if u == "ESC"@ {
        assert(u.len() == 3);
        assert(u[0] == 'E' && "F10"@[0] == 'F');
        assert(u[0] == 'E' && "F11"@[0] == 'F');
        assert(u[0] == 'E' && "F12"@[0] == 'F');
        assert(u[0] == 'E' && "TAB"@[0] == 'T');
        assert(key_code(tok) == named_key(u));
    }
    if u == "ESCAPE"@ {
        assert(u.len() == 6);
        assert(u[0] == 'E' && "RETURN"@[0] == 'R');
        assert(key_code(tok) == named_key(u));
    }
    if u == "LEFT"@ {
        assert(u.len() == 4);
        assert(key_code(tok) == named_key(u));
    }
    if u == "UP"@ {
        assert(u.len() == 2);
        assert(u[0] == 'U' && "F1"@[0] == 'F');
        assert(u[0] == 'U' && "F2"@[0] == 'F');
        assert(u[0] == 'U' && "F3"@[0] == 'F');
        assert(u[0] == 'U' && "F4"@[0] == 'F');
        assert(u[0] == 'U' && "F5"@[0] == 'F');
        assert(u[0] == 'U' && "F6"@[0] == 'F');
        assert(u[0] == 'U' && "F7"@[0] == 'F');
        assert(u[0] == 'U' && "F8"@[0] == 'F');
        assert(u[0] == 'U' && "F9"@[0] == 'F');
        assert(key_code(tok) == named_key(u));
    }
    if u == "RIGHT"@ {
        assert(u.len() == 5);
        assert(u[0] == 'R' && "SPACE"@[0] == 'S');
        assert(u[0] == 'R' && "ENTER"@[0] == 'E');
        assert(key_code(tok) == named_key(u));
    }
    if u == "DOWN"@ {
        assert(u.len() == 4);
        assert(u[0] == 'D' && "LEFT"@[0] == 'L');
        assert(key_code(tok) == named_key(u));
    }
}

} // verus!
