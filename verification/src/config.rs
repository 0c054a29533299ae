//! Configuration model: per-workspace hotkey tables, app rules, icon specs
//! and startup settings; their validation; the sorted binding lists handed
//! to the keyboard hook; and executable-name matching for app rules.

use vstd::prelude::*;
use crate::hotkeys::{
    hotkey_eq, parse_spec, Hotkey, HotkeyMeaning, HotkeyView,
};
use crate::sort::{kview, sorted_by_key, stable_sort, Keyed, KeyedView};
use crate::string_map::{insert_entry, lookup, remove_entry, StringMap};
use crate::text::{
    after_last_sep, chars_of, decimal, find_last_sep, is_sep, lower, lower_char,
    lower_chars, parse_u32, parse_u32_spec, push_decimal, push_str_chars, string_from,
    subvec, trim, trim_str, Sep,
};

verus! {

pub const CONFIG_VERSION: u32 = 1;

// ---------------------------------------------------------------------------
// Executable names and paths
// ---------------------------------------------------------------------------

/// Lower-cased file name of a path or bare name (text after the last `\` or `/`).
pub open spec fn basename_spec(s: Seq<char>) -> Seq<char> {
    lower(after_last_sep(trim(s), Sep::Slash))
}

/// Whether a trimmed text names a path (holds a `\` or `/`).
pub open spec fn is_full_path_spec(s: Seq<char>) -> bool {
    exists|i: int| 0 <= i < trim(s).len() && is_sep(Sep::Slash, #[trigger] trim(s)[i])
}

/// Trimmed, `/` turned into `\`, ASCII lower-cased.
pub open spec fn normalized_path_spec(s: Seq<char>) -> Seq<char> {
    let t = trim(s);
    Seq::new(t.len(), |i: int| lower_char(if t[i] == '/' { '\\' } else { t[i] }))
}

/// Rule matching: a full-path rule matches only the same path (case and
/// separator style aside); a bare-name rule matches any path with that file
/// name. An empty rule matches nothing.
pub open spec fn matches_spec(rule: Seq<char>, process: Seq<char>) -> bool {
    let r = trim(rule);
    if r.len() == 0 {
        false
    } else if is_full_path_spec(r) {
        is_full_path_spec(process) && normalized_path_spec(r) == normalized_path_spec(process)
    } else {
        basename_spec(r).len() > 0 && basename_spec(r) == basename_spec(process)
    }
}

pub fn executable_basename(path_or_name: &str) -> (r: String)
    ensures
        r@ == basename_spec(path_or_name@),
{
    let t = trim_str(path_or_name);
    proof {
        crate::text::lemma_last_sep(t@, Sep::Slash);
    }
    let n = t.len();
    let start = match find_last_sep(&t, Sep::Slash) {
        Some(i) => {
            assert(i < n);
            i + 1
        },
        None => 0,
    };
    let tail = subvec(&t, start, t.len());
    let low = lower_chars(&tail);
    string_from(&low)
}

fn has_path_sep(t: &Vec<char>) -> (r: bool)
    ensures
        r == (exists|i: int| 0 <= i < t@.len() && is_sep(Sep::Slash, #[trigger] t@[i])),
{
    let mut i: usize = 0;
    while i < t.len()
        invariant
            i <= t.len(),
            forall|j: int| 0 <= j < i ==> !is_sep(Sep::Slash, #[trigger] t@[j]),
        decreases t.len() - i,
    {
        if t[i] == '\\' || t[i] == '/' {
            return true;
        }
        i = i + 1;
    }
    false
}

pub fn is_executable_full_path(path_or_name: &str) -> (r: bool)
    ensures
        r == is_full_path_spec(path_or_name@),
{
    let t = trim_str(path_or_name);
    has_path_sep(&t)
}

fn normalize_executable_path(path: &str) -> (r: Vec<char>)
    ensures
        r@ == normalized_path_spec(path@),
{
    let t = trim_str(path);
    let mut r: Vec<char> = Vec::new();
    let mut i: usize = 0;
    while i < t.len()
        invariant
            i <= t.len(),
            t@ == trim(path@),
            r@.len() == i,
            forall|j: int| 0 <= j < i ==> #[trigger] r@[j] == lower_char(
                if t@[j] == '/' { '\\' } else { t@[j] },
            ),
        decreases t.len() - i,
    {
        let c = if t[i] == '/' { '\\' } else { t[i] };
        r.push(crate::text::lower_char_exec(c));
        i = i + 1;
    }
    assert(r@ =~= normalized_path_spec(path@));
    r
}

/// Matches a configured rule against a running process executable path.
pub fn matches_executable(rule_exe: &str, process_path: &str) -> (r: bool)
    ensures
        r == matches_spec(rule_exe@, process_path@),
{
    let rule = trim_str(rule_exe);
    if rule.len() == 0 {
        return false;
    }
    let rule_s = string_from(&rule);
    proof {
        crate::text::lemma_trim_idempotent(rule_exe@);
    }
    if has_path_sep(&rule) {
        assert(is_full_path_spec(rule@));
        if !is_executable_full_path(process_path) {
            return false;
        }
        let a = normalize_executable_path(rule_s.as_str());
        let b = normalize_executable_path(process_path);
        crate::text::chars_eq(&a, &b)
    } else {
        assert(!is_full_path_spec(rule@));
        let rule_base = executable_basename(rule_s.as_str());
        let process_base = executable_basename(process_path);
        let rb = chars_of(rule_base.as_str());
        let pb = chars_of(process_base.as_str());
        rb.len() > 0 && crate::text::chars_eq(&rb, &pb)
    }
}

} // verus!

verus! {

// ---------------------------------------------------------------------------
// The configuration model
// ---------------------------------------------------------------------------

#[derive(Debug, Clone, Copy, PartialEq, Eq, Structural)]
pub struct StartupSettings {
    pub launch_at_login: bool,
}

impl Default for StartupSettings {
    fn default() -> (s: Self)
        ensures
            !s.launch_at_login,
    {
        StartupSettings { launch_at_login: false }
    }
}

#[derive(Debug, Clone, PartialEq, Eq)]
pub struct AppRule {
    /// Full path to the executable (legacy configs may store only the `.exe` name).
    pub executable: String,
    /// 1-based workspace index. `None` disables launch routing.
    pub workspace: Option<u32>,
    /// Hotkey to launch or focus this app. Empty text disables the binding.
    pub launch_hotkey: String,
}

pub struct AppRuleView {
    pub executable: Seq<char>,
    pub workspace: Option<u32>,
    pub launch_hotkey: Seq<char>,
}

impl View for AppRule {
    type V = AppRuleView;

    open spec fn view(&self) -> AppRuleView {
        AppRuleView {
            executable: self.executable@,
            workspace: self.workspace,
            launch_hotkey: self.launch_hotkey@,
        }
    }
}

/// The configuration, without the settings-window geometry (kept by the
/// settings front end).
#[derive(Debug, Clone, PartialEq)]
pub struct Config {
    pub version: u32,
    /// 1-based workspace index → hotkey string.
    pub switch_hotkeys: StringMap,
    /// 1-based workspace index → hotkey string.
    pub move_hotkeys: StringMap,
    /// 1-based workspace index → icon spec (`"<style>:<name>"`).
    pub workspace_icons: StringMap,
    pub app_rules: Vec<AppRule>,
    pub startup: StartupSettings,
}

#[derive(Debug, Clone, PartialEq, Eq)]
pub enum ConfigError {
    Validation(String),
}

pub open spec fn rules_view(r: Seq<AppRule>) -> Seq<AppRuleView> {
    Seq::new(r.len(), |i: int| r[i]@)
}

pub open spec fn hotkeys_view(h: Seq<Hotkey>) -> Seq<HotkeyView> {
    Seq::new(h.len(), |i: int| h[i]@)
}

// ---------------------------------------------------------------------------
// Validation
// ---------------------------------------------------------------------------

/// Why a workspace key is not a valid 1-based workspace index.
pub open spec fn workspace_key_error(key: Seq<char>) -> Option<Seq<char>> {
    match parse_u32_spec(key) {
        None => Some("invalid workspace key: "@ + key),
        Some(w) => if w == 0 {
            Some("workspace index must be >= 1"@)
        } else {
            None
        },
    }
}

#[derive(Clone, Copy, PartialEq, Eq, Structural)]
pub enum BindingKind {
    Switch,
    Move,
}

pub open spec fn kind_prefix(kind: BindingKind) -> Seq<char> {
    match kind {
        BindingKind::Switch => "invalid switch hotkey for workspace "@,
        BindingKind::Move => "invalid move hotkey for workspace "@,
    }
}

pub open spec fn as_view(m: HotkeyMeaning) -> HotkeyView {
    match m {
        HotkeyMeaning::Parsed { modifiers, key, display } => HotkeyView { modifiers, key, display },
        _ => HotkeyView { modifiers: crate::hotkeys::Modifiers::spec_none(), key: 0, display: Seq::empty() },
    }
}

/// One table entry checked against the hotkeys seen so far.
pub open spec fn binding_step(
    seen: Seq<HotkeyView>,
    ws: Seq<char>,
    binding: Seq<char>,
    kind: BindingKind,
) -> Result<Seq<HotkeyView>, Seq<char>> {
    match workspace_key_error(ws) {
        Some(e) => Err(e),
        None => if trim(binding).len() == 0 {
            Ok(seen)
        } else {
            let m = parse_spec(binding);
            if m is Parsed {
                if seen.contains(as_view(m)) {
                    Err("duplicate hotkey binding: "@ + binding)
                } else {
                    Ok(seen.push(as_view(m)))
                }
            } else {
                Err(kind_prefix(kind) + ws + ": "@ + crate::hotkeys::parse_error_text(m))
            }
        },
    }
}

/// The entries of a hotkey table checked in order.
pub open spec fn scan_bindings(
    entries: Seq<(Seq<char>, Seq<char>)>,
    kind: BindingKind,
    seen: Seq<HotkeyView>,
) -> Result<Seq<HotkeyView>, Seq<char>>
    decreases entries.len(),
{
    if entries.len() == 0 {
        Ok(seen)
    } else {
        match scan_bindings(entries.drop_last(), kind, seen) {
            Err(e) => Err(e),
            Ok(s) => binding_step(s, entries.last().0, entries.last().1, kind),
        }
    }
}

/// One app rule checked against the hotkeys seen so far.
pub open spec fn rule_step(seen: Seq<HotkeyView>, r: AppRuleView) -> Result<
    Seq<HotkeyView>,
    Seq<char>,
> {
    if trim(r.executable).len() == 0 {
        Err("app rule executable cannot be empty"@)
    } else if r.workspace == Some(0u32) {
        Err("app rule workspace must be >= 1 when set"@)
    } else if r.workspace is None && trim(r.launch_hotkey).len() == 0 {
        Err("app rule for "@ + r.executable + " must define a workspace and/or launch hotkey"@)
    } else if trim(r.launch_hotkey).len() == 0 {
        Ok(seen)
    } else {
        let m = parse_spec(r.launch_hotkey);
        if m is Parsed {
            if seen.contains(as_view(m)) {
                Err("duplicate hotkey binding: "@ + r.launch_hotkey)
            } else {
                Ok(seen.push(as_view(m)))
            }
        } else {
            Err("invalid launch hotkey for "@ + r.executable + ": "@ + crate::hotkeys::parse_error_text(m))
        }
    }
}

pub open spec fn scan_rules(rules: Seq<AppRuleView>, seen: Seq<HotkeyView>) -> Result<
    Seq<HotkeyView>,
    Seq<char>,
>
    decreases rules.len(),
{
    if rules.len() == 0 {
        Ok(seen)
    } else {
        match scan_rules(rules.drop_last(), seen) {
            Err(e) => Err(e),
            Ok(s) => rule_step(s, rules.last()),
        }
    }
}

/// The first key of a table that is not a valid workspace index.
pub open spec fn first_key_error(entries: Seq<(Seq<char>, Seq<char>)>) -> Option<Seq<char>>
    decreases entries.len(),
{
    if entries.len() == 0 {
        None
    } else {
        match first_key_error(entries.drop_last()) {
            Some(e) => Some(e),
            None => workspace_key_error(entries.last().0),
        }
    }
}

/// The first problem found in a configuration, in the order the checks run:
/// version, switch table, move table (duplicates counted across both and
/// the launch hotkeys), app rules, icon keys.
pub open spec fn config_problem(
    version: u32,
    switch: Seq<(Seq<char>, Seq<char>)>,
    moves: Seq<(Seq<char>, Seq<char>)>,
    rules: Seq<AppRuleView>,
    icons: Seq<(Seq<char>, Seq<char>)>,
) -> Option<Seq<char>> {
    if version != CONFIG_VERSION {
        Some("unsupported config version "@ + decimal(version as nat) + " (expected 1)"@)
    } else {
        match scan_bindings(switch, BindingKind::Switch, Seq::empty()) {
            Err(e) => Some(e),
            Ok(s1) => match scan_bindings(moves, BindingKind::Move, s1) {
                Err(e) => Some(e),
                Ok(s2) => match scan_rules(rules, s2) {
                    Err(e) => Some(e),
                    Ok(_) => first_key_error(icons),
                },
            },
        }
    }
}

pub open spec fn validation_outcome(c: Config) -> Option<Seq<char>> {
    config_problem(
        c.version,
        c.switch_hotkeys@,
        c.move_hotkeys@,
        rules_view(c.app_rules@),
        c.workspace_icons@,
    )
}

fn validation_error(s: String) -> (e: ConfigError)
    ensures
        e == ConfigError::Validation(s),
{
    ConfigError::Validation(s)
}

/// Checks that a table key is a 1-based workspace index.
pub fn validate_workspace_key(key: &str) -> (r: Result<(), ConfigError>)
    ensures
        match workspace_key_error(key@) {
            None => r is Ok,
            Some(m) => r matches Err(ConfigError::Validation(s)) && s@ == m,
        },
{
    let k = chars_of(key);
    match parse_u32(&k) {
        None => {
            let mut s = String::new();
            push_str_chars(&mut s, "invalid workspace key: ");
            push_str_chars(&mut s, key);
            assert(Seq::<char>::empty() + "invalid workspace key: "@ =~= "invalid workspace key: "@);
            Err(validation_error(s))
        },
        Some(w) => {
            if w == 0 {
                let mut s = String::new();
                push_str_chars(&mut s, "workspace index must be >= 1");
                assert(Seq::<char>::empty() + "workspace index must be >= 1"@ =~= "workspace index must be >= 1"@);
                Err(validation_error(s))
            } else {
                Ok(())
            }
        },
    }
}

fn seen_contains(seen: &Vec<Hotkey>, h: &Hotkey) -> (r: bool)
    ensures
        r == hotkeys_view(seen@).contains(h@),
{
    let mut i: usize = 0;
    while i < seen.len()
        invariant
            i <= seen.len(),
            forall|j: int| 0 <= j < i ==> seen@[j]@ != h@,
        decreases seen.len() - i,
    {
        if hotkey_eq(&seen[i], h) {
            assert(hotkeys_view(seen@)[i as int] == h@);
            return true;
        }
        i = i + 1;
    }
    assert forall|j: int| 0 <= j < hotkeys_view(seen@).len() implies hotkeys_view(seen@)[j] != h@ by {
        assert(hotkeys_view(seen@)[j] == seen@[j]@);
    }
    false
}

fn duplicate_message(binding: &str) -> (s: String)
    ensures
        s@ == "duplicate hotkey binding: "@ + binding@,
{
    let mut s = String::new();
    push_str_chars(&mut s, "duplicate hotkey binding: ");
    push_str_chars(&mut s, binding);
    assert(Seq::<char>::empty() + "duplicate hotkey binding: "@ =~= "duplicate hotkey binding: "@);
    s
}

fn binding_check(
    seen: &mut Vec<Hotkey>,
    ws: &String,
    binding: &String,
    kind: BindingKind,
) -> (r: Result<(), ConfigError>)
    ensures
        match binding_step(hotkeys_view(old(seen)@), ws@, binding@, kind) {
            Ok(s) => r is Ok && hotkeys_view(final(seen)@) == s,
            Err(m) => r matches Err(ConfigError::Validation(t)) && t@ == m,
        },
{
    validate_workspace_key(ws.as_str())?;
    let t = trim_str(binding.as_str());
    if t.len() == 0 {
        return Ok(());
    }
    let parsed = Hotkey::parse(binding.as_str());
    match parsed {
        Ok(h) => {
            if seen_contains(seen, &h) {
                return Err(validation_error(duplicate_message(binding.as_str())));
            }
            let ghost before = hotkeys_view(seen@);
            seen.push(h);
            assert(hotkeys_view(seen@) =~= before.push(h@));
            Ok(())
        },
        Err(e) => {
            let mut s = String::new();
            match kind {
                BindingKind::Switch => push_str_chars(&mut s, "invalid switch hotkey for workspace "),
                BindingKind::Move => push_str_chars(&mut s, "invalid move hotkey for workspace "),
            }
            push_str_chars(&mut s, ws.as_str());
            push_str_chars(&mut s, ": ");
            let em = e.message();
            push_str_chars(&mut s, em.as_str());
            proof {
                let e0 = Seq::<char>::empty();
                assert(e0 + kind_prefix(kind) =~= kind_prefix(kind));
            }
            Err(validation_error(s))
        },
    }
}

fn scan_table(seen: &mut Vec<Hotkey>, table: &StringMap, kind: BindingKind) -> (r: Result<
    (),
    ConfigError,
>)
    ensures
        match scan_bindings(table@, kind, hotkeys_view(old(seen)@)) {
            Ok(s) => r is Ok && hotkeys_view(final(seen)@) == s,
            Err(m) => r matches Err(ConfigError::Validation(t)) && t@ == m,
        },
{
    let ghost seen0 = hotkeys_view(seen@);
    let mut i: usize = 0;
    assert(table@.take(0) =~= Seq::<(Seq<char>, Seq<char>)>::empty());
    while i < table.len()
        invariant
            i <= table@.len(),
            seen0 == hotkeys_view(old(seen)@),
            scan_bindings(table@.take(i as int), kind, seen0) == Ok::<
                Seq<HotkeyView>,
                Seq<char>,
            >(hotkeys_view(seen@)),
        decreases table@.len() - i,
    {
        assert(table@.take(i + 1).drop_last() =~= table@.take(i as int));
        assert(table@.take(i + 1).last() == table@[i as int]);
        let r = binding_check(seen, table.key_at(i), table.value_at(i), kind);
        if r.is_err() {
            proof {
                lemma_scan_bindings_err_stays(table@, kind, seen0, i + 1);
            }
            return r;
        }
        i = i + 1;
    }
    assert(table@.take(table@.len() as int) =~= table@);
    Ok(())
}

proof fn lemma_scan_bindings_err_stays(
    entries: Seq<(Seq<char>, Seq<char>)>,
    kind: BindingKind,
    seen: Seq<HotkeyView>,
    i: int,
)
    requires
        0 <= i <= entries.len(),
        scan_bindings(entries.take(i), kind, seen) is Err,
    ensures
        scan_bindings(entries, kind, seen) == scan_bindings(entries.take(i), kind, seen),
    decreases entries.len() - i,
{
    if i < entries.len() {
        assert(entries.take(i + 1).drop_last() =~= entries.take(i));
        lemma_scan_bindings_err_stays(entries, kind, seen, i + 1);
    } else {
        assert(entries.take(i) =~= entries);
    }
}

proof fn lemma_scan_rules_err_stays(rules: Seq<AppRuleView>, seen: Seq<HotkeyView>, i: int)
    requires
        0 <= i <= rules.len(),
        scan_rules(rules.take(i), seen) is Err,
    ensures
        scan_rules(rules, seen) == scan_rules(rules.take(i), seen),
    decreases rules.len() - i,
{
    if i < rules.len() {
        assert(rules.take(i + 1).drop_last() =~= rules.take(i));
        lemma_scan_rules_err_stays(rules, seen, i + 1);
    } else {
        assert(rules.take(i) =~= rules);
    }
}

proof fn lemma_first_key_error_stays(entries: Seq<(Seq<char>, Seq<char>)>, i: int)
    requires
        0 <= i <= entries.len(),
        first_key_error(entries.take(i)) is Some,
    ensures
        first_key_error(entries) == first_key_error(entries.take(i)),
    decreases entries.len() - i,
{
    if i < entries.len() {
        assert(entries.take(i + 1).drop_last() =~= entries.take(i));
        lemma_first_key_error_stays(entries, i + 1);
    } else {
        assert(entries.take(i) =~= entries);
    }
}

fn rule_check(seen: &mut Vec<Hotkey>, rule: &AppRule) -> (r: Result<(), ConfigError>)
    ensures
        match rule_step(hotkeys_view(old(seen)@), rule@) {
            Ok(s) => r is Ok && hotkeys_view(final(seen)@) == s,
            Err(m) => r matches Err(ConfigError::Validation(t)) && t@ == m,
        },
{
    let exe = trim_str(rule.executable.as_str());
    if exe.len() == 0 {
        let mut s = String::new();
        push_str_chars(&mut s, "app rule executable cannot be empty");
        assert(Seq::<char>::empty() + "app rule executable cannot be empty"@ =~= "app rule executable cannot be empty"@);
        return Err(validation_error(s));
    }
    if rule.workspace == Some(0u32) {
        let mut s = String::new();
        push_str_chars(&mut s, "app rule workspace must be >= 1 when set");
        assert(Seq::<char>::empty() + "app rule workspace must be >= 1 when set"@ =~= "app rule workspace must be >= 1 when set"@);
        return Err(validation_error(s));
    }
    let lh = trim_str(rule.launch_hotkey.as_str());
    if rule.workspace.is_none() && lh.len() == 0 {
        let mut s = String::new();
        push_str_chars(&mut s, "app rule for ");
        push_str_chars(&mut s, rule.executable.as_str());
        push_str_chars(&mut s, " must define a workspace and/or launch hotkey");
        assert(Seq::<char>::empty() + "app rule for "@ =~= "app rule for "@);
        return Err(validation_error(s));
    }
    if lh.len() == 0 {
        return Ok(());
    }
    match Hotkey::parse(rule.launch_hotkey.as_str()) {
        Ok(h) => {
            if seen_contains(seen, &h) {
                return Err(validation_error(duplicate_message(rule.launch_hotkey.as_str())));
            }
            let ghost before = hotkeys_view(seen@);
            seen.push(h);
            assert(hotkeys_view(seen@) =~= before.push(h@));
            Ok(())
        },
        Err(e) => {
            let mut s = String::new();
            push_str_chars(&mut s, "invalid launch hotkey for ");
            push_str_chars(&mut s, rule.executable.as_str());
            push_str_chars(&mut s, ": ");
            let em = e.message();
            push_str_chars(&mut s, em.as_str());
            assert(Seq::<char>::empty() + "invalid launch hotkey for "@ =~= "invalid launch hotkey for "@);
            Err(validation_error(s))
        },
    }
}

impl Config {
    /// Checks the configuration; the error names the first problem found.
    pub fn validate(&self) -> (r: Result<(), ConfigError>)
        ensures
            match validation_outcome(*self) {
                None => r is Ok,
                Some(m) => r matches Err(ConfigError::Validation(t)) && t@ == m,
            },
    {
        if self.version != CONFIG_VERSION {
            let mut s = String::new();
            push_str_chars(&mut s, "unsupported config version ");
            push_decimal(&mut s, self.version);
            push_str_chars(&mut s, " (expected 1)");
            assert(Seq::<char>::empty() + "unsupported config version "@ =~= "unsupported config version "@);
            return Err(validation_error(s));
        }
        let mut seen: Vec<Hotkey> = Vec::new();
        assert(hotkeys_view(seen@) =~= Seq::<HotkeyView>::empty());
        scan_table(&mut seen, &self.switch_hotkeys, BindingKind::Switch)?;
        let ghost seen1 = hotkeys_view(seen@);
        scan_table(&mut seen, &self.move_hotkeys, BindingKind::Move)?;
        let ghost rules = rules_view(self.app_rules@);
        let ghost seen2 = hotkeys_view(seen@);
        let mut i: usize = 0;
        assert(rules.take(0) =~= Seq::<AppRuleView>::empty());
        while i < self.app_rules.len()
            invariant
                i <= self.app_rules@.len(),
                rules == rules_view(self.app_rules@),
                self.version == CONFIG_VERSION,
                scan_bindings(self.switch_hotkeys@, BindingKind::Switch, Seq::empty()) == Ok::<
                    Seq<HotkeyView>,
                    Seq<char>,
                >(seen1),
                scan_bindings(self.move_hotkeys@, BindingKind::Move, seen1) == Ok::<
                    Seq<HotkeyView>,
                    Seq<char>,
                >(seen2),
                scan_rules(rules.take(i as int), seen2) == Ok::<Seq<HotkeyView>, Seq<char>>(
                    hotkeys_view(seen@),
                ),
            decreases self.app_rules@.len() - i,
        {
            assert(rules.take(i + 1).drop_last() =~= rules.take(i as int));
            assert(rules.take(i + 1).last() == self.app_rules@[i as int]@);
            let r = rule_check(&mut seen, &self.app_rules[i]);
            if r.is_err() {
                proof {
                    lemma_scan_rules_err_stays(rules, seen2, i + 1);
                }
                return r;
            }
            i = i + 1;
        }
        assert(rules.take(self.app_rules@.len() as int) =~= rules);
        let icons = &self.workspace_icons;
        let mut j: usize = 0;
        assert(icons@.take(0) =~= Seq::<(Seq<char>, Seq<char>)>::empty());
        while j < icons.len()
            invariant
                j <= icons@.len(),
                icons == &self.workspace_icons,
                first_key_error(icons@.take(j as int)) is None,
                self.version == CONFIG_VERSION,
                scan_bindings(self.switch_hotkeys@, BindingKind::Switch, Seq::empty()) == Ok::<
                    Seq<HotkeyView>,
                    Seq<char>,
                >(seen1),
                scan_bindings(self.move_hotkeys@, BindingKind::Move, seen1) == Ok::<
                    Seq<HotkeyView>,
                    Seq<char>,
                >(seen2),
                scan_rules(rules, seen2) is Ok,
                rules == rules_view(self.app_rules@),
            decreases icons@.len() - j,
        {
            assert(icons@.take(j + 1).drop_last() =~= icons@.take(j as int));
            assert(icons@.take(j + 1).last() == icons@[j as int]);
            let r = validate_workspace_key(icons.key_at(j).as_str());
            if r.is_err() {
                proof {
                    lemma_first_key_error_stays(icons@, j + 1);
                }
                return r;
            }
            j = j + 1;
        }
        assert(icons@.take(icons@.len() as int) =~= icons@);
        Ok(())
    }
}

} // verus!

verus! {

// ---------------------------------------------------------------------------
// Defaults, binding lists and icon lookup
// ---------------------------------------------------------------------------

/// The default tables: `Win+N` switches to workspace N, `Win+Shift+N`
/// moves the focused window there, for N from 1 to 9.
pub open spec fn default_switch_table() -> Seq<(Seq<char>, Seq<char>)> {
    Seq::new(9, |i: int| (decimal((i + 1) as nat), "Win+"@ + decimal((i + 1) as nat)))
}

pub open spec fn default_move_table() -> Seq<(Seq<char>, Seq<char>)> {
    Seq::new(9, |i: int| (decimal((i + 1) as nat), "Win+Shift+"@ + decimal((i + 1) as nat)))
}

proof fn lemma_decimal_injective(a: nat, b: nat)
    requires
        decimal(a) == decimal(b),
    ensures
        a == b,
{
    crate::text::lemma_decimal_digits(a);
    crate::text::lemma_decimal_digits(b);
}

impl Default for Config {
    fn default() -> (c: Self)
        ensures
            c.version == CONFIG_VERSION,
            c.switch_hotkeys@ == default_switch_table(),
            c.move_hotkeys@ == default_move_table(),
            c.workspace_icons@.len() == 0,
            c.app_rules@.len() == 0,
            !c.startup.launch_at_login,
    {
        let mut switch_hotkeys = StringMap::new();
        let mut move_hotkeys = StringMap::new();
        let mut i: u32 = 1;
        while i <= 9
            invariant
                1 <= i <= 10,
                switch_hotkeys@ == default_switch_table().take(i - 1),
                move_hotkeys@ == default_move_table().take(i - 1),
            decreases 10 - i,
        {
            let ghost k = decimal(i as nat);
            proof {
                assert forall|j: int| 0 <= j < switch_hotkeys@.len() implies (#[trigger] switch_hotkeys@[j]).0 != k by {
                    if switch_hotkeys@[j].0 == k {
                        lemma_decimal_injective((j + 1) as nat, i as nat);
                    }
                }
                assert forall|j: int| 0 <= j < move_hotkeys@.len() implies (#[trigger] move_hotkeys@[j]).0 != k by {
                    if move_hotkeys@[j].0 == k {
                        lemma_decimal_injective((j + 1) as nat, i as nat);
                    }
                }
            }
            let key = crate::text::u32_to_string(i);
            let mut sw = String::new();
            push_str_chars(&mut sw, "Win+");
            push_decimal(&mut sw, i);
            switch_hotkeys.insert(key, sw);
            let key2 = crate::text::u32_to_string(i);
            let mut mv = String::new();
            push_str_chars(&mut mv, "Win+Shift+");
            push_decimal(&mut mv, i);
            move_hotkeys.insert(key2, mv);
            assert(Seq::<char>::empty() + "Win+"@ =~= "Win+"@);
            assert(Seq::<char>::empty() + "Win+Shift+"@ =~= "Win+Shift+"@);
            assert(switch_hotkeys@ =~= default_switch_table().take(i as int));
            assert(move_hotkeys@ =~= default_move_table().take(i as int));
            i = i + 1;
        }
        assert(default_switch_table().take(9) =~= default_switch_table());
        assert(default_move_table().take(9) =~= default_move_table());
        Config {
            version: CONFIG_VERSION,
            switch_hotkeys,
            move_hotkeys,
            workspace_icons: StringMap::new(),
            app_rules: Vec::new(),
            startup: StartupSettings::default(),
        }
    }
}

/// One table entry turned into a (workspace, hotkey) binding.
pub open spec fn collect_step(
    acc: Seq<KeyedView<(u32, HotkeyView)>>,
    ws: Seq<char>,
    binding: Seq<char>,
    kind: BindingKind,
) -> Result<Seq<KeyedView<(u32, HotkeyView)>>, Seq<char>> {
    if trim(binding).len() == 0 {
        Ok(acc)
    } else {
        match parse_u32_spec(ws) {
            None => Err("invalid workspace key: "@ + ws),
            Some(w) => {
                let m = parse_spec(binding);
                if m is Parsed {
                    Ok(acc.push((Seq::<char>::empty(), w as nat, (w, as_view(m)))))
                } else {
                    Err(kind_prefix(kind) + decimal(w as nat) + ": "@
                        + crate::hotkeys::parse_error_text(m))
                }
            },
        }
    }
}

pub open spec fn collect_bindings(entries: Seq<(Seq<char>, Seq<char>)>, kind: BindingKind) -> Result<
    Seq<KeyedView<(u32, HotkeyView)>>,
    Seq<char>,
>
    decreases entries.len(),
{
    if entries.len() == 0 {
        Ok(Seq::empty())
    } else {
        match collect_bindings(entries.drop_last(), kind) {
            Err(e) => Err(e),
            Ok(acc) => collect_step(acc, entries.last().0, entries.last().1, kind),
        }
    }
}

/// The bindings of a table, sorted by workspace (stable), or the first error.
pub open spec fn bindings_outcome(entries: Seq<(Seq<char>, Seq<char>)>, kind: BindingKind) -> Result<
    Seq<(u32, HotkeyView)>,
    Seq<char>,
> {
    match collect_bindings(entries, kind) {
        Err(e) => Err(e),
        Ok(items) => {
            let s = sorted_by_key(items);
            Ok(Seq::new(s.len(), |i: int| s[i].2))
        },
    }
}

pub open spec fn bindings_view(v: Seq<(u32, Hotkey)>) -> Seq<(u32, HotkeyView)> {
    Seq::new(v.len(), |i: int| (v[i].0, v[i].1@))
}

proof fn lemma_collect_err_stays(entries: Seq<(Seq<char>, Seq<char>)>, kind: BindingKind, i: int)
    requires
        0 <= i <= entries.len(),
        collect_bindings(entries.take(i), kind) is Err,
    ensures
        collect_bindings(entries, kind) == collect_bindings(entries.take(i), kind),
    decreases entries.len() - i,
{
    if i < entries.len() {
        assert(entries.take(i + 1).drop_last() =~= entries.take(i));
        lemma_collect_err_stays(entries, kind, i + 1);
    } else {
        assert(entries.take(i) =~= entries);
    }
}

fn bindings_of(table: &StringMap, kind: BindingKind) -> (r: Result<Vec<(u32, Hotkey)>, ConfigError>)
    ensures
        match bindings_outcome(table@, kind) {
            Ok(b) => r matches Ok(v) && bindings_view(v@) == b,
            Err(m) => r matches Err(ConfigError::Validation(t)) && t@ == m,
        },
{
    let mut items: Vec<Keyed<(u32, Hotkey)>> = Vec::new();
    let mut i: usize = 0;
    assert(table@.take(0) =~= Seq::<(Seq<char>, Seq<char>)>::empty());
    assert(kview(items@) =~= Seq::<KeyedView<(u32, HotkeyView)>>::empty());
    while i < table.len()
        invariant
            i <= table@.len(),
            collect_bindings(table@.take(i as int), kind) == Ok::<
                Seq<KeyedView<(u32, HotkeyView)>>,
                Seq<char>,
            >(kview(items@)),
        decreases table@.len() - i,
    {
        assert(table@.take(i + 1).drop_last() =~= table@.take(i as int));
        assert(table@.take(i + 1).last() == table@[i as int]);
        let ws = table.key_at(i);
        let binding = table.value_at(i);
        let t = trim_str(binding.as_str());
        if t.len() > 0 {
            let wv = chars_of(ws.as_str());
            let w = match parse_u32(&wv) {
                Some(w) => w,
                None => {
                    let mut s = String::new();
                    push_str_chars(&mut s, "invalid workspace key: ");
                    push_str_chars(&mut s, ws.as_str());
                    assert(Seq::<char>::empty() + "invalid workspace key: "@ =~= "invalid workspace key: "@);
                    proof {
                        lemma_collect_err_stays(table@, kind, i + 1);
                    }
                    return Err(validation_error(s));
                },
            };
            match Hotkey::parse(binding.as_str()) {
                Ok(h) => {
                    let ghost before = kview(items@);
                    items.push(Keyed { text: Vec::new(), num: w as u64, item: (w, h) });
                    assert(kview(items@) =~= before.push((Seq::<char>::empty(), w as nat, (w, h@))));
                },
                Err(e) => {
                    let mut s = String::new();
                    match kind {
                        BindingKind::Switch => push_str_chars(&mut s, "invalid switch hotkey for workspace "),
                        BindingKind::Move => push_str_chars(&mut s, "invalid move hotkey for workspace "),
                    }
                    push_decimal(&mut s, w);
                    push_str_chars(&mut s, ": ");
                    let em = e.message();
                    push_str_chars(&mut s, em.as_str());
                    proof {
                        let e0 = Seq::<char>::empty();
                        assert(e0 + kind_prefix(kind) =~= kind_prefix(kind));
                        lemma_collect_err_stays(table@, kind, i + 1);
                    }
                    return Err(validation_error(s));
                },
            }
        }
        i = i + 1;
    }
    assert(table@.take(table@.len() as int) =~= table@);
    let sorted = stable_sort(items);
    let mut out: Vec<(u32, Hotkey)> = Vec::new();
    let mut rest = sorted;
    let ghost sv = kview(rest@);
    let mut k: usize = 0;
    let n = rest.len();
    while rest.len() > 0
        invariant
            k + rest.len() == n,
            n == sv.len(),
            forall|j: int| 0 <= j < rest@.len() ==> kview(rest@)[j] == sv[k + j],
            bindings_view(out@) == Seq::new(k as nat, |j: int| sv[j].2),
        decreases rest.len(),
    {
        let ghost rb = kview(rest@);
        let x = rest.remove(0);
        assert(rb[0] == (x.text@, x.num as nat, x.item@));
        assert forall|j: int| 0 <= j < rest@.len() implies kview(rest@)[j] == sv[k + 1 + j] by {
            assert(rb[j + 1] == sv[k + j + 1]);
        }
        let ghost ob = bindings_view(out@);
        out.push(x.item);
        assert(bindings_view(out@) =~= Seq::new((k + 1) as nat, |j: int| sv[j].2)) by {
            assert(bindings_view(out@) =~= ob.push((x.item.0, x.item.1@)));
        }
        k = k + 1;
    }
    Ok(out)
}

/// One app rule turned into an (executable, hotkey) launch binding.
pub open spec fn launch_step(acc: Seq<KeyedView<(Seq<char>, HotkeyView)>>, r: AppRuleView) -> Result<
    Seq<KeyedView<(Seq<char>, HotkeyView)>>,
    Seq<char>,
> {
    if trim(r.launch_hotkey).len() == 0 {
        Ok(acc)
    } else {
        let m = parse_spec(r.launch_hotkey);
        if m is Parsed {
            Ok(acc.push((r.executable, 0, (r.executable, as_view(m)))))
        } else {
            Err("invalid launch hotkey for "@ + r.executable + ": "@ + crate::hotkeys::parse_error_text(m))
        }
    }
}

pub open spec fn collect_launch(rules: Seq<AppRuleView>) -> Result<
    Seq<KeyedView<(Seq<char>, HotkeyView)>>,
    Seq<char>,
>
    decreases rules.len(),
{
    if rules.len() == 0 {
        Ok(Seq::empty())
    } else {
        match collect_launch(rules.drop_last()) {
            Err(e) => Err(e),
            Ok(acc) => launch_step(acc, rules.last()),
        }
    }
}

/// Launch bindings sorted by executable (stable), or the first error.
pub open spec fn launch_outcome(rules: Seq<AppRuleView>) -> Result<
    Seq<(Seq<char>, HotkeyView)>,
    Seq<char>,
> {
    match collect_launch(rules) {
        Err(e) => Err(e),
        Ok(items) => {
            let s = sorted_by_key(items);
            Ok(Seq::new(s.len(), |i: int| s[i].2))
        },
    }
}

pub open spec fn launch_view(v: Seq<(String, Hotkey)>) -> Seq<(Seq<char>, HotkeyView)> {
    Seq::new(v.len(), |i: int| (v[i].0@, v[i].1@))
}

proof fn lemma_launch_err_stays(rules: Seq<AppRuleView>, i: int)
    requires
        0 <= i <= rules.len(),
        collect_launch(rules.take(i)) is Err,
    ensures
        collect_launch(rules) == collect_launch(rules.take(i)),
    decreases rules.len() - i,
{
    if i < rules.len() {
        assert(rules.take(i + 1).drop_last() =~= rules.take(i));
        lemma_launch_err_stays(rules, i + 1);
    } else {
        assert(rules.take(i) =~= rules);
    }
}

/// The icon spec configured for a workspace: the table entry under the
/// workspace's decimal key, trimmed, when not blank.
pub open spec fn workspace_icon_spec(icons: Seq<(Seq<char>, Seq<char>)>, workspace: u32) -> Option<
    Seq<char>,
> {
    match lookup(icons, decimal(workspace as nat)) {
        None => None,
        Some(v) => if trim(v).len() == 0 {
            None
        } else {
            Some(trim(v))
        },
    }
}

impl Config {
    /// Workspace-switch bindings, sorted by workspace.
    pub fn switch_bindings(&self) -> (r: Result<Vec<(u32, Hotkey)>, ConfigError>)
        ensures
            match bindings_outcome(self.switch_hotkeys@, BindingKind::Switch) {
                Ok(b) => r matches Ok(v) && bindings_view(v@) == b,
                Err(m) => r matches Err(ConfigError::Validation(t)) && t@ == m,
            },
    {
        bindings_of(&self.switch_hotkeys, BindingKind::Switch)
    }

    /// Move-window bindings, sorted by workspace.
    pub fn move_bindings(&self) -> (r: Result<Vec<(u32, Hotkey)>, ConfigError>)
        ensures
            match bindings_outcome(self.move_hotkeys@, BindingKind::Move) {
                Ok(b) => r matches Ok(v) && bindings_view(v@) == b,
                Err(m) => r matches Err(ConfigError::Validation(t)) && t@ == m,
            },
    {
        bindings_of(&self.move_hotkeys, BindingKind::Move)
    }

    /// Icon spec (`"<style>:<name>"`) configured for a 1-based workspace, if any.
    pub fn workspace_icon(&self, workspace: u32) -> (r: Option<&str>)
        ensures
            match workspace_icon_spec(self.workspace_icons@, workspace) {
                None => r is None,
                Some(t) => r matches Some(s) && s@ == t,
            },
    {
        let key = crate::text::u32_to_string(workspace);
        match self.workspace_icons.get(key.as_str()) {
            None => None,
            Some(v) => {
                let chars = chars_of(v.as_str());
                let (a, b) = crate::text::trim_bounds(&chars);
                if a == b {
                    None
                } else {
                    let s: &str = v.as_str();
                    Some(vstd::string::StrSliceExecFns::substring_char(s, a, b))
                }
            },
        }
    }

    /// Launch bindings of the app rules, sorted by executable.
    pub fn launch_bindings(&self) -> (r: Result<Vec<(String, Hotkey)>, ConfigError>)
        ensures
            match launch_outcome(rules_view(self.app_rules@)) {
                Ok(b) => r matches Ok(v) && launch_view(v@) == b,
                Err(m) => r matches Err(ConfigError::Validation(t)) && t@ == m,
            },
    {
        let ghost rules = rules_view(self.app_rules@);
        let mut items: Vec<Keyed<(String, Hotkey)>> = Vec::new();
        let mut i: usize = 0;
        assert(rules.take(0) =~= Seq::<AppRuleView>::empty());
        assert(kview(items@) =~= Seq::<KeyedView<(Seq<char>, HotkeyView)>>::empty());
        while i < self.app_rules.len()
            invariant
                i <= self.app_rules@.len(),
                rules == rules_view(self.app_rules@),
                collect_launch(rules.take(i as int)) == Ok::<
                    Seq<KeyedView<(Seq<char>, HotkeyView)>>,
                    Seq<char>,
                >(kview(items@)),
            decreases self.app_rules@.len() - i,
        {
            assert(rules.take(i + 1).drop_last() =~= rules.take(i as int));
            assert(rules.take(i + 1).last() == self.app_rules@[i as int]@);
            let rule = &self.app_rules[i];
            let t = trim_str(rule.launch_hotkey.as_str());
            if t.len() > 0 {
                match Hotkey::parse(rule.launch_hotkey.as_str()) {
                    Ok(h) => {
                        let ghost before = kview(items@);
                        let exe = rule.executable.clone();
                        let text = chars_of(rule.executable.as_str());
                        items.push(Keyed { text, num: 0, item: (exe, h) });
                        assert(kview(items@) =~= before.push(
                            (rule.executable@, 0nat, (rule.executable@, h@)),
                        ));
                    },
                    Err(e) => {
                        let mut s = String::new();
                        push_str_chars(&mut s, "invalid launch hotkey for ");
                        push_str_chars(&mut s, rule.executable.as_str());
                        push_str_chars(&mut s, ": ");
                        let em = e.message();
                        push_str_chars(&mut s, em.as_str());
                        assert(Seq::<char>::empty() + "invalid launch hotkey for "@ =~= "invalid launch hotkey for "@);
                        proof {
                            lemma_launch_err_stays(rules, i + 1);
                        }
                        return Err(validation_error(s));
                    },
                }
            }
            i = i + 1;
        }
        assert(rules.take(self.app_rules@.len() as int) =~= rules);
        let sorted = stable_sort(items);
        let mut out: Vec<(String, Hotkey)> = Vec::new();
        let mut rest = sorted;
        let ghost sv = kview(rest@);
        let mut k: usize = 0;
        let n = rest.len();
        while rest.len() > 0
            invariant
                k + rest.len() == n,
                n == sv.len(),
                forall|j: int| 0 <= j < rest@.len() ==> kview(rest@)[j] == sv[k + j],
                launch_view(out@) == Seq::new(k as nat, |j: int| sv[j].2),
            decreases rest.len(),
        {
            let ghost rb = kview(rest@);
            let x = rest.remove(0);
            assert(rb[0] == (x.text@, x.num as nat, x.item@));
            assert forall|j: int| 0 <= j < rest@.len() implies kview(rest@)[j] == sv[k + 1 + j] by {
                assert(rb[j + 1] == sv[k + j + 1]);
            }
            let ghost ob = launch_view(out@);
            out.push(x.item);
            assert(launch_view(out@) =~= Seq::new((k + 1) as nat, |j: int| sv[j].2)) by {
                assert(launch_view(out@) =~= ob.push((x.item.0@, x.item.1@)));
            }
            k = k + 1;
        }
        Ok(out)
    }
}

} // verus!

verus! {

// ---------------------------------------------------------------------------
// Laws
// ---------------------------------------------------------------------------

proof fn lemma_scan_ok_collect_ok(
    entries: Seq<(Seq<char>, Seq<char>)>,
    kind: BindingKind,
    seen: Seq<HotkeyView>,
)
    requires
        scan_bindings(entries, kind, seen) is Ok,
    ensures
        collect_bindings(entries, kind) is Ok,
    decreases entries.len(),
{
    if entries.len() > 0 {
        lemma_scan_ok_collect_ok(entries.drop_last(), kind, seen);
    }
}

proof fn lemma_rules_ok_launch_ok(rules: Seq<AppRuleView>, seen: Seq<HotkeyView>)
    requires
        scan_rules(rules, seen) is Ok,
    ensures
        collect_launch(rules) is Ok,
    decreases rules.len(),
{
    if rules.len() > 0 {
        lemma_rules_ok_launch_ok(rules.drop_last(), seen);
    }
}

/// A configuration that passes validation yields its switch, move and launch
/// binding lists without error.
pub proof fn lemma_validated_bindings_ok(c: Config)
    requires
        validation_outcome(c) is None,
    ensures
        bindings_outcome(c.switch_hotkeys@, BindingKind::Switch) is Ok,
        bindings_outcome(c.move_hotkeys@, BindingKind::Move) is Ok,
        launch_outcome(rules_view(c.app_rules@)) is Ok,
{
    let s1 = scan_bindings(c.switch_hotkeys@, BindingKind::Switch, Seq::empty());
    lemma_scan_ok_collect_ok(c.switch_hotkeys@, BindingKind::Switch, Seq::empty());
    let seen1 = s1->Ok_0;
    let s2 = scan_bindings(c.move_hotkeys@, BindingKind::Move, seen1);
    lemma_scan_ok_collect_ok(c.move_hotkeys@, BindingKind::Move, seen1);
    lemma_rules_ok_launch_ok(rules_view(c.app_rules@), s2->Ok_0);
}

proof fn lemma_collect_shape(entries: Seq<(Seq<char>, Seq<char>)>, kind: BindingKind)
    ensures
        collect_bindings(entries, kind) matches Ok(items) ==> forall|i: int|
            0 <= i < items.len() ==> (#[trigger] items[i]).0 == Seq::<char>::empty() && items[i].1
                == items[i].2.0 as nat,
    decreases entries.len(),
{
    if entries.len() > 0 {
        lemma_collect_shape(entries.drop_last(), kind);
    }
}

/// Binding lists come out ordered by workspace.
pub proof fn lemma_bindings_sorted(entries: Seq<(Seq<char>, Seq<char>)>, kind: BindingKind)
    ensures
        bindings_outcome(entries, kind) matches Ok(b) ==> forall|i: int, j: int|
            0 <= i < j < b.len() ==> (#[trigger] b[i]).0 <= (#[trigger] b[j]).0,
{
    broadcast use vstd::seq_lib::group_seq_properties;

    lemma_collect_shape(entries, kind);
    if let Ok(items) = collect_bindings(entries, kind) {
        crate::sort::lemma_sorted_by_key(items);
        let s = sorted_by_key(items);
        let b = Seq::new(s.len(), |k: int| s[k].2);
        assert forall|i: int, j: int| 0 <= i < j < b.len() implies (#[trigger] b[i]).0 <= (
        #[trigger] b[j]).0 by {
            assert(crate::sort::key_le(s[i], s[j]));
            assert(s.to_multiset().count(s[i]) > 0);
            assert(s.contains(s[i]));
            assert(items.contains(s[i]));
            assert(s.to_multiset().count(s[j]) > 0);
            assert(s.contains(s[j]));
            assert(items.contains(s[j]));
            let a = choose|k: int| 0 <= k < items.len() && items[k] == s[i];
            let c = choose|k: int| 0 <= k < items.len() && items[k] == s[j];
            assert(items[a].0 == Seq::<char>::empty());
            assert(items[c].0 == Seq::<char>::empty());
            crate::sort::lemma_lex_irrefl_pub(Seq::<char>::empty());
        }
    }
}

/// A bare-name rule matches exactly the processes with that file name; a
/// full-path rule never matches a process known only by name.
pub proof fn lemma_rule_matching(rule: Seq<char>, process: Seq<char>)
    ensures
        trim(rule).len() > 0 && !is_full_path_spec(trim(rule)) ==> (matches_spec(rule, process)
            <==> basename_spec(trim(rule)).len() > 0 && basename_spec(trim(rule)) == basename_spec(
            process,
        )),
        is_full_path_spec(trim(rule)) && !is_full_path_spec(process) ==> !matches_spec(
            rule,
            process,
        ),
{
}

/// The settings window's edit of a workspace's hotkey cell: blank text
/// removes the binding, other text is stored as typed.
pub fn edit_hotkey_cell(table: &mut StringMap, workspace: u32, text: &str)
    ensures
        final(table)@ == (if trim(text@).len() == 0 {
            remove_entry(old(table)@, decimal(workspace as nat))
        } else {
            insert_entry(old(table)@, decimal(workspace as nat), text@)
        }),
{
    let key = crate::text::u32_to_string(workspace);
    if trim_str(text).len() == 0 {
        table.remove(key.as_str());
    } else {
        table.insert(key, text.to_string());
    }
}


/// The hotkeys a table binds, in order: the parsed value of each entry
/// whose text is not blank.
pub open spec fn table_hotkeys(entries: Seq<(Seq<char>, Seq<char>)>) -> Seq<HotkeyView>
    decreases entries.len(),
{
    if entries.len() == 0 {
        Seq::empty()
    } else if trim(entries.last().1).len() == 0 {
        table_hotkeys(entries.drop_last())
    } else {
        table_hotkeys(entries.drop_last()).push(as_view(parse_spec(entries.last().1)))
    }
}

/// The launch hotkeys the app rules bind, in order.
pub open spec fn rule_hotkeys(rules: Seq<AppRuleView>) -> Seq<HotkeyView>
    decreases rules.len(),
{
    if rules.len() == 0 {
        Seq::empty()
    } else if trim(rules.last().launch_hotkey).len() == 0 {
        rule_hotkeys(rules.drop_last())
    } else {
        rule_hotkeys(rules.drop_last()).push(as_view(parse_spec(rules.last().launch_hotkey)))
    }
}

proof fn lemma_push_distinct(s: Seq<HotkeyView>, v: HotkeyView)
    requires
        s.no_duplicates(),
        !s.contains(v),
    ensures
        s.push(v).no_duplicates(),
{
    assert forall|i: int, j: int| 0 <= i < s.push(v).len() && 0 <= j < s.push(v).len() && i != j
        implies s.push(v)[i] != s.push(v)[j] by {
        if i < s.len() && j < s.len() {
            assert(s.push(v)[i] == s[i] && s.push(v)[j] == s[j]);
        } else if i < s.len() {
            assert(s.push(v)[i] == s[i]);
        } else if j < s.len() {
            assert(s.push(v)[j] == s[j]);
        }
    }
}

proof fn lemma_scan_distinct(entries: Seq<(Seq<char>, Seq<char>)>, kind: BindingKind, seen: Seq<HotkeyView>)
    requires
        seen.no_duplicates(),
    ensures
        scan_bindings(entries, kind, seen) matches Ok(s) ==> s == seen + table_hotkeys(entries)
            && s.no_duplicates(),
    decreases entries.len(),
{
    if entries.len() > 0 {
        lemma_scan_distinct(entries.drop_last(), kind, seen);
        if let Ok(s0) = scan_bindings(entries.drop_last(), kind, seen) {
            let b = entries.last().1;
            if trim(b).len() > 0 && workspace_key_error(entries.last().0) is None && parse_spec(b) is Parsed
                && !s0.contains(as_view(parse_spec(b))) {
                lemma_push_distinct(s0, as_view(parse_spec(b)));
                assert(s0.push(as_view(parse_spec(b))) =~= seen + table_hotkeys(entries));
            }
        }
    }
}

proof fn lemma_rules_distinct(rules: Seq<AppRuleView>, seen: Seq<HotkeyView>)
    requires
        seen.no_duplicates(),
    ensures
        scan_rules(rules, seen) matches Ok(s) ==> s == seen + rule_hotkeys(rules) && s.no_duplicates(),
    decreases rules.len(),
{
    if rules.len() > 0 {
        lemma_rules_distinct(rules.drop_last(), seen);
        if let Ok(s0) = scan_rules(rules.drop_last(), seen) {
            let b = rules.last().launch_hotkey;
            if trim(b).len() > 0 && parse_spec(b) is Parsed && !s0.contains(as_view(parse_spec(b))) {
                lemma_push_distinct(s0, as_view(parse_spec(b)));
                assert(s0.push(as_view(parse_spec(b))) =~= seen + rule_hotkeys(rules));
            }
        }
    }
}

/// In a configuration that passes validation, the hotkeys bound by the
/// switch table, the move table and the app rules' launch hotkeys are
/// pairwise distinct: two non-blank entries anywhere among them that parse
/// to the same hotkey make validation fail.
pub proof fn lemma_validated_hotkeys_distinct(c: Config)
    requires
        validation_outcome(c) is None,
    ensures
        (table_hotkeys(c.switch_hotkeys@) + table_hotkeys(c.move_hotkeys@) + rule_hotkeys(
            rules_view(c.app_rules@),
        )).no_duplicates(),
{
    let e = Seq::<HotkeyView>::empty();
    lemma_scan_distinct(c.switch_hotkeys@, BindingKind::Switch, e);
    let s1 = scan_bindings(c.switch_hotkeys@, BindingKind::Switch, e)->Ok_0;
    assert(e + table_hotkeys(c.switch_hotkeys@) =~= table_hotkeys(c.switch_hotkeys@));
    lemma_scan_distinct(c.move_hotkeys@, BindingKind::Move, s1);
    let s2 = scan_bindings(c.move_hotkeys@, BindingKind::Move, s1)->Ok_0;
    lemma_rules_distinct(rules_view(c.app_rules@), s2);
}

} // verus!
