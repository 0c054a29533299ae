//! Update policy: release tags and version comparison, installer selection,
//! file-name sanitising, and when to prompt.
//!
//! Prompt throttling:
//! - If the user declines a version, that version is never prompted again.
//! - The time of each prompt is recorded; a new prompt is only shown once at
//!   least two days have elapsed since the previous one.

use vstd::prelude::*;
use crate::text::{
    after_last_sep, chars_eq, chars_of, ends_with, ends_with_str, find_last_sep, lower,
    lower_chars, parse_u64, parse_u64_spec, push_str_chars, split, split_chars, starts_with,
    starts_with_str, string_from, subvec, trim, trim_chars, views, Sep, is_ws, is_sep,
    trim_start, trim_end, last_sep, decimal,
};

verus! {

/// Minimum delay between update prompts (2 days).
pub const REPROMPT_INTERVAL_SECS: u64 = 172800;

/// Whether a release asset is the installer (`bgwm-setup*.exe`, any case).
pub open spec fn is_installer_spec(name: Seq<char>) -> bool {
    starts_with(lower(name), "bgwm-setup"@) && ends_with(lower(name), ".exe"@)
}

pub fn is_installer_asset(name: &str) -> (r: bool)
    ensures
        r == is_installer_spec(name@),
{
    let v = chars_of(name);
    let l = lower_chars(&v);
    starts_with_str(&l, "bgwm-setup") && ends_with_str(&l, ".exe")
}

/// Leading `v`/`V` characters removed.
pub open spec fn strip_v(s: Seq<char>) -> Seq<char>
    decreases s.len(),
{
    if s.len() > 0 && (s[0] == 'v' || s[0] == 'V') {
        strip_v(s.drop_first())
    } else {
        s
    }
}

/// A release tag as a version: trimmed, leading `v`/`V` removed.
pub open spec fn normalize_version_spec(tag: Seq<char>) -> Seq<char> {
    strip_v(trim(tag))
}

pub fn normalize_version(tag: &str) -> (r: String)
    ensures
        r@ == normalize_version_spec(tag@),
{
    let t = crate::text::trim_str(tag);
    let mut i: usize = 0;
    assert(t@.skip(0) =~= t@);
    while i < t.len() && (t[i] == 'v' || t[i] == 'V')
        invariant
            i <= t.len(),
            strip_v(t@) == strip_v(t@.skip(i as int)),
        decreases t.len() - i,
    {
        assert(t@.skip(i as int).drop_first() =~= t@.skip(i + 1));
        i = i + 1;
    }
    let rest = subvec(&t, i, t.len());
    assert(rest@ =~= t@.skip(i as int));
    string_from(&rest)
}

/// The numeric value of one dotted component (0 when it is not a number).
pub open spec fn component(parts: Seq<Seq<char>>, i: int) -> u64 {
    if 0 <= i < parts.len() {
        match parse_u64_spec(trim(parts[i])) {
            Some(n) => n,
            None => 0,
        }
    } else {
        0
    }
}

/// `(major, minor, patch)` of a version, ignoring pre-release and build
/// metadata (anything from the first `-` or `+`).
pub open spec fn version_spec(v: Seq<char>) -> (u64, u64, u64) {
    let core = split(v, Sep::DashOrPlus)[0];
    let parts = split(core, Sep::Dot);
    (component(parts, 0), component(parts, 1), component(parts, 2))
}

fn component_exec(parts: &Vec<Vec<char>>, i: usize) -> (r: u64)
    ensures
        r == component(views(parts@), i as int),
{
    if i < parts.len() {
        let t = trim_chars(&parts[i]);
        match parse_u64(&t) {
            Some(n) => n,
            None => 0,
        }
    } else {
        0
    }
}

/// Parses a semantic version into a comparable `(major, minor, patch)` tuple.
pub fn parse_version(version: &str) -> (r: (u64, u64, u64))
    ensures
        r == version_spec(version@),
{
    let v = chars_of(version);
    let pieces = split_chars(&v, Sep::DashOrPlus);
    proof {
        crate::text::lemma_split_len(v@, Sep::DashOrPlus);
    }
    let parts = split_chars(&pieces[0], Sep::Dot);
    (component_exec(&parts, 0), component_exec(&parts, 1), component_exec(&parts, 2))
}

/// Tuple order on versions.
pub open spec fn version_gt(a: (u64, u64, u64), b: (u64, u64, u64)) -> bool {
    a.0 > b.0 || (a.0 == b.0 && (a.1 > b.1 || (a.1 == b.1 && a.2 > b.2)))
}

pub fn is_newer(candidate: &str, current: &str) -> (r: bool)
    ensures
        r == version_gt(version_spec(candidate@), version_spec(current@)),
{
    let a = parse_version(candidate);
    let b = parse_version(current);
    a.0 > b.0 || (a.0 == b.0 && (a.1 > b.1 || (a.1 == b.1 && a.2 > b.2)))
}

/// The file name an installer is saved under: the asset name after its last
/// `\` or `/`, trimmed; a fixed name when that is empty, `.` or `..` (which
/// name no file, as `Path::file_name` has it).
pub open spec fn sanitize_spec(name: Seq<char>) -> Seq<char> {
    let b = trim(after_last_sep(name, Sep::Slash));
    if b.len() == 0 || b == "."@ || b == ".."@ {
        "bgwm-setup.exe"@
    } else {
        b
    }
}

/// Keeps only the file name component to avoid path traversal from the asset name.
pub fn sanitize_filename(name: &str) -> (r: String)
    ensures
        r@ == sanitize_spec(name@),
{
    let v = chars_of(name);
    proof {
        crate::text::lemma_last_sep(v@, Sep::Slash);
    }
    let n = v.len();
    let start = match find_last_sep(&v, Sep::Slash) {
        Some(i) => {
            assert(i < n);
            i + 1
        },
        None => 0,
    };
    let tail = subvec(&v, start, n);
    let base = trim_chars(&tail);
    if base.len() == 0 || crate::text::chars_eq_str(&base, ".") || crate::text::chars_eq_str(&base, "..") {
        let mut s = String::new();
        push_str_chars(&mut s, "bgwm-setup.exe");
        assert(Seq::<char>::empty() + "bgwm-setup.exe"@ =~= "bgwm-setup.exe"@);
        s
    } else {
        string_from(&base)
    }
}

/// A release asset as the releases API describes it.
#[derive(Debug, Clone, PartialEq, Eq)]
pub struct GithubAsset {
    pub name: String,
    pub browser_download_url: String,
}

/// The latest release as the releases API describes it.
#[derive(Debug, Clone, PartialEq, Eq)]
pub struct GithubRelease {
    pub tag_name: String,
    pub draft: bool,
    pub prerelease: bool,
    pub assets: Vec<GithubAsset>,
}

/// An update worth offering.
#[derive(Debug, Clone, PartialEq, Eq)]
pub struct ReleaseInfo {
    pub version: String,
    pub installer_url: String,
    pub installer_name: String,
}

/// Index of the first installer asset, or the number of assets.
pub open spec fn first_installer(names: Seq<Seq<char>>) -> int
    decreases names.len(),
{
    if names.len() == 0 {
        0
    } else if is_installer_spec(names[0]) {
        0
    } else {
        1 + first_installer(names.drop_first())
    }
}

proof fn lemma_first_installer(names: Seq<Seq<char>>)
    ensures
        0 <= first_installer(names) <= names.len(),
        first_installer(names) < names.len() ==> is_installer_spec(names[first_installer(names)]),
        forall|i: int| 0 <= i < first_installer(names) ==> !is_installer_spec(#[trigger] names[i]),
    decreases names.len(),
{
    if names.len() > 0 && !is_installer_spec(names[0]) {
        lemma_first_installer(names.drop_first());
        assert forall|i: int| 0 <= i < first_installer(names) implies !is_installer_spec(
            #[trigger] names[i],
        ) by {
            if i > 0 {
                assert(names[i] == names.drop_first()[i - 1]);
            }
        }
    }
}

pub open spec fn asset_names(a: Seq<GithubAsset>) -> Seq<Seq<char>> {
    Seq::new(a.len(), |i: int| a[i].name@)
}

/// The update a release offers over `current`: none for drafts and
/// pre-releases, none unless it is newer, otherwise its first installer asset
/// (none without one).
pub open spec fn offered_update(r: GithubRelease, current: Seq<char>) -> Option<(Seq<char>, Seq<char>, Seq<char>)> {
    let latest = normalize_version_spec(r.tag_name@);
    let k = first_installer(asset_names(r.assets@));
    if r.draft || r.prerelease {
        None
    } else if !version_gt(version_spec(latest), version_spec(current)) {
        None
    } else if k == r.assets@.len() {
        None
    } else {
        Some((latest, r.assets@[k].browser_download_url@, r.assets@[k].name@))
    }
}

/// Decides which update, if any, a fetched release offers.
#[verifier::loop_isolation(false)]
pub fn select_release(release: GithubRelease, current: &str) -> (r: Option<ReleaseInfo>)
    ensures
        match offered_update(release, current@) {
            None => r is None,
            Some((v, url, name)) => r matches Some(info) && info.version@ == v
                && info.installer_url@ == url && info.installer_name@ == name,
        },
{
    if release.draft || release.prerelease {
        return None;
    }
    let latest = normalize_version(release.tag_name.as_str());
    if !is_newer(latest.as_str(), current) {
        return None;
    }
    let ghost names = asset_names(release.assets@);
    proof {
        lemma_first_installer(names);
    }
    let mut i: usize = 0;
    while i < release.assets.len()
        invariant
            i <= release.assets@.len(),
            names == asset_names(release.assets@),
            first_installer(names) >= i,
        decreases release.assets@.len() - i,
    {
        if is_installer_asset(release.assets[i].name.as_str()) {
            assert(names[i as int] == release.assets@[i as int].name@);
            assert(first_installer(names) == i) by {
                if first_installer(names) > i {
                    assert(!is_installer_spec(names[i as int]));
                }
            }
            let asset = &release.assets[i];
            return Some(
                ReleaseInfo {
                    version: latest,
                    installer_url: asset.browser_download_url.clone(),
                    installer_name: asset.name.clone(),
                },
            );
        }
        assert(names[i as int] == release.assets@[i as int].name@);
        i = i + 1;
    }
    None
}

/// Persisted update prompt state.
#[derive(Debug, Clone, PartialEq, Eq)]
pub struct UpdateState {
    /// Last version the user explicitly declined; suppresses re-prompting it.
    pub declined_version: Option<String>,
    /// Unix timestamp (secs) of the last time the user was prompted.
    pub last_prompt_at: Option<u64>,
}

impl Default for UpdateState {
    fn default() -> (s: Self)
        ensures
            s.declined_version is None,
            s.last_prompt_at is None,
    {
        UpdateState { declined_version: None, last_prompt_at: None }
    }
}

#[derive(Debug, Clone, Copy, PartialEq, Eq, Structural)]
pub enum PromptDecision {
    /// The version was declined before.
    SkipDeclined,
    /// The last prompt was less than the reprompt interval ago.
    SkipRecent,
    Prompt,
}

pub open spec fn prompt_decision_spec(
    declined: Option<Seq<char>>,
    last_prompt_at: Option<u64>,
    version: Seq<char>,
    now: u64,
) -> PromptDecision {
    if declined == Some(version) {
        PromptDecision::SkipDeclined
    } else if last_prompt_at matches Some(t) && (if now >= t { now - t } else { 0 })
        < REPROMPT_INTERVAL_SECS {
        PromptDecision::SkipRecent
    } else {
        PromptDecision::Prompt
    }
}

pub open spec fn declined_view(s: UpdateState) -> Option<Seq<char>> {
    match s.declined_version {
        Some(d) => Some(d@),
        None => None,
    }
}

impl UpdateState {
    /// Whether to prompt for `version` at time `now`.
    pub fn decide(&self, version: &str, now: u64) -> (d: PromptDecision)
        ensures
            d == prompt_decision_spec(declined_view(*self), self.last_prompt_at, version@, now),
    {
        if let Some(declined) = &self.declined_version {
            let a = chars_of(declined.as_str());
            let b = chars_of(version);
            if chars_eq(&a, &b) {
                return PromptDecision::SkipDeclined;
            }
        }
        if let Some(last) = self.last_prompt_at {
            let elapsed = now.saturating_sub(last);
            if elapsed < REPROMPT_INTERVAL_SECS {
                return PromptDecision::SkipRecent;
            }
        }
        PromptDecision::Prompt
    }

    /// Records that the user was prompted at `now`.
    pub fn record_prompt(&mut self, now: u64)
        ensures
            final(self).last_prompt_at == Some(now),
            final(self).declined_version == old(self).declined_version,
    {
        self.last_prompt_at = Some(now);
    }

    /// Records that the user declined `version`.
    pub fn record_decline(&mut self, version: String)
        ensures
            final(self).declined_version == Some(version),
            final(self).last_prompt_at == old(self).last_prompt_at,
    {
        self.declined_version = Some(version);
    }
}

/// A declined version is never prompted again, whatever the time.
pub proof fn lemma_declined_never_prompted(
    last_prompt_at: Option<u64>,
    version: Seq<char>,
    now: u64,
)
    ensures
        prompt_decision_spec(Some(version), last_prompt_at, version, now)
            == PromptDecision::SkipDeclined,
{
}

/// After a prompt at `t`, no version is prompted before `t` plus the
/// reprompt interval.
pub proof fn lemma_prompt_throttled(
    declined: Option<Seq<char>>,
    version: Seq<char>,
    t: u64,
    now: u64,
)
    requires
        now < t + REPROMPT_INTERVAL_SECS,
    ensures
        prompt_decision_spec(declined, Some(t), version, now) != PromptDecision::Prompt,
{
}

/// Once the interval has passed since the last prompt, a version not
/// declined is prompted.
pub proof fn lemma_prompt_after_interval(
    declined: Option<Seq<char>>,
    version: Seq<char>,
    t: u64,
    now: u64,
)
    requires
        now >= t + REPROMPT_INTERVAL_SECS,
        declined != Some(version),
    ensures
        prompt_decision_spec(declined, Some(t), version, now) == PromptDecision::Prompt,
{
}

/// Version comparison is a strict order: never both ways, never reflexive.
pub proof fn lemma_newer_strict(a: Seq<char>, b: Seq<char>)
    ensures
        !version_gt(version_spec(a), version_spec(a)),
        version_gt(version_spec(a), version_spec(b)) ==> !version_gt(
            version_spec(b),
            version_spec(a),
        ),
{
}

pub open spec fn prompt_text_spec(current: Seq<char>, new_version: Seq<char>) -> Seq<char> {
    "A new version of BGWM is available.\n\nCurrent version: "@ + current + "\nNew version: "@
        + new_version + "\n\nDo you want to download and install the update now?"@
}

/// The question asked before an update is downloaded.
pub fn update_prompt_text(current: &str, new_version: &str) -> (r: String)
    ensures
        r@ == prompt_text_spec(current@, new_version@),
{
    let mut s = String::new();
    push_str_chars(&mut s, "A new version of BGWM is available.\n\nCurrent version: ");
    push_str_chars(&mut s, current);
    push_str_chars(&mut s, "\nNew version: ");
    push_str_chars(&mut s, new_version);
    push_str_chars(&mut s, "\n\nDo you want to download and install the update now?");
    assert(s@ =~= prompt_text_spec(current@, new_version@));
    s
}

proof fn lemma_trim_start_from(s: Seq<char>)
    ensures
        exists|k: int| 0 <= k <= s.len() && #[trigger] trim_start(s) == s.skip(k),
    decreases s.len(),
{
    if s.len() > 0 && is_ws(s[0]) {
        lemma_trim_start_from(s.drop_first());
        let k = choose|k: int| 0 <= k <= s.drop_first().len() && #[trigger] trim_start(s.drop_first()) == s.drop_first().skip(k);
        assert(s.drop_first().skip(k) =~= s.skip(k + 1));
    } else {
        assert(s.skip(0) =~= s);
    }
}

proof fn lemma_trim_end_from(s: Seq<char>)
    ensures
        exists|m: int| 0 <= m <= s.len() && #[trigger] trim_end(s) == s.take(m),
    decreases s.len(),
{
    if s.len() > 0 && is_ws(s.last()) {
        lemma_trim_end_from(s.drop_last());
        let m = choose|m: int| 0 <= m <= s.drop_last().len() && #[trigger] trim_end(s.drop_last()) == s.drop_last().take(m);
        assert(s.drop_last().take(m) =~= s.take(m));
    } else {
        assert(s.take(s.len() as int) =~= s);
    }
}

/// Every character of a trimmed text comes from the text.
proof fn lemma_trim_chars_from(s: Seq<char>, i: int)
    requires
        0 <= i < trim(s).len(),
    ensures
        exists|j: int| 0 <= j < s.len() && s[j] == #[trigger] trim(s)[i],
{
    lemma_trim_start_from(s);
    let k = choose|k: int| 0 <= k <= s.len() && #[trigger] trim_start(s) == s.skip(k);
    let t = trim_start(s);
    lemma_trim_end_from(t);
    let m = choose|m: int| 0 <= m <= t.len() && #[trigger] trim_end(t) == t.take(m);
    assert(trim(s)[i] == s[k + i]);
}

/// The name an installer is saved under is a plain file name: not empty,
/// already trimmed, without `\` or `/`, and neither `.` nor `..`, so joined
/// to a directory it names an entry directly inside that directory.
pub proof fn lemma_sanitized_is_plain_name(name: Seq<char>)
    ensures
        ({
            let r = sanitize_spec(name);
            &&& r.len() > 0
            &&& trim(r) == r
            &&& forall|i: int| 0 <= i < r.len() ==> !is_sep(Sep::Slash, #[trigger] r[i])
            &&& r != "."@
            &&& r != ".."@
        }),
{
    reveal_strlit("bgwm-setup.exe");
    reveal_strlit(".");
    reveal_strlit("..");
    let a = after_last_sep(name, Sep::Slash);
    let b = trim(a);
    crate::text::lemma_last_sep(name, Sep::Slash);
    crate::text::lemma_trim_idempotent(a);
    if b.len() == 0 || b == "."@ || b == ".."@ {
        let f = "bgwm-setup.exe"@;
        assert(f.len() == 14);
        assert(f != "."@);
        assert(f != ".."@);
        assert(!is_ws(f[0]) && !is_ws(f[f.len() - 1]));
        crate::text::lemma_trim_fixed(f);
    } else {
        assert forall|i: int| 0 <= i < b.len() implies !is_sep(Sep::Slash, #[trigger] b[i]) by {
            lemma_trim_chars_from(a, i);
            let j = choose|j: int| 0 <= j < a.len() && a[j] == #[trigger] trim(a)[i];
            assert(a[j] == name[last_sep(name, Sep::Slash) + 1 + j]);
        }
    }
}


/// The text `a.b.c` of three decimal numbers.
pub open spec fn dotted(a: nat, b: nat, c: nat) -> Seq<char> {
    decimal(a).push('.') + decimal(b).push('.') + decimal(c)
}

/// A component written in decimal digits reads back as its value.
proof fn lemma_component_of_decimal(n: u64)
    ensures
        split(decimal(n as nat), Sep::Dot) == seq![decimal(n as nat)],
        split(decimal(n as nat), Sep::DashOrPlus) == seq![decimal(n as nat)],
        trim(decimal(n as nat)) == decimal(n as nat),
        parse_u64_spec(decimal(n as nat)) == Some(n),
        crate::text::all_digits(decimal(n as nat)),
{
    let d = decimal(n as nat);
    crate::text::lemma_decimal_digits(n as nat);
    assert forall|i: int| 0 <= i < d.len() implies !is_sep(Sep::Dot, #[trigger] d[i]) && !is_sep(
        Sep::DashOrPlus,
        d[i],
    ) && !is_ws(d[i]) by {
        assert(crate::text::is_digit(d[i]));
    }
    crate::text::lemma_split_no_sep(d, Sep::Dot);
    crate::text::lemma_split_no_sep(d, Sep::DashOrPlus);
    crate::text::lemma_trim_fixed(d);
}

/// A version written as three decimal numbers `a.b.c` reads as
/// `(a, b, c)`, each component at its full value.
pub proof fn lemma_version_of_dotted(a: u64, b: u64, c: u64)
    ensures
        version_spec(dotted(a as nat, b as nat, c as nat)) == (a, b, c),
{
    lemma_component_of_decimal(a);
    lemma_component_of_decimal(b);
    lemma_component_of_decimal(c);
    let (da, db, dc) = (decimal(a as nat), decimal(b as nat), decimal(c as nat));
    let v = dotted(a as nat, b as nat, c as nat);
    assert forall|i: int| 0 <= i < v.len() implies !is_sep(Sep::DashOrPlus, #[trigger] v[i]) by {
        if i < da.len() {
            assert(v[i] == da[i]);
            assert(crate::text::is_digit(da[i]));
        } else if i == da.len() {
            assert(v[i] == '.');
        } else if i < da.len() + 1 + db.len() {
            assert(v[i] == db[i - da.len() - 1]);
            assert(crate::text::is_digit(db[i - da.len() - 1]));
        } else if i == da.len() + 1 + db.len() {
            assert(v[i] == '.');
        } else {
            assert(v[i] == dc[i - da.len() - 2 - db.len()]);
            assert(crate::text::is_digit(dc[i - da.len() - 2 - db.len()]));
        }
    }
    crate::text::lemma_split_no_sep(v, Sep::DashOrPlus);
    assert(split(v, Sep::DashOrPlus)[0] == v);
    crate::text::lemma_split_append(da, '.', db, Sep::Dot);
    let x = da.push('.') + db;
    assert(v =~= x.push('.') + dc);
    crate::text::lemma_split_append(x, '.', dc, Sep::Dot);
    let parts = split(v, Sep::Dot);
    assert(parts =~= seq![da, db, dc]);
}

/// Versions written as three decimal numbers compare as number triples, in
/// order: `a1.b1.c1` is newer than `a2.b2.c2` exactly when the first
/// differing number is larger.
pub proof fn lemma_dotted_newer(a1: u64, b1: u64, c1: u64, a2: u64, b2: u64, c2: u64)
    ensures
        version_gt(
            version_spec(dotted(a1 as nat, b1 as nat, c1 as nat)),
            version_spec(dotted(a2 as nat, b2 as nat, c2 as nat)),
        ) <==> (a1 > a2 || (a1 == a2 && (b1 > b2 || (b1 == b2 && c1 > c2)))),
{
    lemma_version_of_dotted(a1, b1, c1);
    lemma_version_of_dotted(a2, b2, c2);
}

} // verus!
