//! Deciding whether an update is available, and for which installer.
use std::cmp::Ordering;

use sha2::{Digest, Sha256};
use vstd::prelude::*;

use crate::paths::{extension, extension_of, parent, parent_of, path_starts_with, starts_with_path};
use crate::text::{
    ascii_lower, chars_of, dec, find_char, first_index_of, is_lit, lemma_first_index_of, lex_lt,
    lower_ascii, lt_chars, parse_unsigned, parse_unsigned_chars, push_dec, push_str, seq_eq,
    starts_with, str_eq, string_of, string_of_range, strip_prefix, strip_prefix_vec, sub_vec, trim,
    trim_range,
};

verus! {

pub const RELEASES_URL: &'static str = "https://github.com/am-will/limux/releases";

pub const LATEST_RELEASE_API_URL: &'static str = "https://api.github.com/repos/am-will/limux/releases/latest";

/// How this copy of the program was installed.
#[derive(Clone, Copy, Debug, PartialEq, Eq, Structural)]
pub enum InstallMode {
    Bundle,
    TarballPrefix,
    AppImage,
    DebianPackage,
    RpmPackage,
    Unsupported,
}

pub open spec fn label_spec(m: InstallMode) -> &'static str {
    match m {
        InstallMode::Bundle => "portable bundle",
        InstallMode::TarballPrefix => "tarball install",
        InstallMode::AppImage => "AppImage",
        InstallMode::DebianPackage => "Debian package",
        InstallMode::RpmPackage => "RPM package",
        InstallMode::Unsupported => "unsupported installation",
    }
}

pub open spec fn privileged_spec(m: InstallMode) -> bool {
    m == InstallMode::TarballPrefix || m == InstallMode::DebianPackage || m == InstallMode::RpmPackage
}

impl InstallMode {
    pub fn label(self) -> (res: &'static str)
        ensures
            res == label_spec(self),
    {
        match self {
            InstallMode::Bundle => "portable bundle",
            InstallMode::TarballPrefix => "tarball install",
            InstallMode::AppImage => "AppImage",
            InstallMode::DebianPackage => "Debian package",
            InstallMode::RpmPackage => "RPM package",
            InstallMode::Unsupported => "unsupported installation",
        }
    }

    /// Tarball and package installs write outside the user's files.
    pub fn needs_privileged_installer(self) -> (res: bool)
        ensures
            res == privileged_spec(self),
    {
        match self {
            InstallMode::TarballPrefix | InstallMode::DebianPackage | InstallMode::RpmPackage => true,
            _ => false,
        }
    }
}

/// Where an update goes and what is started once it is in place.
#[derive(Clone, Debug, PartialEq, Eq)]
pub struct InstallTarget {
    pub mode: InstallMode,
    pub target_path: String,
    pub relaunch_path: String,
}

/// An installer file of a release.
#[derive(Clone, Debug, PartialEq, Eq)]
pub struct ReleaseAsset {
    pub name: String,
    pub download_url: String,
    pub digest_sha256: Option<String>,
}

#[derive(Clone, Copy, Debug, PartialEq, Eq, Structural)]
pub enum UpdateStatus {
    UpToDate,
    UpdateAvailable,
    UnsupportedInstallation,
}

#[derive(Clone, Debug, PartialEq, Eq)]
pub struct UpdateSummary {
    pub current_version: String,
    pub latest_version: String,
    pub latest_tag: String,
    pub published_at: String,
    pub commits_behind: u64,
    pub release_url: String,
    pub selected_asset: Option<ReleaseAsset>,
    pub install_target: InstallTarget,
    pub status: UpdateStatus,
    pub status_detail: String,
}

#[derive(Clone, Debug, PartialEq, Eq)]
pub struct PreparedUpdate {
    pub manifest_path: String,
    pub asset_name: String,
    pub latest_tag: String,
    pub install_mode: InstallMode,
}

/// The latest release, as the releases API describes it.
#[derive(Clone, Debug, PartialEq, Eq)]
pub struct LatestReleaseResponse {
    pub tag_name: String,
    pub html_url: String,
    pub published_at: String,
    pub assets: Vec<ReleaseAssetResponse>,
}

/// One file of a release, as the releases API describes it.
#[derive(Clone, Debug, PartialEq, Eq)]
pub struct ReleaseAssetResponse {
    pub name: String,
    pub browser_download_url: String,
    pub digest: Option<String>,
}

// ---------------------------------------------------------------------------
// Versions
// ---------------------------------------------------------------------------

/// The part of `value` before its first `T` (all of it where there is none).
pub open spec fn release_date_spec(value: Seq<char>) -> Seq<char> {
    match first_index_of(value, 'T') {
        Some(i) => value.subrange(0, i),
        None => value,
    }
}

/// The calendar date of an ISO 8601 timestamp.
pub fn format_release_date(value: &str) -> (res: String)
    ensures
        res@ == release_date_spec(value@),
{
    let v = chars_of(value);
    proof {
        lemma_first_index_of(v@, 'T');
        assert(v@.subrange(0, v@.len() as int) =~= v@);
    }
    match find_char(&v, 0, 'T') {
        Some(i) => string_of_range(&v, 0, i),
        None => string_of(&v),
    }
}

/// A version without surrounding white space and without one leading `v`.
pub open spec fn strip_version_spec(value: Seq<char>) -> Seq<char> {
    let t = trim(value);
    match strip_prefix(t, seq!['v']) {
        Some(r) => r,
        None => t,
    }
}

fn strip_version_vec(value: &Vec<char>) -> (res: Vec<char>)
    ensures
        res@ == strip_version_spec(value@),
{
    let (a, b) = trim_range(value, 0, value.len());
    assert(value@.subrange(0, value@.len() as int) =~= value@);
    let t = sub_vec(value, a, b);
    proof {
        crate::text::lemma_starts_with_chars(t@, seq!['v']);
    }
    if t.len() > 0 && t[0] == 'v' {
        sub_vec(&t, 1, t.len())
    } else {
        t
    }
}

pub fn strip_version_prefix(value: &str) -> (res: String)
    ensures
        res@ == strip_version_spec(value@),
{
    string_of(&strip_version_vec(&chars_of(value)))
}

/// The tag of a version: `v` and the version.
pub fn version_tag(version: &str) -> (res: String)
    ensures
        res@ == seq!['v'] + strip_version_spec(version@),
{
    let s = strip_version_vec(&chars_of(version));
    let mut out: Vec<char> = Vec::new();
    out.push('v');
    crate::text::push_range(&mut out, &s, 0, s.len());
    assert(s@.subrange(0, s@.len() as int) =~= s@);
    string_of(&out)
}

/// The pieces of `s` between the characters `c`.
pub open spec fn split_on(s: Seq<char>, c: char) -> Seq<Seq<char>>
    decreases s.len(),
{
    if s.len() == 0 {
        seq![Seq::<char>::empty()]
    } else if s.last() == c {
        split_on(s.drop_last(), c).push(Seq::<char>::empty())
    } else {
        let t = split_on(s.drop_last(), c);
        t.update(t.len() - 1, t.last().push(s.last()))
    }
}

proof fn lemma_split_on_nonempty(s: Seq<char>, c: char)
    ensures
        split_on(s, c).len() >= 1,
    decreases s.len(),
{
    if s.len() > 0 {
        lemma_split_on_nonempty(s.drop_last(), c);
    }
}

/// Every piece read as a `u32`, or `None` where one is not a number.
pub open spec fn parse_parts(parts: Seq<Seq<char>>) -> Option<Seq<nat>>
    decreases parts.len(),
{
    if parts.len() == 0 {
        Some(Seq::empty())
    } else {
        match (parse_parts(parts.drop_last()), parse_unsigned(parts.last(), u32::MAX as nat)) {
            (Some(a), Some(x)) => Some(a.push(x)),
            _ => None,
        }
    }
}

/// The numbers of a version: the part before any `-`, split at the dots.
pub open spec fn components_spec(value: Seq<char>) -> Option<Seq<nat>> {
    let t = strip_version_spec(value);
    let core = match first_index_of(t, '-') {
        Some(i) => t.subrange(0, i),
        None => t,
    };
    parse_parts(split_on(core, '.'))
}

pub open spec fn views_of(parts: Seq<Vec<char>>) -> Seq<Seq<char>> {
    parts.map_values(|p: Vec<char>| p@)
}

fn split_chars(v: &Vec<char>, c: char) -> (res: Vec<Vec<char>>)
    ensures
        views_of(res@) == split_on(v@, c),
{
    let mut out: Vec<Vec<char>> = Vec::new();
    let mut cur: Vec<char> = Vec::new();
    let mut i: usize = 0;
    while i < v.len()
        invariant
            i <= v.len(),
            views_of(out@).push(cur@) == split_on(v@.subrange(0, i as int), c),
        decreases v.len() - i,
    {
        let ghost before = v@.subrange(0, i as int);
        assert(v@.subrange(0, i + 1).drop_last() =~= before);
        assert(v@.subrange(0, i + 1).last() == v@[i as int]);
        let ghost old_out = out@;
        let ghost old_cur = cur@;
        if v[i] == c {
            out.push(cur);
            cur = Vec::new();
            assert(views_of(out@) =~= views_of(old_out).push(old_cur));
            assert(views_of(out@).push(cur@) =~= views_of(old_out).push(old_cur).push(Seq::<char>::empty()));
        } else {
            cur.push(v[i]);
            let ghost t = views_of(old_out).push(old_cur);
            assert(views_of(out@).push(cur@) =~= t.update(t.len() - 1, t.last().push(v@[i as int])));
        }
        i += 1;
    }
    assert(v@.subrange(0, v@.len() as int) =~= v@);
    let ghost old_out = out@;
    let ghost old_cur = cur@;
    out.push(cur);
    assert(views_of(out@) =~= views_of(old_out).push(old_cur));
    out
}

proof fn lemma_parse_parts_prefix_none(parts: Seq<Seq<char>>, k: int)
    requires
        0 <= k <= parts.len(),
        parse_parts(parts.subrange(0, k)) is None,
    ensures
        parse_parts(parts) is None,
    decreases parts.len() - k,
{
    if k < parts.len() {
        assert(parts.subrange(0, k + 1).drop_last() =~= parts.subrange(0, k));
        lemma_parse_parts_prefix_none(parts, k + 1);
    } else {
        assert(parts.subrange(0, k) =~= parts);
    }
}

/// The numbers of a version, as `u32`s.
pub fn version_components(value: &str) -> (res: Option<Vec<u32>>)
    ensures
        match components_spec(value@) {
            Some(c) => res matches Some(r) && r@.len() == c.len() && forall|i: int| 0 <= i < c.len() ==> r@[i] as nat == #[trigger] c[i],
            None => res is None,
        },
{
    let t = strip_version_vec(&chars_of(value));
    proof {
        lemma_first_index_of(t@, '-');
        assert(t@.subrange(0, t@.len() as int) =~= t@);
    }
    let core = match find_char(&t, 0, '-') {
        Some(i) => sub_vec(&t, 0, i),
        None => sub_vec(&t, 0, t.len()),
    };
    let ghost spec_core = match first_index_of(t@, '-') {
        Some(i) => t@.subrange(0, i),
        None => t@,
    };
    assert(core@ == spec_core);
    let parts = split_chars(&core, '.');
    let ghost pv = views_of(parts@);
    assert(components_spec(value@) == parse_parts(pv));
    let mut out: Vec<u32> = Vec::new();
    let mut k: usize = 0;
    while k < parts.len()
        invariant
            pv == views_of(parts@),
            pv == split_on(core@, '.'),
            components_spec(value@) == parse_parts(pv),
            k <= parts.len(),
            parse_parts(pv.subrange(0, k as int)) matches Some(c) && out@.len() == c.len()
                && forall|i: int| 0 <= i < c.len() ==> out@[i] as nat == #[trigger] c[i],
        decreases parts.len() - k,
    {
        let ghost prev = parse_parts(pv.subrange(0, k as int))->0;
        assert(pv.subrange(0, k + 1).drop_last() =~= pv.subrange(0, k as int));
        assert(pv.subrange(0, k + 1).last() == parts@[k as int]@);
        match parse_unsigned_chars(&parts[k], 0xffff_ffffu64) {
            Some(n) => {
                let small: u32 = n as u32;
                out.push(small);
                assert(parse_parts(pv.subrange(0, k + 1)) == Some(prev.push(n as nat)));
            },
            None => {
                proof {
                    lemma_parse_parts_prefix_none(pv, k + 1);
                }
                return None;
            },
        }
        k += 1;
    }
    assert(pv.subrange(0, pv.len() as int) =~= pv);
    Some(out)
}


/// Part `i` of a version, zero past its end.
pub open spec fn part_at(c: Seq<nat>, i: int) -> nat {
    if 0 <= i < c.len() {
        c[i]
    } else {
        0
    }
}

/// The sign of comparing versions `a` and `b` part by part from part `i`.
pub open spec fn parts_sign(a: Seq<nat>, b: Seq<nat>, i: int) -> int
    decreases a.len() + b.len() - i,
{
    if i < 0 || (i >= a.len() && i >= b.len()) {
        0
    } else if part_at(a, i) < part_at(b, i) {
        -1
    } else if part_at(a, i) > part_at(b, i) {
        1
    } else {
        parts_sign(a, b, i + 1)
    }
}

/// The sign of comparing two texts in the order of `str`.
pub open spec fn text_sign(l: Seq<char>, r: Seq<char>) -> int {
    if l == r {
        0
    } else if lex_lt(l, r) {
        -1
    } else {
        1
    }
}

/// Versions compare by their numbers where both have them, else as text.
pub open spec fn version_sign(left: Seq<char>, right: Seq<char>) -> int {
    match (components_spec(left), components_spec(right)) {
        (Some(a), Some(b)) => parts_sign(a, b, 0),
        _ => text_sign(strip_version_spec(left), strip_version_spec(right)),
    }
}

proof fn lemma_parts_sign_antisymmetric(a: Seq<nat>, b: Seq<nat>, i: int)
    ensures
        parts_sign(a, b, i) == -parts_sign(b, a, i),
    decreases a.len() + b.len() - i,
{
    if !(i < 0 || (i >= a.len() && i >= b.len())) && part_at(a, i) == part_at(b, i) {
        lemma_parts_sign_antisymmetric(a, b, i + 1);
    }
}

proof fn lemma_parts_sign_reflexive(a: Seq<nat>, i: int)
    ensures
        parts_sign(a, a, i) == 0,
    decreases a.len() + a.len() - i,
{
    if !(i < 0 || i >= a.len()) {
        lemma_parts_sign_reflexive(a, i + 1);
    }
}

/// Law: swapping the versions compared flips the answer, and a version
/// equals itself, so `compare_release_versions` orders both ways alike.
pub proof fn version_order_is_antisymmetric(left: Seq<char>, right: Seq<char>)
    ensures
        version_sign(left, right) == -version_sign(right, left),
        version_sign(left, left) == 0,
{
    match (components_spec(left), components_spec(right)) {
        (Some(a), Some(b)) => {
            lemma_parts_sign_antisymmetric(a, b, 0);
        },
        _ => {
            let l = strip_version_spec(left);
            let r = strip_version_spec(right);
            crate::text::lemma_lex_lt_total(l, r);
            if lex_lt(l, r) && lex_lt(r, l) {
                crate::text::lemma_lex_lt_transitive(l, r, l);
                crate::text::lemma_lex_lt_irreflexive(l);
            }
        },
    }
    match components_spec(left) {
        Some(a) => {
            lemma_parts_sign_reflexive(a, 0);
        },
        None => {},
    }
}

proof fn lemma_parts_sign_step(a: Seq<nat>, b: Seq<nat>, i: int)
    requires
        0 <= i,
    ensures
        parts_sign(a, b, i) == if part_at(a, i) < part_at(b, i) {
            -1
        } else if part_at(a, i) > part_at(b, i) {
            1
        } else {
            parts_sign(a, b, i + 1)
        },
{
}

proof fn lemma_parts_sign_transitive(a: Seq<nat>, b: Seq<nat>, c: Seq<nat>, i: int)
    requires
        0 <= i,
        parts_sign(a, b, i) <= 0,
        parts_sign(b, c, i) <= 0,
    ensures
        parts_sign(a, c, i) <= 0,
    decreases a.len() + b.len() + c.len() - i,
{
    lemma_parts_sign_step(a, b, i);
    lemma_parts_sign_step(b, c, i);
    lemma_parts_sign_step(a, c, i);
    if i >= a.len() && i >= b.len() && i >= c.len() {
    } else if part_at(a, i) == part_at(b, i) && part_at(b, i) == part_at(c, i) {
        lemma_parts_sign_transitive(a, b, c, i + 1);
    }
}

/// Law: among versions of dotted-number form the order is transitive: `a`
/// before or equal to `b` and `b` before or equal to `c` put `a` before or
/// equal to `c`.
pub proof fn version_order_is_transitive(a: Seq<char>, b: Seq<char>, c: Seq<char>)
    requires
        components_spec(a) is Some,
        components_spec(b) is Some,
        components_spec(c) is Some,
        version_sign(a, b) <= 0,
        version_sign(b, c) <= 0,
    ensures
        version_sign(a, c) <= 0,
{
    lemma_parts_sign_transitive(
        components_spec(a)->0,
        components_spec(b)->0,
        components_spec(c)->0,
        0,
    );
}

fn parts_sign_exec(a: &Vec<u32>, b: &Vec<u32>, Ghost(ca): Ghost<Seq<nat>>, Ghost(cb): Ghost<Seq<nat>>) -> (res: i8)
    requires
        a@.len() == ca.len(),
        b@.len() == cb.len(),
        forall|i: int| 0 <= i < ca.len() ==> a@[i] as nat == #[trigger] ca[i],
        forall|i: int| 0 <= i < cb.len() ==> b@[i] as nat == #[trigger] cb[i],
    ensures
        res as int == parts_sign(ca, cb, 0),
{
    let n = if a.len() > b.len() {
        a.len()
    } else {
        b.len()
    };
    let mut i: usize = 0;
    while i < n
        invariant
            n == (if a.len() > b.len() {
                a.len()
            } else {
                b.len()
            }),
            i <= n,
            a@.len() == ca.len(),
            b@.len() == cb.len(),
            forall|j: int| 0 <= j < ca.len() ==> a@[j] as nat == #[trigger] ca[j],
            forall|j: int| 0 <= j < cb.len() ==> b@[j] as nat == #[trigger] cb[j],
            parts_sign(ca, cb, 0) == parts_sign(ca, cb, i as int),
        decreases n - i,
    {
        let x: u32 = if i < a.len() {
            a[i]
        } else {
            0
        };
        let y: u32 = if i < b.len() {
            b[i]
        } else {
            0
        };
        assert(x as nat == part_at(ca, i as int));
        assert(y as nat == part_at(cb, i as int));
        if x < y {
            return -1;
        }
        if x > y {
            return 1;
        }
        i += 1;
    }
    0
}

fn text_sign_exec(l: &Vec<char>, r: &Vec<char>) -> (res: i8)
    ensures
        res as int == text_sign(l@, r@),
{
    if seq_eq(l, r) {
        0
    } else if lt_chars(l, r) {
        -1
    } else {
        1
    }
}

fn version_sign_exec(left: &str, right: &str) -> (res: i8)
    ensures
        res as int == version_sign(left@, right@),
{
    match (version_components(left), version_components(right)) {
        (Some(a), Some(b)) => parts_sign_exec(&a, &b, Ghost(components_spec(left@)->0), Ghost(components_spec(right@)->0)),
        _ => text_sign_exec(&strip_version_vec(&chars_of(left)), &strip_version_vec(&chars_of(right))),
    }
}

pub open spec fn ordering_of(sign: int) -> Ordering {
    if sign < 0 {
        Ordering::Less
    } else if sign == 0 {
        Ordering::Equal
    } else {
        Ordering::Greater
    }
}

/// Orders two release versions: by their dotted numbers (missing parts count
/// as zero, anything after `-` is ignored), or as text where either is not of
/// that form. A leading `v` does not count.
pub fn compare_release_versions(left: &str, right: &str) -> (res: Ordering)
    ensures
        res == ordering_of(version_sign(left@, right@)),
{
    let s = version_sign_exec(left, right);
    if s < 0 {
        Ordering::Less
    } else if s == 0 {
        Ordering::Equal
    } else {
        Ordering::Greater
    }
}


// ---------------------------------------------------------------------------
// Assets
// ---------------------------------------------------------------------------

/// `sha256:<hex>` gives the hex digits, trimmed and in lower case.
pub open spec fn sha256_digest_spec(value: Option<Seq<char>>) -> Option<Seq<char>> {
    match value {
        None => None,
        Some(v) => match strip_prefix(v, "sha256:"@) {
            Some(d) => Some(ascii_lower(trim(d))),
            None => None,
        },
    }
}

pub open spec fn opt_str_view(value: Option<&str>) -> Option<Seq<char>> {
    match value {
        Some(v) => Some(v@),
        None => None,
    }
}

pub fn parse_sha256_digest(value: Option<&str>) -> (res: Option<String>)
    ensures
        match sha256_digest_spec(opt_str_view(value)) {
            Some(d) => res matches Some(r) && r@ == d,
            None => res is None,
        },
{
    let v = match value {
        Some(v) => v,
        None => {
            return None;
        },
    };
    match strip_prefix_vec(&chars_of(v), "sha256:") {
        Some(d) => {
            let (a, b) = trim_range(&d, 0, d.len());
            assert(d@.subrange(0, d@.len() as int) =~= d@);
            let low = lower_ascii(&sub_vec(&d, a, b));
            Some(string_of(&low))
        },
        None => None,
    }
}

/// The name of the installer file for `mode`, version `version` and machine `arch`.
pub open spec fn asset_name_spec(mode: InstallMode, version: Seq<char>, arch: Seq<char>) -> Option<Seq<char>> {
    match mode {
        InstallMode::Bundle | InstallMode::TarballPrefix => Some(
            "limux-"@ + version + "-linux-"@ + arch + ".tar.gz"@,
        ),
        InstallMode::AppImage => Some("Limux-"@ + version + "-"@ + arch + ".AppImage"@),
        InstallMode::DebianPackage => if arch == "x86_64"@ {
            Some("limux_"@ + version + "_amd64.deb"@)
        } else if arch == "aarch64"@ {
            Some("limux_"@ + version + "_arm64.deb"@)
        } else {
            None
        },
        InstallMode::RpmPackage => if arch == "x86_64"@ {
            Some("limux-"@ + version + "-1.x86_64.rpm"@)
        } else if arch == "aarch64"@ {
            Some("limux-"@ + version + "-1.aarch64.rpm"@)
        } else {
            None
        },
        InstallMode::Unsupported => None,
    }
}

fn joined(parts: &[&str]) -> (res: Vec<char>)
    ensures
        res@ == joined_spec(parts@),
{
    let mut out: Vec<char> = Vec::new();
    let mut i: usize = 0;
    while i < parts.len()
        invariant
            i <= parts.len(),
            out@ == joined_spec(parts@.subrange(0, i as int)),
        decreases parts.len() - i,
    {
        push_str(&mut out, parts[i]);
        assert(parts@.subrange(0, i + 1).drop_last() =~= parts@.subrange(0, i as int));
        i += 1;
    }
    assert(parts@.subrange(0, parts@.len() as int) =~= parts@);
    out
}

/// The characters of `parts`, one after the other.
pub open spec fn joined_spec(parts: Seq<&str>) -> Seq<char>
    decreases parts.len(),
{
    if parts.len() == 0 {
        Seq::empty()
    } else {
        joined_spec(parts.drop_last()) + parts.last()@
    }
}

pub fn asset_name_for(install_mode: InstallMode, version: &str, arch: &str) -> (res: Option<String>)
    ensures
        match asset_name_spec(install_mode, version@, arch@) {
            Some(n) => res matches Some(r) && r@ == n,
            None => res is None,
        },
{
    let a = chars_of(arch);
    let parts: Option<Vec<char>> = match install_mode {
        InstallMode::Bundle | InstallMode::TarballPrefix => Some(joined(&["limux-", version, "-linux-", arch, ".tar.gz"])),
        InstallMode::AppImage => Some(joined(&["Limux-", version, "-", arch, ".AppImage"])),
        InstallMode::DebianPackage => if is_lit(&a, "x86_64") {
            Some(joined(&["limux_", version, "_amd64.deb"]))
        } else if is_lit(&a, "aarch64") {
            Some(joined(&["limux_", version, "_arm64.deb"]))
        } else {
            None
        },
        InstallMode::RpmPackage => if is_lit(&a, "x86_64") {
            Some(joined(&["limux-", version, "-1.x86_64.rpm"]))
        } else if is_lit(&a, "aarch64") {
            Some(joined(&["limux-", version, "-1.aarch64.rpm"]))
        } else {
            None
        },
        InstallMode::Unsupported => None,
    };
    proof {
        reveal_with_fuel(joined_spec, 6);
    }
    match parts {
        Some(v) => Some(string_of(&v)),
        None => None,
    }
}

/// The first asset of `assets` named `name`.
pub open spec fn first_named(assets: Seq<ReleaseAssetResponse>, name: Seq<char>) -> Option<int>
    decreases assets.len(),
{
    if assets.len() == 0 {
        None
    } else if assets[0].name@ == name {
        Some(0)
    } else {
        match first_named(assets.drop_first(), name) {
            Some(i) => Some(i + 1),
            None => None,
        }
    }
}

proof fn lemma_first_named(assets: Seq<ReleaseAssetResponse>, name: Seq<char>, k: int)
    requires
        0 <= k <= assets.len(),
        forall|j: int| 0 <= j < k ==> (#[trigger] assets[j]).name@ != name,
        k < assets.len() ==> assets[k].name@ == name,
    ensures
        first_named(assets, name) == if k < assets.len() {
            Some(k)
        } else {
            None::<int>
        },
    decreases assets.len(),
{
    if k > 0 {
        assert forall|j: int| 0 <= j < k - 1 implies (#[trigger] assets.drop_first()[j]).name@ != name by {
            assert(assets.drop_first()[j] == assets[j + 1]);
        }
        if k < assets.len() {
            assert(assets.drop_first()[k - 1] == assets[k]);
        }
        lemma_first_named(assets.drop_first(), name, k - 1);
    }
}

pub open spec fn opt_string_view(o: Option<String>) -> Option<Seq<char>> {
    match o {
        Some(s) => Some(s@),
        None => None,
    }
}

/// An asset of the release, as the updater keeps it.
pub open spec fn asset_of(a: ReleaseAssetResponse, out: ReleaseAsset) -> bool {
    &&& out.name == a.name
    &&& out.download_url == a.browser_download_url
    &&& opt_string_view(out.digest_sha256) == sha256_digest_spec(opt_string_view(a.digest))
}

/// The asset of `latest` that installs in `mode` on `arch`, if the release has one.
pub open spec fn selected_index(latest: LatestReleaseResponse, mode: InstallMode, arch: Seq<char>) -> Option<int> {
    match asset_name_spec(mode, strip_version_spec(latest.tag_name@), arch) {
        Some(n) => first_named(latest.assets@, n),
        None => None,
    }
}

pub fn select_release_asset(latest: &LatestReleaseResponse, install_mode: InstallMode, arch: &str) -> (res: Option<ReleaseAsset>)
    ensures
        match selected_index(*latest, install_mode, arch@) {
            Some(i) => res matches Some(r) && asset_of(latest.assets@[i], r),
            None => res is None,
        },
{
    let tag = latest.tag_name.as_str();
    let version = strip_version_prefix(tag);
    let vs = version.as_str();
    let expected = match asset_name_for(install_mode, vs, arch) {
        Some(n) => chars_of(n.as_str()),
        None => {
            return None;
        },
    };
    assert(asset_name_spec(install_mode, strip_version_spec(latest.tag_name@), arch@) == Some(expected@));
    let mut i: usize = 0;
    while i < latest.assets.len()
        invariant
            i <= latest.assets.len(),
            forall|j: int| 0 <= j < i ==> (#[trigger] latest.assets@[j]).name@ != expected@,
            selected_index(*latest, install_mode, arch@) == first_named(latest.assets@, expected@),
        decreases latest.assets.len() - i,
    {
        let a = &latest.assets[i];
        if seq_eq(&chars_of(a.name.as_str()), &expected) {
            proof {
                lemma_first_named(latest.assets@, expected@, i as int);
            }
            let digest = match &a.digest {
                Some(d) => {
                    let ds = d.as_str();
                    let r = parse_sha256_digest(Some(ds));
                    assert(opt_str_view(Some(ds)) == opt_string_view(a.digest));
                    r
                },
                None => parse_sha256_digest(None),
            };
            assert(opt_string_view(digest) == sha256_digest_spec(opt_string_view(a.digest)));
            return Some(
                ReleaseAsset {
                    name: a.name.clone(),
                    download_url: a.browser_download_url.clone(),
                    digest_sha256: digest,
                },
            );
        }
        i += 1;
    }
    proof {
        lemma_first_named(latest.assets@, expected@, i as int);
    }
    None
}

// ---------------------------------------------------------------------------
// Installation
// ---------------------------------------------------------------------------

pub open spec fn eq_ignore_case(a: Seq<char>, b: Seq<char>) -> bool {
    ascii_lower(a) == ascii_lower(b)
}

pub open spec fn target_spec(mode: InstallMode, target: Seq<char>, relaunch: Seq<char>, out: InstallTarget) -> bool {
    out.mode == mode && out.target_path@ == target && out.relaunch_path@ == relaunch
}

/// How the program at `exe` was installed: from a non-empty `APPIMAGE`
/// variable, an `.AppImage` file, a portable bundle (its directory holds one,
/// as `parent_is_bundle` says), `/usr/local/bin`, or `/usr/bin`, where
/// `package_mode` is the package system of the machine.
pub open spec fn install_target_spec(
    exe: Seq<char>,
    appimage: Option<Seq<char>>,
    parent_is_bundle: bool,
    package_mode: InstallMode,
    out: InstallTarget,
) -> bool {
    if appimage is Some && appimage->0.len() > 0 {
        target_spec(InstallMode::AppImage, appimage->0, appimage->0, out)
    } else if extension(exe) is Some && eq_ignore_case(extension(exe)->0, "AppImage"@) {
        target_spec(InstallMode::AppImage, exe, exe, out)
    } else if parent(exe) is Some && parent_is_bundle {
        target_spec(InstallMode::Bundle, parent(exe)->0, exe, out)
    } else if path_starts_with(exe, "/usr/local/bin/"@) || path_starts_with(exe, "/usr/local/bin"@) {
        target_spec(InstallMode::TarballPrefix, "/usr/local"@, exe, out)
    } else if path_starts_with(exe, "/usr/bin/"@) || path_starts_with(exe, "/usr/bin"@) {
        target_spec(package_mode, exe, exe, out)
    } else {
        target_spec(InstallMode::Unsupported, exe, exe, out)
    }
}

fn owned(s: &str) -> (res: String)
    ensures
        res@ == s@,
{
    string_of(&chars_of(s))
}

pub fn resolve_install_target_for(
    current_exe: &str,
    appimage: Option<&str>,
    parent_is_bundle: bool,
    package_mode: InstallMode,
) -> (res: InstallTarget)
    ensures
        install_target_spec(current_exe@, opt_str_view(appimage), parent_is_bundle, package_mode, res),
{
    match appimage {
        Some(a) => {
            if chars_of(a).len() > 0 {
                return InstallTarget { mode: InstallMode::AppImage, target_path: owned(a), relaunch_path: owned(a) };
            }
        },
        None => {},
    }
    match extension_of(current_exe) {
        Some(e) => {
            let le = lower_ascii(&e);
            let la = lower_ascii(&chars_of("AppImage"));
            if seq_eq(&le, &la) {
                return InstallTarget {
                    mode: InstallMode::AppImage,
                    target_path: owned(current_exe),
                    relaunch_path: owned(current_exe),
                };
            }
        },
        None => {},
    }
    if parent_is_bundle {
        match parent_of(current_exe) {
            Some(root) => {
                return InstallTarget { mode: InstallMode::Bundle, target_path: root, relaunch_path: owned(current_exe) };
            },
            None => {},
        }
    }
    if starts_with_path(current_exe, "/usr/local/bin/") || starts_with_path(current_exe, "/usr/local/bin") {
        return InstallTarget {
            mode: InstallMode::TarballPrefix,
            target_path: owned("/usr/local"),
            relaunch_path: owned(current_exe),
        };
    }
    if starts_with_path(current_exe, "/usr/bin/") || starts_with_path(current_exe, "/usr/bin") {
        return InstallTarget { mode: package_mode, target_path: owned(current_exe), relaunch_path: owned(current_exe) };
    }
    InstallTarget {
        mode: InstallMode::Unsupported,
        target_path: owned(current_exe),
        relaunch_path: owned(current_exe),
    }
}


// ---------------------------------------------------------------------------
// The summary shown to the user
// ---------------------------------------------------------------------------

pub open spec fn unsupported_detail() -> Seq<char> {
    "This Limux installation type is not recognized for in-app updates."@
}

pub open spec fn no_asset_detail(mode: InstallMode, arch: Seq<char>) -> Seq<char> {
    "No "@ + label_spec(mode)@ + " update asset is available for this release on "@ + arch + "."@
}

pub open spec fn available_detail(commits: nat, asset_name: Seq<char>, mode: InstallMode) -> Seq<char> {
    "Update available: "@ + dec(commits) + " "@ + (if commits == 1 {
        "commit"@
    } else {
        "commits"@
    }) + " behind. Installer: "@ + asset_name + " via "@ + label_spec(mode)@ + "."@ + (if privileged_spec(mode) {
        " Limux may ask for administrator permission during install."@
    } else {
        Seq::<char>::empty()
    })
}

pub open spec fn same_detail() -> Seq<char> {
    "This build matches the latest release."@
}

pub open spec fn newer_detail() -> Seq<char> {
    "This build is newer than the latest published release."@
}

/// What the update check reports for the installed version `cv`, the latest
/// release, the installation and the machine: the release's data, and a
/// status with its explanation. `commits` is how many commits the installed
/// version is behind, which counts only where an update is available.
pub open spec fn summary_ok(
    cv: Seq<char>,
    latest: LatestReleaseResponse,
    target: InstallTarget,
    arch: Seq<char>,
    commits: u64,
    res: UpdateSummary,
) -> bool {
    &&& res.current_version@ == cv
    &&& res.latest_version@ == strip_version_spec(latest.tag_name@)
    &&& res.latest_tag == latest.tag_name
    &&& res.published_at == latest.published_at
    &&& res.release_url == latest.html_url
    &&& res.install_target == target
    &&& if target.mode == InstallMode::Unsupported {
        &&& res.status == UpdateStatus::UnsupportedInstallation
        &&& res.commits_behind == 0
        &&& res.selected_asset is None
        &&& res.status_detail@ == unsupported_detail()
    } else {
        match selected_index(latest, target.mode, arch) {
            None => {
                &&& res.status == UpdateStatus::UnsupportedInstallation
                &&& res.commits_behind == 0
                &&& res.selected_asset is None
                &&& res.status_detail@ == no_asset_detail(target.mode, arch)
            },
            Some(i) => {
                &&& res.selected_asset matches Some(a) && asset_of(latest.assets@[i], a)
                &&& if version_sign(cv, latest.tag_name@) < 0 {
                    &&& res.status == UpdateStatus::UpdateAvailable
                    &&& res.commits_behind == commits
                    &&& res.status_detail@ == available_detail(commits as nat, latest.assets@[i].name@, target.mode)
                } else {
                    &&& res.status == UpdateStatus::UpToDate
                    &&& res.commits_behind == 0
                    &&& res.status_detail@ == if version_sign(cv, latest.tag_name@) == 0 {
                        same_detail()
                    } else {
                        newer_detail()
                    }
                }
            },
        }
    }
}

/// The tag to compare the installed version with, where the summary needs
/// the number of commits between it and the latest release; `None` where it
/// does not.
pub fn commits_needed_from(
    current_version: &str,
    latest: &LatestReleaseResponse,
    install_target: &InstallTarget,
    arch: &str,
) -> (res: Option<String>)
    ensures
        res is Some <==> (install_target.mode != InstallMode::Unsupported && selected_index(*latest, install_target.mode, arch@) is Some
            && version_sign(current_version@, latest.tag_name@) < 0),
        res matches Some(t) ==> t@ == seq!['v'] + strip_version_spec(current_version@),
{
    if install_target.mode == InstallMode::Unsupported {
        return None;
    }
    match select_release_asset(latest, install_target.mode, arch) {
        Some(_) => {},
        None => {
            return None;
        },
    }
    if version_sign_exec(current_version, latest.tag_name.as_str()) < 0 {
        Some(version_tag(current_version))
    } else {
        None
    }
}

fn to_string(v: Vec<char>) -> (res: String)
    ensures
        res@ == v@,
{
    string_of(&v)
}

/// Builds the summary of an update check. `commits_behind` is the number of
/// commits from the installed version to the latest release, which counts
/// only where `commits_needed_from` asked for it.
pub fn build_update_summary(
    current_version: &str,
    latest: LatestReleaseResponse,
    install_target: InstallTarget,
    arch: &str,
    commits_behind: u64,
) -> (res: UpdateSummary)
    ensures
        summary_ok(current_version@, latest, install_target, arch@, commits_behind, res),
{
    let ghost l0 = latest;
    let latest_version = strip_version_prefix(latest.tag_name.as_str());
    let selected = select_release_asset(&latest, install_target.mode, arch);
    let sign = version_sign_exec(current_version, latest.tag_name.as_str());
    let mode = install_target.mode;
    let (status, commits, detail, asset) = if mode == InstallMode::Unsupported {
        (UpdateStatus::UnsupportedInstallation, 0u64, owned("This Limux installation type is not recognized for in-app updates."), None)
    } else {
        match selected {
            None => {
                let mut v: Vec<char> = Vec::new();
                push_str(&mut v, "No ");
                push_str(&mut v, mode.label());
                push_str(&mut v, " update asset is available for this release on ");
                push_str(&mut v, arch);
                push_str(&mut v, ".");
                (UpdateStatus::UnsupportedInstallation, 0u64, to_string(v), None)
            },
            Some(a) => {
                if sign < 0 {
                    let mut v: Vec<char> = Vec::new();
                    push_str(&mut v, "Update available: ");
                    push_dec(&mut v, commits_behind);
                    push_str(&mut v, " ");
                    if commits_behind == 1 {
                        push_str(&mut v, "commit");
                    } else {
                        push_str(&mut v, "commits");
                    }
                    push_str(&mut v, " behind. Installer: ");
                    push_str(&mut v, a.name.as_str());
                    push_str(&mut v, " via ");
                    push_str(&mut v, mode.label());
                    push_str(&mut v, ".");
                    if mode.needs_privileged_installer() {
                        push_str(&mut v, " Limux may ask for administrator permission during install.");
                    }
                    assert(v@ =~= available_detail(commits_behind as nat, a.name@, mode));
                    (UpdateStatus::UpdateAvailable, commits_behind, to_string(v), Some(a))
                } else if sign == 0 {
                    (UpdateStatus::UpToDate, 0u64, owned("This build matches the latest release."), Some(a))
                } else {
                    (UpdateStatus::UpToDate, 0u64, owned("This build is newer than the latest published release."), Some(a))
                }
            },
        }
    };
    UpdateSummary {
        current_version: owned(current_version),
        latest_version,
        latest_tag: latest.tag_name,
        published_at: latest.published_at,
        commits_behind: commits,
        release_url: latest.html_url,
        selected_asset: asset,
        install_target,
        status,
        status_detail: detail,
    }
}

// ---------------------------------------------------------------------------
// Installing
// ---------------------------------------------------------------------------

pub open spec fn not_available_error() -> Seq<char> {
    "No installable update is currently available."@
}

pub open spec fn no_installer_error() -> Seq<char> {
    "The latest release does not provide a matching installer asset."@
}

fn copy_asset(a: &ReleaseAsset) -> (res: ReleaseAsset)
    ensures
        res == *a,
{
    ReleaseAsset {
        name: a.name.clone(),
        download_url: a.download_url.clone(),
        digest_sha256: match &a.digest_sha256 {
            Some(d) => Some(d.clone()),
            None => None,
        },
    }
}

/// The asset to download for an update: only a summary that reports an
/// available update and names its installer has one.
pub fn asset_to_install(summary: &UpdateSummary) -> (res: Result<ReleaseAsset, String>)
    ensures
        summary.status != UpdateStatus::UpdateAvailable ==> (res matches Err(e) && e@ == not_available_error()),
        summary.status == UpdateStatus::UpdateAvailable ==> match summary.selected_asset {
            Some(a) => res == Ok::<ReleaseAsset, String>(a),
            None => res matches Err(e) && e@ == no_installer_error(),
        },
{
    if summary.status != UpdateStatus::UpdateAvailable {
        return Err(owned("No installable update is currently available."));
    }
    match &summary.selected_asset {
        Some(a) => Ok(copy_asset(a)),
        None => Err(owned("The latest release does not provide a matching installer asset.")),
    }
}

pub open spec fn mismatch_error(name: Seq<char>, expected: Seq<char>, actual: Seq<char>) -> Seq<char> {
    "Downloaded asset checksum mismatch for "@ + name + ": expected "@ + expected + ", got "@ + actual + "."@
}

/// Checks the digest of the downloaded file, `actual`, against the one the
/// release publishes; an asset without a published digest passes.
pub fn verify_download_digest(asset: &ReleaseAsset, actual: &str) -> (res: Result<(), String>)
    ensures
        match asset.digest_sha256 {
            None => res is Ok,
            Some(expected) => if actual@ == expected@ {
                res is Ok
            } else {
                res matches Err(e) && e@ == mismatch_error(asset.name@, expected@, actual@)
            },
        },
{
    let expected = match &asset.digest_sha256 {
        Some(e) => e,
        None => {
            return Ok(());
        },
    };
    if str_eq(actual, expected.as_str()) {
        return Ok(());
    }
    let mut v: Vec<char> = Vec::new();
    push_str(&mut v, "Downloaded asset checksum mismatch for ");
    push_str(&mut v, asset.name.as_str());
    push_str(&mut v, ": expected ");
    push_str(&mut v, expected.as_str());
    push_str(&mut v, ", got ");
    push_str(&mut v, actual);
    push_str(&mut v, ".");
    assert(v@ =~= mismatch_error(asset.name@, expected@, actual@));
    Err(to_string(v))
}


/// The installer a system package install uses: Debian's where the system
/// is Debian-like (`/etc/debian_version` or `dpkg` found), else RPM's where
/// it is Red Hat-like (`/etc/redhat-release` or `rpm` found).
pub fn preferred_package_install_mode(debian_like: bool, redhat_like: bool) -> (res: InstallMode)
    ensures
        res == if debian_like {
            InstallMode::DebianPackage
        } else if redhat_like {
            InstallMode::RpmPackage
        } else {
            InstallMode::Unsupported
        },
{
    if debian_like {
        InstallMode::DebianPackage
    } else if redhat_like {
        InstallMode::RpmPackage
    } else {
        InstallMode::Unsupported
    }
}

pub open spec fn missing_payload_message() -> Seq<char> {
    "The extracted update payload is missing its top-level directory."@
}

/// The top-level directory of an extracted update: the least of `dirs`, the
/// directories at the top of the extraction, by the text of their paths
/// (for the entries of one directory, the order of `Path`); the error when
/// there is none.
pub fn payload_root(dirs: &Vec<String>) -> (res: Result<String, String>)
    ensures
        dirs@.len() == 0 ==> (res matches Err(e) && e@ == missing_payload_message()),
        dirs@.len() > 0 ==> (res matches Ok(p) && (exists|i: int| 0 <= i < dirs@.len() && dirs@[i]@ == p@)
            && forall|j: int| 0 <= j < dirs@.len() ==> !lex_lt(#[trigger] dirs@[j]@, p@)),
{
    if dirs.len() == 0 {
        return Err(string_of(&chars_of("The extracted update payload is missing its top-level directory.")));
    }
    let mut best: usize = 0;
    let mut bc = chars_of(dirs[0].as_str());
    proof {
        crate::text::lemma_lex_lt_irreflexive(bc@);
    }
    let mut i: usize = 1;
    while i < dirs.len()
        invariant
            1 <= i <= dirs.len(),
            best < i,
            bc@ == dirs@[best as int]@,
            forall|j: int| 0 <= j < i ==> !lex_lt(#[trigger] dirs@[j]@, bc@),
        decreases dirs.len() - i,
    {
        let c = chars_of(dirs[i].as_str());
        if lt_chars(&c, &bc) {
            proof {
                crate::text::lemma_lex_lt_irreflexive(c@);
                assert forall|j: int| 0 <= j < i + 1 implies !lex_lt(#[trigger] dirs@[j]@, c@) by {
                    if j < i && lex_lt(dirs@[j]@, c@) {
                        crate::text::lemma_lex_lt_transitive(dirs@[j]@, c@, bc@);
                    }
                }
            }
            best = i;
            bc = c;
        }
        i += 1;
    }
    let p = dirs[best].clone();
    assert(dirs@[best as int]@ == p@);
    Ok(p)
}


// ---------------------------------------------------------------------------
// Digests
// ---------------------------------------------------------------------------

/// The SHA-256 digest of `data`.
pub uninterp spec fn sha256_of(data: Seq<u8>) -> Seq<u8>;

/// Calls `Sha256::digest` of the `sha2` crate. Claims that the result is the
/// digest of `data`, named `sha256_of`, and that it has 32 bytes, the output
/// size of SHA-256.
#[verifier::external_body]
fn sha256_bytes(data: &[u8]) -> (res: Vec<u8>)
    ensures
        res@ == sha256_of(data@),
        res@.len() == 32,
{
    Sha256::digest(data).to_vec()
}

pub open spec fn hex_digit(d: nat) -> char {
    if d < 10 {
        ((48 + d) as u8) as char
    } else {
        ((87 + d) as u8) as char
    }
}

/// Each byte as two lower-case hex digits, as `{:02x}` prints it.
pub open spec fn hex_spec(bytes: Seq<u8>) -> Seq<char>
    decreases bytes.len(),
{
    if bytes.len() == 0 {
        Seq::empty()
    } else {
        hex_spec(bytes.drop_last()) + seq![hex_digit((bytes.last() / 16) as nat), hex_digit((bytes.last() % 16) as nat)]
    }
}

fn hex_char(d: u8) -> (res: char)
    requires
        d < 16,
    ensures
        res == hex_digit(d as nat),
{
    if d < 10 {
        let b: u8 = 48 + d;
        b as char
    } else {
        let b: u8 = 87 + d;
        b as char
    }
}

/// The SHA-256 digest of `data` in lower-case hex.
pub fn sha256_hex(data: &[u8]) -> (res: String)
    ensures
        res@ == hex_spec(sha256_of(data@)),
{
    let d = sha256_bytes(data);
    let mut out: Vec<char> = Vec::new();
    let mut i: usize = 0;
    while i < d.len()
        invariant
            i <= d.len(),
            out@ == hex_spec(d@.subrange(0, i as int)),
        decreases d.len() - i,
    {
        let b = d[i];
        out.push(hex_char(b / 16));
        out.push(hex_char(b % 16));
        proof {
            let pre = d@.subrange(0, i + 1);
            assert(pre.drop_last() =~= d@.subrange(0, i as int));
            assert(pre.last() == b);
            assert(out@ =~= hex_spec(pre));
        }
        i += 1;
    }
    assert(d@.subrange(0, d@.len() as int) =~= d@);
    to_string(out)
}

// ---------------------------------------------------------------------------
// Errors of the releases API
// ---------------------------------------------------------------------------

/// A failed request: an HTTP status with the headers that matter here, or a
/// transport error, by its text.
#[derive(Clone, Debug, PartialEq, Eq)]
pub enum HttpFailure {
    Status {
        code: u16,
        status_text: String,
        ratelimit_remaining: Option<String>,
        ratelimit_reset: Option<String>,
    },
    Transport(String),
}

/// Minutes until the rate limit resets, at least one: from the reset time in
/// seconds since the epoch and the time now.
pub open spec fn wait_minutes(reset: Option<Seq<char>>, now_secs: Option<u64>) -> Option<nat> {
    match (reset, now_secs) {
        (Some(r), Some(now)) => match parse_unsigned(r, u64::MAX as nat) {
            Some(at) => {
                let d: nat = if at > now {
                    (at - now) as nat
                } else {
                    0
                };
                let m: nat = (d + 59) / 60;
                Some(if m < 1 {
                    1
                } else {
                    m
                })
            },
            None => None,
        },
        _ => None,
    }
}

pub open spec fn http_error_spec(context: Seq<char>, error: HttpFailure, now_secs: Option<u64>) -> Seq<char> {
    match error {
        HttpFailure::Transport(t) => context + ": "@ + t@,
        HttpFailure::Status { code, status_text, ratelimit_remaining, ratelimit_reset } => {
            if (code == 403 || code == 429) && opt_string_view(ratelimit_remaining) == Some("0"@) {
                match wait_minutes(opt_string_view(ratelimit_reset), now_secs) {
                    Some(m) => context + ": GitHub API rate limit reached (60/h per IP). Try again in ~"@ + dec(m)
                        + " min."@,
                    None => context + ": GitHub API rate limit reached (60/h per IP). Try again later."@,
                }
            } else {
                context + ": GitHub returned HTTP "@ + dec(code as nat) + " "@ + status_text@
            }
        },
    }
}

/// The message for a failed request to the releases API; a rate limit says
/// when to try again. `now_secs` is the time now in seconds since the epoch.
pub fn format_http_error(context: &str, error: HttpFailure, now_secs: Option<u64>) -> (res: String)
    ensures
        res@ == http_error_spec(context@, error, now_secs),
{
    let mut v: Vec<char> = Vec::new();
    push_str(&mut v, context);
    match error {
        HttpFailure::Transport(t) => {
            push_str(&mut v, ": ");
            push_str(&mut v, t.as_str());
            to_string(v)
        },
        HttpFailure::Status { code, status_text, ratelimit_remaining, ratelimit_reset } => {
            let limited = (code == 403 || code == 429) && match &ratelimit_remaining {
                Some(r) => str_eq(r.as_str(), "0"),
                None => false,
            };
            if limited {
                let wait: Option<u64> = match (&ratelimit_reset, now_secs) {
                    (Some(r), Some(now)) => match parse_unsigned_chars(&chars_of(r.as_str()), u64::MAX) {
                        Some(at) => {
                            let d: u64 = if at > now {
                                at - now
                            } else {
                                0
                            };
                            let m: u64 = d / 60 + if d % 60 == 0 {
                                0
                            } else {
                                1
                            };
                            assert(m == (d + 59) / 60);
                            Some(if m < 1 {
                                1
                            } else {
                                m
                            })
                        },
                        None => None,
                    },
                    _ => None,
                };
                match wait {
                    Some(m) => {
                        push_str(&mut v, ": GitHub API rate limit reached (60/h per IP). Try again in ~");
                        push_dec(&mut v, m);
                        push_str(&mut v, " min.");
                    },
                    None => {
                        push_str(&mut v, ": GitHub API rate limit reached (60/h per IP). Try again later.");
                    },
                }
                to_string(v)
            } else {
                push_str(&mut v, ": GitHub returned HTTP ");
                push_dec(&mut v, code as u64);
                push_str(&mut v, " ");
                push_str(&mut v, status_text.as_str());
                to_string(v)
            }
        },
    }
}

} // verus!
