//! What a release of the application is, from what the release page says about it.
use vstd::prelude::*;

use crate::scan::emulator::text::{chars_of, lowercase, opt_view, unicode_lowercase};

verus! {

#[verifier::external_type_specification]
#[verifier::external_body]
pub struct ExVersion(semver::Version);

#[verifier::external_type_specification]
#[verifier::external_body]
pub struct ExVersionError(semver::Error);

/// Whether `semver::Version::parse` accepts a text as a semantic version.
pub uninterp spec fn semver_accepts(text: Seq<char>) -> bool;

/// The version `semver::Version::parse` gives for a text it accepts.
pub uninterp spec fn semver_parsed(text: Seq<char>) -> semver::Version;

/// Whether `a > b` in the precedence order of `semver::Version`.
pub uninterp spec fn semver_newer(a: semver::Version, b: semver::Version) -> bool;

/// `semver::Version::parse`.
///
/// Claimed: it succeeds exactly on the texts the named predicate accepts, and what it gives is
/// a function of the text alone, named [`semver_parsed`]. Which version that is, is not written
/// out: the parser's grammar is the crate's.
#[verifier::external_body]
fn parse_version(text: &str) -> (r: Result<semver::Version, semver::Error>)
    ensures
        r is Ok <==> semver_accepts(text@),
        r matches Ok(v) ==> v == semver_parsed(text@),
{
    semver::Version::parse(text)
}

/// `>` on two `semver::Version`s, the precedence order that the crate derives over major,
/// minor, patch, pre-release and build.
///
/// Claimed: the answer is a function of the two versions alone, named [`semver_newer`], and a
/// version is never newer than itself. The order itself is the crate's derived one and is not
/// written out here.
#[verifier::external_body]
fn newer_than(a: &semver::Version, b: &semver::Version) -> (r: bool)
    ensures
        r == semver_newer(*a, *b),
        a == b ==> !r,
{
    a > b
}

/// Why a release could not be read.
#[derive(Clone, Debug, PartialEq, Eq)]
pub enum ReleaseError {
    /// The tag does not name a semantic version, once its prefixes are off.
    InvalidTag(String),
}

/// A release of the application.
#[derive(Debug, PartialEq, Eq)]
pub struct Release {
    pub version: semver::Version,
    pub url: String,
    /// Direct link to the Windows build attached to the release, when there is one.
    ///
    /// This is what makes updating one click instead of a trip to the browser.
    pub download: Option<String>,
}

/// A file attached to a release.
#[derive(Clone, Debug, PartialEq, Eq)]
pub struct ReleaseAsset {
    pub name: String,
    pub browser_download_url: String,
}

/// What the release page says, kept apart from [`Release`] because the two do not have the same
/// shape.
#[derive(Clone, Debug, PartialEq, Eq)]
pub struct ReleaseResponse {
    pub html_url: String,
    pub tag_name: String,
    pub assets: Vec<ReleaseAsset>,
}

/// `s` with every leading repetition of `p` taken off, as `trim_start_matches` does.
pub open spec fn strip_all(s: Seq<char>, p: Seq<char>) -> Seq<char>
    decreases s.len(),
{
    if p.len() > 0 && p.len() <= s.len() && s.take(p.len() as int) == p {
        strip_all(s.skip(p.len() as int), p)
    } else {
        s
    }
}

/// The version text in a tag: `savevault-` and then `v` taken off the front.
pub open spec fn tag_text(tag: Seq<char>) -> Seq<char> {
    strip_all(strip_all(tag, "savevault-"@), seq!['v'])
}

fn starts_with(s: &Vec<char>, from: usize, p: &Vec<char>) -> (r: bool)
    requires
        from <= s.len(),
    ensures
        r == (p@.len() <= s@.len() - from && s@.skip(from as int).take(p@.len() as int) == p@),
{
    if p.len() > s.len() - from {
        return false;
    }
    let mut i: usize = 0;
    while i < p.len()
        invariant
            from + p.len() <= s.len(),
            i <= p.len(),
            forall|k: int| 0 <= k < i ==> s@[from + k] == p@[k],
        decreases p.len() - i,
    {
        if s[from + i] != p[i] {
            assert(s@.skip(from as int).take(p@.len() as int)[i as int] != p@[i as int]);
            return false;
        }
        i = i + 1;
    }
    assert(s@.skip(from as int).take(p@.len() as int) =~= p@);
    true
}

/// Where the text is left once every leading repetition of `p` is off.
fn strip_all_at(s: &Vec<char>, p: &Vec<char>) -> (r: usize)
    ensures
        r <= s.len(),
        s@.skip(r as int) == strip_all(s@, p@),
{
    let mut at: usize = 0;
    assert(s@.skip(0) =~= s@);
    while p.len() > 0 && starts_with(s, at, p)
        invariant
            at <= s.len(),
            strip_all(s@.skip(at as int), p@) == strip_all(s@, p@),
        decreases s.len() - at,
    {
        assert(s@.skip(at as int).skip(p@.len() as int) =~= s@.skip(at + p@.len()));
        at = at + p.len();
    }
    at
}

/// `s` from `at` on.
fn rest_of(s: &Vec<char>, at: usize) -> (r: Vec<char>)
    requires
        at <= s.len(),
    ensures
        r@ == s@.skip(at as int),
{
    let mut out: Vec<char> = Vec::new();
    let mut i: usize = at;
    while i < s.len()
        invariant
            at <= i <= s.len(),
            out@ == s@.subrange(at as int, i as int),
        decreases s.len() - i,
    {
        out.push(s[i]);
        i = i + 1;
        assert(out@ =~= s@.subrange(at as int, i as int));
    }
    assert(s@.subrange(at as int, s.len() as int) =~= s@.skip(at as int));
    out
}

impl Release {
    /// The application's tags are `savevault-vX.Y.Z`.
    ///
    /// The prefix is not cosmetic: the repository inherited tags named `v0.1.0` through `v0.31.0`,
    /// so an unprefixed tag would collide. Trimming only the `v` leaves `savevault-v0.2.0`, which
    /// is not a semantic version, so every update check failed silently. Old unprefixed tags still
    /// parse, so nothing is lost by accepting both.
    pub fn parse_tag(tag: &str) -> (r: Result<semver::Version, ReleaseError>)
        ensures
            r is Ok <==> semver_accepts(tag_text(tag@)),
            r matches Ok(v) ==> v == semver_parsed(tag_text(tag@)),
            r matches Err(ReleaseError::InvalidTag(t)) ==> t@ == tag@,
    {
        let chars = chars_of(tag);
        let prefix = chars_of("savevault-");
        let at = strip_all_at(&chars, &prefix);
        let after_prefix = rest_of(&chars, at);
        let v = vec!['v'];
        let at2 = strip_all_at(&after_prefix, &v);
        let cleaned = rest_of(&after_prefix, at2);
        assert(v@ =~= seq!['v']);
        let text = crate::scan::emulator::text::string_from(&cleaned);
        match parse_version(text.as_str()) {
            Ok(version) => Ok(version),
            Err(_) => Err(ReleaseError::InvalidTag(crate::scan::emulator::text::owned(tag))),
        }
    }

    /// The release is newer than the version running, `current`.
    ///
    /// A running version that does not parse is never behind: offering an update on a comparison
    /// that could not be made would be a guess presented as news.
    pub fn is_update(&self, current: &str) -> (r: bool)
        ensures
            r == (semver_accepts(current@) && semver_newer(self.version, semver_parsed(current@))),
    {
        match parse_version(current) {
            Ok(running) => newer_than(&self.version, &running),
            Err(_) => false,
        }
    }
}

/// The text holds `t` somewhere.
pub open spec fn holds(s: Seq<char>, t: Seq<char>) -> bool {
    exists|i: int| 0 <= i && i + t.len() <= s.len() && #[trigger] s.subrange(i, i + t.len()) == t
}

/// An asset is the Windows build: a `.zip` whose name says `win`, ignoring case.
pub open spec fn windows_build(name: Seq<char>) -> bool {
    let lower = unicode_lowercase(name);
    crate::scan::emulator::ends_with(lower, ".zip"@) && holds(lower, "win"@)
}

/// The download link of the first asset that is the Windows build, from the `k`-th on.
pub open spec fn windows_download(assets: Seq<(Seq<char>, Seq<char>)>, k: int) -> Option<Seq<char>>
    decreases assets.len() - k,
{
    if k >= assets.len() || k < 0 {
        None
    } else if windows_build(assets[k].0) {
        Some(assets[k].1)
    } else {
        windows_download(assets, k + 1)
    }
}

fn holds_text(s: &Vec<char>, t: &Vec<char>) -> (r: bool)
    ensures
        r == holds(s@, t@),
{
    if t.len() > s.len() {
        return false;
    }
    let last = s.len() - t.len();
    let mut i: usize = 0;
    loop
        invariant
            t.len() <= s.len(),
            last == s.len() - t.len(),
            i <= last,
            forall|k: int| 0 <= k < i ==> #[trigger] s@.subrange(k, k + t@.len()) != t@,
        decreases last - i,
    {
        assert(s@.skip(i as int).take(t@.len() as int) =~= s@.subrange(i as int, i + t@.len()));
        if starts_with(s, i, t) {
            return true;
        }
        if i == last {
            return false;
        }
        i = i + 1;
    }
}

fn is_windows_build(name: &String) -> (r: bool)
    ensures
        r == windows_build(name@),
{
    let lower = chars_of(lowercase(name.as_str()).as_str());
    let zip = chars_of(".zip");
    let win = chars_of("win");
    let ends = if zip.len() <= lower.len() {
        let off = lower.len() - zip.len();
        starts_with(&lower, off, &zip)
    } else {
        false
    };
    proof {
        if zip@.len() <= lower@.len() {
            let off = lower@.len() - zip@.len();
            assert(lower@.skip(off).take(zip@.len() as int) =~= lower@.subrange(off, lower@.len() as int));
        }
    }
    ends && holds_text(&lower, &win)
}

impl ReleaseResponse {
    pub open spec fn assets_view(&self) -> Seq<(Seq<char>, Seq<char>)> {
        self.assets@.map_values(|a: ReleaseAsset| (a.name@, a.browser_download_url@))
    }

    /// The release the page describes, with the Windows build as its download when one is
    /// attached.
    pub fn into_release(self) -> (r: Result<Release, ReleaseError>)
        ensures
            r is Ok <==> semver_accepts(tag_text(self.tag_name@)),
            r matches Err(ReleaseError::InvalidTag(t)) ==> t@ == self.tag_name@,
            r matches Ok(release) ==> release.version == semver_parsed(tag_text(self.tag_name@)),
            r matches Ok(release) ==> release.url@ == self.html_url@ && opt_view(release.download) == windows_download(
                self.assets_view(),
                0,
            ),
    {
        let ghost assets = self.assets_view();
        let mut download: Option<String> = None;
        let mut k: usize = 0;
        while k < self.assets.len() && download.is_none()
            invariant
                k <= self.assets.len(),
                assets == self.assets_view(),
                download is None ==> windows_download(assets, 0) == windows_download(assets, k as int),
                download is Some ==> windows_download(assets, 0) == opt_view(download),
            decreases self.assets.len() - k + if download is None { 1int } else { 0int },
        {
            assert(assets[k as int] == (self.assets@[k as int].name@, self.assets@[k as int].browser_download_url@));
            if is_windows_build(&self.assets[k].name) {
                download = Some(self.assets[k].browser_download_url.clone());
            } else {
                k = k + 1;
            }
        }
        match Release::parse_tag(self.tag_name.as_str()) {
            Ok(version) => Ok(Release { version, url: self.html_url, download }),
            Err(e) => Err(e),
        }
    }
}


/// The first archive entry, from the `k`-th on, whose file name is the program's, ignoring case.
pub open spec fn program_entry_from(names: Seq<Option<Seq<char>>>, program: Seq<char>, k: int) -> Option<int>
    decreases names.len() - k,
{
    if k < 0 || k >= names.len() {
        None
    } else if names[k] is Some && unicode_lowercase(names[k]->0) == unicode_lowercase(program) {
        Some(k)
    } else {
        program_entry_from(names, program, k + 1)
    }
}

fn same_chars(a: &Vec<char>, b: &Vec<char>) -> (r: bool)
    ensures
        r == (a@ == b@),
{
    if a.len() != b.len() {
        return false;
    }
    let mut i: usize = 0;
    while i < a.len()
        invariant
            a.len() == b.len(),
            i <= a.len(),
            forall|k: int| 0 <= k < i ==> a@[k] == b@[k],
        decreases a.len() - i,
    {
        if a[i] != b[i] {
            return false;
        }
        i = i + 1;
    }
    assert(a@ =~= b@);
    true
}

/// Which entry of an update's archive is the program: the first whose file name is the running
/// program's, ignoring case. `names` holds each entry's file name, or nothing for an entry that
/// cannot be read or names no file.
pub fn program_entry(names: &Vec<Option<String>>, program: &str) -> (r: Option<usize>)
    ensures
        match r {
            Some(i) => program_entry_from(names@.map_values(|n: Option<String>| opt_view(n)), program@, 0) == Some(i as int),
            None => program_entry_from(names@.map_values(|n: Option<String>| opt_view(n)), program@, 0) is None,
        },
{
    let ghost nv = names@.map_values(|n: Option<String>| opt_view(n));
    let wanted = chars_of(lowercase(program).as_str());
    let mut i: usize = 0;
    while i < names.len()
        invariant
            i <= names.len(),
            nv == names@.map_values(|n: Option<String>| opt_view(n)),
            wanted@ == unicode_lowercase(program@),
            program_entry_from(nv, program@, 0) == program_entry_from(nv, program@, i as int),
        decreases names.len() - i,
    {
        assert(nv[i as int] == opt_view(names@[i as int]));
        match &names[i] {
            Some(name) => {
                let lower = chars_of(lowercase(name.as_str()).as_str());
                if same_chars(&lower, &wanted) {
                    return Some(i);
                }
            },
            None => {},
        }
        i = i + 1;
    }
    None
}

} // verus!
