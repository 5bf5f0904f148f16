//! Keeping the installed magictree current.
//!
//! `magictree update` replaces the binary with the release published for the platform it was built
//! for, and every other command ends by naming a release that has landed since it was installed.
//! Release assets are named `magictree-<version>-<target>.tar.gz`.

use crate::slug;
use crate::text;
use crate::value;
use crate::value::Value;
use vstd::prelude::*;

verus! {

/// Seconds that a check that found a release is trusted: at most one request a day, and a release
/// is named the day after it lands.
pub const CHECK_INTERVAL: u64 = 86400;

/// Seconds that a check that reached nothing is trusted, so a machine with no network asks rarely
/// instead of on every command. Short, because a link that was down is a link that came back.
pub const RETRY_INTERVAL: u64 = 1800;

/// A file of a release.
#[derive(Debug)]
pub struct Asset {
    pub name: String,
    pub browser_download_url: String,
    /// `sha256:<hex>` where one is published.
    pub digest: Option<String>,
}

/// A release, and the assets it carries.
#[derive(Debug)]
pub struct Release {
    /// The tag the release is published under, `v0.1.3`.
    pub tag_name: String,
    /// The release page, which errors point at.
    pub html_url: String,
    pub assets: Vec<Asset>,
}

/// The version that a tag names: `v0.1.3` is `0.1.3`.
pub open spec fn version_of(tag: Seq<char>) -> Seq<char> {
    match text::strip_prefix_of(tag, "v"@) {
        Some(version) => version,
        None => tag,
    }
}

/// The first asset, from `k` on, that is built for a platform.
pub open spec fn asset_for(assets: Seq<Asset>, suffix: Seq<char>, k: int) -> Option<Asset>
    decreases assets.len() - k,
{
    if k < 0 || k >= assets.len() {
        None
    } else if text::ends_with_of(assets[k].name@, suffix) {
        Some(assets[k])
    } else {
        asset_for(assets, suffix, k + 1)
    }
}

pub open spec fn suffix_of(target: Seq<char>) -> Seq<char> {
    "-"@ + target + ".tar.gz"@
}

impl Release {
    pub open spec fn no_build(self, target: Seq<char>) -> Seq<char> {
        "release "@ + self.tag_name@ + " carries no build for "@ + target + "\n\n"@ + self.html_url@
    }

    /// The version the tag names: `v0.1.3` is `0.1.3`.
    pub fn version(&self) -> (r: String)
        ensures
            r@ == version_of(self.tag_name@),
    {
        match text::strip_prefix(&self.tag_name, "v") {
            Some(version) => version,
            None => self.tag_name.clone(),
        }
    }

    /// The asset that a platform installs from.
    pub fn asset(&self, target: &str) -> (r: Result<&Asset, String>)
        ensures
            match r {
                Ok(asset) => asset_for(self.assets@, suffix_of(target@), 0) == Some(*asset),
                Err(e) => asset_for(self.assets@, suffix_of(target@), 0) is None && e@
                    == self.no_build(target@),
            },
    {
        let mut suffix = text::own("-");
        suffix.append(target);
        suffix.append(".tar.gz");
        let mut k: usize = 0;
        while k < self.assets.len()
            invariant
                suffix@ == suffix_of(target@),
                k <= self.assets@.len(),
                asset_for(self.assets@, suffix@, 0) == asset_for(self.assets@, suffix@, k as int),
            decreases self.assets@.len() - k,
        {
            if text::ends_with(&self.assets[k].name, &suffix) {
                return Ok(&self.assets[k]);
            }
            k += 1;
        }
        let mut e = text::own("release ");
        e.append(&self.tag_name);
        e.append(" carries no build for ");
        e.append(target);
        e.append("\n\n");
        e.append(&self.html_url);
        Err(e)
    }

    /// The name of the artifact a platform installs from.
    pub fn artifact(&self, target: &str) -> (r: Result<String, String>)
        ensures
            match r {
                Ok(name) => asset_for(self.assets@, suffix_of(target@), 0) matches Some(asset) && name@
                    == asset.name@,
                Err(e) => asset_for(self.assets@, suffix_of(target@), 0) is None && e@
                    == self.no_build(target@),
            },
    {
        match self.asset(target) {
            Ok(asset) => Ok(asset.name.clone()),
            Err(e) => Err(e),
        }
    }
}

// ---------------------------------------------------------------------------
// The answer of the release server
// ---------------------------------------------------------------------------

/// An optional text: absent and null are none, and anything else but text is no answer.
pub open spec fn optional_text(v: Value, key: Seq<char>) -> Option<Option<Seq<char>>> {
    match v.get_of(key) {
        None => Some(None),
        Some(Value::Null) => Some(None),
        Some(Value::Text(s)) => Some(Some(s@)),
        Some(_) => None,
    }
}

/// Whether a document describes an asset.
pub open spec fn describes_asset(v: Value, a: Asset) -> bool {
    &&& v.text_under("name"@) == Some(a.name@)
    &&& v.text_under("browser_download_url"@) == Some(a.browser_download_url@)
    &&& optional_text(v, "digest"@) == Some(text::opt_view(a.digest))
}

/// Whether a document is an asset at all.
pub open spec fn is_asset(v: Value) -> bool {
    v.text_under("name"@) is Some && v.text_under("browser_download_url"@) is Some && optional_text(
        v,
        "digest"@,
    ) is Some
}

/// Whether a document is a release.
pub open spec fn is_release(v: Value) -> bool {
    &&& v.text_under("tag_name"@) is Some
    &&& v.text_under("html_url"@) is Some
    &&& v.get_of("assets"@) matches Some(list) && list is List && forall|i: int|
        0 <= i < list.items_of().len() ==> is_asset(#[trigger] list.items_of()[i])
}

/// Whether a document describes a release.
pub open spec fn describes_release(v: Value, r: Release) -> bool {
    &&& v.text_under("tag_name"@) == Some(r.tag_name@)
    &&& v.text_under("html_url"@) == Some(r.html_url@)
    &&& r.assets@.len() == v.items_under("assets"@).len()
    &&& forall|i: int|
        0 <= i < r.assets@.len() ==> describes_asset(v.items_under("assets"@)[i], #[trigger] r.assets@[i])
}

fn read_optional(v: &Value, key: &str) -> (r: Option<Option<String>>)
    ensures
        match r {
            Some(o) => optional_text(*v, key@) == Some(text::opt_view(o)),
            None => optional_text(*v, key@) is None,
        },
{
    match v.get(key) {
        None => Some(None),
        Some(Value::Null) => Some(None),
        Some(Value::Text(s)) => Some(Some(s.clone())),
        Some(_) => None,
    }
}

fn read_asset(v: &Value) -> (r: Option<Asset>)
    ensures
        match r {
            Some(a) => is_asset(*v) && describes_asset(*v, a),
            None => !is_asset(*v),
        },
{
    match (v.get_text("name"), v.get_text("browser_download_url"), read_optional(v, "digest")) {
        (Some(name), Some(url), Some(digest)) => Some(
            Asset { name: name.clone(), browser_download_url: url.clone(), digest },
        ),
        _ => None,
    }
}

/// The release that a document describes.
pub fn read_release(v: &Value) -> (r: Option<Release>)
    ensures
        match r {
            Some(release) => is_release(*v) && describes_release(*v, release),
            None => !is_release(*v),
        },
{
    let (tag_name, html_url) = match (v.get_text("tag_name"), v.get_text("html_url")) {
        (Some(tag), Some(url)) => (tag.clone(), url.clone()),
        _ => {
            return None;
        },
    };
    let list = match v.get("assets") {
        Some(list) => list,
        None => {
            return None;
        },
    };
    if !list.is_list() {
        return None;
    }
    let n: usize = list.item_count();
    let mut assets: Vec<Asset> = Vec::new();
    let mut i: usize = 0;
    while i < n
        invariant
            n == list.items_of().len(),
            v.get_of("assets"@) == Some(*list),
            *list is List,
            i <= n,
            assets@.len() == i,
            forall|k: int|
                0 <= k < i ==> describes_asset(list.items_of()[k], #[trigger] assets@[k]),
            forall|k: int| 0 <= k < i ==> is_asset(#[trigger] list.items_of()[k]),
        decreases n - i,
    {
        match read_asset(list.item(i)) {
            Some(asset) => {
                assets.push(asset);
            },
            None => {
                assert(!is_asset(list.items_of()[i as int]));
                return None;
            },
        }
        i += 1;
    }
    Some(Release { tag_name, html_url, assets })
}

/// The latest release, as the release server's answer describes it.
pub fn latest(body: &str, url: &str) -> (r: Result<Release, String>)
    ensures
        match r {
            Ok(release) => value::json_value(body@) matches Some(v) && is_release(v)
                && describes_release(v, release),
            Err(e) => (value::json_value(body@) matches Some(v) ==> !is_release(v)) && e@
                == "parsing the release from "@ + url@,
        },
{
    match value::parse_json(body) {
        Some(v) => match read_release(&v) {
            Some(release) => Ok(release),
            None => Err(text::concat("parsing the release from ", url)),
        },
        None => Err(text::concat("parsing the release from ", url)),
    }
}

// ---------------------------------------------------------------------------
// Downloads
// ---------------------------------------------------------------------------

/// The digest of some bytes, in hexadecimal.
pub open spec fn hex_digest(data: Seq<u8>) -> Seq<char> {
    slug::hex_of(slug::sha256_of(data).take(32))
}

/// The digest that a release publishes for an asset.
pub open spec fn published_digest(digest: Option<Seq<char>>) -> Option<Seq<char>> {
    match digest {
        Some(digest) => text::strip_prefix_of(digest, "sha256:"@),
        None => None,
    }
}

/// Whether a digest is the one that was published, where one was.
pub open spec fn is_published(downloaded: Seq<char>, digest: Option<Seq<char>>) -> bool {
    match published_digest(digest) {
        Some(published) => text::lower_of(published) == text::lower_of(downloaded),
        None => true,
    }
}

/// Whether a download is the published one. Where the release publishes no digest there is nothing
/// to compare.
pub fn check_download(data: &[u8], digest: &Option<String>, target: &str) -> (r: Result<(), String>)
    ensures
        match published_digest(text::opt_view(*digest)) {
            None => r is Ok,
            Some(published) => {
                let downloaded = hex_digest(data@);
                match r {
                    Ok(_) => text::lower_of(downloaded) == text::lower_of(published),
                    Err(e) => text::lower_of(downloaded) != text::lower_of(published) && e@ == "the "@
                        + target@
                        + " build does not match the digest the release publishes\n\n  published  "@
                        + published + "\n  downloaded "@ + downloaded,
                }
            },
        },
        r is Ok <==> is_published(hex_digest(data@), text::opt_view(*digest)),
{
    let published = match digest {
        Some(digest) => match text::strip_prefix(digest, "sha256:") {
            Some(published) => published,
            None => {
                return Ok(());
            },
        },
        None => {
            return Ok(());
        },
    };
    let downloaded = slug::hex(&slug::sha256(data), 32);
    if text::same_ignoring_case(&downloaded, &published) {
        return Ok(());
    }
    let mut e = text::own("the ");
    e.append(target);
    e.append(" build does not match the digest the release publishes\n\n  published  ");
    e.append(&published);
    e.append("\n  downloaded ");
    e.append(&downloaded);
    Err(e)
}

/// The version that a program's `--version` line reports: its last word.
pub open spec fn reported_of(stdout: Seq<char>) -> Seq<char> {
    let words = text::words_of(stdout);
    if words.len() == 0 {
        Seq::empty()
    } else {
        words.last()
    }
}

/// Whether a staged build runs and is the version it should be. A build for another architecture,
/// or a file that is not a program at all, fails here rather than after the working magictree has
/// been overwritten.
pub fn runs_as(success: bool, stdout: &str, version: &str) -> (r: bool)
    ensures
        r == (success && reported_of(stdout@) == version@),
{
    let words = text::words(stdout);
    assert(text::views(words@).len() == words@.len());
    if !success {
        return false;
    }
    if words.len() == 0 {
        let empty = String::new();
        assert(empty@ =~= reported_of(stdout@));
        return text::same(&empty, version);
    }
    text::same(&words[words.len() - 1], version)
}

// ---------------------------------------------------------------------------
// The notice
// ---------------------------------------------------------------------------

/// What the last check found, kept so the next command does not ask again.
#[derive(Debug)]
pub struct Check {
    /// Unix seconds when the check ran, whether or not it found anything.
    pub checked_at: u64,
    /// The version the latest release carried, when one was found at all.
    pub version: Option<String>,
}

/// What is recorded after `update`, so the next command does not ask for an answer the user has
/// just seen.
pub fn remember(version: &str, now: u64) -> (r: Check)
    ensures
        r.checked_at == now,
        text::opt_view(r.version) == Some(version@),
{
    Check { checked_at: now, version: Some(text::own(version)) }
}

/// Whether a document is a recorded check.
pub open spec fn check_of(v: Value) -> Option<(nat, Option<Seq<char>>)> {
    match (v.get_of("checked_at"@), optional_text(v, "version"@)) {
        (Some(Value::Number(n)), Some(version)) => match text::number_of(n@, u64::MAX as nat) {
            Some(at) => Some((at, version)),
            None => None,
        },
        _ => None,
    }
}

/// The check that a recorded file holds.
pub fn read_check(raw: &str) -> (r: Option<Check>)
    ensures
        match r {
            Some(c) => value::json_value(raw@) matches Some(v) && check_of(v) == Some(
                (c.checked_at as nat, text::opt_view(c.version)),
            ),
            None => value::json_value(raw@) matches Some(v) ==> check_of(v) is None,
        },
{
    match value::parse_json(raw) {
        Some(v) => match (v.get("checked_at"), read_optional(&v, "version")) {
            (Some(Value::Number(n)), Some(version)) => match text::parse_number(
                n,
                0xffff_ffff_ffff_ffff,
            ) {
                Some(at) => Some(Check { checked_at: at, version }),
                None => None,
            },
            _ => None,
        },
        None => None,
    }
}

/// Whether a check is still worth trusting at a time.
pub open spec fn trusted(check: Check, now: u64) -> bool {
    check.checked_at <= now && now - check.checked_at < (if check.version is Some {
        CHECK_INTERVAL
    } else {
        RETRY_INTERVAL
    })
}

/// Whether the last check is still worth trusting. A check that found a release is good for a day;
/// one that found nothing is worth retrying in half an hour. A timestamp from the future is a clock
/// that moved, not an answer.
pub fn fresh(check: &Check, now: u64) -> (r: bool)
    ensures
        r == trusted(*check, now),
{
    if check.checked_at > now {
        return false;
    }
    let interval: u64 = if check.version.is_some() {
        CHECK_INTERVAL
    } else {
        RETRY_INTERVAL
    };
    now - check.checked_at < interval
}

/// Where the latest version comes from.
#[derive(Debug)]
pub enum VersionSource {
    /// The last check still answers.
    Cached(Option<String>),
    /// The server has to be asked, and its answer recorded.
    Ask,
}

/// Whether the last check answers which version is the latest.
pub open spec fn answers_from_cache(cached: Option<Check>, now: u64) -> bool {
    match cached {
        Some(check) => trusted(check, now),
        None => false,
    }
}

/// The latest version: from the cache while the last check is still trusted, from the server once
/// it is not.
pub fn checked_version(cached: &Option<Check>, now: u64) -> (r: VersionSource)
    ensures
        match r {
            VersionSource::Cached(version) => *cached matches Some(c) && trusted(c, now)
                && text::opt_view(version) == text::opt_view(c.version),
            VersionSource::Ask => *cached matches Some(c) ==> !trusted(c, now),
        },
        r is Cached <==> answers_from_cache(*cached, now),
{
    match cached {
        Some(check) => if fresh(check, now) {
            VersionSource::Cached(text::clone_opt(&check.version))
        } else {
            VersionSource::Ask
        },
        None => VersionSource::Ask,
    }
}

/// `0.1.3` as numbers; anything that is not a version is no answer.
pub open spec fn triple_of(version: Seq<char>) -> Option<(nat, nat, nat)> {
    let parts = text::split_of(core_of(version), '.');
    if parts.len() != 3 {
        None
    } else {
        match (
            text::number_of(parts[0], u64::MAX as nat),
            text::number_of(parts[1], u64::MAX as nat),
            text::number_of(parts[2], u64::MAX as nat),
        ) {
            (Some(a), Some(b), Some(c)) => Some((a, b, c)),
            _ => None,
        }
    }
}

/// A version without surrounding space, its leading `v`, and what follows its numbers.
pub open spec fn core_of(version: Seq<char>) -> Seq<char> {
    let plain = version_of(text::trim_of(version));
    let without_suffix = text::split_of(plain, '-')[0];
    text::split_of(without_suffix, '+')[0]
}

/// Whether one triple of numbers comes after another.
pub open spec fn after(a: (nat, nat, nat), b: (nat, nat, nat)) -> bool {
    a.0 > b.0 || (a.0 == b.0 && (a.1 > b.1 || (a.1 == b.1 && a.2 > b.2)))
}

/// Whether one version is a later release than another.
pub open spec fn newer(candidate: Seq<char>, current: Seq<char>) -> bool {
    match (triple_of(candidate), triple_of(current)) {
        (Some(a), Some(b)) => after(a, b),
        _ => false,
    }
}

fn triple(version: &str) -> (r: Option<(u64, u64, u64)>)
    ensures
        match r {
            Some((a, b, c)) => triple_of(version@) == Some((a as nat, b as nat, c as nat)),
            None => triple_of(version@) is None,
        },
{
    let trimmed = text::trim(version);
    let plain = match text::strip_prefix(&trimmed, "v") {
        Some(plain) => plain,
        None => trimmed,
    };
    let head = text::split(&plain, '-');
    assert(text::views(head@)[0] == head@[0]@);
    let core = text::split(&head[0], '+');
    assert(text::views(core@)[0] == core@[0]@);
    let parts = text::split(&core[0], '.');
    let ghost list = text::views(parts@);
    assert(list.len() == parts@.len());
    if parts.len() != 3 {
        return None;
    }
    assert(list[0] == parts@[0]@ && list[1] == parts@[1]@ && list[2] == parts@[2]@);
    match (
        text::parse_number(&parts[0], 0xffff_ffff_ffff_ffff),
        text::parse_number(&parts[1], 0xffff_ffff_ffff_ffff),
        text::parse_number(&parts[2], 0xffff_ffff_ffff_ffff),
    ) {
        (Some(a), Some(b), Some(c)) => Some((a, b, c)),
        _ => None,
    }
}

/// Whether `candidate` is a later release than `current`.
pub fn is_newer(candidate: &str, current: &str) -> (r: bool)
    ensures
        r == newer(candidate@, current@),
{
    match (triple(candidate), triple(current)) {
        (Some(a), Some(b)) => a.0 > b.0 || (a.0 == b.0 && (a.1 > b.1 || (a.1 == b.1 && a.2 > b.2))),
        _ => false,
    }
}

/// The notice of a newer release; none where there is nothing certain to say.
pub fn notice(version: &Option<String>, current: &str) -> (r: Option<String>)
    ensures
        text::opt_view(r) == (match *version {
            Some(version) => if newer(version@, current@) {
                Some(
                    "magictree "@ + version@ + " is available (this is "@ + current@
                        + "); run `magictree update`"@,
                )
            } else {
                None
            },
            None => None,
        }),
{
    match version {
        Some(version) => if is_newer(version, current) {
            let mut m = text::own("magictree ");
            m.append(version);
            m.append(" is available (this is ");
            m.append(current);
            m.append("); run `magictree update`");
            Some(m)
        } else {
            None
        },
        None => None,
    }
}

/// Whether the environment switches the notice off: set to anything but `0`, it does.
pub fn disabled(switch: &Option<String>) -> (r: bool)
    ensures
        r == (*switch matches Some(s) && s@ != "0"@),
{
    match switch {
        Some(s) => !text::same(s, "0"),
        None => false,
    }
}

// ---------------------------------------------------------------------------
// Laws
// ---------------------------------------------------------------------------

/// No version is newer than itself, two are never newer than each other, and what is newer than a
/// newer version is newer too.
pub proof fn newer_is_an_order(a: Seq<char>, b: Seq<char>, c: Seq<char>)
    ensures
        !newer(a, a),
        newer(a, b) ==> !newer(b, a),
        newer(a, b) && newer(b, c) ==> newer(a, c),
{
}

/// A text that is not a version is never newer, and nothing is newer than it.
pub proof fn only_versions_are_newer(a: Seq<char>, b: Seq<char>)
    requires
        triple_of(a) is None || triple_of(b) is None,
    ensures
        !newer(a, b),
{
}

proof fn trim_end_keeps_head(s: Seq<char>)
    requires
        s.len() > 0,
        !text::white(s[0]),
    ensures
        text::trim_end_of(s).len() > 0,
        text::trim_end_of(s)[0] == s[0],
        text::trim_end_of("v"@ + s) == "v"@ + text::trim_end_of(s),
    decreases s.len(),
{
    reveal_strlit("v");
    let t = "v"@ + s;
    assert(t.last() == s.last());
    if text::white(s.last()) {
        assert(s.len() > 1);
        assert(t.drop_last() =~= "v"@ + s.drop_last());
        trim_end_keeps_head(s.drop_last());
    }
}

/// A tag compares as the version it names.
pub proof fn tags_compare_as_versions(version: Seq<char>)
    requires
        version.len() > 0,
        !text::white(version[0]),
        version[0] != 'v',
    ensures
        triple_of("v"@ + version) == triple_of(version),
{
    reveal_strlit("v");
    let tag = "v"@ + version;
    trim_end_keeps_head(version);
    assert(tag[0] == 'v');
    assert(text::trim_start_of(tag) == tag);
    assert(text::trim_start_of(version) == version);
    let plain = text::trim_end_of(version);
    let trimmed = "v"@ + plain;
    assert(text::trim_of(tag) == trimmed);
    assert(trimmed.take(1) =~= "v"@);
    assert(trimmed.skip(1) =~= plain);
    assert(version_of(trimmed) == plain);
    assert(plain.take(1)[0] == version[0]);
    assert(version_of(plain) == plain) by {
        if plain.take(1) == "v"@ {
            assert("v"@[0] == 'v');
        }
    }
}

/// What is said of a file that an update could not write. Where an update writes is where the binary
/// lives, and that directory often belongs to another user.
pub fn write_error(path: &str, denied: bool, error: &str) -> (r: String)
    ensures
        r@ == (if denied {
            "writing "@ + path@
                + ": permission denied\n\nmagictree is installed in a directory this user cannot write to; run `sudo magictree update`, or keep magictree somewhere you own (for example ~/.local/bin)"@
        } else {
            "writing "@ + path@ + ": "@ + error@
        }),
{
    let mut e = text::concat("writing ", path);
    if denied {
        e.append(
            ": permission denied\n\nmagictree is installed in a directory this user cannot write to; run `sudo magictree update`, or keep magictree somewhere you own (for example ~/.local/bin)",
        );
    } else {
        e.append(": ");
        e.append(error);
    }
    e
}

/// A version as it is written: three numbers, with dots between them.
pub open spec fn written(a: nat, b: nat, c: nat) -> Seq<char> {
    text::decimal_of(a) + "."@ + text::decimal_of(b) + "."@ + text::decimal_of(c)
}

proof fn digits_hold_no_mark(n: nat, mark: char)
    requires
        !text::digit(mark),
    ensures
        !text::decimal_of(n).contains(mark),
        text::decimal_of(n).len() > 0,
        text::digit(text::decimal_of(n)[0]),
        text::digit(text::decimal_of(n).last()),
{
    text::decimals_are_read_back(n);
    let digits = text::decimal_of(n);
    if digits.contains(mark) {
        let i = choose|i: int| 0 <= i < digits.len() && digits[i] == mark;
        assert(text::digit(digits[i]));
    }
}

proof fn unsplit(s: Seq<char>, c: char)
    requires
        !s.contains(c),
    ensures
        text::split_of(s, c) == seq![s],
{
    text::index_from_is_least(s, c, 0);
    if let Some(i) = text::index_of(s, c) {
        assert(s[i] == c);
    }
}

proof fn split_at_first(head: Seq<char>, c: char, rest: Seq<char>)
    requires
        !head.contains(c),
    ensures
        text::split_of(head + seq![c] + rest, c) == seq![head] + text::split_of(rest, c),
{
    let s = head + seq![c] + rest;
    text::index_from_is_least(s, c, 0);
    let at = head.len() as int;
    assert(s[at] == c);
    assert forall|j: int| 0 <= j < at implies s[j] != c by {
        assert(s[j] == head[j]);
        assert(head.contains(head[j]));
    }
    assert(text::index_of(s, c) == Some(at));
    assert(s.take(at) =~= head);
    assert(s.skip(at + 1) =~= rest);
}

proof fn versions_are_read_back(a: nat, b: nat, c: nat)
    requires
        a <= u64::MAX,
        b <= u64::MAX,
        c <= u64::MAX,
    ensures
        triple_of(written(a, b, c)) == Some((a, b, c)),
{
    reveal_strlit(".");
    reveal_strlit("v");
    let x = text::decimal_of(a);
    let y = text::decimal_of(b);
    let z = text::decimal_of(c);
    let dot = seq!['.'];
    assert("."@ =~= dot);
    let version = written(a, b, c);
    digits_hold_no_mark(a, '.');
    digits_hold_no_mark(b, '.');
    digits_hold_no_mark(c, '.');
    digits_hold_no_mark(a, '-');
    digits_hold_no_mark(b, '-');
    digits_hold_no_mark(c, '-');
    digits_hold_no_mark(a, '+');
    digits_hold_no_mark(b, '+');
    digits_hold_no_mark(c, '+');
    assert(version[0] == x[0]);
    assert(version.last() == z.last());
    assert(text::trim_of(version) == version);
    assert(version_of(version) == version) by {
        if text::starts_with_of(version, "v"@) {
            assert(version.take(1)[0] == 'v');
        }
    }
    assert forall|m: char| (m == '-' || m == '+') implies !version.contains(m) by {
        if version.contains(m) {
            let i = choose|i: int| 0 <= i < version.len() && version[i] == m;
            let p = x.len() as int;
            let q = p + 1 + y.len();
            if i < p {
                assert(x[i] == m);
                assert(x.contains(m));
            } else if p < i < q {
                assert(y[i - p - 1] == m);
                assert(y.contains(m));
            } else if q < i {
                assert(z[i - q - 1] == m);
                assert(z.contains(m));
            }
        }
    }
    unsplit(version, '-');
    unsplit(version, '+');
    assert(core_of(version) == version);
    assert(version =~= x + dot + (y + dot + z));
    split_at_first(x, '.', y + dot + z);
    split_at_first(y, '.', z);
    unsplit(z, '.');
    let parts = text::split_of(version, '.');
    assert(parts =~= seq![x, y, z]);
    text::decimals_are_read_back(a);
    text::decimals_are_read_back(b);
    text::decimals_are_read_back(c);
}

/// Releases are in the order of their numbers, the first number first.
pub proof fn releases_follow_their_numbers(a: (nat, nat, nat), b: (nat, nat, nat))
    requires
        a.0 <= u64::MAX && a.1 <= u64::MAX && a.2 <= u64::MAX,
        b.0 <= u64::MAX && b.1 <= u64::MAX && b.2 <= u64::MAX,
    ensures
        newer(written(a.0, a.1, a.2), written(b.0, b.1, b.2)) <==> a.0 > b.0 || a.0 == b.0 && a.1
            > b.1 || a.0 == b.0 && a.1 == b.1 && a.2 > b.2,
{
    versions_are_read_back(a.0, a.1, a.2);
    versions_are_read_back(b.0, b.1, b.2);
}

proof fn assets_are_first(assets: Seq<Asset>, suffix: Seq<char>, k: int) -> (at: int)
    requires
        0 <= k <= assets.len(),
    ensures
        match asset_for(assets, suffix, k) {
            Some(a) => k <= at < assets.len() && assets[at] == a && text::ends_with_of(
                a.name@,
                suffix,
            ) && forall|j: int|
                k <= j < at ==> !text::ends_with_of((#[trigger] assets[j]).name@, suffix),
            None => forall|j: int|
                k <= j < assets.len() ==> !text::ends_with_of((#[trigger] assets[j]).name@, suffix),
        },
    decreases assets.len() - k,
{
    if k >= assets.len() || text::ends_with_of(assets[k].name@, suffix) {
        k
    } else {
        assets_are_first(assets, suffix, k + 1)
    }
}

/// The build that is installed is one for this machine: the first whose name ends in the target, and
/// none where no build does.
pub proof fn builds_are_for_their_target(assets: Seq<Asset>, target: Seq<char>) -> (at: int)
    ensures
        ({
            let ending = "-"@ + target + ".tar.gz"@;
            match asset_for(assets, suffix_of(target), 0) {
                Some(a) => 0 <= at < assets.len() && assets[at] == a && text::ends_with_of(
                    a.name@,
                    ending,
                ) && forall|j: int|
                    0 <= j < at ==> !text::ends_with_of((#[trigger] assets[j]).name@, ending),
                None => forall|j: int|
                    0 <= j < assets.len() ==> !text::ends_with_of(
                        (#[trigger] assets[j]).name@,
                        ending,
                    ),
            }
        }),
{
    assets_are_first(assets, suffix_of(target), 0)
}

/// A check is trusted from when it was made until it is too old, and never before: a day where it
/// found a release, half an hour where it found none.
pub proof fn checks_are_trusted_for_a_while(check: Check, now: u64)
    ensures
        now < check.checked_at ==> !trusted(check, now),
        check.checked_at <= now && check.version is Some ==> (trusted(check, now) <==> now
            - check.checked_at < 24 * 60 * 60),
        check.checked_at <= now && check.version is None ==> (trusted(check, now) <==> now
            - check.checked_at < 30 * 60),
{
}

/// A download is accepted where no digest was published for it, and otherwise exactly where its own
/// digest is the published one, in letters of either case.
pub proof fn downloads_are_checked(downloaded: Seq<char>, published: Seq<char>)
    ensures
        is_published(downloaded, None),
        is_published(downloaded, Some("sha256:"@ + published)) <==> text::lower_of(downloaded)
            == text::lower_of(published),
{
    let digest = "sha256:"@ + published;
    let mark = "sha256:"@;
    assert(digest.take(mark.len() as int) =~= mark);
    assert(digest.skip(mark.len() as int) =~= published);
}

/// The server is asked where nothing is cached, where the cache is from the future, and where it is
/// too old: a day for a version, half an hour for a check that found none.
pub proof fn stale_checks_are_repeated(check: Check, now: u64)
    ensures
        !answers_from_cache(None, now),
        now < check.checked_at ==> !answers_from_cache(Some(check), now),
        now - check.checked_at >= 86400 ==> !answers_from_cache(Some(check), now),
        check.version is None && now - check.checked_at >= 1800 ==> !answers_from_cache(
            Some(check),
            now,
        ),
        check.version is Some && 0 <= now - check.checked_at < 86400 ==> answers_from_cache(
            Some(check),
            now,
        ),
{
}

} // verus!
