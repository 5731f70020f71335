//! Updates: which release is newer, which artifact may be installed, and which
//! check may say so.

use crate::digest::{digest_form, is_digest_form};
use crate::json::{
    field_is, field_text, field_unsigned, json_member, optional_field, read_json_member,
    text_of_field, unsigned_of_field, FieldView, JsonField,
};
use crate::licensing::{Edition, LicenseStatus};
use crate::seqs::first_where;
use crate::text::{
    all_digits, byte_len, chars_of, decimal, digits_value, number, parse_number, same, text_of,
};
use vstd::prelude::*;
use vstd::utf8::encode_utf8;

verus! {

/// How often a release is looked for.
pub const UPDATE_CHECK_INTERVAL_MS: u64 = 21_600_000;

/// The largest artifact that is downloaded.
pub const MAX_UPDATE_BYTES: u64 = 536_870_912;

/// How many bytes of a manifest are read.
pub const MAX_MANIFEST_BYTES: u64 = 65_536;

/// A release: three numbers.
#[derive(Debug, Clone, Copy, PartialEq, Eq, Structural)]
pub struct Version {
    pub major: u64,
    pub minor: u64,
    pub patch: u64,
}

/// The components of a text between full stops.
pub open spec fn components(s: Seq<char>) -> Seq<Seq<char>>
    decreases s.len(),
    via components_decreases
{
    let k = first_where(s, |c: char| c == '.', 0);
    if k < s.len() {
        seq![s.take(k)] + components(s.skip(k + 1))
    } else {
        seq![s]
    }
}

#[via_fn]
proof fn components_decreases(s: Seq<char>) {
    broadcast use crate::seqs::first_where_range;

}

/// The number that a component denotes: up to twenty digits.
pub open spec fn component_value(c: Seq<char>) -> Option<u64> {
    if 0 < c.len() <= 20 && all_digits(c) && digits_value(c) <= u64::MAX {
        Some(digits_value(c) as u64)
    } else {
        None
    }
}

/// The release that a text names: exactly three numbers.
pub open spec fn version_of(s: Seq<char>) -> Option<Version> {
    let c = components(s);
    if 0 < encode_utf8(s).len() <= 64 && c.len() == 3 && component_value(c[0]) is Some
        && component_value(c[1]) is Some && component_value(c[2]) is Some {
        Some(
            Version {
                major: component_value(c[0])->0,
                minor: component_value(c[1])->0,
                patch: component_value(c[2])->0,
            },
        )
    } else {
        None
    }
}

/// The order of releases: by their numbers, the major one first.
pub open spec fn later(a: Version, b: Version) -> bool {
    a.major > b.major || (a.major == b.major && (a.minor > b.minor || (a.minor == b.minor
        && a.patch > b.patch)))
}

/// `remote` names a later release than `local`.
pub open spec fn newer(remote: Seq<char>, local: Seq<char>) -> bool {
    version_of(remote) is Some && version_of(local) is Some && later(
        version_of(remote)->0,
        version_of(local)->0,
    )
}

/// No release is newer than itself, of two releases at most one is newer than
/// the other, and what is newer than a newer one is newer.
pub proof fn newer_is_a_strict_order(a: Seq<char>, b: Seq<char>, c: Seq<char>)
    ensures
        !newer(a, a),
        newer(a, b) ==> !newer(b, a),
        newer(a, b) && newer(b, c) ==> newer(a, c),
        version_of(a) is Some && version_of(b) is Some ==> newer(a, b) || newer(b, a)
            || version_of(a) == version_of(b),
{
}

/// A text that names no release is neither newer nor older than anything.
pub proof fn no_release_is_never_newer(a: Seq<char>, b: Seq<char>)
    requires
        version_of(a) is None,
    ensures
        !newer(a, b),
        !newer(b, a),
{
}

/// The views of a list of components.
pub open spec fn component_views(cs: Seq<Vec<char>>) -> Seq<Seq<char>> {
    cs.map_values(|c: Vec<char>| c@)
}

/// The components of a text between full stops.
fn split_components(s: &str) -> (r: Vec<Vec<char>>)
    ensures
        component_views(r@) == components(s@),
{
    let chars = chars_of(s);
    let ghost stop = |c: char| c == '.';
    let mut r: Vec<Vec<char>> = Vec::new();
    let mut part: Vec<char> = Vec::new();
    let mut i: usize = 0;
    let ghost mut start: int = 0;
    proof {
        assert(chars@.skip(0) =~= chars@);
        assert(component_views(r@) + components(chars@.skip(0)) =~= components(chars@));
    }
    while i < chars.len()
        invariant
            0 <= start <= i <= chars@.len(),
            stop == (|c: char| c == '.'),
            part@ == chars@.skip(start).take(i - start),
            component_views(r@) + components(chars@.skip(start)) == components(chars@),
            first_where(chars@.skip(start), stop, 0) == first_where(
                chars@.skip(start),
                stop,
                i - start,
            ),
        decreases chars@.len() - i,
    {
        let c = chars[i];
        let ghost rest = chars@.skip(start);
        assert(rest[i - start] == c);
        if c == '.' {
            let ghost before = r@;
            let ghost done = part@;
            r.push(part);
            part = Vec::new();
            proof {
                assert(first_where(rest, stop, 0) == i - start);
                assert(component_views(r@) =~= component_views(before).push(done));
                assert(rest.skip(i - start + 1) =~= chars@.skip(i + 1));
                assert(component_views(r@) + components(chars@.skip(i + 1)) =~= component_views(
                    before,
                ) + components(rest));
                start = i + 1;
            }
        } else {
            part.push(c);
        }
        i += 1;
        assert(part@ =~= chars@.skip(start).take(i - start));
    }
    let ghost rest = chars@.skip(start);
    let ghost before = r@;
    let ghost last = part@;
    r.push(part);
    proof {
        assert(rest.take(rest.len() as int) =~= rest);
        assert(component_views(r@) =~= component_views(before).push(last));
        assert(component_views(before) + seq![last] =~= component_views(before).push(last));
    }
    r
}

/// The number that a component denotes.
fn parse_component(c: &[char]) -> (r: Option<u64>)
    ensures
        r == component_value(c@),
{
    if c.len() == 0 || c.len() > 20 || c[0] == '+' {
        assert(c@.len() > 0 && c@[0] == '+' ==> !all_digits(c@));
        return None;
    }
    parse_number(&text_of(c), u64::MAX)
}

/// The release that a text names: exactly three numbers between full stops.
pub fn release_version(value: &str) -> (r: Option<Version>)
    ensures
        r == version_of(value@),
{
    let size: usize = byte_len(value);
    if size == 0 || size > 64 {
        return None;
    }
    let parts = split_components(value);
    let ghost c = components(value@);
    assert(component_views(parts@).len() == parts@.len());
    if parts.len() != 3 {
        return None;
    }
    assert(c[0] == parts@[0]@ && c[1] == parts@[1]@ && c[2] == parts@[2]@);
    match (parse_component(&parts[0]), parse_component(&parts[1]), parse_component(&parts[2])) {
        (Some(major), Some(minor), Some(patch)) => Some(Version { major, minor, patch }),
        _ => None,
    }
}

/// Is `remote` a later release than `local`? A text that names no release is
/// never one.
pub fn is_newer(remote: &str, local: &str) -> (r: bool)
    ensures
        r == newer(remote@, local@),
{
    match (release_version(remote), release_version(local)) {
        (Some(a), Some(b)) => a.major > b.major || (a.major == b.major && (a.minor > b.minor || (
        a.minor == b.minor && a.patch > b.patch))),
        _ => false,
    }
}

/// The one address from which the artifact of a release is taken.
pub open spec fn artifact_url(edition: Edition, platform: Seq<char>, version: Seq<char>) -> Option<
    Seq<char>,
> {
    if platform == "windows"@ {
        Some(
            match edition {
                Edition::Community =>
                    "https://github.com/wudaming00/vocalcode-community/releases/download/v"@
                    + version + "/VocalCodeCommunitySetup.exe"@,
                Edition::Commercial => "https://vocalcode.app/VocalCodeSetup.exe"@,
            },
        )
    } else if platform == "macos"@ {
        Some(
            match edition {
                Edition::Community =>
                    "https://github.com/wudaming00/vocalcode-community/releases/download/v"@
                    + version + "/VocalCodeCommunity-"@ + version + ".dmg"@,
                Edition::Commercial => "https://vocalcode.app/VocalCode-"@ + version + ".dmg"@,
            },
        )
    } else {
        None
    }
}

/// May the artifact at that address be installed? Only the one address that
/// belongs to the edition, the platform and the release.
pub fn approved_update_url(edition: Edition, platform: &str, version: &str, url: &str) -> (r: bool)
    ensures
        r == (version_of(version@) is Some && artifact_url(edition, platform@, version@) == Some(
            url@,
        )),
{
    if release_version(version).is_none() {
        return false;
    }
    if same(platform, "windows") {
        match edition {
            Edition::Community => {
                let expected =
                    "https://github.com/wudaming00/vocalcode-community/releases/download/v".to_owned(
                ).concat(version).concat("/VocalCodeCommunitySetup.exe");
                same(url, &expected)
            },
            Edition::Commercial => same(url, "https://vocalcode.app/VocalCodeSetup.exe"),
        }
    } else if same(platform, "macos") {
        match edition {
            Edition::Community => {
                let expected =
                    "https://github.com/wudaming00/vocalcode-community/releases/download/v".to_owned(
                ).concat(version).concat("/VocalCodeCommunity-").concat(version).concat(".dmg");
                same(url, &expected)
            },
            Edition::Commercial => {
                let expected = "https://vocalcode.app/VocalCode-".to_owned().concat(
                    version,
                ).concat(".dmg");
                same(url, &expected)
            },
        }
    } else {
        false
    }
}

/// The release is within what the licence covers.
pub open spec fn entitled(edition: Edition, status: LicenseStatus, version: Seq<char>) -> bool {
    match version_of(version) {
        None => false,
        Some(v) => edition == Edition::Community || match status {
            LicenseStatus::Licensed { max_version } => (if v.major == 0 {
                1
            } else {
                v.major as int
            }) <= max_version,
            LicenseStatus::Trial { days_left } => true,
            _ => false,
        },
    }
}

/// Is the release within what the licence covers?
pub fn update_entitled(edition: Edition, status: &LicenseStatus, version: &str) -> (r: bool)
    ensures
        r == entitled(edition, *status, version@),
{
    match release_version(version) {
        None => false,
        Some(v) => {
            if edition == Edition::Community {
                return true;
            }
            let generation: u64 = if v.major == 0 {
                1
            } else {
                v.major
            };
            match status {
                LicenseStatus::Licensed { max_version } => generation <= *max_version as u64,
                LicenseStatus::Trial { .. } => true,
                _ => false,
            }
        },
    }
}

/// A release that is offered. Its bytes are bound to a digest and a size.
#[derive(Debug, PartialEq, Eq)]
pub struct UpdateOffer {
    pub version: String,
    pub url: String,
    pub notes: String,
    pub sha256: String,
    pub size: u64,
}

/// What an offer says.
pub struct OfferView {
    pub version: Seq<char>,
    pub url: Seq<char>,
    pub notes: Seq<char>,
    pub sha256: Seq<char>,
    pub size: u64,
}

impl View for UpdateOffer {
    type V = OfferView;

    open spec fn view(&self) -> OfferView {
        OfferView {
            version: self.version@,
            url: self.url@,
            notes: self.notes@,
            sha256: self.sha256@,
            size: self.size,
        }
    }
}

/// What an optional offer says.
pub open spec fn optional_offer(o: Option<UpdateOffer>) -> Option<OfferView> {
    match o {
        Some(o) => Some(o@),
        None => None,
    }
}

/// Is that a size that an artifact may have?
pub fn valid_update_size(size: u64) -> (r: bool)
    ensures
        r == (1 <= size <= MAX_UPDATE_BYTES),
{
    1 <= size && size <= MAX_UPDATE_BYTES
}

/// Is that a digest in its canonical form?
pub fn valid_update_sha256(digest: &str) -> (r: bool)
    ensures
        r == digest_form(digest@),
{
    is_digest_form(digest)
}

/// The members of a manifest that describe the artifact of one platform.
#[derive(Debug)]
pub struct ManifestFields {
    /// The platform's own member.
    pub platform: Option<JsonField>,
    pub version: Option<JsonField>,
    pub url: Option<JsonField>,
    pub sha256: Option<JsonField>,
    pub size: Option<JsonField>,
    pub notes: Option<JsonField>,
    /// The notes outside of the platform's member.
    pub shared_notes: Option<JsonField>,
}

/// What the members of a manifest say.
pub struct ManifestView {
    pub platform: Option<FieldView>,
    pub version: Option<FieldView>,
    pub url: Option<FieldView>,
    pub sha256: Option<FieldView>,
    pub size: Option<FieldView>,
    pub notes: Option<FieldView>,
    pub shared_notes: Option<FieldView>,
}

impl View for ManifestFields {
    type V = ManifestView;

    open spec fn view(&self) -> ManifestView {
        ManifestView {
            platform: optional_field(self.platform),
            version: optional_field(self.version),
            url: optional_field(self.url),
            sha256: optional_field(self.sha256),
            size: optional_field(self.size),
            notes: optional_field(self.notes),
            shared_notes: optional_field(self.shared_notes),
        }
    }
}

/// The members that a manifest has for a platform: those of the platform's own
/// member where there is one, else those of the document.
pub open spec fn manifest_members(manifest: Seq<char>, platform: Seq<char>) -> ManifestView {
    let own = json_member(manifest, None, platform);
    let outer = if own is Some {
        Some(platform)
    } else {
        None
    };
    ManifestView {
        platform: own,
        version: json_member(manifest, outer, "version"@),
        url: json_member(manifest, outer, "url"@),
        sha256: json_member(manifest, outer, "sha256"@),
        size: json_member(manifest, outer, "size"@),
        notes: json_member(manifest, outer, "notes"@),
        shared_notes: json_member(manifest, None, "notes"@),
    }
}

/// The offer that the members make: complete, of a size that is allowed and
/// with a digest in its canonical form.
pub open spec fn offer_of(m: ManifestView) -> Option<OfferView> {
    let size = unsigned_of_field(m.size);
    let sha256 = text_of_field(m.sha256);
    let version = text_of_field(m.version);
    let url = text_of_field(m.url);
    let notes = text_of_field(
        if m.notes is Some {
            m.notes
        } else if m.platform is Some {
            m.shared_notes
        } else {
            None
        },
    );
    if (m.platform is None || m.platform->0 is Object) && size is Some && 1 <= size->0
        <= MAX_UPDATE_BYTES && sha256 is Some && digest_form(sha256->0) && version is Some
        && url is Some {
        Some(
            OfferView {
                version: version->0,
                url: url->0,
                notes: match notes {
                    Some(n) => n,
                    None => Seq::empty(),
                },
                sha256: sha256->0,
                size: size->0,
            },
        )
    } else {
        None
    }
}

/// A platform's own member is one description: no part of it is taken from the
/// rest of the document but the notes.
pub proof fn platform_offers_borrow_nothing(m: ManifestView)
    requires
        m.platform is Some,
        m.version is None || m.url is None || m.sha256 is None || m.size is None,
    ensures
        offer_of(m) is None,
{
}

/// The offer that the members of a manifest make.
pub fn offer_from_fields(m: &ManifestFields) -> (r: Option<UpdateOffer>)
    ensures
        optional_offer(r) == offer_of(m@),
{
    match &m.platform {
        None => {},
        Some(JsonField::Object) => {},
        Some(_) => {
            return None;
        },
    }
    let size: u64 = match field_unsigned(&m.size) {
        Some(size) => size,
        None => {
            return None;
        },
    };
    if !valid_update_size(size) {
        return None;
    }
    match (field_text(&m.sha256), field_text(&m.version), field_text(&m.url)) {
        (Some(sha256), Some(version), Some(url)) => {
            if !valid_update_sha256(sha256) {
                return None;
            }
            let notes = if m.notes.is_some() {
                field_text(&m.notes)
            } else if m.platform.is_some() {
                field_text(&m.shared_notes)
            } else {
                None
            };
            let notes = match notes {
                Some(text) => text.to_owned(),
                None => String::new(),
            };
            Some(
                UpdateOffer {
                    version: version.to_owned(),
                    url: url.to_owned(),
                    notes,
                    sha256: sha256.to_owned(),
                    size,
                },
            )
        },
        _ => None,
    }
}

/// The offer that a manifest makes for a platform.
pub fn update_offer_from_manifest(manifest: &str, platform: &str) -> (r: Option<UpdateOffer>)
    ensures
        optional_offer(r) == offer_of(manifest_members(manifest@, platform@)),
{
    let own = read_json_member(manifest, None, platform);
    let outer = if own.is_some() {
        Some(platform)
    } else {
        None
    };
    let fields = ManifestFields {
        version: read_json_member(manifest, outer, "version"),
        url: read_json_member(manifest, outer, "url"),
        sha256: read_json_member(manifest, outer, "sha256"),
        size: read_json_member(manifest, outer, "size"),
        notes: read_json_member(manifest, outer, "notes"),
        shared_notes: read_json_member(manifest, None, "notes"),
        platform: own,
    };
    offer_from_fields(&fields)
}

/// What a check for updates found.
#[derive(Debug, Clone, Copy, PartialEq, Eq, Structural)]
pub enum UpdateOutcome {
    Failed,
    /// There is a newer release that the licence does not cover.
    Upgrade,
    Newer,
    Current,
}

impl UpdateOutcome {
    /// The key of the outcome.
    pub open spec fn key(self) -> Seq<char> {
        match self {
            UpdateOutcome::Failed => "failed"@,
            UpdateOutcome::Upgrade => "upgrade"@,
            UpdateOutcome::Newer => "newer"@,
            UpdateOutcome::Current => "current"@,
        }
    }

    /// The key by which the window translates the outcome.
    pub fn kind(self) -> (r: &'static str)
        ensures
            r@ == self.key(),
    {
        match self {
            UpdateOutcome::Failed => "failed",
            UpdateOutcome::Upgrade => "upgrade",
            UpdateOutcome::Newer => "newer",
            UpdateOutcome::Current => "current",
        }
    }
}

/// The manifest belongs to the community channel.
pub open spec fn community_channel(schema: Option<FieldView>, channel: Option<FieldView>) -> bool {
    text_of_field(schema) == Some("vocalcode-community-update-v1"@) && text_of_field(channel)
        == Some("community-stable"@)
}

/// What a check finds, given the offer of the manifest and whether the manifest
/// is of the right channel.
pub open spec fn outcome_of(
    edition: Edition,
    right_channel: bool,
    platform: Seq<char>,
    current: Seq<char>,
    offer: Option<OfferView>,
    status: LicenseStatus,
) -> UpdateOutcome {
    if edition == Edition::Community && !right_channel {
        UpdateOutcome::Failed
    } else {
        match offer {
            None => UpdateOutcome::Failed,
            Some(o) => if !newer(o.version, current) {
                UpdateOutcome::Current
            } else if artifact_url(edition, platform, o.version) != Some(o.url) {
                UpdateOutcome::Failed
            } else if !entitled(edition, status, o.version) {
                UpdateOutcome::Upgrade
            } else {
                UpdateOutcome::Newer
            },
        }
    }
}

/// What a check finds, given the offer of the manifest.
pub fn decide_update(
    edition: Edition,
    right_channel: bool,
    platform: &str,
    current: &str,
    offer: &Option<UpdateOffer>,
    status: &LicenseStatus,
) -> (r: UpdateOutcome)
    ensures
        r == outcome_of(
            edition,
            right_channel,
            platform@,
            current@,
            optional_offer(*offer),
            *status,
        ),
{
    if edition == Edition::Community && !right_channel {
        return UpdateOutcome::Failed;
    }
    match offer {
        None => UpdateOutcome::Failed,
        Some(o) => {
            if !is_newer(&o.version, current) {
                UpdateOutcome::Current
            } else if !approved_update_url(edition, platform, &o.version, &o.url) {
                UpdateOutcome::Failed
            } else if !update_entitled(edition, status, &o.version) {
                UpdateOutcome::Upgrade
            } else {
                UpdateOutcome::Newer
            }
        },
    }
}

/// What a check finds in a manifest, and the release that it offers: only one
/// that is newer, at its one address and covered by the licence.
pub fn check_manifest(
    edition: Edition,
    platform: &str,
    current: &str,
    manifest: &str,
    status: &LicenseStatus,
) -> (r: (UpdateOutcome, Option<UpdateOffer>))
    ensures
        ({
            let offer = offer_of(manifest_members(manifest@, platform@));
            let channel = community_channel(
                json_member(manifest@, None, "schema"@),
                json_member(manifest@, None, "channel"@),
            );
            &&& r.0 == outcome_of(edition, channel, platform@, current@, offer, *status)
            &&& optional_offer(r.1) == (if r.0 == UpdateOutcome::Newer {
                offer
            } else {
                None
            })
        }),
        (r.0, optional_offer(r.1)) == checked(edition, platform@, current@, manifest@, *status),
{
    let schema = read_json_member(manifest, None, "schema");
    let channel = read_json_member(manifest, None, "channel");
    let right = field_is(&schema, "vocalcode-community-update-v1") && field_is(
        &channel,
        "community-stable",
    );
    let offer = update_offer_from_manifest(manifest, platform);
    let outcome = decide_update(edition, right, platform, current, &offer, status);
    if outcome == UpdateOutcome::Newer {
        (outcome, offer)
    } else {
        (outcome, None)
    }
}

/// What a check of the manifest finds, and what it offers.
pub open spec fn checked(
    edition: Edition,
    platform: Seq<char>,
    current: Seq<char>,
    manifest: Seq<char>,
    status: LicenseStatus,
) -> (UpdateOutcome, Option<OfferView>) {
    let offer = offer_of(manifest_members(manifest, platform));
    let channel = community_channel(
        json_member(manifest, None, "schema"@),
        json_member(manifest, None, "channel"@),
    );
    let outcome = outcome_of(edition, channel, platform, current, offer, status);
    (
        outcome,
        if outcome == UpdateOutcome::Newer {
            offer
        } else {
            None
        },
    )
}

/// The manifest has that text under that key.
pub open spec fn says(
    manifest: Seq<char>,
    outer: Option<Seq<char>>,
    key: Seq<char>,
    text: Seq<char>,
) -> bool {
    json_member(manifest, outer, key) == Some(FieldView::Text(text))
}

/// The manifest describes that artifact for the platform, completely: in the
/// platform's own member where it has one, else in the document itself.
pub open spec fn describes(manifest: Seq<char>, platform: Seq<char>, o: OfferView) -> bool {
    let own = json_member(manifest, None, platform);
    let outer = if own is Some {
        Some(platform)
    } else {
        None
    };
    &&& own is Some ==> own == Some(FieldView::Object)
    &&& says(manifest, outer, "version"@, o.version)
    &&& says(manifest, outer, "url"@, o.url)
    &&& says(manifest, outer, "sha256"@, o.sha256)
    &&& json_member(manifest, outer, "size"@) == Some(FieldView::Unsigned(o.size))
    &&& 1 <= o.size <= 512 * 1024 * 1024
    &&& o.sha256.len() == 64
    &&& forall|i: int|
        0 <= i < 64 ==> '0' <= #[trigger] o.sha256[i] <= '9' || 'a' <= o.sha256[i] <= 'f'
}

/// What the manifest says of an artifact is what is read of it, and nothing is read
/// of a manifest that does not describe one.
pub proof fn complete_descriptions_are_offers(
    manifest: Seq<char>,
    platform: Seq<char>,
    o: OfferView,
)
    ensures
        describes(manifest, platform, o) ==> ({
            let read = offer_of(manifest_members(manifest, platform));
            &&& read is Some
            &&& read->0.version == o.version
            &&& read->0.url == o.url
            &&& read->0.sha256 == o.sha256
            &&& read->0.size == o.size
        }),
        offer_of(manifest_members(manifest, platform)) == Some(o) ==> describes(
            manifest,
            platform,
            o,
        ),
{
    let read = offer_of(manifest_members(manifest, platform));
    if read == Some(o) {
        assert(digest_form(o.sha256));
    }
    if describes(manifest, platform, o) {
        assert(digest_form(o.sha256));
    }
}

/// The community edition takes updates from its own channel alone: a manifest of
/// another schema or channel fails, whatever it offers.
pub proof fn the_community_edition_keeps_to_its_channel(
    platform: Seq<char>,
    current: Seq<char>,
    manifest: Seq<char>,
    status: LicenseStatus,
)
    requires
        !(says(manifest, None, "schema"@, "vocalcode-community-update-v1"@) && says(
            manifest,
            None,
            "channel"@,
            "community-stable"@,
        )),
    ensures
        checked(Edition::Community, platform, current, manifest, status) == (
            UpdateOutcome::Failed,
            None::<OfferView>,
        ),
{
}

/// The community edition is offered every newer release that its channel describes at
/// the approved address, whatever the licence: with the version, the address, the
/// digest and the size that the manifest gives.
pub proof fn the_community_edition_is_offered_its_releases(
    platform: Seq<char>,
    current: Seq<char>,
    manifest: Seq<char>,
    status: LicenseStatus,
    o: OfferView,
)
    requires
        says(manifest, None, "schema"@, "vocalcode-community-update-v1"@),
        says(manifest, None, "channel"@, "community-stable"@),
        describes(manifest, platform, o),
        newer(o.version, current),
        artifact_url(Edition::Community, platform, o.version) == Some(o.url),
    ensures
        ({
            let (outcome, offer) = checked(
                Edition::Community,
                platform,
                current,
                manifest,
                status,
            );
            &&& outcome == UpdateOutcome::Newer
            &&& offer is Some
            &&& offer->0.version == o.version
            &&& offer->0.url == o.url
            &&& offer->0.sha256 == o.sha256
            &&& offer->0.size == o.size
        }),
{
    complete_descriptions_are_offers(manifest, platform, o);
}

/// The generation of a release: its major number, and the first one for all before it.
pub open spec fn generation_of(v: Version) -> int {
    if v.major == 0 {
        1
    } else {
        v.major as int
    }
}

/// The commercial edition is offered a newer release at the approved address where a
/// licence reaches its generation or a trial runs; without either it is told of an
/// upgrade and offered nothing. Schema and channel of the manifest do not matter.
pub proof fn the_commercial_edition_is_offered_what_the_licence_covers(
    platform: Seq<char>,
    current: Seq<char>,
    manifest: Seq<char>,
    status: LicenseStatus,
    o: OfferView,
)
    requires
        describes(manifest, platform, o),
        newer(o.version, current),
        artifact_url(Edition::Commercial, platform, o.version) == Some(o.url),
    ensures
        ({
            let (outcome, offer) = checked(
                Edition::Commercial,
                platform,
                current,
                manifest,
                status,
            );
            let covered = match status {
                LicenseStatus::Licensed { max_version } => generation_of(version_of(o.version)->0)
                    <= max_version,
                LicenseStatus::Trial { days_left: _ } => true,
                LicenseStatus::TrialSetupRequired => false,
                LicenseStatus::Expired => false,
                LicenseStatus::Invalid(_) => false,
            };
            &&& outcome == (if covered {
                UpdateOutcome::Newer
            } else {
                UpdateOutcome::Upgrade
            })
            &&& offer is Some == covered
            &&& covered ==> offer->0.version == o.version && offer->0.url == o.url
                && offer->0.sha256 == o.sha256 && offer->0.size == o.size
        }),
{
    complete_descriptions_are_offers(manifest, platform, o);
}

/// What is offered can be relied on: the manifest describes it completely, it is a
/// later release than the one that runs, and it lies at the one address of its
/// edition, platform and release. Nothing is offered with any other outcome.
pub proof fn only_complete_newer_approved_releases_are_offered(
    edition: Edition,
    platform: Seq<char>,
    current: Seq<char>,
    manifest: Seq<char>,
    status: LicenseStatus,
)
    ensures
        ({
            let (outcome, offer) = checked(edition, platform, current, manifest, status);
            &&& offer is Some <==> outcome == UpdateOutcome::Newer
            &&& offer is Some ==> {
                &&& describes(manifest, platform, offer->0)
                &&& newer(offer->0.version, current)
                &&& artifact_url(edition, platform, offer->0.version) == Some(offer->0.url)
            }
        }),
{
    if let Some(o) = offer_of(manifest_members(manifest, platform)) {
        complete_descriptions_are_offers(manifest, platform, o);
    }
}

/// Once the offered release runs, the same manifest offers nothing any more: the
/// program is up to date.
pub proof fn an_installed_update_is_current(
    edition: Edition,
    platform: Seq<char>,
    current: Seq<char>,
    manifest: Seq<char>,
    status: LicenseStatus,
)
    requires
        checked(edition, platform, current, manifest, status).1 is Some,
    ensures
        checked(
            edition,
            platform,
            checked(edition, platform, current, manifest, status).1->0.version,
            manifest,
            status,
        ) == (UpdateOutcome::Current, None::<OfferView>),
{
}

/// A described release that is not newer is no failure: the program is up to date.
pub proof fn a_release_that_is_not_newer_leaves_the_program_current(
    edition: Edition,
    platform: Seq<char>,
    current: Seq<char>,
    manifest: Seq<char>,
    status: LicenseStatus,
    o: OfferView,
)
    requires
        describes(manifest, platform, o),
        !newer(o.version, current),
        edition == Edition::Community ==> says(
            manifest,
            None,
            "schema"@,
            "vocalcode-community-update-v1"@,
        ) && says(manifest, None, "channel"@, "community-stable"@),
    ensures
        checked(edition, platform, current, manifest, status) == (
            UpdateOutcome::Current,
            None::<OfferView>,
        ),
{
    complete_descriptions_are_offers(manifest, platform, o);
}

/// A check fails where the manifest describes no artifact for the platform, and where
/// a newer one lies at any other address than the approved one.
pub proof fn incomplete_and_misplaced_releases_fail(
    edition: Edition,
    platform: Seq<char>,
    current: Seq<char>,
    manifest: Seq<char>,
    status: LicenseStatus,
)
    requires
        forall|o: OfferView| #[trigger]
            describes(manifest, platform, o) ==> newer(o.version, current) && artifact_url(
                edition,
                platform,
                o.version,
            ) != Some(o.url),
    ensures
        checked(edition, platform, current, manifest, status) == (
            UpdateOutcome::Failed,
            None::<OfferView>,
        ),
{
    if let Some(o) = offer_of(manifest_members(manifest, platform)) {
        complete_descriptions_are_offers(manifest, platform, o);
    }
}

/// What the window knows of updates.
#[derive(Debug)]
pub struct UpdateState {
    generation: u64,
    offer: Option<UpdateOffer>,
    check: Option<String>,
}

/// What the window knows of updates.
pub struct UpdateStateView {
    /// The number of the last check that was begun.
    pub generation: u64,
    pub offer: Option<OfferView>,
    /// The outcome of the last check.
    pub check: Option<Seq<char>>,
}

impl View for UpdateState {
    type V = UpdateStateView;

    closed spec fn view(&self) -> UpdateStateView {
        UpdateStateView {
            generation: self.generation,
            offer: optional_offer(self.offer),
            check: crate::reminder::optional_text(self.check),
        }
    }
}

/// The state after a check ended: the outcome of any but the last one that was
/// begun, and any outcome after the application was told to end, is dropped.
pub open spec fn finished(
    v: UpdateStateView,
    shutdown: bool,
    generation: u64,
    kind: Seq<char>,
    offer: Option<OfferView>,
) -> UpdateStateView {
    if shutdown || v.generation != generation {
        v
    } else {
        UpdateStateView { offer, check: Some(kind), ..v }
    }
}

impl UpdateState {
    /// No check was begun.
    pub fn new() -> (r: Self)
        ensures
            r@ == (UpdateStateView { generation: 0, offer: None, check: None }),
    {
        UpdateState { generation: 0, offer: None, check: None }
    }

    /// The release that is offered.
    pub fn offer(&self) -> (r: Option<&UpdateOffer>)
        ensures
            r is Some == self@.offer is Some,
            r is Some ==> self@.offer == Some(r->0@),
    {
        self.offer.as_ref()
    }

    /// The outcome of the last check.
    pub fn last_check(&self) -> (r: Option<&str>)
        ensures
            r is Some == self@.check is Some,
            r is Some ==> self@.check == Some(r->0@),
    {
        match &self.check {
            Some(kind) => Some(kind.as_str()),
            None => None,
        }
    }

    /// Begins a check: what was offered before is withdrawn.
    pub fn begin_update_check(&mut self) -> (r: u64)
        requires
            old(self)@.generation < u64::MAX,
        ensures
            r == old(self)@.generation + 1,
            final(self)@ == (UpdateStateView { generation: r, offer: None, ..old(self)@ }),
    {
        self.generation = self.generation + 1;
        self.offer = None;
        self.generation
    }

    /// Ends a check.
    pub fn finish_update_check(
        &mut self,
        shutdown: bool,
        generation: u64,
        kind: &str,
        offer: Option<UpdateOffer>,
    )
        ensures
            final(self)@ == finished(
                old(self)@,
                shutdown,
                generation,
                kind@,
                optional_offer(offer),
            ),
    {
        if shutdown || self.generation != generation {
            return;
        }
        self.offer = offer;
        self.check = Some(kind.to_owned());
    }
}

/// A check that is overtaken by another one changes nothing when it ends, and
/// nothing is published once the application was told to end.
pub proof fn stale_checks_change_nothing(
    v: UpdateStateView,
    shutdown: bool,
    generation: u64,
    kind: Seq<char>,
    offer: Option<OfferView>,
)
    requires
        shutdown || generation < v.generation,
    ensures
        finished(v, shutdown, generation, kind, offer) == v,
{
}

proof fn components_at(s: Seq<char>, k: int)
    requires
        0 <= k < s.len(),
        s[k] == '.',
        forall|i: int| 0 <= i < k ==> #[trigger] s[i] != '.',
    ensures
        components(s) == seq![s.take(k)] + components(s.skip(k + 1)),
{
    let stop = |c: char| c == '.';
    crate::seqs::first_where_is_first(s, stop, 0);
    let j = first_where(s, stop, 0);
    if j < k {
        assert(stop(s[j]));
    }
    if j > k {
        assert(!stop(s[k]));
    }
}

proof fn one_component(s: Seq<char>)
    requires
        forall|i: int| 0 <= i < s.len() ==> #[trigger] s[i] != '.',
    ensures
        components(s) == seq![s],
{
    let stop = |c: char| c == '.';
    crate::seqs::first_where_is_first(s, stop, 0);
    let j = first_where(s, stop, 0);
    if j < s.len() {
        assert(stop(s[j]));
    }
}

/// The words of a release with these numbers.
pub open spec fn release(v: Version) -> Seq<char> {
    decimal(v.major as nat) + "."@ + decimal(v.minor as nat) + "."@ + decimal(v.patch as nat)
}

/// Every release that is written in three numbers is read as these numbers.
pub proof fn releases_read_back(v: Version)
    ensures
        version_of(release(v)) == Some(v),
{
    broadcast use vstd::utf8::is_ascii_chars_encode_utf8;

    let a = decimal(v.major as nat);
    let b = decimal(v.minor as nat);
    let c = decimal(v.patch as nat);
    let s = release(v);
    reveal_strlit(".");
    crate::text::numbers_read_back(v.major as nat);
    crate::text::numbers_read_back(v.minor as nat);
    crate::text::numbers_read_back(v.patch as nat);
    crate::text::words_have_at_most_twenty_digits(v.major);
    crate::text::words_have_at_most_twenty_digits(v.minor);
    crate::text::words_have_at_most_twenty_digits(v.patch);
    let k = a.len() as int;
    let m = b.len() as int;
    assert(s.len() == k + m + c.len() + 2);
    assert forall|i: int| 0 <= i < k implies '0' <= #[trigger] s[i] <= '9' by {
        assert(s[i] == a[i]);
    }
    assert(s[k] == '.');
    components_at(s, k);
    assert(s.take(k) =~= a);
    let rest = s.skip(k + 1);
    assert(rest =~= b + "."@ + c);
    assert forall|i: int| 0 <= i < m implies '0' <= #[trigger] rest[i] <= '9' by {
        assert(rest[i] == b[i]);
    }
    assert(rest[m] == '.');
    components_at(rest, m);
    assert(rest.take(m) =~= b);
    assert(rest.skip(m + 1) =~= c);
    assert forall|i: int| 0 <= i < c.len() implies #[trigger] c[i] != '.' by {
        assert('0' <= c[i] <= '9');
    }
    one_component(c);
    let cs = components(s);
    assert(cs =~= seq![a, b, c]);
    assert(vstd::utf8::is_ascii_chars(s)) by {
        assert forall|i: int| 0 <= i < s.len() implies '\0' <= #[trigger] s[i] <= '\u{7f}' by {
            if k < i < k + 1 + m {
                assert(s[i] == b[i - k - 1]);
                assert('0' <= b[i - k - 1] <= '9');
            } else if i > k + 1 + m {
                assert(s[i] == c[i - k - m - 2]);
                assert('0' <= c[i - k - m - 2] <= '9');
            } else if i < k {
                assert(s[i] == a[i]);
            }
        }
    }
}

/// Releases are compared number by number, the first one that differs decides.
pub proof fn releases_are_compared_by_number(remote: Version, local: Version)
    ensures
        newer(release(remote), release(local)) <==> {
            ||| remote.major > local.major
            ||| remote.major == local.major && remote.minor > local.minor
            ||| remote.major == local.major && remote.minor == local.minor && remote.patch
                > local.patch
        },
{
    releases_read_back(remote);
    releases_read_back(local);
}

/// A text with fewer or more than three numbers is no release: neither one without a
/// stop or with one, nor a release with a further part.
pub proof fn releases_have_three_numbers(v: Version, n: nat)
    ensures
        version_of(decimal(n)) is None,
        version_of(release(v) + "."@ + decimal(n)) is None,
{
    crate::text::numbers_read_back(n);
    let s = decimal(n);
    assert forall|i: int| 0 <= i < s.len() implies #[trigger] s[i] != '.' by {
        assert('0' <= s[i] <= '9');
    }
    one_component(s);
    let a = decimal(v.major as nat);
    let b = decimal(v.minor as nat);
    let c = decimal(v.patch as nat);
    let t = release(v) + "."@ + s;
    reveal_strlit(".");
    crate::text::numbers_read_back(v.major as nat);
    crate::text::numbers_read_back(v.minor as nat);
    crate::text::numbers_read_back(v.patch as nat);
    let k = a.len() as int;
    let m = b.len() as int;
    let l = c.len() as int;
    assert forall|i: int| 0 <= i < k implies #[trigger] t[i] != '.' by {
        assert(t[i] == a[i]);
        assert('0' <= a[i] <= '9');
    }
    assert(t[k] == '.');
    components_at(t, k);
    let t1 = t.skip(k + 1);
    assert forall|i: int| 0 <= i < m implies #[trigger] t1[i] != '.' by {
        assert(t1[i] == b[i]);
        assert('0' <= b[i] <= '9');
    }
    assert(t1[m] == '.');
    components_at(t1, m);
    let t2 = t1.skip(m + 1);
    assert forall|i: int| 0 <= i < l implies #[trigger] t2[i] != '.' by {
        assert(t2[i] == c[i]);
        assert('0' <= c[i] <= '9');
    }
    assert(t2[l] == '.');
    components_at(t2, l);
    assert(t2.skip(l + 1) =~= s);
    assert(components(t).len() == 4);
}

/// The result of the last check that was begun is what is shown, unless the
/// application ends: its outcome, and its offer or none.
pub proof fn the_last_check_is_shown(
    v: UpdateStateView,
    kind: Seq<char>,
    offer: Option<OfferView>,
)
    ensures
        finished(v, false, v.generation, kind, offer).check == Some(kind),
        finished(v, false, v.generation, kind, offer).offer == offer,
        finished(v, false, v.generation, kind, offer).generation == v.generation,
{
}

/// An address approves one version of the community edition only, and one of the
/// commercial edition on macOS; the two editions share none, and other platforms have
/// none.
pub proof fn addresses_tell_the_version(platform: Seq<char>, a: Seq<char>, b: Seq<char>)
    ensures
        artifact_url(Edition::Community, platform, a) is Some && artifact_url(
            Edition::Community,
            platform,
            a,
        ) == artifact_url(Edition::Community, platform, b) ==> a == b,
        platform == "macos"@ && artifact_url(Edition::Commercial, platform, a) == artifact_url(
            Edition::Commercial,
            platform,
            b,
        ) ==> a == b,
        artifact_url(Edition::Community, platform, a) is Some ==> artifact_url(
            Edition::Community,
            platform,
            a,
        ) != artifact_url(Edition::Commercial, platform, b),
        artifact_url(Edition::Community, platform, a) is Some <==> platform == "windows"@
            || platform == "macos"@,
        artifact_url(Edition::Commercial, platform, a) is Some <==> platform == "windows"@
            || platform == "macos"@,
{
    reveal_strlit("windows");
    reveal_strlit("macos");
    assert("windows"@[0] == 'w' && "macos"@[0] == 'm');
    let site = "https://github.com/wudaming00/vocalcode-community/releases/download/v"@;
    let own = "https://vocalcode.app/VocalCode-"@;
    let fixed = "https://vocalcode.app/VocalCodeSetup.exe"@;
    reveal_strlit("https://github.com/wudaming00/vocalcode-community/releases/download/v");
    reveal_strlit("https://vocalcode.app/VocalCode-");
    reveal_strlit("https://vocalcode.app/VocalCodeSetup.exe");
    assert(site[8] == 'g' && own[8] == 'v' && fixed[8] == 'v');
    if platform == "windows"@ {
        let end = "/VocalCodeCommunitySetup.exe"@;
        let x = site + a + end;
        let y = site + b + end;
        if x == y {
            assert(x.len() == y.len());
            assert(x.subrange(site.len() as int, (site.len() + a.len()) as int) =~= a);
            assert(y.subrange(site.len() as int, (site.len() + b.len()) as int) =~= b);
        }
        assert(x[8] == site[8]);
    } else if platform == "macos"@ {
        let middle = "/VocalCodeCommunity-"@;
        let end = ".dmg"@;
        let x = site + a + middle + a + end;
        let y = site + b + middle + b + end;
        if x == y {
            assert(x.len() == y.len());
            assert(x.subrange(site.len() as int, (site.len() + a.len()) as int) =~= a);
            assert(y.subrange(site.len() as int, (site.len() + b.len()) as int) =~= b);
        }
        let v = own + a + end;
        let w = own + b + end;
        if v == w {
            assert(v.len() == w.len());
            assert(v.subrange(own.len() as int, (own.len() + a.len()) as int) =~= a);
            assert(w.subrange(own.len() as int, (own.len() + b.len()) as int) =~= b);
        }
        assert(x[8] == site[8] && w[8] == own[8]);
    }
}

/// The notes of an offer are its own where it has any; else those outside of the
/// platform's member, where there is such a member; else there are none. A note that is
/// no text is none.
pub proof fn offers_carry_their_notes(manifest: Seq<char>, platform: Seq<char>)
    ensures
        offer_of(manifest_members(manifest, platform)) matches Some(o) ==> {
            let apart = json_member(manifest, None, platform) is Some;
            let own = json_member(
                manifest,
                if apart {
                    Some(platform)
                } else {
                    None
                },
                "notes"@,
            );
            let shared = json_member(manifest, None, "notes"@);
            &&& forall|t: Seq<char>| own == Some(FieldView::Text(t)) ==> o.notes == t
            &&& forall|t: Seq<char>|
                apart && own is None && shared == Some(FieldView::Text(t)) ==> o.notes == t
            &&& own is None && (!apart || shared is None) ==> o.notes.len() == 0
            &&& own is Some && !(own->0 is Text) ==> o.notes.len() == 0
        },
{
}

} // verus!
