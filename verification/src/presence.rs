//! What a window shows of a meeting: the classification of foreground windows
//! and conference windows into reminder candidates, and the single-slot
//! mailbox of the observer.

use crate::digest::{sha256_hex, sha256_text};
use crate::reminder::{
    candidates_view, optional_candidate, CandidateView, MeetingCandidate, Strength,
};
use crate::text::{
    ascii_lowercase, chars_of, contains, control, decimal, decimal_text, ends, ends_with,
    is_control, lowercase, occurs, same, text_of, to_ascii_lowercase, trim, trimmed,
    unicode_lowercase,
};
use vstd::bytes::{spec_u32_to_le_bytes, u32_to_le_bytes};
use vstd::prelude::*;
use vstd::utf8::encode_utf8;

verus! {

/// How many characters of a window title enter its identity.
pub const TITLE_IDENTITY_CHARS: usize = 512;

/// How many characters an application's name keeps on a card.
pub const LABEL_CHARS: usize = 48;

/// An observation that took longer than this says nothing.
pub const OBSERVATION_LIMIT_MS: u64 = 3_000;

/// The application in the foreground.
#[derive(Debug)]
pub struct ForegroundApplication {
    pub process_id: u32,
    pub app_id: String,
    pub display_name: String,
    pub window_title: String,
}

/// What the foreground application says.
pub struct ForegroundView {
    pub process_id: u32,
    pub app_id: Seq<char>,
    pub display_name: Seq<char>,
    pub window_title: Seq<char>,
}

impl View for ForegroundApplication {
    type V = ForegroundView;

    open spec fn view(&self) -> ForegroundView {
        ForegroundView {
            process_id: self.process_id,
            app_id: self.app_id@,
            display_name: self.display_name@,
            window_title: self.window_title@,
        }
    }
}

/// The key and the name of a meeting service.
pub struct Service {
    pub key: Seq<char>,
    pub name: Seq<char>,
}

/// A conference that a window's address names.
#[derive(Debug)]
pub struct Conference {
    pub service_key: String,
    pub service_name: String,
    pub code: Option<String>,
}

/// Where a call stands, as far as the window shows it.
#[derive(Debug, Clone, Copy, PartialEq, Eq, Structural)]
pub enum CallState {
    Unknown,
    Lobby,
    InCall,
    Ended,
}

/// A window that may show a meeting.
#[derive(Debug)]
pub struct MeetingWindow {
    pub application: ForegroundApplication,
    /// Does the platform know the application as a browser?
    pub browser: bool,
    /// Zero where the platform gives no identity.
    pub window_id: u64,
    pub foreground: bool,
    pub microphone_active: bool,
    pub conference: Option<Conference>,
    pub call_state: CallState,
}

/// The application is a browser that is known.
pub open spec fn known_browser(app_id: Seq<char>) -> bool {
    ||| ends(app_id, "chrome.exe"@)
    ||| ends(app_id, "msedge.exe"@)
    ||| ends(app_id, "firefox.exe"@)
    ||| ends(app_id, "brave.exe"@)
    ||| ends(app_id, "vivaldi.exe"@)
    ||| ends(app_id, "arc.exe"@)
    ||| ends(app_id, "com.google.chrome"@)
    ||| ends(app_id, "com.microsoft.edgemac"@)
    ||| ends(app_id, "org.mozilla.firefox"@)
    ||| ends(app_id, "com.brave.browser"@)
    ||| ends(app_id, "company.thebrowser.browser"@)
}

/// The application is Zoom.
pub open spec fn zoom_app(app_id: Seq<char>) -> bool {
    app_id == "zoom.exe"@ || occurs(app_id, "zoom.us"@) || occurs(app_id, "zoom.xos"@)
}

/// The application is Microsoft Teams.
pub open spec fn teams_app(app_id: Seq<char>) -> bool {
    app_id == "teams.exe"@ || app_id == "ms-teams.exe"@ || occurs(app_id, "microsoft.teams"@)
}

/// The application is Slack.
pub open spec fn slack_app(app_id: Seq<char>) -> bool {
    app_id == "slack.exe"@ || occurs(app_id, "tinyspeck.slackmacgap"@)
}

/// The application is Webex.
pub open spec fn webex_app(app_id: Seq<char>) -> bool {
    occurs(app_id, "webex"@) || app_id == "ciscocollabhost.exe"@
}

/// A dash of any of the usual widths as a hyphen; every other character is
/// itself.
pub open spec fn plain_dash(c: char) -> char {
    if c == '\u{2013}' || c == '\u{2014}' {
        '-'
    } else {
        c
    }
}

/// A title in the form in which it is searched.
pub open spec fn folded(title: Seq<char>) -> Seq<char> {
    unicode_lowercase(title).map_values(|c: char| plain_dash(c))
}

/// The title speaks of a meeting or a call.
pub open spec fn names_meeting_or_call(t: Seq<char>) -> bool {
    occurs(t, "meeting"@) || occurs(t, "call"@) || occurs(t, "会议"@) || occurs(t, "通话"@)
}

/// The meeting service that a browser's title names.
pub open spec fn browser_service(t: Seq<char>) -> Option<Service> {
    if occurs(t, "meet.google.com"@) || occurs(t, "google meet"@) || occurs(t, "meet - "@) {
        Some(Service { key: "google-meet"@, name: "Google Meet"@ })
    } else if occurs(t, "zoom meeting"@) || occurs(t, "zoom webinar"@) || occurs(t, ".zoom.us"@) {
        Some(Service { key: "zoom"@, name: "Zoom"@ })
    } else if (occurs(t, "microsoft teams"@) || occurs(t, "teams meeting"@))
        && names_meeting_or_call(t) {
        Some(Service { key: "teams"@, name: "Microsoft Teams"@ })
    } else if occurs(t, "webex"@) && (names_meeting_or_call(t) || occurs(t, "webinar"@)) {
        Some(Service { key: "webex"@, name: "Webex"@ })
    } else {
        None
    }
}

/// The meeting service that an application's title names.
pub open spec fn desktop_service(app_id: Seq<char>, t: Seq<char>) -> Option<Service> {
    if zoom_app(app_id) && (occurs(t, "meeting"@) || occurs(t, "webinar"@) || occurs(t, "会议"@)
        || occurs(t, "研讨会"@)) {
        Some(Service { key: "zoom"@, name: "Zoom"@ })
    } else if teams_app(app_id) && names_meeting_or_call(t) {
        Some(Service { key: "teams"@, name: "Microsoft Teams"@ })
    } else if slack_app(app_id) && (occurs(t, "huddle"@) || occurs(t, "会议"@) || occurs(
        t,
        "通话"@,
    )) {
        Some(Service { key: "slack"@, name: "Slack Huddle"@ })
    } else if webex_app(app_id) && (names_meeting_or_call(t) || occurs(t, "webinar"@)) {
        Some(Service { key: "webex"@, name: "Webex"@ })
    } else {
        None
    }
}

/// At most the first `n` elements.
pub open spec fn at_most<T>(s: Seq<T>, n: nat) -> Seq<T> {
    if s.len() <= n {
        s
    } else {
        s.take(n as int)
    }
}

/// The identity of a window: a digest of the application, the service, the
/// title and the process.
pub open spec fn window_digest(app: ForegroundView, service: Seq<char>) -> Seq<char> {
    sha256_hex(
        encode_utf8(app.app_id) + seq![0u8] + encode_utf8(service) + seq![0u8] + encode_utf8(
            at_most(trimmed(app.window_title), TITLE_IDENTITY_CHARS as nat),
        ) + seq![0u8] + spec_u32_to_le_bytes(app.process_id),
    )
}

/// A name without control characters and not too long, or the fallback.
pub open spec fn label(value: Seq<char>, fallback: Seq<char>) -> Seq<char> {
    let l = at_most(value.filter(|c: char| !control(c)), LABEL_CHARS as nat);
    if trimmed(l).len() == 0 {
        fallback
    } else {
        l
    }
}

/// What the foreground window shows of a meeting.
pub open spec fn foreground_meeting(app: ForegroundView) -> Option<CandidateView> {
    let app_id = ascii_lowercase(trimmed(app.app_id));
    let title = trimmed(app.window_title);
    if app_id.len() == 0 || title.len() == 0 {
        None
    } else if known_browser(app_id) {
        match browser_service(folded(title)) {
            None => None,
            Some(s) => Some(
                CandidateView {
                    app_key: "browser:"@ + app_id + ":"@ + s.key,
                    instance_key: window_digest(app, s.key),
                    app_name: s.name + " ("@ + label(app.display_name, "Browser"@) + ")"@,
                    suggested_title: s.name + " meeting"@,
                    strength: Strength::Title,
                    foreground: true,
                    conference_key: None,
                },
            ),
        }
    } else {
        match desktop_service(app_id, folded(title)) {
            None => None,
            Some(s) => Some(
                CandidateView {
                    app_key: "app:"@ + app_id + ":"@ + s.key,
                    instance_key: window_digest(app, s.key),
                    app_name: s.name,
                    suggested_title: s.name + " meeting"@,
                    strength: Strength::Title,
                    foreground: true,
                    conference_key: None,
                },
            ),
        }
    }
}

/// The service that a key and a name stand for.
pub open spec fn found_service(s: Option<(&str, &str)>) -> Option<Service> {
    match s {
        Some(pair) => Some(Service { key: pair.0@, name: pair.1@ }),
        None => None,
    }
}

fn is_browser(app_id: &str) -> (r: bool)
    ensures
        r == known_browser(app_id@),
{
    ends_with(app_id, "chrome.exe") || ends_with(app_id, "msedge.exe") || ends_with(
        app_id,
        "firefox.exe",
    ) || ends_with(app_id, "brave.exe") || ends_with(app_id, "vivaldi.exe") || ends_with(
        app_id,
        "arc.exe",
    ) || ends_with(app_id, "com.google.chrome") || ends_with(app_id, "com.microsoft.edgemac")
        || ends_with(app_id, "org.mozilla.firefox") || ends_with(app_id, "com.brave.browser")
        || ends_with(app_id, "company.thebrowser.browser")
}

fn is_zoom(app_id: &str) -> (r: bool)
    ensures
        r == zoom_app(app_id@),
{
    same(app_id, "zoom.exe") || contains(app_id, "zoom.us") || contains(app_id, "zoom.xos")
}

fn is_teams(app_id: &str) -> (r: bool)
    ensures
        r == teams_app(app_id@),
{
    same(app_id, "teams.exe") || same(app_id, "ms-teams.exe") || contains(app_id, "microsoft.teams")
}

fn is_slack(app_id: &str) -> (r: bool)
    ensures
        r == slack_app(app_id@),
{
    same(app_id, "slack.exe") || contains(app_id, "tinyspeck.slackmacgap")
}

fn is_webex(app_id: &str) -> (r: bool)
    ensures
        r == webex_app(app_id@),
{
    contains(app_id, "webex") || same(app_id, "ciscocollabhost.exe")
}

fn meeting_or_call(t: &str) -> (r: bool)
    ensures
        r == names_meeting_or_call(t@),
{
    contains(t, "meeting") || contains(t, "call") || contains(t, "会议") || contains(t, "通话")
}

/// A title in the form in which it is searched.
fn fold(title: &str) -> (r: String)
    ensures
        r@ == folded(title@),
{
    let lower = lowercase(title);
    let chars = chars_of(&lower);
    let mut r: Vec<char> = Vec::new();
    let mut i: usize = 0;
    while i < chars.len()
        invariant
            i <= chars@.len(),
            r@ == chars@.take(i as int).map_values(|c: char| plain_dash(c)),
        decreases chars@.len() - i,
    {
        let c = chars[i];
        if c == '\u{2013}' || c == '\u{2014}' {
            r.push('-');
        } else {
            r.push(c);
        }
        i += 1;
        assert(r@ =~= chars@.take(i as int).map_values(|c: char| plain_dash(c)));
    }
    assert(chars@.take(chars@.len() as int) =~= chars@);
    text_of(&r)
}

fn service_of_browser(t: &str) -> (r: Option<(&'static str, &'static str)>)
    ensures
        found_service(r) == browser_service(t@),
{
    if contains(t, "meet.google.com") || contains(t, "google meet") || contains(t, "meet - ") {
        Some(("google-meet", "Google Meet"))
    } else if contains(t, "zoom meeting") || contains(t, "zoom webinar") || contains(
        t,
        ".zoom.us",
    ) {
        Some(("zoom", "Zoom"))
    } else if (contains(t, "microsoft teams") || contains(t, "teams meeting"))
        && meeting_or_call(t) {
        Some(("teams", "Microsoft Teams"))
    } else if contains(t, "webex") && (meeting_or_call(t) || contains(t, "webinar")) {
        Some(("webex", "Webex"))
    } else {
        None
    }
}

fn service_of_desktop(app_id: &str, t: &str) -> (r: Option<(&'static str, &'static str)>)
    ensures
        found_service(r) == desktop_service(app_id@, t@),
{
    if is_zoom(app_id) && (contains(t, "meeting") || contains(t, "webinar") || contains(t, "会议")
        || contains(t, "研讨会")) {
        Some(("zoom", "Zoom"))
    } else if is_teams(app_id) && meeting_or_call(t) {
        Some(("teams", "Microsoft Teams"))
    } else if is_slack(app_id) && (contains(t, "huddle") || contains(t, "会议") || contains(
        t,
        "通话",
    )) {
        Some(("slack", "Slack Huddle"))
    } else if is_webex(app_id) && (meeting_or_call(t) || contains(t, "webinar")) {
        Some(("webex", "Webex"))
    } else {
        None
    }
}

/// A name without control characters and not too long, or the fallback.
pub fn safe_label(value: &str, fallback: &str) -> (r: String)
    ensures
        r@ == label(value@, fallback@),
{
    let chars = chars_of(value);
    let ghost p = |c: char| !control(c);
    let mut kept: Vec<char> = Vec::new();
    let mut i: usize = 0;
    proof {
        crate::seqs::filter_ends(chars@, p);
    }
    while i < chars.len()
        invariant
            i <= chars@.len(),
            p == (|c: char| !control(c)),
            kept@ == chars@.take(i as int).filter(p),
        decreases chars@.len() - i,
    {
        proof {
            crate::seqs::filter_step(chars@, p, i as int);
        }
        if !is_control(chars[i]) {
            kept.push(chars[i]);
        }
        i += 1;
    }
    proof {
        crate::seqs::filter_ends(chars@, p);
    }
    let ghost whole = kept@;
    if kept.len() > LABEL_CHARS {
        kept.truncate(LABEL_CHARS);
        assert(kept@ =~= whole.take(LABEL_CHARS as int));
    }
    let label = text_of(&kept);
    if trim(&label).is_empty() {
        fallback.to_owned()
    } else {
        label
    }
}

/// The identity of a window.
fn instance_key(app: &ForegroundApplication, service: &str) -> (r: String)
    ensures
        r@ == window_digest(app@, service@),
{
    let mut chars = chars_of(trim(&app.window_title));
    if chars.len() > TITLE_IDENTITY_CHARS {
        let ghost whole = chars@;
        chars.truncate(TITLE_IDENTITY_CHARS);
        assert(chars@ =~= whole.take(TITLE_IDENTITY_CHARS as int));
    }
    let title = text_of(&chars);
    let mut bytes: Vec<u8> = app.app_id.as_str().as_bytes_vec();
    bytes.push(0);
    let mut part: Vec<u8> = service.as_bytes_vec();
    bytes.append(&mut part);
    bytes.push(0);
    let mut part: Vec<u8> = title.as_str().as_bytes_vec();
    bytes.append(&mut part);
    bytes.push(0);
    let mut part: Vec<u8> = u32_to_le_bytes(app.process_id);
    bytes.append(&mut part);
    assert(bytes@ =~= encode_utf8(app@.app_id) + seq![0u8] + encode_utf8(service@) + seq![0u8]
        + encode_utf8(at_most(trimmed(app@.window_title), TITLE_IDENTITY_CHARS as nat)) + seq![0u8]
        + spec_u32_to_le_bytes(app.process_id));
    sha256_text(&bytes)
}

/// Is there a meeting in the foreground window? A browser has to name a
/// service in its title; a meeting application has to name a meeting.
pub fn classify_foreground(observed: &ForegroundApplication) -> (r: Option<MeetingCandidate>)
    ensures
        optional_candidate(r) == foreground_meeting(observed@),
{
    let app_id = to_ascii_lowercase(trim(&observed.app_id));
    let title = trim(&observed.window_title);
    if app_id.as_str().is_empty() || title.is_empty() {
        return None;
    }
    let folded_title = fold(title);
    if is_browser(&app_id) {
        let (key, name) = match service_of_browser(&folded_title) {
            Some(service) => service,
            None => {
                return None;
            },
        };
        let display = safe_label(&observed.display_name, "Browser");
        Some(
            MeetingCandidate {
                app_key: "browser:".to_owned().concat(&app_id).concat(":").concat(key),
                instance_key: instance_key(observed, key),
                app_name: name.to_owned().concat(" (").concat(&display).concat(")"),
                suggested_title: name.to_owned().concat(" meeting"),
                strength: Strength::Title,
                foreground: true,
                conference_key: None,
            },
        )
    } else {
        let (key, name) = match service_of_desktop(&app_id, &folded_title) {
            Some(service) => service,
            None => {
                return None;
            },
        };
        Some(
            MeetingCandidate {
                app_key: "app:".to_owned().concat(&app_id).concat(":").concat(key),
                instance_key: instance_key(observed, key),
                app_name: name.to_owned(),
                suggested_title: name.to_owned().concat(" meeting"),
                strength: Strength::Title,
                foreground: true,
                conference_key: None,
            },
        )
    }
}


/// The identity of a conference: none without a code.
pub open spec fn conference_digest(c: Conference) -> Option<Seq<char>> {
    match c.code {
        None => None,
        Some(code) => Some(
            "conference:"@ + sha256_hex(encode_utf8(c.service_key@ + ":"@ + code@)),
        ),
    }
}

/// The ignore key of a conference in an application.
pub open spec fn conference_app_key(w: MeetingWindow, c: Conference) -> Seq<char> {
    (if w.browser {
        "browser"@
    } else {
        "app"@
    }) + ":"@ + w.application.app_id@ + ":"@ + c.service_key@
}

/// What the window shows before its conference is considered. A conference
/// without a title needs a call or an open microphone.
pub open spec fn first_look(w: MeetingWindow) -> Option<CandidateView> {
    match foreground_meeting(w.application@) {
        Some(c) => Some(c),
        None => match w.conference {
            None => None,
            Some(conference) => if w.call_state != CallState::InCall && !w.microphone_active {
                None
            } else {
                Some(
                    CandidateView {
                        app_key: conference_app_key(w, conference),
                        instance_key: ""@,
                        app_name: conference.service_name@,
                        suggested_title: conference.service_name@ + " meeting"@,
                        strength: Strength::Title,
                        foreground: w.foreground,
                        conference_key: None,
                    },
                )
            },
        },
    }
}

/// How sure the window is of a meeting.
pub open spec fn window_strength(w: MeetingWindow) -> Strength {
    if w.call_state == CallState::InCall {
        Strength::Confirmed
    } else if w.microphone_active && w.conference is Some {
        Strength::Audio
    } else {
        Strength::Title
    }
}

/// What a window shows of a meeting. A lobby or a call that has ended shows
/// none, and neither does a title alone in the background.
pub open spec fn window_meeting(w: MeetingWindow) -> Option<CandidateView> {
    if w.call_state == CallState::Lobby || w.call_state == CallState::Ended {
        None
    } else {
        match first_look(w) {
            None => None,
            Some(c) => {
                let named = match w.conference {
                    None => c,
                    Some(conference) => CandidateView {
                        app_key: conference_app_key(w, conference),
                        app_name: conference.service_name@,
                        suggested_title: conference.service_name@ + " meeting"@,
                        ..c
                    },
                };
                if !w.foreground && window_strength(w) == Strength::Title {
                    None
                } else {
                    Some(
                        CandidateView {
                            conference_key: match w.conference {
                                None => None,
                                Some(conference) => conference_digest(conference),
                            },
                            instance_key: if w.window_id == 0 {
                                named.instance_key
                            } else {
                                "window:"@ + decimal(w.application.process_id as nat) + ":"@
                                    + decimal(w.window_id as nat) + ":"@ + named.app_key
                            },
                            foreground: w.foreground,
                            strength: window_strength(w),
                            ..named
                        },
                    )
                }
            },
        }
    }
}

/// The meetings that the windows of one observation show, in their order. An
/// observation that took too long shows none.
pub open spec fn observation(windows: Seq<MeetingWindow>, elapsed_ms: u64) -> Seq<CandidateView> {
    if elapsed_ms <= OBSERVATION_LIMIT_MS {
        windows.filter_map(|w: MeetingWindow| window_meeting(w))
    } else {
        Seq::empty()
    }
}

/// The identity of a conference: none without a code.
pub fn conference_key(conference: &Conference) -> (r: Option<String>)
    ensures
        crate::reminder::optional_text(r) == conference_digest(*conference),
{
    match &conference.code {
        None => None,
        Some(code) => {
            let name = conference.service_key.clone().concat(":").concat(code);
            Some("conference:".to_owned().concat(&sha256_text(name.as_str().as_bytes())))
        },
    }
}

fn app_key_of(w: &MeetingWindow, c: &Conference) -> (r: String)
    ensures
        r@ == conference_app_key(*w, *c),
{
    let kind = if w.browser {
        "browser"
    } else {
        "app"
    };
    kind.to_owned().concat(":").concat(&w.application.app_id).concat(":").concat(&c.service_key)
}

/// What the window shows before its conference is considered.
fn look(window: &MeetingWindow) -> (r: Option<MeetingCandidate>)
    ensures
        optional_candidate(r) == first_look(*window),
{
    if let Some(c) = classify_foreground(&window.application) {
        return Some(c);
    }
    match &window.conference {
        None => None,
        Some(conference) => {
            if window.call_state != CallState::InCall && !window.microphone_active {
                None
            } else {
                Some(
                    MeetingCandidate {
                        app_key: app_key_of(window, conference),
                        instance_key: "".to_owned(),
                        app_name: conference.service_name.clone(),
                        suggested_title: conference.service_name.clone().concat(" meeting"),
                        strength: Strength::Title,
                        foreground: window.foreground,
                        conference_key: None,
                    },
                )
            }
        },
    }
}

/// Is there a meeting in the window, and how sure is that?
pub fn classify_window(window: &MeetingWindow) -> (r: Option<MeetingCandidate>)
    ensures
        optional_candidate(r) == window_meeting(*window),
{
    if window.call_state == CallState::Lobby || window.call_state == CallState::Ended {
        return None;
    }
    let mut candidate = match look(window) {
        Some(c) => c,
        None => {
            return None;
        },
    };
    if let Some(conference) = &window.conference {
        candidate.app_key = app_key_of(window, conference);
        candidate.app_name = conference.service_name.clone();
        candidate.suggested_title = conference.service_name.clone().concat(" meeting");
    }
    candidate.conference_key = match &window.conference {
        Some(conference) => conference_key(conference),
        None => None,
    };
    if window.window_id != 0 {
        candidate.instance_key =
        "window:".to_owned().concat(&decimal_text(window.application.process_id as u128)).concat(
            ":",
        ).concat(&decimal_text(window.window_id as u128)).concat(":").concat(&candidate.app_key);
    }
    candidate.foreground = window.foreground;
    candidate.strength = if window.call_state == CallState::InCall {
        Strength::Confirmed
    } else if window.microphone_active && window.conference.is_some() {
        Strength::Audio
    } else {
        Strength::Title
    };
    if !window.foreground && candidate.strength == Strength::Title {
        return None;
    }
    Some(candidate)
}

/// The meetings that the windows of one observation show.
pub fn classify_observation(windows: &[MeetingWindow], elapsed_ms: u64) -> (r: Vec<
    MeetingCandidate,
>)
    ensures
        candidates_view(r@) == observation(windows@, elapsed_ms),
{
    let mut r: Vec<MeetingCandidate> = Vec::new();
    assert(candidates_view(r@) =~= Seq::<CandidateView>::empty());
    if elapsed_ms > OBSERVATION_LIMIT_MS {
        return r;
    }
    let ghost f = |w: MeetingWindow| window_meeting(w);
    let mut i: usize = 0;
    assert(windows@.take(0).filter_map(f) =~= Seq::<CandidateView>::empty()) by {
        reveal(Seq::filter_map);
    }
    while i < windows.len()
        invariant
            i <= windows@.len(),
            f == (|w: MeetingWindow| window_meeting(w)),
            candidates_view(r@) == windows@.take(i as int).filter_map(f),
        decreases windows@.len() - i,
    {
        let ghost so_far = r@;
        if let Some(c) = classify_window(&windows[i]) {
            r.push(c);
            assert(candidates_view(r@) =~= candidates_view(so_far).push(c@));
        }
        proof {
            windows@.lemma_filter_map_take_succ(f, i as int);
            assert(candidates_view(r@) =~= windows@.take(i + 1).filter_map(f));
        }
        i += 1;
    }
    assert(windows@.take(windows@.len() as int) =~= windows@);
    r
}

/// The mailbox between the observer and the reminder: one request and one
/// answer at a time, so that an observer that hangs can neither pile up work
/// nor be asked twice.
pub struct Probe {
    busy: bool,
    requested: bool,
    open: bool,
    response: Option<(u64, Vec<MeetingCandidate>)>,
}

/// What the mailbox holds.
pub struct ProbeView {
    /// A request was accepted and not answered yet.
    pub busy: bool,
    /// The request slot is full.
    pub requested: bool,
    /// The observer is there to take requests.
    pub open: bool,
    /// The answer slot: when the observation began, and what it showed.
    pub response: Option<(u64, Seq<CandidateView>)>,
}

/// What an answer says.
pub open spec fn answer_view(r: Option<(u64, Vec<MeetingCandidate>)>) -> Option<
    (u64, Seq<CandidateView>),
> {
    match r {
        Some(a) => Some((a.0, candidates_view(a.1@))),
        None => None,
    }
}

impl View for Probe {
    type V = ProbeView;

    closed spec fn view(&self) -> ProbeView {
        ProbeView {
            busy: self.busy,
            requested: self.requested,
            open: self.open,
            response: answer_view(self.response),
        }
    }
}

impl Probe {
    /// An empty mailbox with its observer in place.
    pub fn new() -> (r: Self)
        ensures
            r@ == (ProbeView { busy: false, requested: false, open: true, response: None }),
    {
        Probe { busy: false, requested: false, open: true, response: None }
    }

    /// Asks for an observation, unless one is under way.
    pub fn request(&mut self)
        ensures
            final(self)@ == (if !old(self)@.busy && old(self)@.open && !old(self)@.requested {
                ProbeView { busy: true, requested: true, ..old(self)@ }
            } else {
                old(self)@
            }),
    {
        if !self.busy && self.open && !self.requested {
            self.requested = true;
            self.busy = true;
        }
    }

    /// Takes the answer out of its slot.
    pub fn result(&mut self) -> (r: Option<(u64, Vec<MeetingCandidate>)>)
        ensures
            answer_view(r) == old(self)@.response,
            final(self)@ == (ProbeView { response: None, ..old(self)@ }),
    {
        self.response.take()
    }

    /// The observer takes the request.
    pub fn take_request(&mut self) -> (r: bool)
        ensures
            r == old(self)@.requested,
            final(self)@ == (ProbeView { requested: false, ..old(self)@ }),
    {
        let r = self.requested;
        self.requested = false;
        r
    }

    /// The observer answers: the windows that it saw, when it began and how long
    /// it took. While the answer slot is full nothing is changed, and the
    /// observer has to wait.
    pub fn answer(&mut self, started_ms: u64, elapsed_ms: u64, windows: &[MeetingWindow]) -> (r:
        bool)
        ensures
            r == old(self)@.response is None,
            final(self)@ == (if r {
                ProbeView {
                    busy: false,
                    response: Some((started_ms, observation(windows@, elapsed_ms))),
                    ..old(self)@
                }
            } else {
                old(self)@
            }),
    {
        if self.response.is_some() {
            return false;
        }
        self.response = Some((started_ms, classify_observation(windows, elapsed_ms)));
        self.busy = false;
        true
    }

    /// The observer has gone; no request is accepted any more.
    pub fn close(&mut self)
        ensures
            final(self)@ == (ProbeView { open: false, ..old(self)@ }),
    {
        self.open = false;
    }
}

/// A title alone, seen in the background, is never a meeting; a lobby or a call
/// that has ended is never one either.
pub proof fn weak_windows_show_no_meeting(w: MeetingWindow)
    requires
        w.call_state == CallState::Lobby || w.call_state == CallState::Ended || (!w.foreground
            && w.call_state != CallState::InCall && !(w.microphone_active && w.conference is Some)),
    ensures
        window_meeting(w) is None,
{
}

/// Only a window that shows a running call counts as a confirmed meeting.
pub proof fn only_a_call_confirms(w: MeetingWindow)
    ensures
        window_meeting(w) matches Some(c) ==> (c.strength == Strength::Confirmed <==> w.call_state
            == CallState::InCall),
{
}

/// An observation shows the meeting of each window, in their order, and no other; one
/// that took longer than three seconds shows none.
pub proof fn observations_go_window_by_window(
    before: Seq<MeetingWindow>,
    w: MeetingWindow,
    after: Seq<MeetingWindow>,
    elapsed_ms: u64,
)
    ensures
        elapsed_ms <= 3_000 ==> observation(before + seq![w] + after, elapsed_ms) == observation(
            before,
            elapsed_ms,
        ) + (match window_meeting(w) {
            Some(c) => seq![c],
            None => Seq::empty(),
        }) + observation(after, elapsed_ms),
        elapsed_ms > 3_000 ==> observation(before, elapsed_ms).len() == 0,
{
    let f = |w: MeetingWindow| window_meeting(w);
    filter_map_of_parts(before + seq![w], after, f);
    filter_map_of_parts(before, seq![w], f);
    Seq::lemma_filter_map_singleton(w, f);
}

proof fn filter_map_of_parts(
    a: Seq<MeetingWindow>,
    b: Seq<MeetingWindow>,
    f: spec_fn(MeetingWindow) -> Option<CandidateView>,
)
    ensures
        (a + b).filter_map(f) == a.filter_map(f) + b.filter_map(f),
    decreases b.len(),
{
    if b.len() > 0 {
        filter_map_of_parts(a, b.drop_last(), f);
        assert((a + b).drop_last() =~= a + b.drop_last());
        assert((a + b).last() == b.last());
        assert((a + b).filter_map(f) =~= a.filter_map(f) + b.filter_map(f));
    } else {
        assert(a + b =~= a);
        assert(a.filter_map(f) + b.filter_map(f) =~= a.filter_map(f));
    }
}

/// A conference that is in a call is always seen as a confirmed one; one that is not
/// known to be, as heard where the microphone is in use. Both are seen in the
/// background too, from whatever application they come, under the name of their
/// service.
pub proof fn conferences_are_seen(w: MeetingWindow)
    requires
        w.conference is Some,
        w.call_state == CallState::InCall || (w.call_state == CallState::Unknown
            && w.microphone_active),
    ensures
        ({
            let seen = window_meeting(w);
            &&& seen is Some
            &&& seen->0.strength == (if w.call_state == CallState::InCall {
                Strength::Confirmed
            } else {
                Strength::Audio
            })
            &&& seen->0.foreground == w.foreground
            &&& seen->0.app_name == w.conference->0.service_name@
            &&& seen->0.conference_key is Some <==> w.conference->0.code is Some
        }),
{
}

/// A window that only its title tells of is seen where it is in front, and as a mere
/// title.
pub proof fn titles_are_seen_in_front(w: MeetingWindow)
    requires
        w.call_state == CallState::Unknown,
        !w.microphone_active,
    ensures
        window_meeting(w) is Some <==> w.foreground && foreground_meeting(w.application@) is Some,
        window_meeting(w) matches Some(c) ==> c.strength == Strength::Title && c.foreground,
{
}

/// A conference with a code is the same meeting from whatever window and application
/// it is seen, and however sure that is.
pub proof fn one_conference_is_one_meeting(a: MeetingWindow, b: MeetingWindow)
    requires
        a.conference is Some && b.conference is Some,
        a.conference->0.code is Some && b.conference->0.code is Some,
        a.conference->0.service_key@ == b.conference->0.service_key@,
        a.conference->0.code->0@ == b.conference->0.code->0@,
        window_meeting(a) is Some && window_meeting(b) is Some,
    ensures
        window_meeting(a)->0.key() == window_meeting(b)->0.key(),
{
}

/// Without a code, the window is what tells a meeting: the title that it shows and the
/// surety of the sign change nothing about it, as long as the platform names the
/// window.
pub proof fn one_window_is_one_meeting(a: MeetingWindow, b: MeetingWindow)
    requires
        a.window_id == b.window_id,
        a.window_id != 0,
        a.application.process_id == b.application.process_id,
        a.conference is Some && b.conference is Some,
        a.conference->0.code is None && b.conference->0.code is None,
        a.conference->0.service_key@ == b.conference->0.service_key@,
        a.application.app_id@ == b.application.app_id@,
        a.browser == b.browser,
        window_meeting(a) is Some && window_meeting(b) is Some,
    ensures
        window_meeting(a)->0.key() == window_meeting(b)->0.key(),
{
}

/// A title tells of a meeting only in a browser or in one of the known applications,
/// and only where neither it nor the application's name is empty. Such a meeting has
/// no conference and is a mere title.
pub proof fn titles_tell_of_known_applications(app: ForegroundView)
    ensures
        ({
            let app_id = ascii_lowercase(trimmed(app.app_id));
            foreground_meeting(app) matches Some(c) ==> {
                &&& known_browser(app_id) || zoom_app(app_id) || teams_app(app_id) || slack_app(
                    app_id,
                ) || webex_app(app_id)
                &&& app_id.len() > 0 && trimmed(app.window_title).len() > 0
                &&& c.strength == Strength::Title && c.foreground && c.conference_key is None
                &&& c.key() == c.instance_key
            }
        }),
{
}

/// A desktop application is taken for its own service alone, where the title speaks of
/// a meeting, and a browser for the service that the title names.
pub proof fn services_are_told_by_the_application(app_id: Seq<char>, t: Seq<char>)
    ensures
        desktop_service(app_id, t) matches Some(s) ==> {
            &&& s.key == "zoom"@ ==> zoom_app(app_id)
            &&& s.key == "teams"@ ==> teams_app(app_id)
            &&& s.key == "slack"@ ==> slack_app(app_id)
            &&& s.key == "webex"@ ==> webex_app(app_id)
        },
        occurs(t, "meeting"@) && (zoom_app(app_id) || teams_app(app_id) || webex_app(app_id))
            ==> desktop_service(app_id, t) is Some,
        occurs(t, "huddle"@) && slack_app(app_id) ==> desktop_service(app_id, t) is Some,
        occurs(t, "google meet"@) || occurs(t, "zoom meeting"@) || (occurs(t, "microsoft teams"@)
            && occurs(t, "meeting"@)) || (occurs(t, "webex"@) && occurs(t, "meeting"@))
            ==> browser_service(t) is Some,
{
    reveal_strlit("zoom");
    reveal_strlit("teams");
    reveal_strlit("slack");
    reveal_strlit("webex");
    assert("zoom"@[0] == 'z' && "teams"@[0] == 't' && "slack"@[0] == 's' && "webex"@[0] == 'w');
}

/// A label is short and plain: at most forty-eight characters, no control characters,
/// and never blank, unless the fallback is. A plain and short name is its own label.
pub proof fn labels_are_short_and_plain(value: Seq<char>, fallback: Seq<char>)
    ensures
        label(value, fallback) == fallback || ({
            let l = label(value, fallback);
            &&& 0 < l.len() <= 48
            &&& trimmed(l).len() > 0
            &&& forall|i: int|
                0 <= i < l.len() ==> !control(#[trigger] l[i]) && value.contains(l[i])
        }),
        value.len() <= 48 && trimmed(value).len() > 0 && (forall|i: int|
            0 <= i < value.len() ==> !control(#[trigger] value[i])) ==> label(value, fallback)
            == value,
        (forall|i: int| 0 <= i < value.len() ==> control(#[trigger] value[i])) ==> label(
            value,
            fallback,
        ) == fallback,
{
    let plain = |c: char| !control(c);
    let kept = value.filter(plain);
    let l = at_most(kept, LABEL_CHARS as nat);
    assert forall|i: int| 0 <= i < l.len() implies !control(#[trigger] l[i]) && value.contains(
        l[i],
    ) by {
        value.lemma_filter_pred(plain, i);
        assert(kept.contains(kept[i]));
        value.lemma_filter_contains_rev(plain, kept[i]);
        assert(l[i] == kept[i]);
    }
    crate::text::trimmed_has_clean_ends(l);
    if forall|i: int| 0 <= i < value.len() ==> !control(#[trigger] value[i]) {
        all_pass(value, plain);
    }
    if forall|i: int| 0 <= i < value.len() ==> control(#[trigger] value[i]) {
        if kept.len() > 0 {
            value.lemma_filter_pred(plain, 0);
            assert(kept.contains(kept[0]));
            value.lemma_filter_contains_rev(plain, kept[0]);
            let i = choose|i: int| 0 <= i < value.len() && value[i] == kept[0];
            assert(control(value[i]));
        }
        assert(l =~= Seq::<char>::empty());
    }
}

proof fn all_pass(s: Seq<char>, p: spec_fn(char) -> bool)
    requires
        forall|i: int| 0 <= i < s.len() ==> p(#[trigger] s[i]),
    ensures
        s.filter(p) == s,
    decreases s.len(),
{
    reveal(Seq::filter);
    if s.len() > 0 {
        let front = s.drop_last();
        assert forall|i: int| 0 <= i < front.len() implies p(#[trigger] front[i]) by {
            assert(front[i] == s[i]);
        }
        all_pass(front, p);
        assert(p(s[s.len() - 1]));
        assert(front.push(s.last()) =~= s);
    } else {
        assert(s.filter(p) =~= s);
    }
}

/// What a person ignores is an application with a service: its windows, conferences and
/// signs make no difference, and a browser is another application than a program of
/// that name.
pub proof fn an_application_is_ignored_as_a_whole(a: MeetingWindow, b: MeetingWindow)
    requires
        a.conference is Some && b.conference is Some,
        a.conference->0.service_key@ == b.conference->0.service_key@,
        a.application.app_id@ == b.application.app_id@,
        window_meeting(a) is Some && window_meeting(b) is Some,
    ensures
        window_meeting(a)->0.app_key == window_meeting(b)->0.app_key <==> a.browser == b.browser,
{
    reveal_strlit("browser");
    reveal_strlit("app");
    assert("browser"@[0] == 'b' && "app"@[0] == 'a');
    assert(conference_app_key(a, a.conference->0)[0] == if a.browser {
        'b'
    } else {
        'a'
    });
    assert(conference_app_key(b, b.conference->0)[0] == if b.browser {
        'b'
    } else {
        'a'
    });
}

} // verus!
