//! The reminder card: which messages its page may send, where it may navigate,
//! and what is on screen. The card cannot start a recording.

use crate::digest::{base64_standard, base64_text};
use crate::json::{
    field_is, field_text, field_unsigned, json_member, optional_field, read_json_member,
    text_of_field, unsigned_of_field, FieldView, JsonField,
};
use crate::reminder::{
    acted, answered, handed_on, heard, optional_candidate, Action, ActionResult, MeetingCandidate,
    Prompt, ReminderGate, Strength, SNOOZE_MS,
};
use crate::text::{byte_len, same};
use vstd::prelude::*;
use vstd::utf8::encode_utf8;

verus! {

/// How long a message of the page may be.
pub const MAX_EVENT_BYTES: usize = 256;

/// No token reaches this number, so that a page can hold each exactly.
pub const TOKEN_LIMIT: u64 = 9_007_199_254_740_992;

/// What the person does about a meeting that is about to be ended.
#[derive(Debug, Clone, Copy, PartialEq, Eq, Structural)]
pub enum EndAction {
    Visible,
    Continue,
    Disable,
    Stop,
}

/// What the page of the card may say.
#[derive(Debug, Clone, Copy, PartialEq, Eq, Structural)]
pub enum Event {
    Ready,
    Action(u64, Action),
    AutoEnd(u64, EndAction),
}

/// The address of the card's page.
pub open spec fn page_address(html: Seq<char>) -> Seq<char> {
    "data:text/html;charset=utf-8;base64,"@ + base64_standard(encode_utf8(html))
}

/// The address of the card's page.
pub fn document_url(html: &str) -> (r: String)
    ensures
        r@ == page_address(html@),
{
    "data:text/html;charset=utf-8;base64,".to_owned().concat(&base64_text(html.as_bytes()))
}

/// May the card navigate there? Only to its own page and to nothing.
pub fn allowed_navigation(url: &str, document: &str) -> (r: bool)
    ensures
        r == (url@ == "about:blank"@ || url@ == document@),
{
    same(url, "about:blank") || same(url, document)
}

/// The button that a message names.
pub open spec fn reminder_action(name: Seq<char>) -> Option<Action> {
    if name == "review"@ {
        Some(Action::Review)
    } else if name == "dismiss"@ {
        Some(Action::Dismiss)
    } else if name == "snooze"@ {
        Some(Action::Snooze)
    } else {
        None
    }
}

/// The button that a message about an ending meeting names.
pub open spec fn end_action(name: Seq<char>) -> Option<EndAction> {
    if name == "visible"@ {
        Some(EndAction::Visible)
    } else if name == "continue"@ {
        Some(EndAction::Continue)
    } else if name == "disable"@ {
        Some(EndAction::Disable)
    } else if name == "stop"@ {
        Some(EndAction::Stop)
    } else {
        None
    }
}

/// The event that the members of a message make. Everything that is not listed
/// is none.
pub open spec fn event_of(
    kind: Option<FieldView>,
    id: Option<FieldView>,
    action: Option<FieldView>,
) -> Option<Event> {
    let kind = text_of_field(kind);
    let id = unsigned_of_field(id);
    let name = text_of_field(action);
    let bound = id is Some && 0 < id->0 < TOKEN_LIMIT;
    if kind == Some("ready"@) {
        Some(Event::Ready)
    } else if kind == Some("auto_end_action"@) && bound && name is Some && end_action(
        name->0,
    ) is Some {
        Some(Event::AutoEnd(id->0, end_action(name->0)->0))
    } else if kind == Some("reminder_action"@) && bound && name is Some && reminder_action(
        name->0,
    ) is Some {
        Some(Event::Action(id->0, reminder_action(name->0)->0))
    } else {
        None
    }
}

/// The event that a message makes.
pub open spec fn message_event(body: Seq<char>) -> Option<Event> {
    if encode_utf8(body).len() > MAX_EVENT_BYTES {
        None
    } else {
        event_of(
            json_member(body, None, "type"@),
            json_member(body, None, "id"@),
            json_member(body, None, "action"@),
        )
    }
}

/// The event that the members of a message make.
pub fn event_from_fields(
    kind: &Option<JsonField>,
    id: &Option<JsonField>,
    action: &Option<JsonField>,
) -> (r: Option<Event>)
    ensures
        r == event_of(optional_field(*kind), optional_field(*id), optional_field(*action)),
{
    proof {
        reveal_strlit("ready");
        reveal_strlit("auto_end_action");
        reveal_strlit("reminder_action");
        assert("auto_end_action"@[0] == 'a');
        assert("reminder_action"@[0] == 'r');
    }
    if field_is(kind, "ready") {
        return Some(Event::Ready);
    }
    let ending = field_is(kind, "auto_end_action");
    if !ending && !field_is(kind, "reminder_action") {
        return None;
    }
    let token: u64 = match field_unsigned(id) {
        Some(n) => n,
        None => {
            return None;
        },
    };
    if token == 0 || token >= TOKEN_LIMIT {
        return None;
    }
    let name = match field_text(action) {
        Some(name) => name,
        None => {
            return None;
        },
    };
    if ending {
        if same(name, "visible") {
            Some(Event::AutoEnd(token, EndAction::Visible))
        } else if same(name, "continue") {
            Some(Event::AutoEnd(token, EndAction::Continue))
        } else if same(name, "disable") {
            Some(Event::AutoEnd(token, EndAction::Disable))
        } else if same(name, "stop") {
            Some(Event::AutoEnd(token, EndAction::Stop))
        } else {
            None
        }
    } else {
        if same(name, "review") {
            Some(Event::Action(token, Action::Review))
        } else if same(name, "dismiss") {
            Some(Event::Action(token, Action::Dismiss))
        } else if same(name, "snooze") {
            Some(Event::Action(token, Action::Snooze))
        } else {
            None
        }
    }
}

/// The event that a message of the page makes, or none.
pub fn parse_event(body: &str) -> (r: Option<Event>)
    ensures
        r == message_event(body@),
{
    if byte_len(body) > MAX_EVENT_BYTES {
        return None;
    }
    event_from_fields(
        &read_json_member(body, None, "type"),
        &read_json_member(body, None, "id"),
        &read_json_member(body, None, "action"),
    )
}

/// Every token in an event is one that a page can hold exactly, and none is
/// zero.
pub proof fn event_tokens_are_bound(
    kind: Option<FieldView>,
    id: Option<FieldView>,
    action: Option<FieldView>,
)
    ensures
        match event_of(kind, id, action) {
            Some(Event::Action(token, _)) => 0 < token < TOKEN_LIMIT,
            Some(Event::AutoEnd(token, _)) => 0 < token < TOKEN_LIMIT,
            _ => true,
        },
{
}

/// How sure a card says that it is.
pub fn card_kind(strength: Strength) -> (r: &'static str)
    ensures
        r@ == (match strength {
            Strength::Confirmed => "confirmed"@,
            Strength::Calendar => "calendar"@,
            _ => "possible"@,
        }),
{
    match strength {
        Strength::Confirmed => "confirmed",
        Strength::Calendar => "calendar",
        _ => "possible",
    }
}

/// The title that a review opens the controls with: none without a candidate.
pub fn review_title(candidate: &Option<MeetingCandidate>) -> (r: String)
    ensures
        r@ == (match *candidate {
            Some(c) => c.suggested_title@,
            None => Seq::empty(),
        }),
{
    match candidate {
        Some(c) => c.suggested_title.clone(),
        None => String::new(),
    }
}

/// What the card's window shows.
#[derive(Debug, Clone, Copy, PartialEq, Eq, Structural)]
pub struct MeetingPrompt {
    /// The page is loaded.
    pub ready: bool,
    /// The number of the card on screen.
    pub shown: Option<u64>,
    /// The card on screen announces the end of a meeting.
    pub auto_end: bool,
}

/// What hiding the window asks of it.
#[derive(Debug, Clone, Copy, PartialEq, Eq, Structural)]
pub struct HideEffects {
    /// Tell the page; it shows a card.
    pub tell_page: bool,
}

/// What is done to show a reminder.
#[derive(Debug, Clone, Copy, PartialEq, Eq, Structural)]
pub enum CardStep {
    /// Hide the window.
    Hide(HideEffects),
    /// The card is on screen.
    Keep,
    /// Hide the window if it announces an end, then show the card.
    Show,
}

/// What is done to announce the end of a meeting.
#[derive(Debug, Clone, Copy, PartialEq, Eq, Structural)]
pub enum EndStep {
    /// The page is not loaded.
    Skip,
    /// The announcement is on screen; bring it up to date.
    Update,
    /// Hide the window, then show the announcement.
    Show(HideEffects),
}

impl MeetingPrompt {
    /// A window whose page is not loaded yet.
    pub fn new() -> (r: Self)
        ensures
            r == (MeetingPrompt { ready: false, shown: None, auto_end: false }),
    {
        MeetingPrompt { ready: false, shown: None, auto_end: false }
    }

    /// Hides the window.
    pub fn put_away(&mut self) -> (r: HideEffects)
        ensures
            *final(self) == (MeetingPrompt { shown: None, auto_end: false, ..*old(self) }),
            r.tell_page == old(self).shown is Some,
    {
        let tell_page = self.shown.is_some();
        self.auto_end = false;
        self.shown = None;
        HideEffects { tell_page }
    }

    /// The page was loaded, maybe again: nothing is on screen any more.
    pub fn ready(&mut self) -> (r: HideEffects)
        ensures
            *final(self) == (MeetingPrompt { ready: true, shown: None, auto_end: false }),
            r.tell_page == old(self).shown is Some,
    {
        let effects = self.put_away();
        self.ready = true;
        effects
    }

    /// A click on a card. The window is hidden where the click is heard; a click
    /// on a reminder that an announcement has replaced is not.
    pub fn apply_action(
        &mut self,
        gate: &mut ReminderGate,
        id: u64,
        action: Action,
        now_ms: u64,
    ) -> (r: ActionResult)
        requires
            action == Action::Snooze && answered(old(gate)@, id) is Some ==> now_ms + SNOOZE_MS
                <= u64::MAX,
        ensures
            ({
                let hears = !old(self).auto_end && heard(old(gate)@, old(self).shown, id);
                &&& r is Ignored == !hears
                &&& !hears ==> *final(self) == *old(self) && final(gate)@ == old(gate)@
                &&& hears ==> {
                    &&& *final(self) == (MeetingPrompt {
                        shown: None,
                        auto_end: false,
                        ..*old(self)
                    })
                    &&& final(gate)@ == acted(old(gate)@, id, action, now_ms)
                    &&& r is Review == (action == Action::Review)
                    &&& r is Review ==> optional_candidate(r->Review_0) == handed_on(
                        old(gate)@,
                        id,
                        action,
                        now_ms,
                    )
                }
            }),
    {
        if self.auto_end {
            return ActionResult::Ignored;
        }
        let result = gate.visible_action(self.shown, id, action, now_ms);
        match result {
            ActionResult::Ignored => {},
            _ => {
                self.put_away();
            },
        }
        result
    }

    /// The window was closed: the card on screen is dismissed.
    pub fn dismiss(&mut self, gate: &mut ReminderGate, now_ms: u64)
        ensures
            match old(self).shown {
                None => *final(self) == (MeetingPrompt {
                    shown: None,
                    auto_end: false,
                    ..*old(self)
                }) && final(gate)@ == old(gate)@,
                Some(id) => if !old(self).auto_end && heard(old(gate)@, Some(id), id) {
                    *final(self) == (MeetingPrompt { shown: None, auto_end: false, ..*old(self) })
                        && final(gate)@ == acted(old(gate)@, id, Action::Dismiss, now_ms)
                } else {
                    *final(self) == *old(self) && final(gate)@ == old(gate)@
                },
            },
    {
        match self.shown {
            Some(id) => {
                let _ = self.apply_action(gate, id, Action::Dismiss, now_ms);
            },
            None => {
                let _ = self.put_away();
            },
        }
    }

    /// What is done to show the reminder that is current. An announcement is
    /// hidden first.
    pub fn sync(&mut self, prompt: Option<&Prompt>) -> (r: CardStep)
        ensures
            ({
                let shown = if old(self).auto_end {
                    None
                } else {
                    old(self).shown
                };
                if prompt is None || !old(self).ready {
                    &&& *final(self) == (MeetingPrompt {
                        shown: None,
                        auto_end: false,
                        ..*old(self)
                    })
                    &&& r == CardStep::Hide(HideEffects { tell_page: old(self).shown is Some })
                } else {
                    &&& *final(self) == (MeetingPrompt { shown, auto_end: false, ..*old(self) })
                    &&& r == (if shown == Some(prompt->0.id) {
                        CardStep::Keep
                    } else {
                        CardStep::Show
                    })
                }
            }),
    {
        let tell_page = self.shown.is_some();
        if self.auto_end {
            let _ = self.put_away();
        }
        match prompt {
            Some(p) => {
                if !self.ready {
                    let _ = self.put_away();
                    return CardStep::Hide(HideEffects { tell_page });
                }
                match self.shown {
                    Some(id) => {
                        if id == p.id {
                            CardStep::Keep
                        } else {
                            CardStep::Show
                        }
                    },
                    None => CardStep::Show,
                }
            },
            None => {
                let _ = self.put_away();
                CardStep::Hide(HideEffects { tell_page })
            },
        }
    }

    /// The card was shown.
    pub fn card_shown(&mut self, id: u64)
        ensures
            *final(self) == (MeetingPrompt { shown: Some(id), ..*old(self) }),
    {
        self.shown = Some(id);
    }

    /// What is done to announce the end of a meeting.
    pub fn sync_auto_end(&mut self, id: u64) -> (r: EndStep)
        ensures
            !old(self).ready ==> r == EndStep::Skip && *final(self) == *old(self),
            old(self).ready && old(self).auto_end && old(self).shown == Some(id) ==> r
                == EndStep::Update && *final(self) == *old(self),
            old(self).ready && !(old(self).auto_end && old(self).shown == Some(id)) ==> {
                &&& r == EndStep::Show(HideEffects { tell_page: old(self).shown is Some })
                &&& *final(self) == (MeetingPrompt { shown: None, auto_end: false, ..*old(self) })
            },
    {
        if !self.ready {
            return EndStep::Skip;
        }
        if self.accepts_auto_end(id) {
            return EndStep::Update;
        }
        EndStep::Show(self.put_away())
    }

    /// The announcement was shown.
    pub fn end_shown(&mut self, id: u64)
        ensures
            *final(self) == (MeetingPrompt { shown: Some(id), auto_end: true, ..*old(self) }),
    {
        self.auto_end = true;
        self.shown = Some(id);
    }

    /// Does a click on announcement `id` count?
    pub fn accepts_auto_end(&self, id: u64) -> (r: bool)
        ensures
            r == (self.auto_end && self.shown == Some(id)),
    {
        match self.shown {
            Some(shown) => self.auto_end && shown == id,
            None => false,
        }
    }

    /// The number of the announcement on screen.
    pub fn auto_end_id(&self) -> (r: Option<u64>)
        ensures
            r == (if self.auto_end {
                self.shown
            } else {
                None
            }),
    {
        if self.auto_end {
            self.shown
        } else {
            None
        }
    }
}

/// The part of a monitor that windows may take, by its edges.
#[derive(Debug, Clone, Copy, PartialEq, Eq, Structural)]
pub struct WorkArea {
    pub left: i32,
    pub top: i32,
    pub right: i32,
    pub bottom: i32,
}

/// Where a card stands.
#[derive(Debug, Clone, Copy, PartialEq, Eq, Structural)]
pub struct CardPlace {
    pub x: i32,
    pub y: i32,
    pub width: i32,
    pub height: i32,
}

/// The least width that a card is given.
pub const MIN_CARD_WIDTH: i32 = 240;

/// The least height that a card is given.
pub const MIN_CARD_HEIGHT: i32 = 180;

/// How long a side of the card is between two edges: as wanted, but not longer than
/// the space between the margins, which counts as no smaller than `least`.
pub open spec fn card_side(wanted: int, low: int, high: int, margin: int, least: int) -> int {
    let space = if high - low - 2 * margin > least {
        high - low - 2 * margin
    } else {
        least
    };
    if wanted < space {
        wanted
    } else {
        space
    }
}

/// The numbers that place the card on one axis are numbers of the machine.
pub open spec fn placeable(wanted: int, low: int, high: int, margin: int, least: int) -> bool {
    &&& i32::MIN <= 2 * margin <= i32::MAX
    &&& i32::MIN <= high - low <= i32::MAX
    &&& i32::MIN <= high - low - 2 * margin <= i32::MAX
    &&& i32::MIN <= high - card_side(wanted, low, high, margin, least) <= i32::MAX
    &&& i32::MIN <= high - card_side(wanted, low, high, margin, least) - margin <= i32::MAX
}

fn side(wanted: i32, low: i32, high: i32, margin: i32, least: i32) -> (r: i32)
    requires
        placeable(wanted as int, low as int, high as int, margin as int, least as int),
    ensures
        r == card_side(wanted as int, low as int, high as int, margin as int, least as int),
{
    let free: i32 = high - low - 2 * margin;
    let space: i32 = if free > least {
        free
    } else {
        least
    };
    if wanted < space {
        wanted
    } else {
        space
    }
}

/// Puts the card into the lower right corner of the work area. The margin and the
/// sizes are in the pixels of the monitor.
pub fn place_card(area: WorkArea, margin: i32, width: i32, height: i32) -> (r: CardPlace)
    requires
        placeable(
            width as int,
            area.left as int,
            area.right as int,
            margin as int,
            MIN_CARD_WIDTH as int,
        ),
        placeable(
            height as int,
            area.top as int,
            area.bottom as int,
            margin as int,
            MIN_CARD_HEIGHT as int,
        ),
    ensures
        r.width == card_side(
            width as int,
            area.left as int,
            area.right as int,
            margin as int,
            MIN_CARD_WIDTH as int,
        ),
        r.height == card_side(
            height as int,
            area.top as int,
            area.bottom as int,
            margin as int,
            MIN_CARD_HEIGHT as int,
        ),
        r.x == area.right - r.width - margin,
        r.y == area.bottom - r.height - margin,
{
    let w: i32 = side(width, area.left, area.right, margin, MIN_CARD_WIDTH);
    let h: i32 = side(height, area.top, area.bottom, margin, MIN_CARD_HEIGHT);
    CardPlace { x: area.right - w - margin, y: area.bottom - h - margin, width: w, height: h }
}

/// A card keeps its margin on both sides, wherever the work area has room for the
/// least card.
pub proof fn cards_stay_on_the_monitor(wanted: int, low: int, high: int, margin: int, least: int)
    requires
        high - low >= least + 2 * margin,
    ensures
        high - card_side(wanted, low, high, margin, least) - margin >= low + margin,
{
}

/// A message is understood wherever it names one of the buttons, for every number that
/// a card can have: each button by its own name.
pub proof fn buttons_are_understood(id: u64)
    requires
        0 < id < 9_007_199_254_740_992,
    ensures
        ({
            let kind = Some(FieldView::Text("reminder_action"@));
            let number = Some(FieldView::Unsigned(id));
            &&& event_of(kind, number, Some(FieldView::Text("review"@))) == Some(
                Event::Action(id, Action::Review),
            )
            &&& event_of(kind, number, Some(FieldView::Text("dismiss"@))) == Some(
                Event::Action(id, Action::Dismiss),
            )
            &&& event_of(kind, number, Some(FieldView::Text("snooze"@))) == Some(
                Event::Action(id, Action::Snooze),
            )
        }),
        ({
            let kind = Some(FieldView::Text("auto_end_action"@));
            let number = Some(FieldView::Unsigned(id));
            &&& event_of(kind, number, Some(FieldView::Text("visible"@))) == Some(
                Event::AutoEnd(id, EndAction::Visible),
            )
            &&& event_of(kind, number, Some(FieldView::Text("continue"@))) == Some(
                Event::AutoEnd(id, EndAction::Continue),
            )
            &&& event_of(kind, number, Some(FieldView::Text("disable"@))) == Some(
                Event::AutoEnd(id, EndAction::Disable),
            )
            &&& event_of(kind, number, Some(FieldView::Text("stop"@))) == Some(
                Event::AutoEnd(id, EndAction::Stop),
            )
        }),
{
    reveal_strlit("ready");
    reveal_strlit("reminder_action");
    reveal_strlit("auto_end_action");
    reveal_strlit("review");
    reveal_strlit("dismiss");
    reveal_strlit("snooze");
    reveal_strlit("visible");
    reveal_strlit("continue");
    reveal_strlit("disable");
    reveal_strlit("stop");
    assert("ready"@.len() == 5 && "reminder_action"@.len() == 15 && "auto_end_action"@.len() == 15);
    assert("reminder_action"@[0] == 'r' && "auto_end_action"@[0] == 'a');
    assert("review"@[0] == 'r' && "dismiss"@[0] == 'd' && "snooze"@[0] == 's');
    assert("visible"@[0] == 'v' && "continue"@[0] == 'c' && "disable"@[0] == 'd');
    assert("stop"@[0] == 's');
}

/// Nothing else is understood: no message of another kind, none without a number and
/// none with a name that is no button's.
pub proof fn other_messages_are_ignored(
    kind: Option<FieldView>,
    id: Option<FieldView>,
    action: Option<FieldView>,
)
    ensures
        event_of(kind, id, action) matches Some(e) ==> {
            ||| e == Event::Ready && kind == Some(FieldView::Text("ready"@))
            ||| kind == Some(FieldView::Text("reminder_action"@)) && id is Some && action is Some
                && (e matches Event::Action(n, _) && id == Some(FieldView::Unsigned(n)))
            ||| kind == Some(FieldView::Text("auto_end_action"@)) && id is Some && action is Some
                && (e matches Event::AutoEnd(n, _) && id == Some(FieldView::Unsigned(n)))
        },
        kind == Some(FieldView::Text("ready"@)) ==> event_of(kind, id, action) == Some(Event::Ready),
{
}

/// A card is as large as it is wanted where there is room for it between the margins,
/// and takes all the room otherwise, but never less than the least.
pub proof fn cards_take_the_room_there_is(
    wanted: int,
    low: int,
    high: int,
    margin: int,
    least: int,
)
    ensures
        ({
            let side = card_side(wanted, low, high, margin, least);
            let room = high - low - 2 * margin;
            &&& side <= wanted
            &&& wanted <= room ==> side == wanted
            &&& least <= room < wanted ==> side == room
            &&& room < least <= wanted ==> side == least
            &&& wanted <= least ==> side == wanted
        }),
{
}

} // verus!
