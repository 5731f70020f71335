//! One instance per person: the names that an authenticated identity gives, who
//! owns the instance, and the hand-off by which a second launch shows the
//! window of the first. Ownership rests with a lock of the operating system;
//! the hand-off never decides it.

use crate::digest::{sha256_hex, sha256_text};
use crate::licensing::Edition;
use crate::text::{chars_of, decimal, decimal_text, text_of};
use vstd::prelude::*;
use vstd::utf8::encode_utf8;

verus! {

/// The message that asks the first instance to show its window.
pub open spec fn show_message() -> Seq<char> {
    "VOCALCODE_SHOW_V1"@
}

/// The message with which the first instance confirms.
pub open spec fn delivered_message() -> Seq<char> {
    "VOCALCODE_DELIVERED_V1"@
}

/// The scope of the application's instance.
pub const INSTANCE_SCOPE: &'static str = "vocalcode-gui-v2";

/// How often a second launch tries to reach the first.
pub const NOTIFY_ATTEMPTS: u32 = 10;

/// How long a second launch waits for a confirmation.
pub const DELIVERY_TIMEOUT_MS: u64 = 750;

/// How long the first instance waits for a client to say something.
pub const CLIENT_IDLE_MS: u64 = 500;

/// The Windows error for a pipe whose instances are all busy.
pub const ERROR_PIPE_BUSY: u32 = 231;

/// The Windows error for a pipe that is not there.
pub const ERROR_FILE_NOT_FOUND: u32 = 2;

/// The Windows error for a pipe that has nothing to read.
pub const ERROR_NO_DATA: u32 = 232;

/// The Windows error for a client that has connected already.
pub const ERROR_PIPE_CONNECTED: u32 = 535;

/// The Windows error for a pipe that waits for a client.
pub const ERROR_PIPE_LISTENING: u32 = 536;

/// What names one identity in one scope: half of a digest.
pub open spec fn token_of(scope: Seq<char>, identity: Seq<u8>) -> Seq<char> {
    sha256_hex(
        encode_utf8("VocalCode instance"@) + seq![0u8] + encode_utf8(scope) + seq![0u8] + identity,
    ).take(32)
}

/// What names one identity in one scope.
pub fn instance_token(scope: &str, identity: &[u8]) -> (r: String)
    ensures
        r@ == token_of(scope@, identity@),
        r@.len() == 32,
{
    let mut bytes: Vec<u8> = "VocalCode instance".as_bytes_vec();
    bytes.push(0);
    let mut part: Vec<u8> = scope.as_bytes_vec();
    bytes.append(&mut part);
    bytes.push(0);
    let mut part: Vec<u8> = vstd::slice::slice_to_vec(identity);
    bytes.append(&mut part);
    assert(bytes@ =~= encode_utf8("VocalCode instance"@) + seq![0u8] + encode_utf8(scope@)
        + seq![0u8] + identity@);
    let digest = sha256_text(&bytes);
    let chars = chars_of(&digest);
    let half = vstd::slice::slice_subrange(chars.as_slice(), 0, 32);
    assert(half@ =~= digest@.take(32));
    text_of(half)
}

/// The names of the instance on Windows.
#[derive(Debug, PartialEq, Eq)]
pub struct InstanceNames {
    pub mutex: String,
    pub pipe: String,
}

/// The names of the instance on Windows.
pub fn names(scope: &str, identity: &[u8]) -> (r: InstanceNames)
    ensures
        r.mutex@ == "Local\\VocalCode.Gui."@ + token_of(scope@, identity@),
        r.pipe@ == "\\\\.\\pipe\\VocalCode.Gui."@ + token_of(scope@, identity@),
{
    let token = instance_token(scope, identity);
    InstanceNames {
        mutex: "Local\\VocalCode.Gui.".to_owned().concat(&token),
        pipe: "\\\\.\\pipe\\VocalCode.Gui.".to_owned().concat(&token),
    }
}

/// The file names of the instance's lock and socket in the application's
/// directory on Unix. The socket's is short, as socket paths have to be.
pub fn endpoint_names(scope: &str, identity: &[u8]) -> (r: (String, String))
    ensures
        r.0@ == ".instance-"@ + token_of(scope@, identity@) + ".lock"@,
        r.1@ == ".i-"@ + token_of(scope@, identity@).take(16) + ".s"@,
{
    let token = instance_token(scope, identity);
    let chars = chars_of(&token);
    let part = vstd::slice::slice_subrange(chars.as_slice(), 0, 16);
    assert(part@ =~= token@.take(16));
    let short = text_of(part);
    (
        ".instance-".to_owned().concat(&token).concat(".lock"),
        ".i-".to_owned().concat(&short).concat(".s"),
    )
}

/// The access list of a private object: the system and one person.
pub fn private_sddl(sid: &str) -> (r: String)
    ensures
        r@ == "D:P(A;;GA;;;SY)(A;;GA;;;"@ + sid@ + ")"@,
{
    "D:P(A;;GA;;;SY)(A;;GA;;;".to_owned().concat(sid).concat(")")
}

/// The name that an installer watches while the application runs.
pub fn installer_mutex(edition: Edition) -> (r: &'static str)
    ensures
        r@ == (match edition {
            Edition::Community => "Local\\VocalCode.Community.Desktop"@,
            Edition::Commercial => "Local\\VocalCode.Desktop"@,
        }),
{
    match edition {
        Edition::Community => "Local\\VocalCode.Community.Desktop",
        Edition::Commercial => "Local\\VocalCode.Desktop",
    }
}

/// The authority in a security identifier: six bytes, the highest first.
pub open spec fn authority(bytes: Seq<u8>, n: int) -> nat
    decreases n,
{
    if n <= 0 {
        0
    } else {
        authority(bytes, n - 1) * 256 + bytes[1 + n] as nat
    }
}

/// Sub-authority `i` of a security identifier: four bytes, the lowest first.
pub open spec fn sub_authority(bytes: Seq<u8>, i: int) -> nat {
    (bytes[8 + 4 * i] + 256 * bytes[9 + 4 * i] + 65536 * bytes[10 + 4 * i] + 16777216 * bytes[11 + 4
        * i]) as nat
}

/// The notation of the first `n` sub-authorities.
pub open spec fn sub_authorities_text(bytes: Seq<u8>, n: int) -> Seq<char>
    decreases n,
{
    if n <= 0 {
        Seq::empty()
    } else {
        sub_authorities_text(bytes, n - 1) + ("-"@ + decimal(sub_authority(bytes, n - 1)))
    }
}

/// A security identifier in its usual notation.
pub open spec fn sid_text(bytes: Seq<u8>) -> Seq<char> {
    "S-"@ + decimal(bytes[0] as nat) + "-"@ + decimal(authority(bytes, 6)) + sub_authorities_text(
        bytes,
        bytes[1] as int,
    )
}

proof fn authority_bound(bytes: Seq<u8>, n: int)
    requires
        0 <= n <= 6,
    ensures
        n == 0 ==> authority(bytes, n) == 0,
        n == 1 ==> authority(bytes, n) < 0x100,
        n == 2 ==> authority(bytes, n) < 0x1_0000,
        n == 3 ==> authority(bytes, n) < 0x100_0000,
        n == 4 ==> authority(bytes, n) < 0x1_0000_0000,
        n == 5 ==> authority(bytes, n) < 0x100_0000_0000,
        n == 6 ==> authority(bytes, n) < 0x1_0000_0000_0000,
    decreases n,
{
    if n > 0 {
        authority_bound(bytes, n - 1);
    }
}

/// A security identifier in its usual notation, or why the bytes are none.
pub fn sid_string(bytes: &[u8]) -> (r: Result<String, &'static str>)
    ensures
        bytes@.len() < 8 ==> r is Err && r->Err_0@ == "SID is truncated"@,
        bytes@.len() >= 8 && bytes@.len() != 8 + 4 * bytes@[1] ==> r is Err && r->Err_0@
            == "SID has an invalid length"@,
        bytes@.len() >= 8 && bytes@.len() == 8 + 4 * bytes@[1] ==> r is Ok && r->Ok_0@ == sid_text(
            bytes@,
        ),
{
    let len: usize = bytes.len();
    if len < 8 {
        return Err("SID is truncated");
    }
    let count: usize = bytes[1] as usize;
    let required: usize = 8 + 4 * count;
    if len != required {
        return Err("SID has an invalid length");
    }
    let mut value: u64 = 0;
    let mut n: usize = 0;
    while n < 6
        invariant
            n <= 6,
            bytes@.len() >= 8,
            value == authority(bytes@, n as int),
            value < 0x1_0000_0000_0000,
        decreases 6 - n,
    {
        proof {
            authority_bound(bytes@, n as int);
            authority_bound(bytes@, n + 1);
        }
        value = value * 256 + bytes[2 + n] as u64;
        n += 1;
    }
    let mut result = "S-".to_owned().concat(&decimal_text(bytes[0] as u128)).concat("-").concat(
        &decimal_text(value as u128),
    );
    let ghost start = result@;
    let mut i: usize = 0;
    assert(result@ =~= start + sub_authorities_text(bytes@, 0));
    while i < count
        invariant
            i <= count,
            count == bytes@[1],
            bytes@.len() == 8 + 4 * count,
            count < 256,
            result@ == start + sub_authorities_text(bytes@, i as int),
        decreases count - i,
    {
        let at: usize = 8 + 4 * i;
        let part: u64 = bytes[at] as u64 + 256 * (bytes[at + 1] as u64) + 65536 * (bytes[at
            + 2] as u64) + 16777216 * (bytes[at + 3] as u64);
        assert(part == sub_authority(bytes@, i as int));
        let piece = "-".to_owned().concat(&decimal_text(part as u128));
        let ghost before = result@;
        result.append(&piece);
        assert(result@ =~= start + sub_authorities_text(bytes@, i + 1));
        i += 1;
    }
    Ok(result)
}

/// The role of a process among those of its person.
#[derive(Debug, Clone, Copy, PartialEq, Eq, Structural)]
pub enum InstanceRole {
    Primary,
    /// Another process is the first; it is told to show its window.
    Existing,
}

/// The role of a process, by the lock of the operating system alone.
pub fn instance_role(lock_held_elsewhere: bool) -> (r: InstanceRole)
    ensures
        r == (if lock_held_elsewhere {
            InstanceRole::Existing
        } else {
            InstanceRole::Primary
        }),
{
    if lock_held_elsewhere {
        InstanceRole::Existing
    } else {
        InstanceRole::Primary
    }
}

/// Is the application's directory the person's own?
pub fn trusted_directory(is_symlink: bool, is_directory: bool, owner: u32, user: u32) -> (r: bool)
    ensures
        r == (!is_symlink && is_directory && owner == user),
{
    !is_symlink && is_directory && owner == user
}

/// What may be at the path of the socket before it is bound.
#[derive(Debug, Clone, Copy, PartialEq, Eq, Structural)]
pub enum Endpoint {
    Nothing,
    Socket,
    Other,
    Unknown,
}

/// What is done about the path of the socket before it is bound.
#[derive(Debug, Clone, Copy, PartialEq, Eq, Structural)]
pub enum EndpointStep {
    Bind,
    RemoveAndBind,
    Refuse,
}

/// What the owner of the lock does about the path of the socket: a socket that
/// a crashed process left is removed, and nothing else is.
pub fn stale_endpoint(found: Endpoint) -> (r: EndpointStep)
    ensures
        r == (match found {
            Endpoint::Nothing => EndpointStep::Bind,
            Endpoint::Socket => EndpointStep::RemoveAndBind,
            Endpoint::Other => EndpointStep::Refuse,
            Endpoint::Unknown => EndpointStep::Refuse,
        }),
{
    match found {
        Endpoint::Nothing => EndpointStep::Bind,
        Endpoint::Socket => EndpointStep::RemoveAndBind,
        Endpoint::Other => EndpointStep::Refuse,
        Endpoint::Unknown => EndpointStep::Refuse,
    }
}

fn same_bytes(a: &[u8], b: &[u8]) -> (r: bool)
    ensures
        r == (a@ == b@),
{
    crate::recovery::judge_moved(a, b) == crate::recovery::MovedFile::Same
}

/// Does a message ask for the window to be shown?
pub fn asks_to_show(message: &[u8]) -> (r: bool)
    ensures
        r == (message@ == encode_utf8(show_message())),
{
    same_bytes("VOCALCODE_SHOW_V1".as_bytes(), message)
}

/// Does a message confirm that the window is shown?
pub fn confirms_delivery(message: &[u8]) -> (r: bool)
    ensures
        r == (message@ == encode_utf8(delivered_message())),
{
    same_bytes("VOCALCODE_DELIVERED_V1".as_bytes(), message)
}

/// The one pending request to show the window.
#[derive(Debug, Clone, Copy, PartialEq, Eq, Structural)]
pub struct ShowSlot {
    pub pending: bool,
    /// Somebody takes the requests.
    pub open: bool,
}

/// The slot after one more request: where somebody takes requests, one is pending.
pub open spec fn shown_once_more(slot: ShowSlot) -> ShowSlot {
    ShowSlot { pending: slot.pending || slot.open, ..slot }
}

/// The slot after its request was taken.
pub open spec fn emptied(slot: ShowSlot) -> ShowSlot {
    ShowSlot { pending: false, ..slot }
}

impl ShowSlot {
    /// An empty slot.
    pub fn new() -> (r: Self)
        ensures
            r == (ShowSlot { pending: false, open: true }),
    {
        ShowSlot { pending: false, open: true }
    }

    /// Asks for the window to be shown. A request that is pending stands for
    /// any further one. Says whether anybody takes it.
    pub fn enqueue_show(&mut self) -> (r: bool)
        ensures
            r == old(self).open,
            *final(self) == shown_once_more(*old(self)),
    {
        if self.open {
            self.pending = true;
        }
        self.open
    }

    /// Takes the pending request.
    pub fn take(&mut self) -> (r: bool)
        ensures
            r == old(self).pending,
            *final(self) == emptied(*old(self)),
    {
        let r = self.pending;
        self.pending = false;
        r
    }

    /// Nobody takes requests any more.
    pub fn close(&mut self)
        ensures
            *final(self) == (ShowSlot { open: false, ..*old(self) }),
    {
        self.open = false;
    }
}

/// What a second launch does after it could not open the pipe.
#[derive(Debug, Clone, Copy, PartialEq, Eq, Structural)]
pub enum OpenStep {
    /// Wait a little and try again.
    TryAgain,
    GiveUp,
}

/// What a second launch does after it could not open the pipe. The attempts are
/// numbered from 1.
pub fn after_open_failure(code: Option<u32>, attempt: u32) -> (r: OpenStep)
    ensures
        r == (if (code == Some(ERROR_PIPE_BUSY) || code == Some(ERROR_FILE_NOT_FOUND)) && attempt
            < NOTIFY_ATTEMPTS {
            OpenStep::TryAgain
        } else {
            OpenStep::GiveUp
        }),
{
    match code {
        Some(c) => {
            if (c == ERROR_PIPE_BUSY || c == ERROR_FILE_NOT_FOUND) && attempt < NOTIFY_ATTEMPTS {
                OpenStep::TryAgain
            } else {
                OpenStep::GiveUp
            }
        },
        None => OpenStep::GiveUp,
    }
}

/// Was the whole request written?
pub fn request_complete(written: u32) -> (r: bool)
    ensures
        r == (written == encode_utf8(show_message()).len()),
{
    written as usize == "VOCALCODE_SHOW_V1".as_bytes().len()
}

/// What a second launch does after it tried to have the pipe read without
/// waiting.
#[derive(Debug, Clone, Copy, PartialEq, Eq, Structural)]
pub enum ModeStep {
    Read,
    TryAgain,
    GiveUp,
}

/// What a second launch does after it tried to have the pipe read without
/// waiting: the first instance may not have noticed it yet.
pub fn after_mode(set: bool, code: Option<u32>, now_ms: u64, deadline_ms: u64) -> (r: ModeStep)
    ensures
        r == (if set {
            ModeStep::Read
        } else if code == Some(ERROR_PIPE_BUSY) && now_ms < deadline_ms {
            ModeStep::TryAgain
        } else {
            ModeStep::GiveUp
        }),
{
    if set {
        return ModeStep::Read;
    }
    match code {
        Some(c) => {
            if c == ERROR_PIPE_BUSY && now_ms < deadline_ms {
                ModeStep::TryAgain
            } else {
                ModeStep::GiveUp
            }
        },
        None => ModeStep::GiveUp,
    }
}

/// What became of a request to show the window.
#[derive(Debug, Clone, Copy, PartialEq, Eq, Structural)]
pub enum DeliveryStep {
    Delivered,
    /// The answer was no confirmation.
    Invalid,
    TimedOut,
    /// Nothing to read yet.
    TryAgain,
    GiveUp,
}

/// May the answer be read once more?
pub fn may_read_answer(now_ms: u64, deadline_ms: u64) -> (r: DeliveryStep)
    ensures
        r == (if now_ms < deadline_ms {
            DeliveryStep::TryAgain
        } else {
            DeliveryStep::TimedOut
        }),
{
    if now_ms < deadline_ms {
        DeliveryStep::TryAgain
    } else {
        DeliveryStep::TimedOut
    }
}

/// What became of a request to show the window, by what was read.
pub fn after_answer(answer: &[u8]) -> (r: DeliveryStep)
    ensures
        r == (if answer@ == encode_utf8(delivered_message()) {
            DeliveryStep::Delivered
        } else {
            DeliveryStep::Invalid
        }),
{
    if confirms_delivery(answer) {
        DeliveryStep::Delivered
    } else {
        DeliveryStep::Invalid
    }
}

/// What a second launch does after nothing could be read.
pub fn after_answer_failure(code: u32) -> (r: DeliveryStep)
    ensures
        r == (if code == ERROR_NO_DATA {
            DeliveryStep::TryAgain
        } else {
            DeliveryStep::GiveUp
        }),
{
    if code == ERROR_NO_DATA {
        DeliveryStep::TryAgain
    } else {
        DeliveryStep::GiveUp
    }
}

/// What the first instance does while it waits for a client.
#[derive(Debug, Clone, Copy, PartialEq, Eq, Structural)]
pub enum ConnectStep {
    Stop,
    Connected,
    Wait,
    /// Begin with a new pipe.
    Recreate,
}

/// What the first instance does while it waits for a client.
pub fn after_connect(stop: bool, connected: bool, code: u32) -> (r: ConnectStep)
    ensures
        r == (if stop {
            ConnectStep::Stop
        } else if connected || code == ERROR_PIPE_CONNECTED {
            ConnectStep::Connected
        } else if code == ERROR_PIPE_LISTENING {
            ConnectStep::Wait
        } else {
            ConnectStep::Recreate
        }),
{
    if stop {
        ConnectStep::Stop
    } else if connected || code == ERROR_PIPE_CONNECTED {
        ConnectStep::Connected
    } else if code == ERROR_PIPE_LISTENING {
        ConnectStep::Wait
    } else {
        ConnectStep::Recreate
    }
}

/// What the first instance does with what a client said.
#[derive(Debug, Clone, Copy, PartialEq, Eq, Structural)]
pub enum ClientStep {
    Stop,
    /// Confirm, and let the client go.
    Confirm,
    /// Let the client go.
    Disconnect,
    Wait,
}

/// What the first instance does with what a client said: a request to show the
/// window that somebody takes is confirmed.
pub fn after_client_message(message: &[u8], slot: &mut ShowSlot) -> (r: ClientStep)
    ensures
        ({
            let asked = message@ == encode_utf8(show_message());
            &&& r == (if asked && old(slot).open {
                ClientStep::Confirm
            } else {
                ClientStep::Disconnect
            })
            &&& *final(slot) == (if asked {
                shown_once_more(*old(slot))
            } else {
                *old(slot)
            })
        }),
{
    if asks_to_show(message) && slot.enqueue_show() {
        ClientStep::Confirm
    } else {
        ClientStep::Disconnect
    }
}

/// What the first instance does while a client says nothing: it waits for a
/// while only, so that a silent client cannot keep it.
pub fn after_client_silence(stop: bool, code: u32, now_ms: u64, idle_deadline_ms: u64) -> (r:
    ClientStep)
    ensures
        r == (if stop {
            ClientStep::Stop
        } else if code == ERROR_NO_DATA && now_ms < idle_deadline_ms {
            ClientStep::Wait
        } else {
            ClientStep::Disconnect
        }),
{
    if stop {
        ClientStep::Stop
    } else if code == ERROR_NO_DATA && now_ms < idle_deadline_ms {
        ClientStep::Wait
    } else {
        ClientStep::Disconnect
    }
}

/// Why a second launch could not reach the socket.
#[derive(Debug, Clone, Copy, PartialEq, Eq, Structural)]
pub enum SocketFailure {
    NotFound,
    Refused,
    WouldBlock,
    Other,
}

/// What a second launch does after it could not reach the socket. The attempts
/// are numbered from 1.
pub fn after_socket_failure(failure: SocketFailure, attempt: u32) -> (r: OpenStep)
    ensures
        r == (if failure != SocketFailure::Other && attempt < NOTIFY_ATTEMPTS {
            OpenStep::TryAgain
        } else {
            OpenStep::GiveUp
        }),
{
    if failure != SocketFailure::Other && attempt < NOTIFY_ATTEMPTS {
        OpenStep::TryAgain
    } else {
        OpenStep::GiveUp
    }
}

/// The slot after `launches` requests, with none taken in between.
pub open spec fn after_launches(slot: ShowSlot, launches: nat) -> ShowSlot
    decreases launches,
{
    if launches == 0 {
        slot
    } else {
        shown_once_more(after_launches(slot, (launches - 1) as nat))
    }
}

/// However many launches there are, they leave what one of them leaves: a single
/// pending request, after which none is left to take.
pub proof fn a_launch_storm_leaves_one_request(slot: ShowSlot, launches: nat)
    requires
        slot.open,
        launches > 0,
    ensures
        after_launches(slot, launches) == shown_once_more(slot),
        after_launches(slot, launches).pending,
        !emptied(after_launches(slot, launches)).pending,
    decreases launches,
{
    if launches > 1 {
        a_launch_storm_leaves_one_request(slot, (launches - 1) as nat);
    } else {
        assert(after_launches(slot, 0) == slot);
    }
}

/// The six bytes of the authority are one number, the highest byte first.
pub proof fn the_authority_is_one_number(bytes: Seq<u8>)
    ensures
        authority(bytes, 6) == bytes[2] * 1_099_511_627_776 + bytes[3] * 4_294_967_296 + bytes[4]
            * 16_777_216 + bytes[5] * 65_536 + bytes[6] * 256 + bytes[7],
{
    reveal_with_fuel(authority, 7);
}

/// Every further part of an identifier adds its number to the text, four bytes each, the
/// lowest byte first.
pub proof fn parts_follow_one_another(bytes: Seq<u8>, further: Seq<u8>, n: nat)
    requires
        bytes.len() == 8 + 4 * n,
        further.len() == 4,
    ensures
        sub_authorities_text(bytes + further, n as int + 1) == sub_authorities_text(
            bytes,
            n as int,
        ) + ("-"@ + decimal(
            (further[0] + further[1] * 256 + further[2] * 65_536 + further[3] * 16_777_216) as nat,
        )),
{
    let all = bytes + further;
    parts_of_prefix(bytes, all, n as int);
    let at: int = 8 + 4 * n as int;
    assert(all[at] == further[0]);
    assert(all[at + 1] == further[1]);
    assert(all[at + 2] == further[2]);
    assert(all[at + 3] == further[3]);
}

proof fn parts_of_prefix(a: Seq<u8>, b: Seq<u8>, n: int)
    requires
        0 <= n,
        8 + 4 * n <= a.len() <= b.len(),
        forall|i: int| 0 <= i < a.len() ==> a[i] == b[i],
    ensures
        sub_authorities_text(a, n) == sub_authorities_text(b, n),
    decreases n,
{
    if n > 0 {
        parts_of_prefix(a, b, n - 1);
    }
}

} // verus!
