// workspace/i3.rs — i3 / sway IPC framing, socket discovery, the IPC thread's
// decisions and the look of a workspace button.

use vstd::prelude::*;
use vstd::string::StringSliceAdditionalSpecFns;
use vstd::utf8::*;

use crate::util::{chars_of, le_bytes, le_value, string_from_utf8};

verus! {

// ── types ──

/// The message types of the i3 IPC protocol that the bar uses.
#[derive(Clone, Copy, Debug, PartialEq, Eq, Structural)]
pub enum MsgType {
    RunCommand,
    GetWorkspaces,
    Subscribe,
}

/// A workspace as i3 reports it.
#[derive(Debug)]
pub struct Workspace {
    pub name: String,
    pub focused: bool,
    pub visible: bool,
    pub urgent: bool,
}

/// What went wrong with a reply read from the IPC socket.
#[derive(Clone, Copy, Debug, PartialEq, Eq, Structural)]
pub enum IpcError {
    /// The header does not start with `i3-ipc`.
    BadMagic,
    /// The payload is not valid UTF-8.
    BadUtf8,
}

/// The protocol number of a message type.
pub open spec fn msg_code(t: MsgType) -> u32 {
    match t {
        MsgType::RunCommand => 0,
        MsgType::GetWorkspaces => 1,
        MsgType::Subscribe => 2,
    }
}

impl MsgType {
    /// The protocol number of this message type.
    pub fn code(&self) -> (r: u32)
        ensures
            r == msg_code(*self),
    {
        match self {
            MsgType::RunCommand => 0,
            MsgType::GetWorkspaces => 1,
            MsgType::Subscribe => 2,
        }
    }
}

// ── framing ──

/// The bytes `i3-ipc` that open every message.
pub open spec fn i3_magic() -> Seq<u8> {
    seq![105u8, 51u8, 45u8, 105u8, 112u8, 99u8]
}

/// The 14-byte header of a message with a payload of `len` bytes.
pub open spec fn header_bytes(len: u32, code: u32) -> Seq<u8> {
    i3_magic() + le_bytes(len) + le_bytes(code)
}

/// The payload bytes that `send` writes.
pub open spec fn payload_bytes(payload: Option<&str>) -> Seq<u8> {
    match payload {
        Some(p) => p.spec_bytes(),
        None => Seq::empty(),
    }
}

/// The complete message that `send` writes: the header, then the payload.
pub open spec fn message_bytes(t: MsgType, payload: Option<&str>) -> Seq<u8> {
    header_bytes((payload_bytes(payload).len() as usize) as u32, msg_code(t)) + payload_bytes(
        payload,
    )
}

fn push_le(out: &mut Vec<u8>, x: u32)
    ensures
        final(out)@ == old(out)@ + le_bytes(x),
{
    out.push((x % 256) as u8);
    out.push(((x / 256) % 256) as u8);
    out.push(((x / 65536) % 256) as u8);
    out.push(((x / 16777216) % 256) as u8);
    assert(final(out)@ =~= old(out)@ + le_bytes(x));
}

/// The bytes of an IPC message of type `msg_type` carrying `payload`, ready to be written
/// to the socket.
pub fn encode_message(msg_type: MsgType, payload: Option<&str>) -> (r: Vec<u8>)
    ensures
        r@ == message_bytes(msg_type, payload),
{
    let len: u32 = match payload {
        Some(s) => s.len() as u32,
        None => 0,
    };
    let mut out: Vec<u8> = Vec::new();
    out.push(105u8);
    out.push(51u8);
    out.push(45u8);
    out.push(105u8);
    out.push(112u8);
    out.push(99u8);
    assert(out@ =~= i3_magic());
    push_le(&mut out, len);
    push_le(&mut out, msg_type.code());
    let ghost head = out@;
    assert(head =~= header_bytes(len, msg_code(msg_type)));
    if let Some(p) = payload {
        let bytes = p.as_bytes();
        let n = bytes.len();
        for i in 0..n
            invariant
                n == bytes@.len(),
                out@ == head + bytes@.subrange(0, i as int),
        {
            out.push(bytes[i]);
            assert(out@ =~= head + bytes@.subrange(0, i + 1));
        }
        assert(bytes@.subrange(0, n as int) =~= bytes@);
    } else {
        assert(out@ =~= head + Seq::<u8>::empty());
    }
    out
}

/// The payload length and the message type that a reply header announces.
pub open spec fn header_fields(hdr: Seq<u8>) -> (int, int) {
    (le_value(hdr.subrange(6, 10)), le_value(hdr.subrange(10, 14)))
}

/// Reads the 14-byte header of a reply: `Ok((payload length, message type))` when it opens
/// with `i3-ipc`, else `Err(BadMagic)`.
pub fn parse_header(hdr: &[u8; 14]) -> (r: Result<(u32, u32), IpcError>)
    ensures
        r is Ok <==> hdr@.subrange(0, 6) == i3_magic(),
        r is Err ==> r == Err::<(u32, u32), IpcError>(IpcError::BadMagic),
        r matches Ok((len, ty)) ==> len as int == header_fields(hdr@).0 && ty as int
            == header_fields(hdr@).1,
{
    if !(hdr[0] == 105u8 && hdr[1] == 51u8 && hdr[2] == 45u8 && hdr[3] == 105u8 && hdr[4]
        == 112u8 && hdr[5] == 99u8) {
        proof {
            if hdr@.subrange(0, 6) == i3_magic() {
                assert(hdr@[0] == hdr@.subrange(0, 6)[0]);
                assert(hdr@[1] == hdr@.subrange(0, 6)[1]);
                assert(hdr@[2] == hdr@.subrange(0, 6)[2]);
                assert(hdr@[3] == hdr@.subrange(0, 6)[3]);
                assert(hdr@[4] == hdr@.subrange(0, 6)[4]);
                assert(hdr@[5] == hdr@.subrange(0, 6)[5]);
            }
        }
        return Err(IpcError::BadMagic);
    }
    assert(hdr@.subrange(0, 6) =~= i3_magic());
    let len = hdr[6] as u32 + (hdr[7] as u32) * 256 + (hdr[8] as u32) * 65536 + (hdr[9] as u32)
        * 16777216;
    let ty = hdr[10] as u32 + (hdr[11] as u32) * 256 + (hdr[12] as u32) * 65536 + (hdr[13] as u32)
        * 16777216;
    Ok((len, ty))
}

/// Turns a reply's payload into text: `Ok((msg_type, text))` when the payload is valid
/// UTF-8, else `Err(BadUtf8)`.
pub fn decode_body(msg_type: u32, body: Vec<u8>) -> (r: Result<(u32, String), IpcError>)
    ensures
        r is Ok <==> valid_utf8(body@),
        r is Err ==> r matches Err(IpcError::BadUtf8),
        r matches Ok((t, s)) ==> t == msg_type && s@ == decode_utf8(body@),
{
    match string_from_utf8(body) {
        Some(s) => Ok((msg_type, s)),
        None => Err(IpcError::BadUtf8),
    }
}

// ── socket discovery ──

/// Whether `s` begins with `p`.
pub open spec fn starts_with(s: Seq<char>, p: Seq<char>) -> bool {
    p.len() <= s.len() && s.subrange(0, p.len() as int) == p
}

/// Whether a directory entry names an i3 IPC socket.
pub open spec fn is_socket_entry(name: Seq<char>) -> bool {
    starts_with(name, "ipc-socket."@)
}

/// Whether `s` begins with `p`.
pub fn has_prefix(s: &str, p: &str) -> (r: bool)
    ensures
        r == starts_with(s@, p@),
{
    let sc = chars_of(s);
    let pc = chars_of(p);
    if pc.len() > sc.len() {
        return false;
    }
    let n = pc.len();
    for i in 0..n
        invariant
            n == pc@.len() <= sc@.len(),
            sc@ == s@,
            pc@ == p@,
            sc@.subrange(0, i as int) == pc@.subrange(0, i as int),
    {
        if sc[i] != pc[i] {
            assert(sc@.subrange(0, n as int)[i as int] == sc@[i as int]);
            return false;
        }
        assert(sc@.subrange(0, i + 1) =~= pc@.subrange(0, i + 1));
    }
    assert(pc@.subrange(0, n as int) =~= pc@);
    true
}

/// The directory in which i3 keeps its sockets under the runtime directory `rt`.
pub fn socket_dir(rt: &str) -> (r: String)
    ensures
        r@ == rt@ + "/i3"@,
{
    let mut p = String::new();
    p.append(rt);
    p.append("/i3");
    assert(p@ =~= rt@ + "/i3"@);
    p
}

/// The IPC socket to connect to: `$I3SOCK`, else `$SWAYSOCK`, else the first entry of
/// `$XDG_RUNTIME_DIR/i3` whose name starts with `ipc-socket.`, as a path.
/// `entries` are the names in that directory, in the order in which it lists them.
pub fn find_socket(
    i3sock: Option<String>,
    swaysock: Option<String>,
    runtime_dir: Option<String>,
    entries: &Vec<String>,
) -> (r: Option<String>)
    ensures
        i3sock is Some ==> r == i3sock,
        i3sock is None && swaysock is Some ==> r == swaysock,
        i3sock is None && swaysock is None && runtime_dir is None ==> r is None,
        i3sock is None && swaysock is None && runtime_dir is Some ==> (r is Some <==> exists|k: int|
            0 <= k < entries@.len() && is_socket_entry(#[trigger] entries@[k]@)),
        i3sock is None && swaysock is None && runtime_dir is Some ==> (r matches Some(p) ==> exists|
            k: int,
        |
            0 <= k < entries@.len() && is_socket_entry(#[trigger] entries@[k]@) && (forall|j: int|
                0 <= j < k ==> !is_socket_entry(#[trigger] entries@[j]@)) && p@ == runtime_dir->0@
                + "/i3/"@ + entries@[k]@),
{
    if let Some(s) = i3sock {
        return Some(s);
    }
    if let Some(s) = swaysock {
        return Some(s);
    }
    if let Some(rt) = runtime_dir {
        let n = entries.len();
        for i in 0..n
            invariant
                n == entries@.len(),
                i3sock is None,
                swaysock is None,
                runtime_dir == Some(rt),
                forall|j: int| 0 <= j < i ==> !is_socket_entry(#[trigger] entries@[j]@),
        {
            if has_prefix(entries[i].as_str(), "ipc-socket.") {
                let mut p = String::new();
                p.append(rt.as_str());
                p.append("/i3/");
                p.append(entries[i].as_str());
                assert(p@ =~= rt@ + "/i3/"@ + entries@[i as int]@);
                return Some(p);
            }
        }
    }
    None
}

// ── the IPC thread ──

/// What the IPC thread waits for next.
#[derive(Clone, Copy, Debug, PartialEq, Eq, Structural)]
pub enum IpcPhase {
    /// A workspace event from the subscription.
    AwaitEvent,
    /// The reply to a workspace request.
    AwaitReply,
}

/// What the IPC thread does next.
#[derive(Debug)]
pub enum IpcAction {
    /// Send a `GetWorkspaces` request.
    RequestWorkspaces,
    /// Parse this workspace list and hand it to the bar.
    Publish(String),
    /// Go on reading.
    Continue,
    /// The socket failed: end the thread.
    Stop,
}

/// The IPC thread's step: given what it waits for and what the socket gave (`None` when a
/// read failed), what it waits for next and what it does. An event asks for the workspace
/// list; a reply is handed to the bar; a failed event read ends the thread; a failed reply
/// read goes back to waiting for events.
pub fn ipc_step(phase: IpcPhase, received: Option<String>) -> (r: (IpcPhase, IpcAction))
    ensures
        phase == IpcPhase::AwaitEvent && received is Some ==> r.0 == IpcPhase::AwaitReply
            && r.1 is RequestWorkspaces,
        phase == IpcPhase::AwaitEvent && received is None ==> r.0 == IpcPhase::AwaitEvent
            && r.1 is Stop,
        phase == IpcPhase::AwaitReply && received is Some ==> r.0 == IpcPhase::AwaitEvent
            && r.1 == IpcAction::Publish(received->0),
        phase == IpcPhase::AwaitReply && received is None ==> r.0 == IpcPhase::AwaitEvent
            && r.1 is Continue,
{
    match phase {
        IpcPhase::AwaitEvent => match received {
            Some(_) => (IpcPhase::AwaitReply, IpcAction::RequestWorkspaces),
            None => (IpcPhase::AwaitEvent, IpcAction::Stop),
        },
        IpcPhase::AwaitReply => match received {
            Some(reply) => (IpcPhase::AwaitEvent, IpcAction::Publish(reply)),
            None => (IpcPhase::AwaitEvent, IpcAction::Continue),
        },
    }
}

// ── the look of a button ──

/// How a workspace button is drawn.
#[derive(Clone, Copy, Debug, PartialEq, Eq, Structural)]
pub enum ButtonStyle {
    /// Filled with the focus colour.
    Focused,
    /// Filled with the urgent colour.
    Urgent,
    /// Underlined.
    Visible,
    /// Text only.
    Plain,
}

/// The style of a workspace's button: focus wins over urgency, urgency over visibility.
pub open spec fn style_of(focused: bool, urgent: bool, visible: bool) -> ButtonStyle {
    if focused {
        ButtonStyle::Focused
    } else if urgent {
        ButtonStyle::Urgent
    } else if visible {
        ButtonStyle::Visible
    } else {
        ButtonStyle::Plain
    }
}

/// The style in which the button of `w` is drawn.
pub fn button_style(w: &Workspace) -> (r: ButtonStyle)
    ensures
        r == style_of(w.focused, w.urgent, w.visible),
        w.focused ==> r == ButtonStyle::Focused,
        !w.focused && w.urgent ==> r == ButtonStyle::Urgent,
        !w.focused && !w.urgent && w.visible ==> r == ButtonStyle::Visible,
        !w.focused && !w.urgent && !w.visible ==> r == ButtonStyle::Plain,
{
    if w.focused {
        ButtonStyle::Focused
    } else if w.urgent {
        ButtonStyle::Urgent
    } else if w.visible {
        ButtonStyle::Visible
    } else {
        ButtonStyle::Plain
    }
}

// ── laws ──

/// The four little-endian bytes of a number spell that number again.
pub proof fn lemma_le_roundtrip(x: u32)
    ensures
        le_value(le_bytes(x)) == x,
{
    let b = le_bytes(x);
    assert(b[0] == x % 256);
    assert(b[1] == (x / 256) % 256);
    assert(b[2] == (x / 65536) % 256);
    assert(b[3] == (x / 16777216) % 256);
    assert(x % 256 + ((x / 256) % 256) * 256 + ((x / 65536) % 256) * 65536 + ((x / 16777216)
        % 256) * 16777216 == x) by (bit_vector);
}

/// What `encode_message` writes opens with a header that `parse_header` accepts and reads as
/// the payload's length (taken modulo 2^32) and the message type.
pub proof fn lemma_header_roundtrip(t: MsgType, payload: Option<&str>)
    ensures
        message_bytes(t, payload).subrange(0, 6) == i3_magic(),
        header_fields(message_bytes(t, payload).subrange(0, 14)) == (
            ((payload_bytes(payload).len() as usize) as u32) as int,
            msg_code(t) as int,
        ),
{
    let len = (payload_bytes(payload).len() as usize) as u32;
    let code = msg_code(t);
    let msg = message_bytes(t, payload);
    let h = header_bytes(len, code);
    assert(msg.subrange(0, 14) =~= h);
    assert(msg.subrange(0, 6) =~= i3_magic());
    assert(h.subrange(6, 10) =~= le_bytes(len));
    assert(h.subrange(10, 14) =~= le_bytes(code));
    lemma_le_roundtrip(len);
    lemma_le_roundtrip(code);
}

/// A whole message comes back as it was sent: after the header that `parse_header` accepts,
/// whose length field is the payload's byte length (when that fits in 32 bits), the rest of
/// the message is that many bytes, valid UTF-8, and decodes to the payload's text (empty when
/// there is none).
pub proof fn lemma_message_roundtrip(t: MsgType, payload: Option<&str>)
    requires
        payload_bytes(payload).len() <= u32::MAX,
    ensures
        ({
            let msg = message_bytes(t, payload);
            let len = header_fields(msg.subrange(0, 14)).0;
            let body = msg.subrange(14, msg.len() as int);
            &&& msg.subrange(0, 6) == i3_magic()
            &&& header_fields(msg.subrange(0, 14)).1 == msg_code(t)
            &&& len == body.len()
            &&& valid_utf8(body)
            &&& decode_utf8(body) == match payload {
                Some(p) => p@,
                None => Seq::<char>::empty(),
            }
        }),
{
    lemma_header_roundtrip(t, payload);
    let msg = message_bytes(t, payload);
    let pb = payload_bytes(payload);
    let n = pb.len();
    assert((n as usize) as u32 == n);
    assert(msg.subrange(14, msg.len() as int) =~= pb);
    match payload {
        Some(p) => {
            encode_utf8_valid_utf8(p@);
            encode_utf8_decode_utf8(p@);
        },
        None => {
            assert(pb =~= encode_utf8(Seq::<char>::empty()));
            encode_utf8_valid_utf8(Seq::<char>::empty());
            encode_utf8_decode_utf8(Seq::<char>::empty());
        },
    }
}

/// Each flag of a workspace shows in its button, the stronger one winning: a focused
/// workspace is drawn focused whatever else holds; an urgent one that is not focused is drawn
/// urgent whether or not it is visible; a visible one that is neither is underlined; and only
/// a workspace with none of the three flags is drawn plain.
pub proof fn lemma_style_priority(focused: bool, urgent: bool, visible: bool)
    ensures
        focused ==> style_of(focused, urgent, visible) == ButtonStyle::Focused,
        !focused && urgent ==> style_of(focused, urgent, visible) == ButtonStyle::Urgent,
        !focused && !urgent && visible ==> style_of(focused, urgent, visible)
            == ButtonStyle::Visible,
        (style_of(focused, urgent, visible) == ButtonStyle::Plain) <==> (!focused && !urgent
            && !visible),
{
}

} // verus!
