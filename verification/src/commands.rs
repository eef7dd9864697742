//! Command dispatch: one inbound frame in, registry updates and outbound
//! messages out.
//!
//! Dispatch is stateless across frames; all shared state lives in the
//! [`Registry`]. Each handler returns the exact messages to deliver, in
//! slot-index order, as [`OutMsg`] values; the transport layer performs the
//! writes. A send failure at one recipient is that recipient's problem, so
//! delivery never appears in these contracts.

use vstd::prelude::*;
use vstd::string::StrSliceExecFns;
use vstd::string::StringSliceAdditionalSpecFns;

use crate::registry::Registry;
use crate::registry::pad_name;
use crate::tokenizer::check_cmd_chars;
use crate::tokenizer::first_token_bytes;
use crate::tokenizer::first_token_chars;
use crate::tokenizer::first_word;
use crate::tokenizer::first_word_u8;
use crate::tokenizer::is_frame_ws_char;
use crate::tokenizer::lemma_find_from_is;
use crate::tokenizer::lemma_trim_end_is;
use crate::tokenizer::second_word_bytes;
use crate::tokenizer::second_word_u8;
use crate::tokenizer::trimmed_chars;

verus! {

/// Signals that the session must terminate because its client left the
/// chat; carries the (padded) name the client had registered, or nothing
/// if it never registered one.
#[derive(Debug)]
pub struct ClientLeavedError {
    details: Vec<u8>,
}

impl ClientLeavedError {
    /// The bytes this error carries.
    pub closed spec fn spec_details(&self) -> Seq<u8> {
        self.details@
    }

    /// An error carrying the given message.
    pub fn new(msg: &str) -> (e: ClientLeavedError)
        ensures
            e.spec_details() == msg.spec_bytes(),
    {
        ClientLeavedError { details: msg.as_bytes_vec() }
    }

    /// An error carrying a departed client's (padded) name.
    pub fn from_name(name: Vec<u8>) -> (e: ClientLeavedError)
        ensures
            e.spec_details() == name@,
    {
        ClientLeavedError { details: name }
    }

    /// The bytes this error carries.
    pub fn details_bytes(&self) -> (r: &[u8])
        ensures
            r@ == self.spec_details(),
    {
        self.details.as_slice()
    }
}

/// One outbound message: `bytes` to be written to the connection `conn`
/// occupying slot `slot` at the time the message was produced.
pub struct OutMsg {
    /// Index of the recipient's slot.
    pub slot: usize,
    /// The recipient's connection handle, as the registry held it.
    pub conn: u64,
    /// The exact bytes to write.
    pub bytes: Vec<u8>,
}

impl OutMsg {
    /// The message as a mathematical triple.
    pub open spec fn model(&self) -> (int, u64, Seq<u8>) {
        (self.slot as int, self.conn, self.bytes@)
    }
}

/// The models of a sequence of outbound messages.
pub open spec fn msg_models(v: Seq<OutMsg>) -> Seq<(int, u64, Seq<u8>)> {
    v.map_values(|m: OutMsg| m.model())
}

/// Whether the leading word of the frame is the given keyword, byte for
/// byte.
pub open spec fn is_cmd_bytes(input: Seq<u8>, kw: Seq<u8>) -> bool {
    first_token_bytes(input) == kw
}

/// The frame is a JOIN command.
pub open spec fn frame_is_join(s: Seq<u8>) -> bool {
    is_cmd_bytes(s, "JOIN".spec_bytes())
}

/// The frame is a VERSION command.
pub open spec fn frame_is_version(s: Seq<u8>) -> bool {
    is_cmd_bytes(s, "VERSION".spec_bytes())
}

/// The frame is a WHO command.
pub open spec fn frame_is_who(s: Seq<u8>) -> bool {
    is_cmd_bytes(s, "WHO".spec_bytes())
}

/// The frame is a LEAVE command.
pub open spec fn frame_is_leave(s: Seq<u8>) -> bool {
    is_cmd_bytes(s, "LEAVE".spec_bytes())
}

/// The line terminator appended to every reply and notice.
pub open spec fn line_end() -> Seq<u8> {
    seq![10u8]
}

/// The fixed version string sent in reply to VERSION.
pub open spec fn version_text() -> Seq<u8> {
    "Simple Rust Chat Server v0.1\n".spec_bytes()
}

/// The system notice broadcast when `name` joins.
pub open spec fn join_notice(name: Seq<u8>) -> Seq<u8> {
    name + " has joined the chat".spec_bytes()
}

/// The system notice broadcast when `name` leaves.
pub open spec fn leave_notice(name: Seq<u8>) -> Seq<u8> {
    name + " has left the chat".spec_bytes()
}

/// A chat message as relayed: the sender's (padded) name in brackets,
/// then the raw frame.
pub open spec fn chat_line(name: Seq<u8>, msg: Seq<u8>) -> Seq<u8> {
    "[".spec_bytes() + name + "] ".spec_bytes() + msg
}

/// Appends all of `src` to `dst`.
fn push_bytes(dst: &mut Vec<u8>, src: &[u8])
    ensures
        final(dst)@ == old(dst)@ + src@,
{
    let ghost dst0 = old(dst)@;
    let n: usize = src.len();
    let mut i: usize = 0;
    while i < n
        invariant
            i <= n,
            n == src@.len(),
            dst@ == dst0 + src@.subrange(0, i as int),
        decreases n - i,
    {
        dst.push(src[i]);
        proof {
            assert(dst@ =~= dst0 + src@.subrange(0, i + 1));
        }
        i = i + 1;
    }
    proof {
        assert(dst0 + src@.subrange(0, n as int) =~= dst0 + src@);
    }
}

/// Whether two byte strings are equal.
fn bytes_eq(x: &[u8], y: &[u8]) -> (r: bool)
    ensures
        r == (x@ == y@),
{
    let n: usize = x.len();
    if y.len() != n {
        return false;
    }
    let mut i: usize = 0;
    while i < n
        invariant
            i <= n,
            n == x@.len() == y@.len(),
            forall|j: int| 0 <= j < i ==> x@[j] == y@[j],
        decreases n - i,
    {
        if x[i] != y[i] {
            return false;
        }
        i = i + 1;
    }
    proof {
        assert(x@ =~= y@);
    }
    true
}

/// Whether the characters of `x` in `[a, b)` equal the whole of `y`.
fn str_range_eq(x: &str, a: usize, b: usize, y: &str) -> (r: bool)
    requires
        a <= b <= x@.len(),
    ensures
        r == (x@.subrange(a as int, b as int) == y@),
{
    let m: usize = y.unicode_len();
    if b - a != m {
        return false;
    }
    let mut i: usize = 0;
    while i < m
        invariant
            i <= m,
            m == b - a,
            a <= b <= x@.len(),
            m == y@.len(),
            forall|j: int| 0 <= j < i ==> x@[a + j] == y@[j],
        decreases m - i,
    {
        if x.get_char(a + i) != y.get_char(i) {
            proof {
                assert(x@.subrange(a as int, b as int)[i as int] == x@[a + i]);
            }
            return false;
        }
        i = i + 1;
    }
    proof {
        assert(x@.subrange(a as int, b as int) =~= y@);
    }
    true
}

/// Whether the leading word of `input` is `command` with its surrounding
/// frame whitespace trimmed away. Every fixed keyword is matched this way,
/// case-sensitively.
pub fn check_command(command: &str, input: &str) -> (r: bool)
    ensures
        r == check_cmd_chars(command@, input@),
{
    let nc: usize = command.unicode_len();
    let mut a: usize = 0;
    while a < nc && crate::tokenizer::frame_ws_char(command.get_char(a))
        invariant
            a <= nc,
            nc == command@.len(),
            forall|j: int| 0 <= j < a ==> is_frame_ws_char(command@[j]),
        decreases nc - a,
    {
        a = a + 1;
    }
    proof {
        lemma_find_from_is(command@, 0, a as int, |c: char| !is_frame_ws_char(c));
    }
    let token = first_word(input);
    if a == nc {
        // an all-whitespace keyword trims to nothing and matches only an
        // empty leading word
        let r = token.unicode_len() == 0;
        proof {
            if token@.len() == 0 {
                assert(trimmed_chars(command@) =~= first_token_chars(input@));
            }
        }
        return r;
    }
    let mut e: usize = nc;
    while e > a && crate::tokenizer::frame_ws_char(command.get_char(e - 1))
        invariant
            a <= e <= nc,
            nc == command@.len(),
            forall|j: int| e <= j < nc ==> is_frame_ws_char(command@[j]),
        decreases e,
    {
        e = e - 1;
    }
    proof {
        if e == a {
            assert(!is_frame_ws_char(command@[a as int]));
            assert(is_frame_ws_char(command@[a as int]));
        }
        lemma_trim_end_is(command@, nc as int, e as int);
    }
    str_range_eq(command, a, e, token)
}

/// Whether the leading word of a frame of bytes is `command`, byte for
/// byte (the keyword's UTF-8 bytes).
pub fn check_command_u8(command: &str, input: &[u8]) -> (r: bool)
    ensures
        r == is_cmd_bytes(input@, command.spec_bytes()),
{
    let token = first_word_u8(input);
    bytes_eq(command.as_bytes(), token)
}

/// Whether the frame is a JOIN command.
pub fn check_join_u8(input: &[u8]) -> (r: bool)
    ensures
        r == frame_is_join(input@),
{
    check_command_u8("JOIN", input)
}

/// Whether the decoded frame is a WHO command.
pub fn check_who(input: &str) -> (r: bool)
    ensures
        r == check_cmd_chars("WHO"@, input@),
{
    check_command("WHO", input)
}

/// Whether the decoded frame is a LEAVE command.
pub fn check_leave(input: &str) -> (r: bool)
    ensures
        r == check_cmd_chars("LEAVE"@, input@),
{
    check_command("LEAVE", input)
}

/// Whether the decoded frame is a VERSION command.
pub fn check_version(input: &str) -> (r: bool)
    ensures
        r == check_cmd_chars("VERSION"@, input@),
{
    check_command("VERSION", input)
}

/// The fan-out of one message body: one `(slot, conn, body)` triple for
/// every slot at or after `i` that is registered, still connected, and is
/// not the excluded (sending) slot, in slot-index order.
pub open spec fn fanout_from(
    names: Seq<Option<Seq<u8>>>,
    conns: Seq<Option<u64>>,
    excl: int,
    body: Seq<u8>,
    i: int,
) -> Seq<(int, u64, Seq<u8>)>
    decreases names.len() - i,
{
    if 0 <= i < names.len() {
        let rest = fanout_from(names, conns, excl, body, i + 1);
        if i != excl && names[i] is Some && conns[i] is Some {
            seq![(i, conns[i]->0, body)] + rest
        } else {
            rest
        }
    } else {
        Seq::empty()
    }
}

/// The fan-out of one message body over the whole registry.
pub open spec fn fanout(
    names: Seq<Option<Seq<u8>>>,
    conns: Seq<Option<u64>>,
    excl: int,
    body: Seq<u8>,
) -> Seq<(int, u64, Seq<u8>)> {
    fanout_from(names, conns, excl, body, 0)
}

/// The WHO reply: one line per registered slot at or after `i`, each
/// carrying that slot's (padded) name, all addressed to the asking slot
/// `to` over its connection `to_conn`, in slot-index order.
pub open spec fn who_replies_from(
    names: Seq<Option<Seq<u8>>>,
    to: int,
    to_conn: u64,
    i: int,
) -> Seq<(int, u64, Seq<u8>)>
    decreases names.len() - i,
{
    if 0 <= i < names.len() {
        let rest = who_replies_from(names, to, to_conn, i + 1);
        if names[i] is Some {
            seq![(to, to_conn, names[i]->0 + line_end())] + rest
        } else {
            rest
        }
    } else {
        Seq::empty()
    }
}

/// Builds the one message that delivers `message`, followed by the line
/// terminator, to the client at slot `index` — or nothing, if that slot no
/// longer holds a connection.
pub fn send_msg_to_ith_client(message: &[u8], index: usize, reg: &Registry) -> (r: Option<OutMsg>)
    requires
        reg.wf(),
        index < reg.slot_count(),
    ensures
        (r is Some <==> reg.conn_at(index as int) is Some),
        (r is Some ==> r->0.model() == (
            index as int,
            reg.conn_at(index as int)->0,
            message@ + line_end(),
        )),
{
    match reg.conn(index) {
        Some(c) => {
            let mut bytes: Vec<u8> = Vec::new();
            push_bytes(&mut bytes, message);
            bytes.push(10u8);
            proof {
                assert(bytes@ =~= message@ + line_end());
            }
            Some(OutMsg { slot: index, conn: c, bytes })
        },
        None => None,
    }
}

/// Delivers `message`, line-terminated, to every registered, connected
/// slot other than `client_index`, in slot-index order.
pub fn broadcast_msg_to_other_names(
    message: &[u8],
    client_index: usize,
    reg: &Registry,
) -> (r: Vec<OutMsg>)
    requires
        reg.wf(),
    ensures
        msg_models(r@) == fanout(
            reg.names_model(),
            reg.conns_model(),
            client_index as int,
            message@ + line_end(),
        ),
{
    let ghost body = message@ + line_end();
    let n: usize = reg.capacity();
    let mut out: Vec<OutMsg> = Vec::new();
    let mut i: usize = 0;
    while i < n
        invariant
            i <= n,
            n == reg.slot_count(),
            reg.wf(),
            n == reg.names_model().len(),
            body == message@ + line_end(),
            msg_models(out@) + fanout_from(
                reg.names_model(),
                reg.conns_model(),
                client_index as int,
                body,
                i as int,
            ) == fanout(reg.names_model(), reg.conns_model(), client_index as int, body),
        decreases n - i,
    {
        let ghost pre = msg_models(out@);
        if i != client_index && reg.is_registered(i) {
            proof {
                reg.lemma_name_implies_conn(i as int);
            }
            match send_msg_to_ith_client(message, i, reg) {
                Some(m) => {
                    proof {
                        let step = seq![(i as int, reg.conns_model()[i as int]->0, body)];
                        assert(msg_models(out@.push(m)) =~= pre + step);
                        assert(pre + step + fanout_from(
                            reg.names_model(),
                            reg.conns_model(),
                            client_index as int,
                            body,
                            i + 1,
                        ) =~= pre + (step + fanout_from(
                            reg.names_model(),
                            reg.conns_model(),
                            client_index as int,
                            body,
                            i + 1,
                        )));
                    }
                    out.push(m);
                },
                None => {},
            }
        }
        i = i + 1;
    }
    out
}

/// The chat default: relays the raw frame, prefixed with the sender's
/// bracketed name, to every other registered, connected slot — or nothing
/// at all when the sender has not registered.
pub fn broadcast(message: &[u8], index: usize, reg: &Registry) -> (r: Vec<OutMsg>)
    requires
        reg.wf(),
        index < reg.slot_count(),
    ensures
        (reg.name_at(index as int) matches Some(n) ==> msg_models(r@) == fanout(
            reg.names_model(),
            reg.conns_model(),
            index as int,
            chat_line(n, message@),
        )),
        reg.name_at(index as int) is None ==> r@.len() == 0,
{
    match reg.lookup_name(index) {
        Some(name) => {
            let ghost body = chat_line(name@, message@);
            let mut line: Vec<u8> = Vec::new();
            push_bytes(&mut line, "[".as_bytes());
            push_bytes(&mut line, name.as_slice());
            push_bytes(&mut line, "] ".as_bytes());
            push_bytes(&mut line, message);
            proof {
                assert(line@ =~= body);
            }
            let n: usize = reg.capacity();
            let mut out: Vec<OutMsg> = Vec::new();
            let mut i: usize = 0;
            while i < n
                invariant
                    i <= n,
                    n == reg.slot_count(),
                    reg.wf(),
                    line@ == body,
                    msg_models(out@) + fanout_from(
                        reg.names_model(),
                        reg.conns_model(),
                        index as int,
                        body,
                        i as int,
                    ) == fanout(reg.names_model(), reg.conns_model(), index as int, body),
                decreases n - i,
            {
                let ghost pre = msg_models(out@);
                if i != index && reg.is_registered(i) {
                    match reg.conn(i) {
                        Some(c) => {
                            let m = OutMsg { slot: i, conn: c, bytes: clone_vec_u8(&line) };
                            proof {
                                let step = seq![(i as int, c, body)];
                                assert(msg_models(out@.push(m)) =~= pre + step);
                                assert(pre + step + fanout_from(
                                    reg.names_model(),
                                    reg.conns_model(),
                                    index as int,
                                    body,
                                    i + 1,
                                ) =~= pre + (step + fanout_from(
                                    reg.names_model(),
                                    reg.conns_model(),
                                    index as int,
                                    body,
                                    i + 1,
                                )));
                            }
                            out.push(m);
                        },
                        None => {},
                    }
                }
                i = i + 1;
            }
            out
        },
        None => Vec::new(),
    }
}

/// VERSION: replies to the asking client alone with the fixed version
/// string — or not at all when the asker has not registered. The registry
/// is read, never changed.
pub fn handle_version(index: usize, reg: &Registry) -> (r: Vec<OutMsg>)
    requires
        reg.wf(),
        index < reg.slot_count(),
    ensures
        reg.name_at(index as int) is Some ==> msg_models(r@) == seq![
            (index as int, reg.conn_at(index as int)->0, version_text() + line_end()),
        ],
        reg.name_at(index as int) is None ==> r@.len() == 0,
{
    let mut out: Vec<OutMsg> = Vec::new();
    if reg.is_registered(index) {
        proof {
            reg.lemma_name_implies_conn(index as int);
        }
        match send_msg_to_ith_client("Simple Rust Chat Server v0.1\n".as_bytes(), index, reg) {
            Some(m) => {
                out.push(m);
                proof {
                    assert(msg_models(out@) =~= seq![
                        (index as int, reg.conn_at(index as int)->0, version_text() + line_end()),
                    ]);
                }
            },
            None => {},
        }
    }
    out
}

/// WHO: replies to the asking client alone, one line per registered slot
/// (the asker's own included), each carrying that slot's padded name, in
/// slot-index order — or not at all when the asker has not registered.
/// The snapshot is consistent: it reflects one state of the registry.
pub fn handle_who(index: usize, reg: &Registry) -> (r: Vec<OutMsg>)
    requires
        reg.wf(),
        index < reg.slot_count(),
    ensures
        reg.name_at(index as int) is Some ==> msg_models(r@) == who_replies_from(
            reg.names_model(),
            index as int,
            reg.conn_at(index as int)->0,
            0,
        ),
        reg.name_at(index as int) is None ==> r@.len() == 0,
{
    let mut out: Vec<OutMsg> = Vec::new();
    if !is_user_registered(index, reg) {
        return out;
    }
    proof {
        reg.lemma_name_implies_conn(index as int);
    }
    let to_conn: u64 = match reg.conn(index) {
        Some(c) => c,
        None => 0,
    };
    let n: usize = reg.capacity();
    let mut i: usize = 0;
    while i < n
        invariant
            i <= n,
            n == reg.slot_count(),
            reg.wf(),
            index < n,
            to_conn == reg.conn_at(index as int)->0,
            msg_models(out@) + who_replies_from(
                reg.names_model(),
                index as int,
                to_conn,
                i as int,
            ) == who_replies_from(reg.names_model(), index as int, to_conn, 0),
        decreases n - i,
    {
        let ghost pre = msg_models(out@);
        match reg.lookup_name(i) {
            Some(name) => {
                let mut bytes = name;
                bytes.push(10u8);
                let m = OutMsg { slot: index, conn: to_conn, bytes };
                proof {
                    let step = seq![
                        (index as int, to_conn, reg.names_model()[i as int]->0 + line_end()),
                    ];
                    assert(m.bytes@ =~= reg.names_model()[i as int]->0 + line_end());
                    assert(msg_models(out@.push(m)) =~= pre + step);
                    assert(pre + step + who_replies_from(
                        reg.names_model(),
                        index as int,
                        to_conn,
                        i + 1,
                    ) =~= pre + (step + who_replies_from(
                        reg.names_model(),
                        index as int,
                        to_conn,
                        i + 1,
                    )));
                }
                out.push(m);
            },
            None => {},
        }
        i = i + 1;
    }
    out
}

/// JOIN: registers the requested name — truncated and zero-padded — at the
/// sender's slot and announces the arrival to every other registered
/// client. A JOIN from an already-registered client is silently ignored,
/// as is one that names no name. The sender's slot must still be occupied;
/// no other slot changes either way.
pub fn handle_join(input: &[u8], index: usize, reg: &mut Registry) -> (r: Vec<OutMsg>)
    requires
        old(reg).wf(),
        index < old(reg).slot_count(),
        old(reg).conn_at(index as int) is Some,
    ensures
        final(reg).wf(),
        final(reg).slot_count() == old(reg).slot_count(),
        final(reg).conns_model() == old(reg).conns_model(),
        old(reg).name_at(index as int) is Some ==> (final(reg).names_model() == old(reg).names_model()
            && r@.len() == 0),
        (old(reg).name_at(index as int) is None && second_word_bytes(input@) is None) ==> (
        final(reg).names_model() == old(reg).names_model() && r@.len() == 0),
        old(reg).name_at(index as int) is None ==> (second_word_bytes(input@) matches Some(w) ==> {
            &&& final(reg).names_model() == old(reg).names_model().update(
                index as int,
                Some(pad_name(w)),
            )
            &&& msg_models(r@) == fanout(
                final(reg).names_model(),
                final(reg).conns_model(),
                index as int,
                join_notice(pad_name(w)) + line_end(),
            )
        }),
{
    if is_user_registered(index, reg) {
        return Vec::new();
    }
    match second_word_u8(input) {
        Some(word) => {
            reg.set_name(index, word);
            let name = crate::registry::padded_name(word);
            let mut notice: Vec<u8> = Vec::new();
            push_bytes(&mut notice, name.as_slice());
            push_bytes(&mut notice, " has joined the chat".as_bytes());
            proof {
                assert(notice@ =~= join_notice(pad_name(word@)));
            }
            broadcast_msg_to_other_names(notice.as_slice(), index, reg)
        },
        None => Vec::new(),
    }
}

/// LEAVE: announces the departure to every other registered client (when
/// the sender had registered), then releases the slot — both fields
/// cleared, the connection handle handed back for closing — and signals
/// the session to terminate. An unregistered sender's slot is released
/// without a notice. No other slot changes.
pub fn handle_leave(index: usize, reg: &mut Registry) -> (r: (
    Vec<OutMsg>,
    Option<u64>,
    Result<(), ClientLeavedError>,
))
    requires
        old(reg).wf(),
        index < old(reg).slot_count(),
    ensures
        final(reg).wf(),
        final(reg).slot_count() == old(reg).slot_count(),
        final(reg).names_model() == old(reg).names_model().update(index as int, None),
        final(reg).conns_model() == old(reg).conns_model().update(index as int, None),
        r.1 == old(reg).conn_at(index as int),
        r.2 is Err,
        old(reg).name_at(index as int) matches Some(n) ==> {
            &&& msg_models(r.0@) == fanout(
                old(reg).names_model(),
                old(reg).conns_model(),
                index as int,
                leave_notice(n) + line_end(),
            )
            &&& (r.2 matches Err(e) && e.spec_details() == n)
        },
        old(reg).name_at(index as int) is None ==> r.0@.len() == 0 && (r.2 matches Err(e)
            && e.spec_details().len() == 0),
{
    match reg.lookup_name(index) {
        Some(name) => {
            let mut notice: Vec<u8> = Vec::new();
            push_bytes(&mut notice, name.as_slice());
            push_bytes(&mut notice, " has left the chat".as_bytes());
            proof {
                assert(notice@ =~= leave_notice(old(reg).name_at(index as int)->0));
            }
            let msgs = broadcast_msg_to_other_names(notice.as_slice(), index, reg);
            let closed = reg.release(index);
            (msgs, closed, Err(ClientLeavedError::from_name(name)))
        },
        None => {
            let closed = reg.release(index);
            (Vec::new(), closed, Err(ClientLeavedError::from_name(Vec::new())))
        },
    }
}

/// The frame is none of the four commands and falls through to the chat
/// default.
pub open spec fn frame_is_chat(s: Seq<u8>) -> bool {
    &&& !frame_is_join(s)
    &&& !frame_is_version(s)
    &&& !frame_is_who(s)
    &&& !frame_is_leave(s)
}

/// One operation from slot `i` touches at most slot `i`: every other
/// slot's name/connection pair is exactly what it was before.
pub open spec fn touches_only(
    names0: Seq<Option<Seq<u8>>>,
    conns0: Seq<Option<u64>>,
    names1: Seq<Option<Seq<u8>>>,
    conns1: Seq<Option<u64>>,
    i: int,
) -> bool {
    &&& names1.len() == names0.len()
    &&& conns1.len() == conns0.len()
    &&& forall|j: int| 0 <= j < names0.len() && j != i ==> names1[j] == names0[j]
    &&& forall|j: int| 0 <= j < conns0.len() && j != i ==> conns1[j] == conns0[j]
}

/// No cross-slot interference: two dispatches from two other slots, one
/// after the other, leave a third slot's name/connection pair exactly as
/// it was.
pub proof fn lemma_no_cross_slot_interference(
    names0: Seq<Option<Seq<u8>>>,
    conns0: Seq<Option<u64>>,
    names1: Seq<Option<Seq<u8>>>,
    conns1: Seq<Option<u64>>,
    names2: Seq<Option<Seq<u8>>>,
    conns2: Seq<Option<u64>>,
    a: int,
    b: int,
    c: int,
)
    requires
        touches_only(names0, conns0, names1, conns1, a),
        touches_only(names1, conns1, names2, conns2, b),
        0 <= c < names0.len(),
        0 <= c < conns0.len(),
        c != a,
        c != b,
    ensures
        names2[c] == names0[c],
        conns2[c] == conns0[c],
{
}

/// The four keywords encode to byte strings of four distinct lengths, so a
/// leading word can match at most one of them.
proof fn lemma_keyword_lengths()
    ensures
        "JOIN".spec_bytes().len() == 4,
        "VERSION".spec_bytes().len() == 7,
        "WHO".spec_bytes().len() == 3,
        "LEAVE".spec_bytes().len() == 5,
{
    reveal_strlit("JOIN");
    reveal_strlit("VERSION");
    reveal_strlit("WHO");
    reveal_strlit("LEAVE");
    assert(vstd::utf8::is_ascii_chars("JOIN"@));
    assert(vstd::utf8::is_ascii_chars("VERSION"@));
    assert(vstd::utf8::is_ascii_chars("WHO"@));
    assert(vstd::utf8::is_ascii_chars("LEAVE"@));
    vstd::utf8::is_ascii_chars_encode_utf8("JOIN"@);
    vstd::utf8::is_ascii_chars_encode_utf8("VERSION"@);
    vstd::utf8::is_ascii_chars_encode_utf8("WHO"@);
    vstd::utf8::is_ascii_chars_encode_utf8("LEAVE"@);
}

/// Routes one inbound frame: JOIN, VERSION, WHO and LEAVE by their leading
/// keyword, in that order, anything else to the chat default. Returns the
/// messages to deliver, the connection handle to close if the sender's
/// slot was released, and `Err` exactly when the session must terminate
/// (only LEAVE does that). The sender's slot must still be occupied.
pub fn handle_commands(input: &[u8], index: usize, reg: &mut Registry) -> (r: (
    Vec<OutMsg>,
    Option<u64>,
    Result<(), ClientLeavedError>,
))
    requires
        old(reg).wf(),
        index < old(reg).slot_count(),
        old(reg).conn_at(index as int) is Some,
    ensures
        final(reg).wf(),
        final(reg).slot_count() == old(reg).slot_count(),
        touches_only(
            old(reg).names_model(),
            old(reg).conns_model(),
            final(reg).names_model(),
            final(reg).conns_model(),
            index as int,
        ),
        r.2 is Err <==> frame_is_leave(input@),
        r.1 is Some ==> frame_is_leave(input@),
        frame_is_join(input@) ==> {
            &&& final(reg).conns_model() == old(reg).conns_model()
            &&& r.1 is None
            &&& (old(reg).name_at(index as int) is Some ==> (final(reg).names_model() == old(
                reg,
            ).names_model() && r.0@.len() == 0))
            &&& (old(reg).name_at(index as int) is None ==> (second_word_bytes(input@) is None
                ==> (final(reg).names_model() == old(reg).names_model() && r.0@.len() == 0)))
            &&& (old(reg).name_at(index as int) is None ==> (second_word_bytes(input@)
                matches Some(w) ==> {
                &&& final(reg).names_model() == old(reg).names_model().update(
                    index as int,
                    Some(pad_name(w)),
                )
                &&& msg_models(r.0@) == fanout(
                    final(reg).names_model(),
                    final(reg).conns_model(),
                    index as int,
                    join_notice(pad_name(w)) + line_end(),
                )
            }))
        },
        (!frame_is_join(input@) && frame_is_version(input@)) ==> {
            &&& final(reg).names_model() == old(reg).names_model()
            &&& final(reg).conns_model() == old(reg).conns_model()
            &&& (old(reg).name_at(index as int) is Some ==> msg_models(r.0@) == seq![
                (index as int, old(reg).conn_at(index as int)->0, version_text() + line_end()),
            ])
            &&& (old(reg).name_at(index as int) is None ==> r.0@.len() == 0)
        },
        (!frame_is_join(input@) && !frame_is_version(input@) && frame_is_who(input@)) ==> {
            &&& final(reg).names_model() == old(reg).names_model()
            &&& final(reg).conns_model() == old(reg).conns_model()
            &&& (old(reg).name_at(index as int) is Some ==> msg_models(r.0@) == who_replies_from(
                old(reg).names_model(),
                index as int,
                old(reg).conn_at(index as int)->0,
                0,
            ))
            &&& (old(reg).name_at(index as int) is None ==> r.0@.len() == 0)
        },
        (!frame_is_join(input@) && !frame_is_version(input@) && !frame_is_who(input@)
            && frame_is_leave(input@)) ==> {
            &&& final(reg).names_model() == old(reg).names_model().update(index as int, None)
            &&& final(reg).conns_model() == old(reg).conns_model().update(index as int, None)
            &&& r.1 == old(reg).conn_at(index as int)
            &&& (old(reg).name_at(index as int) matches Some(n) ==> {
                &&& msg_models(r.0@) == fanout(
                    old(reg).names_model(),
                    old(reg).conns_model(),
                    index as int,
                    leave_notice(n) + line_end(),
                )
                &&& (r.2 matches Err(e) && e.spec_details() == n)
            })
            &&& (old(reg).name_at(index as int) is None ==> r.0@.len() == 0)
        },
        frame_is_chat(input@) ==> {
            &&& final(reg).names_model() == old(reg).names_model()
            &&& final(reg).conns_model() == old(reg).conns_model()
            &&& (old(reg).name_at(index as int) matches Some(n) ==> msg_models(r.0@) == fanout(
                old(reg).names_model(),
                old(reg).conns_model(),
                index as int,
                chat_line(n, input@),
            ))
            &&& (old(reg).name_at(index as int) is None ==> r.0@.len() == 0)
        },
{
    proof {
        lemma_keyword_lengths();
    }
    if check_join_u8(input) {
        let msgs = handle_join(input, index, reg);
        (msgs, None, Ok(()))
    } else if check_command_u8("VERSION", input) {
        let msgs = handle_version(index, reg);
        (msgs, None, Ok(()))
    } else if check_command_u8("WHO", input) {
        let msgs = handle_who(index, reg);
        (msgs, None, Ok(()))
    } else if check_command_u8("LEAVE", input) {
        handle_leave(index, reg)
    } else {
        let msgs = broadcast(input, index, reg);
        (msgs, None, Ok(()))
    }
}

/// How many of the messages are addressed to `slot`.
pub open spec fn count_to(f: Seq<(int, u64, Seq<u8>)>, slot: int) -> int
    decreases f.len(),
{
    if f.len() == 0 {
        0
    } else {
        (if f[0].0 == slot {
            1int
        } else {
            0int
        }) + count_to(f.drop_first(), slot)
    }
}

/// How many of the messages carry exactly `bytes`.
pub open spec fn count_bytes(f: Seq<(int, u64, Seq<u8>)>, bytes: Seq<u8>) -> int
    decreases f.len(),
{
    if f.len() == 0 {
        0
    } else {
        (if f[0].2 == bytes {
            1int
        } else {
            0int
        }) + count_bytes(f.drop_first(), bytes)
    }
}

/// How many slots at or after `i` are registered under exactly the name `n`.
pub open spec fn count_name_from(names: Seq<Option<Seq<u8>>>, n: Seq<u8>, i: int) -> int
    decreases names.len() - i,
{
    if 0 <= i < names.len() {
        (if names[i] == Some(n) {
            1int
        } else {
            0int
        }) + count_name_from(names, n, i + 1)
    } else {
        0
    }
}

/// Peeling one message off the front of a delivery list peels its
/// contribution off both counts.
proof fn lemma_count_cons(t: (int, u64, Seq<u8>), rest: Seq<(int, u64, Seq<u8>)>, slot: int, bytes: Seq<u8>)
    ensures
        count_to(seq![t] + rest, slot) == (if t.0 == slot {
            1int
        } else {
            0int
        }) + count_to(rest, slot),
        count_bytes(seq![t] + rest, bytes) == (if t.2 == bytes {
            1int
        } else {
            0int
        }) + count_bytes(rest, bytes),
{
    assert((seq![t] + rest).drop_first() =~= rest);
    assert((seq![t] + rest)[0] == t);
}

/// Broadcast delivery, counted per slot: a fan-out delivers its body
/// exactly once to every registered, connected slot other than the
/// excluded sender, and never to the sender or to an unregistered or
/// unoccupied slot.
pub proof fn lemma_fanout_delivers_once(
    names: Seq<Option<Seq<u8>>>,
    conns: Seq<Option<u64>>,
    excl: int,
    body: Seq<u8>,
    j: int,
)
    requires
        0 <= j < names.len(),
    ensures
        count_to(fanout(names, conns, excl, body), j) == (if j != excl && names[j] is Some
            && conns[j] is Some {
            1int
        } else {
            0int
        }),
{
    lemma_fanout_from_count(names, conns, excl, body, 0, j);
}

/// Induction behind [`lemma_fanout_delivers_once`], over the scan start.
proof fn lemma_fanout_from_count(
    names: Seq<Option<Seq<u8>>>,
    conns: Seq<Option<u64>>,
    excl: int,
    body: Seq<u8>,
    i: int,
    j: int,
)
    requires
        0 <= i <= names.len(),
        0 <= j < names.len(),
    ensures
        count_to(fanout_from(names, conns, excl, body, i), j) == (if i <= j && j != excl
            && names[j] is Some && conns[j] is Some {
            1int
        } else {
            0int
        }),
    decreases names.len() - i,
{
    if i < names.len() {
        lemma_fanout_from_count(names, conns, excl, body, i + 1, j);
        if i != excl && names[i] is Some && conns[i] is Some {
            lemma_count_cons(
                (i, conns[i]->0, body),
                fanout_from(names, conns, excl, body, i + 1),
                j,
                body,
            );
        }
    }
}

/// Every message of a fan-out carries exactly the body, goes to a
/// registered, connected slot other than the excluded one, and rides that
/// slot's own connection handle.
pub proof fn lemma_fanout_messages(
    names: Seq<Option<Seq<u8>>>,
    conns: Seq<Option<u64>>,
    excl: int,
    body: Seq<u8>,
    i: int,
)
    requires
        0 <= i <= names.len(),
    ensures
        forall|k: int|
            0 <= k < fanout_from(names, conns, excl, body, i).len() ==> {
                let t = #[trigger] fanout_from(names, conns, excl, body, i)[k];
                &&& i <= t.0 < names.len()
                &&& t.0 != excl
                &&& names[t.0] is Some
                &&& conns[t.0] is Some
                &&& t.1 == conns[t.0]->0
                &&& t.2 == body
            },
    decreases names.len() - i,
{
    if i < names.len() {
        lemma_fanout_messages(names, conns, excl, body, i + 1);
    }
}

/// Every line of a WHO reply is addressed to the asking slot, over the
/// asking slot's connection.
pub proof fn lemma_who_replies_addressee(
    names: Seq<Option<Seq<u8>>>,
    to: int,
    to_conn: u64,
    i: int,
)
    requires
        0 <= i <= names.len(),
    ensures
        forall|k: int|
            0 <= k < who_replies_from(names, to, to_conn, i).len() ==> {
                let t = #[trigger] who_replies_from(names, to, to_conn, i)[k];
                t.0 == to && t.1 == to_conn
            },
    decreases names.len() - i,
{
    if i < names.len() {
        lemma_who_replies_addressee(names, to, to_conn, i + 1);
        assert forall|k: int|
            0 <= k < who_replies_from(names, to, to_conn, i).len() implies {
            let t = #[trigger] who_replies_from(names, to, to_conn, i)[k];
            t.0 == to && t.1 == to_conn
        } by {
            let rest = who_replies_from(names, to, to_conn, i + 1);
            if names[i] is Some {
                let t0 = (to, to_conn, names[i]->0 + line_end());
                if k == 0 {
                    assert(who_replies_from(names, to, to_conn, i)[0] == t0);
                } else {
                    assert(who_replies_from(names, to, to_conn, i)[k] == rest[k - 1]);
                }
            } else {
                assert(who_replies_from(names, to, to_conn, i)[k] == rest[k]);
            }
        }
    }
}

/// A WHO reply lists each name once per slot registered under it: the line
/// carrying `n` appears exactly as often as `n` is registered.
pub proof fn lemma_who_lists_name_per_slot(
    names: Seq<Option<Seq<u8>>>,
    to: int,
    to_conn: u64,
    n: Seq<u8>,
)
    ensures
        count_bytes(who_replies_from(names, to, to_conn, 0), n + line_end()) == count_name_from(
            names,
            n,
            0,
        ),
{
    lemma_who_count(names, to, to_conn, n, 0);
}

/// Induction behind [`lemma_who_lists_name_per_slot`].
proof fn lemma_who_count(
    names: Seq<Option<Seq<u8>>>,
    to: int,
    to_conn: u64,
    n: Seq<u8>,
    i: int,
)
    requires
        0 <= i <= names.len(),
    ensures
        count_bytes(who_replies_from(names, to, to_conn, i), n + line_end()) == count_name_from(
            names,
            n,
            i,
        ),
    decreases names.len() - i,
{
    if i < names.len() {
        lemma_who_count(names, to, to_conn, n, i + 1);
        if names[i] is Some {
            lemma_count_cons(
                (to, to_conn, names[i]->0 + line_end()),
                who_replies_from(names, to, to_conn, i + 1),
                to,
                n + line_end(),
            );
            lemma_line_append_injective(names[i]->0, n);
        }
    }
}

/// Appending the line terminator keeps distinct payloads distinct.
proof fn lemma_line_append_injective(a: Seq<u8>, b: Seq<u8>)
    ensures
        (a + line_end() == b + line_end()) <==> a == b,
{
    if a + line_end() == b + line_end() {
        assert(a =~= b) by {
            assert((a + line_end()).len() == (b + line_end()).len());
            assert(a.len() == b.len());
            assert(forall|i: int|
                0 <= i < a.len() ==> a[i] == (a + line_end())[i] && b[i] == (b + line_end())[i]);
        }
    }
}

/// A client registered under a name no other slot shares sees that name in
/// a WHO reply exactly once.
pub proof fn lemma_who_lists_unique_name_once(
    names: Seq<Option<Seq<u8>>>,
    to: int,
    to_conn: u64,
    j: int,
)
    requires
        0 <= j < names.len(),
        names[j] is Some,
        forall|k: int| 0 <= k < names.len() && k != j ==> names[k] != names[j],
    ensures
        count_bytes(who_replies_from(names, to, to_conn, 0), names[j]->0 + line_end()) == 1,
{
    lemma_who_lists_name_per_slot(names, to, to_conn, names[j]->0);
    lemma_count_name_only(names, names[j]->0, 0, j);
}

/// Induction behind [`lemma_who_lists_unique_name_once`]: when only slot
/// `j` is registered under `n`, the per-name count from `i` is one when
/// the scan still has `j` ahead and zero otherwise.
proof fn lemma_count_name_only(names: Seq<Option<Seq<u8>>>, n: Seq<u8>, i: int, j: int)
    requires
        0 <= i <= names.len(),
        0 <= j < names.len(),
        names[j] == Some(n),
        forall|k: int| 0 <= k < names.len() && k != j ==> names[k] != names[j],
    ensures
        count_name_from(names, n, i) == (if i <= j {
            1int
        } else {
            0int
        }),
    decreases names.len() - i,
{
    if i < names.len() {
        lemma_count_name_only(names, n, i + 1, j);
    }
}

/// An owned copy of a byte vector.
fn clone_vec_u8(v: &Vec<u8>) -> (r: Vec<u8>)
    ensures
        r@ == v@,
{
    vstd::slice::slice_to_vec(v.as_slice())
}

/// The registered name at slot `index`, or `None` if that slot is
/// unregistered or unoccupied.
pub fn get_client_name_at_position_i(index: usize, clients: &Registry) -> (r: Option<Vec<u8>>)
    requires
        index < clients.slot_count(),
    ensures
        (r is Some <==> clients.name_at(index as int) is Some),
        (r matches Some(v) ==> v@ == clients.name_at(index as int)->0),
{
    clients.lookup_name(index)
}

/// Whether the client at slot `index` has registered a name.
pub fn is_user_registered(index: usize, clients: &Registry) -> (r: bool)
    requires
        index < clients.slot_count(),
    ensures
        r == (clients.name_at(index as int) is Some),
{
    clients.is_registered(index)
}

} // verus!
