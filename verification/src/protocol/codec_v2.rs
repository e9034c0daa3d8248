use bytes::{Bytes, BytesMut};
use crate::buf::{
    bytes_copy_from_slice, bytes_mut_advance, bytes_mut_as_slice, bytes_mut_len, bytes_mut_seq,
    bytes_mut_split_to, bytes_new, bytes_seq,
};
use crate::endian::{read_u32_be, u32_from_be};
use crate::errors::{fatal, fault, Fault, NsqError};
use crate::protocol::frame_v2::{bodies_seq, Frame, FrameView};
use crate::protocol::line::{
    ascii_text, decimal_digits, decimal_u64, find_byte, first_at, is_digit, is_name_char,
    is_valid_name, lemma_ascii_is_utf8, lemma_decimal_digits, lemma_first_at,
    lemma_first_at_joined, parse_decimal, push_decimal, string_from_utf8, sub_slice, text_bytes,
    valid_name, word_is, LF, SPACE,
};
use crate::protocol::Codec;
use crate::response::{fits_frame, frame_bytes, Resp};
use vstd::prelude::*;
use vstd::slice::slice_to_vec;

verus! {

/// The numbers of `s` in decimal, with a comma and a space between them.
pub open spec fn list_items(s: Seq<u8>) -> Seq<u8>
    decreases s.len(),
{
    if s.len() == 0 {
        Seq::empty()
    } else if s.len() == 1 {
        decimal_digits(s[0] as nat)
    } else {
        list_items(s.drop_last()) + seq![44u8, 32u8] + decimal_digits(s.last() as nat)
    }
}

/// The description that a refused name is reported with: it quotes the bytes of
/// the name as a list of numbers in square brackets.
pub open spec fn bad_name_text(name: Seq<u8>) -> Seq<char> {
    "PUB topic name "@ + ascii_text(seq![91u8] + list_items(name) + seq![93u8]) + " is not valid"@
}

/// A list of numbers is written in ASCII.
proof fn lemma_list_items(s: Seq<u8>)
    ensures
        forall|i: int| 0 <= i < list_items(s).len() ==> #[trigger] list_items(s)[i] < 128,
    decreases s.len(),
{
    if s.len() == 1 {
        lemma_decimal_digits(s[0] as nat);
        assert forall|i: int| 0 <= i < list_items(s).len() implies #[trigger] list_items(s)[i]
            < 128 by {
            assert(is_digit(decimal_digits(s[0] as nat)[i]));
        }
    } else if s.len() > 1 {
        lemma_list_items(s.drop_last());
        lemma_decimal_digits(s.last() as nat);
        let head = list_items(s.drop_last()) + seq![44u8, 32u8];
        let d = decimal_digits(s.last() as nat);
        assert forall|i: int| 0 <= i < list_items(s).len() implies #[trigger] list_items(s)[i]
            < 128 by {
            if i >= head.len() {
                assert(list_items(s)[i] == d[i - head.len()]);
                assert(is_digit(d[i - head.len()]));
            } else if i >= head.len() - 2 {
            } else {
                assert(list_items(s)[i] == list_items(s.drop_last())[i]);
            }
        }
    }
}

/// Writes the description of a refused name.
fn bad_name_message(name: &[u8]) -> (s: String)
    ensures
        s@ == bad_name_text(name@),
{
    let mut list: Vec<u8> = Vec::new();
    list.push(91);
    let mut i: usize = 0;
    while i < name.len()
        invariant
            i <= name.len(),
            list@ == seq![91u8] + list_items(name@.subrange(0, i as int)),
        decreases name.len() - i,
    {
        let ghost before = name@.subrange(0, i as int);
        let ghost after = name@.subrange(0, i + 1);
        proof {
            assert(after.drop_last() =~= before);
            assert(after.last() == name@[i as int]);
        }
        if i > 0 {
            list.push(44);
            list.push(32);
        }
        push_decimal(name[i] as usize, &mut list);
        proof {
            if i == 0 {
                assert(list_items(before) =~= Seq::<u8>::empty());
                assert(list@ =~= seq![91u8] + list_items(after));
            } else {
                assert(list@ =~= seq![91u8] + (list_items(before) + seq![44u8, 32u8]
                    + decimal_digits(name@[i as int] as nat)));
            }
        }
        i = i + 1;
    }
    list.push(93);
    proof {
        assert(name@.subrange(0, name.len() as int) =~= name@);
        assert(list@ =~= seq![91u8] + list_items(name@) + seq![93u8]);
        lemma_list_items(name@);
        assert forall|k: int| 0 <= k < list@.len() implies #[trigger] list@[k] < 128 by {
            if 0 < k < list@.len() - 1 {
                assert(list@[k] == list_items(name@)[k - 1]);
            }
        }
        lemma_ascii_is_utf8(list@);
    }
    let mut s = "PUB topic name ".to_owned();
    match string_from_utf8(list) {
        Ok(quoted) => s.append(quoted.as_str()),
        Err(_) => {},
    }
    s.append(" is not valid");
    s
}

/// A valid name holds ASCII only.
proof fn lemma_valid_name_is_ascii(s: Seq<u8>)
    requires
        valid_name(s),
    ensures
        forall|i: int| 0 <= i < s.len() ==> #[trigger] s[i] < 128,
{
    assert forall|i: int| 0 <= i < s.len() implies #[trigger] s[i] < 128 by {
        if crate::protocol::line::all_name_chars(s) {
            assert(is_name_char(s[i]));
        } else {
            let head = s.subrange(0, s.len() - 10);
            let tail = s.subrange(s.len() - 10, s.len() as int);
            if i < s.len() - 10 {
                assert(head[i] == s[i]);
                assert(is_name_char(head[i]));
            } else {
                assert(tail[i - (s.len() - 10)] == s[i]);
            }
        }
    }
}

pub open spec fn bad_cmd() -> Fault {
    fault("E_BAD_CMD", "Invalid command")
}

pub open spec fn bad_name(name: Seq<u8>) -> Fault {
    Fault { code: "E_BAD_TOPIC"@, desc: bad_name_text(name) }
}

pub open spec fn bad_timeout() -> Fault {
    fault("E_INVALID", "Invalid message timeout")
}

pub open spec fn bad_body_size() -> Fault {
    fault("E_BAD_BODY", "MPUB invalid total message size")
}

pub open spec fn bad_body_count() -> Fault {
    fault("E_BAD_BODY", "MPUB invalid message count")
}

pub open spec fn too_big() -> Fault {
    fault("E_BAD_MESSAGE", "message too big")
}

/// Whether what a function returned is what the grammar says of its input.
pub open spec fn agrees<T: View>(r: Result<T, NsqError>, want: Result<T::V, Fault>) -> bool {
    match want {
        Ok(v) => r matches Ok(x) && x@ == v,
        Err(f) => r matches Err(e) && e.is_fault(f),
    }
}

pub open spec fn name_spec(name: Seq<u8>) -> Result<Seq<char>, Fault> {
    if valid_name(name) {
        Ok(ascii_text(name))
    } else {
        Err(bad_name(name))
    }
}

pub open spec fn number_spec(s: Seq<u8>) -> Result<u64, Fault> {
    match decimal_u64(s) {
        Some(n) => Ok(n),
        None => Err(bad_timeout()),
    }
}

/// Checks a topic or channel name and hands it back as text.
pub fn try_to_string_name(name: &[u8]) -> (r: Result<String, NsqError>)
    ensures
        agrees(r, name_spec(name@)),
{
    if is_valid_name(name) {
        proof {
            lemma_valid_name_is_ascii(name@);
            lemma_ascii_is_utf8(name@);
        }
        match string_from_utf8(slice_to_vec(name)) {
            Ok(s) => Ok(s),
            Err(_) => Err(
                NsqError::FatalClientErr("E_BAD_TOPIC".to_owned(), bad_name_message(name)),
            ),
        }
    } else {
        Err(NsqError::FatalClientErr("E_BAD_TOPIC".to_owned(), bad_name_message(name)))
    }
}

/// Reads a delay in milliseconds, written in decimal.
pub fn read_timeout(ms: Vec<u8>) -> (r: Result<u64, NsqError>)
    ensures
        agrees(r, number_spec(ms@)),
{
    read_u64(ms)
}

/// Reads a number written in decimal.
pub fn read_u64(n: Vec<u8>) -> (r: Result<u64, NsqError>)
    ensures
        agrees(r, number_spec(n@)),
{
    match parse_decimal(n.as_slice()) {
        Some(v) => Ok(v),
        None => Err(fatal("E_INVALID", "Invalid message timeout")),
    }
}

/// What follows the command word of a line, if a space follows it.
pub open spec fn args_of(line: Seq<u8>) -> Option<Seq<u8>> {
    let a = first_at(line, SPACE, 0);
    if a == line.len() {
        None
    } else {
        Some(line.subrange(a + 1, line.len() as int))
    }
}

/// The command word of a line: what stands before its first space.
pub open spec fn verb_of(line: Seq<u8>) -> Seq<u8> {
    line.subrange(0, first_at(line, SPACE, 0))
}

pub open spec fn has_space(s: Seq<u8>) -> bool {
    first_at(s, SPACE, 0) < s.len()
}

/// What stands before the first space of `s`.
pub open spec fn head_of(s: Seq<u8>) -> Seq<u8> {
    s.subrange(0, first_at(s, SPACE, 0))
}

/// What stands after the first space of `s`; nothing where it holds no space.
pub open spec fn tail_of(s: Seq<u8>) -> Seq<u8> {
    if has_space(s) {
        s.subrange(first_at(s, SPACE, 0) + 1, s.len() as int)
    } else {
        Seq::empty()
    }
}

pub open spec fn sub_spec(args: Seq<u8>) -> Result<FrameView, Fault> {
    match name_spec(head_of(args)) {
        Err(f) => Err(f),
        Ok(topic) => match name_spec(tail_of(args)) {
            Err(f) => Err(f),
            Ok(channel) => Ok(FrameView::SUB(topic, channel)),
        },
    }
}

pub open spec fn pub_spec(topic: Seq<u8>) -> Result<FrameView, Fault> {
    match name_spec(topic) {
        Err(f) => Err(f),
        Ok(t) => Ok(FrameView::PUB(t, Seq::empty())),
    }
}

pub open spec fn mpub_spec(topic: Seq<u8>) -> Result<FrameView, Fault> {
    match name_spec(topic) {
        Err(f) => Err(f),
        Ok(t) => Ok(FrameView::MPUB(t, Seq::empty())),
    }
}

pub open spec fn dpub_spec(args: Seq<u8>) -> Result<FrameView, Fault> {
    match name_spec(head_of(args)) {
        Err(f) => Err(f),
        Ok(t) => match number_spec(tail_of(args)) {
            Err(f) => Err(f),
            Ok(ms) => Ok(FrameView::DPUB(t, ms, Seq::empty())),
        },
    }
}

/// The command that a line states, with no body yet: `NOP`; `SUB` with a topic and
/// a channel; `PUB` and `MPUB` with a topic; `DPUB` with a topic and a delay. The
/// arguments are parted by single spaces; any other line is a bad command.
pub open spec fn header_spec(line: Seq<u8>) -> Result<FrameView, Fault> {
    let verb = verb_of(line);
    match args_of(line) {
        None => if verb == text_bytes("NOP"@) {
            Ok(FrameView::NOP)
        } else {
            Err(bad_cmd())
        },
        Some(args) => if verb == text_bytes("SUB"@) && has_space(args) {
            sub_spec(args)
        } else if verb == text_bytes("PUB"@) && !has_space(args) {
            pub_spec(args)
        } else if verb == text_bytes("DPUB"@) && has_space(args) {
            dpub_spec(args)
        } else if verb == text_bytes("MPUB"@) && !has_space(args) {
            mpub_spec(args)
        } else {
            Err(bad_cmd())
        },
    }
}

/// Where the first space of `s` parts it.
pub fn split_at_space(s: &[u8]) -> (r: (&[u8], &[u8], bool))
    ensures
        r.0@ == head_of(s@),
        r.1@ == tail_of(s@),
        r.2 == has_space(s@),
{
    let a = find_byte(s, SPACE, 0);
    if a == s.len() {
        (sub_slice(s, 0, a), sub_slice(s, a, a), false)
    } else {
        (sub_slice(s, 0, a), sub_slice(s, a + 1, s.len()), true)
    }
}

pub fn sub_frame(args: &[u8]) -> (r: Result<Frame, NsqError>)
    ensures
        agrees(r, sub_spec(args@)),
{
    let (topic, channel, _) = split_at_space(args);
    let topic_name = match try_to_string_name(topic) {
        Ok(t) => t,
        Err(e) => {
            return Err(e);
        },
    };
    match try_to_string_name(channel) {
        Ok(channel_name) => Ok(Frame::SUB(topic_name, channel_name)),
        Err(e) => Err(e),
    }
}

pub fn pub_frame(topic: &[u8]) -> (r: Result<Frame, NsqError>)
    ensures
        agrees(r, pub_spec(topic@)),
{
    match try_to_string_name(topic) {
        Ok(t) => Ok(Frame::PUB(t, bytes_new())),
        Err(e) => Err(e),
    }
}

pub fn mpub_frame(topic: &[u8]) -> (r: Result<Frame, NsqError>)
    ensures
        agrees(r, mpub_spec(topic@)),
{
    match try_to_string_name(topic) {
        Ok(t) => {
            let msgs: Vec<Bytes> = Vec::new();
            assert(bodies_seq(msgs@) =~= Seq::<Seq<u8>>::empty());
            Ok(Frame::MPUB(t, msgs))
        },
        Err(e) => Err(e),
    }
}

pub fn dpub_frame(args: &[u8]) -> (r: Result<Frame, NsqError>)
    ensures
        agrees(r, dpub_spec(args@)),
{
    let (topic, ms, _) = split_at_space(args);
    let topic_name = match try_to_string_name(topic) {
        Ok(t) => t,
        Err(e) => {
            return Err(e);
        },
    };
    match read_timeout(slice_to_vec(ms)) {
        Ok(timeout) => Ok(Frame::DPUB(topic_name, timeout, bytes_new())),
        Err(e) => Err(e),
    }
}

/// Reads the command that a line states; its body, if it has one, is still empty.
pub fn parse_header(line: &[u8]) -> (r: Result<Frame, NsqError>)
    ensures
        agrees(r, header_spec(line@)),
{
    proof {
        reveal_strlit("NOP");
        reveal_strlit("SUB");
        reveal_strlit("PUB");
        reveal_strlit("DPUB");
        reveal_strlit("MPUB");
    }
    let a = find_byte(line, SPACE, 0);
    let verb = sub_slice(line, 0, a);
    if a == line.len() {
        if word_is(verb, "NOP") {
            Ok(Frame::NOP)
        } else {
            Err(fatal("E_BAD_CMD", "Invalid command"))
        }
    } else {
        let args = sub_slice(line, a + 1, line.len());
        let two = find_byte(args, SPACE, 0) < args.len();
        if word_is(verb, "SUB") && two {
            sub_frame(args)
        } else if word_is(verb, "PUB") && !two {
            pub_frame(args)
        } else if word_is(verb, "DPUB") && two {
            dpub_frame(args)
        } else if word_is(verb, "MPUB") && !two {
            mpub_frame(args)
        } else {
            Err(fatal("E_BAD_CMD", "Invalid command"))
        }
    }
}

/// What reading one length-prefixed body off the front of a buffer comes to.
pub enum BodyRead {
    /// The buffer does not hold the whole body yet.
    Incomplete,
    /// The length prefix exceeds the limit.
    TooBig,
    /// The body, and the number of bytes that it and its prefix take.
    Done(Seq<u8>, int),
}

/// A body on the wire is a length of four bytes, most significant first, and then
/// that many bytes.
pub open spec fn body_spec(s: Seq<u8>, max: u32) -> BodyRead {
    if s.len() < 4 {
        BodyRead::Incomplete
    } else {
        let n = u32_from_be(s.subrange(0, 4));
        if n > max {
            BodyRead::TooBig
        } else if s.len() < n + 4 {
            BodyRead::Incomplete
        } else {
            BodyRead::Done(s.subrange(4, n + 4), n + 4)
        }
    }
}

/// What reading bodies one after the other comes to: the bodies read, what is left
/// of the buffer, and whether reading stopped at a body over the limit.
pub struct BodiesRead {
    pub bodies: Seq<Seq<u8>>,
    pub rest: Seq<u8>,
    pub too_big: bool,
}

/// Reads bodies off the front of `s` until `need` are read or one is not whole.
pub open spec fn bodies_spec(s: Seq<u8>, need: nat, max: u32) -> BodiesRead
    decreases need,
{
    if need == 0 {
        BodiesRead { bodies: Seq::empty(), rest: s, too_big: false }
    } else {
        match body_spec(s, max) {
            BodyRead::Incomplete => BodiesRead { bodies: Seq::empty(), rest: s, too_big: false },
            BodyRead::TooBig => BodiesRead { bodies: Seq::empty(), rest: s, too_big: true },
            BodyRead::Done(b, used) => {
                let r = bodies_spec(s.subrange(used, s.len() as int), (need - 1) as nat, max);
                BodiesRead { bodies: seq![b] + r.bodies, rest: r.rest, too_big: r.too_big }
            },
        }
    }
}

pub enum FrameState {
    /// A whole frame has been received.
    Completed,
    /// More data is needed.
    Incomplete,
    /// The data cannot be a frame.
    Failed(NsqError),
}

/// Reads one message body off the front of `src` into `bytes`. Until the whole
/// body is there nothing is taken from `src`.
pub fn read_msg_body(src: &mut BytesMut, bytes: &mut Bytes, max: u32) -> (st: FrameState)
    ensures
        match body_spec(bytes_mut_seq(*old(src)), max) {
            BodyRead::Incomplete => {
                &&& st is Incomplete
                &&& bytes_mut_seq(*final(src)) == bytes_mut_seq(*old(src))
                &&& bytes_seq(*final(bytes)) == bytes_seq(*old(bytes))
            },
            BodyRead::TooBig => {
                &&& st matches FrameState::Failed(e) && e.is_fault(too_big())
                &&& bytes_mut_seq(*final(src)) == bytes_mut_seq(*old(src))
                &&& bytes_seq(*final(bytes)) == bytes_seq(*old(bytes))
            },
            BodyRead::Done(b, used) => {
                &&& st is Completed
                &&& bytes_seq(*final(bytes)) == b
                &&& bytes_mut_seq(*final(src)) == bytes_mut_seq(*old(src)).subrange(
                    used,
                    bytes_mut_seq(*old(src)).len() as int,
                )
            },
        },
{
    let n = bytes_mut_len(src);
    if n < 4 {
        return FrameState::Incomplete;
    }
    let s = bytes_mut_as_slice(src);
    let body_size = read_u32_be(s, 0);
    if body_size > max {
        return FrameState::Failed(fatal("E_BAD_MESSAGE", "message too big"));
    }
    if (n as u64) < body_size as u64 + 4 {
        return FrameState::Incomplete;
    }
    let end: usize = body_size as usize + 4;
    *bytes = bytes_copy_from_slice(sub_slice(s, 4, end));
    bytes_mut_advance(src, end);
    FrameState::Completed
}

/// What one step of reading the bodies of an `MPUB` comes to.
pub struct MultiRead {
    /// The bodies held after the step.
    pub bodies: Seq<Seq<u8>>,
    /// The announced number of bodies, once it has been read.
    pub count: Option<u32>,
    /// What is left of the buffer.
    pub src: Seq<u8>,
    pub out: MultiOut,
}

pub enum MultiOut {
    Completed,
    Incomplete,
    Failed(Fault),
}

/// The bodies of an `MPUB` follow a total size and a count, four bytes each and both
/// most significant first; a size of eight or less and a count of zero are refused.
pub open spec fn multi_spec(got: Seq<Seq<u8>>, count: Option<u32>, src: Seq<u8>, max: u32)
    -> MultiRead {
    match count {
        Some(n) => multi_bodies(got, n, src, max),
        None => if src.len() < 8 {
            MultiRead { bodies: got, count, src, out: MultiOut::Incomplete }
        } else if u32_from_be(src.subrange(0, 4)) <= 8 {
            MultiRead { bodies: got, count, src, out: MultiOut::Failed(bad_body_size()) }
        } else if u32_from_be(src.subrange(4, 8)) < 1 {
            MultiRead { bodies: got, count, src, out: MultiOut::Failed(bad_body_count()) }
        } else {
            multi_bodies(
                got,
                u32_from_be(src.subrange(4, 8)),
                src.subrange(8, src.len() as int),
                max,
            )
        },
    }
}

/// Reads the bodies that are still missing of the `n` announced.
pub open spec fn multi_bodies(got: Seq<Seq<u8>>, n: u32, src: Seq<u8>, max: u32) -> MultiRead {
    let need: nat = if got.len() < n {
        (n - got.len()) as nat
    } else {
        0
    };
    let r = bodies_spec(src, need, max);
    let all = got + r.bodies;
    MultiRead {
        bodies: all,
        count: Some(n),
        src: r.rest,
        out: if r.too_big {
            MultiOut::Failed(too_big())
        } else if all.len() >= n {
            MultiOut::Completed
        } else {
            MultiOut::Incomplete
        },
    }
}

pub open spec fn state_is(st: FrameState, out: MultiOut) -> bool {
    match out {
        MultiOut::Completed => st is Completed,
        MultiOut::Incomplete => st is Incomplete,
        MultiOut::Failed(f) => st matches FrameState::Failed(e) && e.is_fault(f),
    }
}

/// Reads the bodies of an `MPUB` into `msgs`, as far as `src` holds them. `count`
/// keeps the announced number of bodies from one call to the next.
pub fn read_multi_msg_body(
    src: &mut BytesMut,
    msgs: &mut Vec<Bytes>,
    count: &mut Option<u32>,
    max: u32,
) -> (st: FrameState)
    ensures
        ({
            let m = multi_spec(bodies_seq(old(msgs)@), *old(count), bytes_mut_seq(*old(src)), max);
            &&& bodies_seq(final(msgs)@) == m.bodies
            &&& *final(count) == m.count
            &&& bytes_mut_seq(*final(src)) == m.src
            &&& state_is(st, m.out)
        }),
{
    let ghost got0 = bodies_seq(msgs@);
    let ghost goal = multi_spec(got0, *count, bytes_mut_seq(*src), max);
    let n: u32 = match *count {
        Some(n) => n,
        None => {
            if bytes_mut_len(src) < 8 {
                return FrameState::Incomplete;
            }
            let s = bytes_mut_as_slice(src);
            let size = read_u32_be(s, 0);
            if size <= 8 {
                return FrameState::Failed(fatal("E_BAD_BODY", "MPUB invalid total message size"));
            }
            let msg_cnt = read_u32_be(s, 4);
            if msg_cnt < 1 {
                return FrameState::Failed(fatal("E_BAD_BODY", "MPUB invalid message count"));
            }
            bytes_mut_advance(src, 8);
            *count = Some(msg_cnt);
            msg_cnt
        },
    };
    let ghost src0 = bytes_mut_seq(*src);
    let ghost need0: nat = if got0.len() < n {
        (n - got0.len()) as nat
    } else {
        0
    };
    assert(got0 + Seq::<Seq<u8>>::empty() =~= got0);
    while msgs.len() < n as usize
        invariant
            *count == Some(n),
            goal == multi_spec(
                bodies_seq(old(msgs)@),
                *old(count),
                bytes_mut_seq(*old(src)),
                max,
            ),
            goal == multi_bodies(got0, n, src0, max),
            need0 == if got0.len() < n {
                (n - got0.len()) as nat
            } else {
                0
            },
            got0.len() <= msgs@.len(),
            msgs@.len() - got0.len() <= need0,
            ({
                let left = bodies_spec(
                    bytes_mut_seq(*src),
                    (need0 - (msgs@.len() - got0.len())) as nat,
                    max,
                );
                let whole = bodies_spec(src0, need0, max);
                &&& got0 + whole.bodies == bodies_seq(msgs@) + left.bodies
                &&& whole.rest == left.rest
                &&& whole.too_big == left.too_big
            }),
        decreases n - msgs@.len(),
    {
        let mut body = bytes_new();
        let ghost before = bytes_mut_seq(*src);
        let ghost had = bodies_seq(msgs@);
        match read_msg_body(src, &mut body, max) {
            FrameState::Completed => {
                let ghost b = bytes_seq(body);
                msgs.push(body);
                proof {
                    let k = (need0 - (had.len() - got0.len())) as nat;
                    let left = bodies_spec(before, k, max);
                    let next = bodies_spec(bytes_mut_seq(*src), (k - 1) as nat, max);
                    assert(left.bodies == seq![b] + next.bodies);
                    assert(bodies_seq(msgs@) =~= had.push(b));
                    assert(had + (seq![b] + next.bodies) =~= had.push(b) + next.bodies);
                }
            },
            other => {
                proof {
                    let left = bodies_spec(
                        before,
                        (need0 - (had.len() - got0.len())) as nat,
                        max,
                    );
                    assert(left.bodies =~= Seq::<Seq<u8>>::empty());
                    assert(had + left.bodies =~= had);
                }
                return other;
            },
        }
    }
    proof {
        let whole = bodies_spec(src0, need0, max);
        let left = bodies_spec(bytes_mut_seq(*src), 0, max);
        assert(bodies_seq(msgs@) + left.bodies =~= bodies_seq(msgs@));
    }
    FrameState::Completed
}

/// Where the line that a decoder looks for ends: at the first line feed at or
/// after the position up to which it has looked before.
pub open spec fn line_end(next_index: nat, src: Seq<u8>) -> int {
    first_at(
        src,
        LF,
        if next_index <= src.len() {
            next_index as int
        } else {
            src.len() as int
        },
    )
}

/// Takes the next line off the front of `src`, without its line feed. Where `src`
/// holds no line feed from `next_index` on, nothing is taken and `next_index` moves
/// to the end of `src`, so that no byte is looked at twice.
pub fn take_line(next_index: &mut usize, src: &mut BytesMut) -> (line: Option<BytesMut>)
    ensures
        ({
            let all = bytes_mut_seq(*old(src));
            let end = line_end(*old(next_index) as nat, all);
            if end == all.len() {
                &&& line is None
                &&& *final(next_index) == all.len()
                &&& bytes_mut_seq(*final(src)) == all
            } else {
                &&& line matches Some(l) && bytes_mut_seq(l) == all.subrange(0, end)
                &&& *final(next_index) == 0
                &&& bytes_mut_seq(*final(src)) == all.subrange(end + 1, all.len() as int)
            }
        }),
{
    let n = bytes_mut_len(src);
    let from = if *next_index <= n {
        *next_index
    } else {
        n
    };
    let lf_index = find_byte(bytes_mut_as_slice(src), LF, from);
    if lf_index == n {
        *next_index = n;
        return None;
    }
    let ghost all = bytes_mut_seq(*src);
    let line = bytes_mut_split_to(src, lf_index);
    bytes_mut_advance(src, 1);
    *next_index = 0;
    assert(bytes_mut_seq(*src) =~= all.subrange(lf_index + 1, all.len() as int));
    Some(line)
}

/// The largest message body that a codec accepts unless it is told otherwise.
pub const DEFAULT_MAX_MSG_SIZE: u32 = 1048576;

/// Reads the commands of a connection that has not subscribed.
pub struct CodecV2 {
    next_index: usize,
    frame: Option<Frame>,
    mpub_count: Option<u32>,
    max_msg_size: u32,
}

pub struct CodecV2View {
    /// Up to where the buffer has been searched for the end of a line.
    pub next_index: nat,
    /// The command whose line has been read and whose body is awaited.
    pub frame: Option<FrameView>,
    /// The number of bodies that the awaited `MPUB` announced, once read.
    pub mpub_count: Option<u32>,
    /// The largest body accepted.
    pub max_msg_size: u32,
}

impl View for CodecV2 {
    type V = CodecV2View;

    closed spec fn view(&self) -> CodecV2View {
        CodecV2View {
            next_index: self.next_index as nat,
            frame: match self.frame {
                Some(f) => Some(f@),
                None => None,
            },
            mpub_count: self.mpub_count,
            max_msg_size: self.max_msg_size,
        }
    }
}

/// What looking for the line of the next command comes to.
pub enum LineRead {
    /// No whole line yet.
    Pending,
    /// A line that is no command.
    Failed(Fault),
    /// The command of the line, its body still empty.
    Header(FrameView),
}

pub struct LineStep {
    pub next_index: nat,
    pub src: Seq<u8>,
    pub out: LineRead,
}

pub open spec fn line_spec(next_index: nat, src: Seq<u8>) -> LineStep {
    let end = line_end(next_index, src);
    if end == src.len() {
        LineStep { next_index: src.len(), src, out: LineRead::Pending }
    } else {
        let rest = src.subrange(end + 1, src.len() as int);
        match header_spec(src.subrange(0, end)) {
            Err(f) => LineStep { next_index: 0, src: rest, out: LineRead::Failed(f) },
            Ok(h) => LineStep { next_index: 0, src: rest, out: LineRead::Header(h) },
        }
    }
}

/// What one call of a decoder hands back.
pub enum Decoded {
    /// More data is needed.
    Pending,
    /// A whole command.
    Frame(FrameView),
    /// The data cannot be a command.
    Failed(Fault),
}

pub struct DecodeStep {
    pub codec: CodecV2View,
    pub src: Seq<u8>,
    pub out: Decoded,
}

/// Reads what the command `f` still awaits: nothing for `NOP` and `SUB`, one body
/// for `PUB` and `DPUB`, the announced bodies for `MPUB`.
pub open spec fn fill_spec(c: CodecV2View, f: FrameView, src: Seq<u8>) -> DecodeStep {
    let idle = CodecV2View { frame: None, mpub_count: None, ..c };
    let busy = CodecV2View { frame: Some(f), ..c };
    match f {
        FrameView::NOP => DecodeStep { codec: idle, src, out: Decoded::Frame(f) },
        FrameView::SUB(_, _) => DecodeStep { codec: idle, src, out: Decoded::Frame(f) },
        FrameView::AUTH(_) => DecodeStep { codec: busy, src, out: Decoded::Pending },
        FrameView::PUB(t, _) => match body_spec(src, c.max_msg_size) {
            BodyRead::Incomplete => DecodeStep { codec: busy, src, out: Decoded::Pending },
            BodyRead::TooBig => DecodeStep { codec: busy, src, out: Decoded::Failed(too_big()) },
            BodyRead::Done(b, used) => DecodeStep {
                codec: idle,
                src: src.subrange(used, src.len() as int),
                out: Decoded::Frame(FrameView::PUB(t, b)),
            },
        },
        FrameView::DPUB(t, ms, _) => match body_spec(src, c.max_msg_size) {
            BodyRead::Incomplete => DecodeStep { codec: busy, src, out: Decoded::Pending },
            BodyRead::TooBig => DecodeStep { codec: busy, src, out: Decoded::Failed(too_big()) },
            BodyRead::Done(b, used) => DecodeStep {
                codec: idle,
                src: src.subrange(used, src.len() as int),
                out: Decoded::Frame(FrameView::DPUB(t, ms, b)),
            },
        },
        FrameView::MPUB(t, got) => {
            let m = multi_spec(got, c.mpub_count, src, c.max_msg_size);
            let held = CodecV2View {
                frame: Some(FrameView::MPUB(t, m.bodies)),
                mpub_count: m.count,
                ..c
            };
            match m.out {
                MultiOut::Completed => DecodeStep {
                    codec: idle,
                    src: m.src,
                    out: Decoded::Frame(FrameView::MPUB(t, m.bodies)),
                },
                MultiOut::Incomplete => DecodeStep {
                    codec: held,
                    src: m.src,
                    out: Decoded::Pending,
                },
                MultiOut::Failed(fl) => DecodeStep {
                    codec: held,
                    src: m.src,
                    out: Decoded::Failed(fl),
                },
            }
        },
    }
}

/// One call of the decoder. While no command is awaited it looks for the next line;
/// a whole line is taken off the buffer and read as a command. Then it reads what
/// the command still awaits. What is taken off the buffer is never looked at again.
pub open spec fn decode_spec(c: CodecV2View, src: Seq<u8>) -> DecodeStep {
    match c.frame {
        Some(f) => fill_spec(c, f, src),
        None => {
            let l = line_spec(c.next_index, src);
            let at = CodecV2View { next_index: l.next_index, ..c };
            match l.out {
                LineRead::Pending => DecodeStep { codec: at, src: l.src, out: Decoded::Pending },
                LineRead::Failed(f) => DecodeStep {
                    codec: at,
                    src: l.src,
                    out: Decoded::Failed(f),
                },
                LineRead::Header(h) => fill_spec(at, h, l.src),
            }
        },
    }
}

pub open spec fn decoded_as(r: Result<Option<Frame>, NsqError>, out: Decoded) -> bool {
    match out {
        Decoded::Pending => r matches Ok(None),
        Decoded::Frame(f) => r matches Ok(Some(x)) && x@ == f,
        Decoded::Failed(fl) => r matches Err(e) && e.is_fault(fl),
    }
}

impl CodecV2 {
    /// A codec that awaits a line and accepts bodies up to the default limit.
    pub fn new() -> (c: Self)
        ensures
            c@ == (CodecV2View {
                next_index: 0,
                frame: None,
                mpub_count: None,
                max_msg_size: DEFAULT_MAX_MSG_SIZE,
            }),
    {
        Self { next_index: 0, frame: None, mpub_count: None, max_msg_size: DEFAULT_MAX_MSG_SIZE }
    }

    /// A codec that awaits a line and accepts bodies of up to `max_msg_size` bytes.
    pub fn with_max_msg_size(max_msg_size: u32) -> (c: Self)
        ensures
            c@ == (CodecV2View { next_index: 0, frame: None, mpub_count: None, max_msg_size }),
    {
        Self { next_index: 0, frame: None, mpub_count: None, max_msg_size }
    }

    /// Looks for the line of the next command and reads it.
    fn init_frame(&mut self, src: &mut BytesMut) -> (r: Result<Option<Frame>, NsqError>)
        requires
            old(self)@.frame is None,
        ensures
            ({
                let l = line_spec(old(self)@.next_index, bytes_mut_seq(*old(src)));
                &&& final(self)@ == (CodecV2View { next_index: l.next_index, ..old(self)@ })
                &&& bytes_mut_seq(*final(src)) == l.src
                &&& match l.out {
                    LineRead::Pending => r matches Ok(None),
                    LineRead::Failed(f) => r matches Err(e) && e.is_fault(f),
                    LineRead::Header(h) => r matches Ok(Some(x)) && x@ == h,
                }
            }),
    {
        match take_line(&mut self.next_index, src) {
            None => Ok(None),
            Some(buf) => match parse_header(bytes_mut_as_slice(&buf)) {
                Ok(frame) => Ok(Some(frame)),
                Err(e) => Err(e),
            },
        }
    }

    /// Takes the next command off the front of `src`, if `src` holds a whole one.
    pub fn decode(&mut self, src: &mut BytesMut) -> (r: Result<Option<Frame>, NsqError>)
        ensures
            ({
                let step = decode_spec(old(self)@, bytes_mut_seq(*old(src)));
                &&& final(self)@ == step.codec
                &&& bytes_mut_seq(*final(src)) == step.src
                &&& decoded_as(r, step.out)
            }),
    {
        let frame = match self.frame.take() {
            Some(f) => f,
            None => match self.init_frame(src) {
                Ok(Some(f)) => f,
                Ok(None) => {
                    return Ok(None);
                },
                Err(e) => {
                    return Err(e);
                },
            },
        };
        let max = self.max_msg_size;
        match frame {
            Frame::NOP => {
                self.mpub_count = None;
                Ok(Some(Frame::NOP))
            },
            Frame::SUB(topic, channel) => {
                self.mpub_count = None;
                Ok(Some(Frame::SUB(topic, channel)))
            },
            Frame::AUTH(bytes) => {
                self.frame = Some(Frame::AUTH(bytes));
                Ok(None)
            },
            Frame::PUB(topic, body) => {
                let mut body = body;
                match read_msg_body(src, &mut body, max) {
                    FrameState::Completed => {
                        self.mpub_count = None;
                        Ok(Some(Frame::PUB(topic, body)))
                    },
                    FrameState::Incomplete => {
                        self.frame = Some(Frame::PUB(topic, body));
                        Ok(None)
                    },
                    FrameState::Failed(e) => {
                        self.frame = Some(Frame::PUB(topic, body));
                        Err(e)
                    },
                }
            },
            Frame::DPUB(topic, timeout, body) => {
                let mut body = body;
                match read_msg_body(src, &mut body, max) {
                    FrameState::Completed => {
                        self.mpub_count = None;
                        Ok(Some(Frame::DPUB(topic, timeout, body)))
                    },
                    FrameState::Incomplete => {
                        self.frame = Some(Frame::DPUB(topic, timeout, body));
                        Ok(None)
                    },
                    FrameState::Failed(e) => {
                        self.frame = Some(Frame::DPUB(topic, timeout, body));
                        Err(e)
                    },
                }
            },
            Frame::MPUB(topic, msgs) => {
                let mut msgs = msgs;
                match read_multi_msg_body(src, &mut msgs, &mut self.mpub_count, max) {
                    FrameState::Completed => {
                        self.mpub_count = None;
                        Ok(Some(Frame::MPUB(topic, msgs)))
                    },
                    FrameState::Incomplete => {
                        self.frame = Some(Frame::MPUB(topic, msgs));
                        Ok(None)
                    },
                    FrameState::Failed(e) => {
                        self.frame = Some(Frame::MPUB(topic, msgs));
                        Err(e)
                    },
                }
            },
        }
    }

    /// Appends the frame of `resp` to `dst`. A payload too long for a frame is
    /// refused, and nothing is written.
    pub fn encode(&mut self, resp: Resp, dst: &mut BytesMut) -> (r: Result<(), NsqError>)
        ensures
            *final(self) == *old(self),
            fits_frame(resp@.payload) ==> {
                &&& r is Ok
                &&& bytes_mut_seq(*final(dst)) == bytes_mut_seq(*old(dst)) + frame_bytes(
                    resp@.code,
                    resp@.payload,
                )
            },
            !fits_frame(resp@.payload) ==> {
                &&& r matches Err(NsqError::InvalidMsgLength)
                &&& bytes_mut_seq(*final(dst)) == bytes_mut_seq(*old(dst))
            },
    {
        resp.encode_to(dst)
    }
}

impl Codec<Resp> for CodecV2 {
    type Item = Frame;

    fn decode(&mut self, src: &mut BytesMut) -> (r: Result<Option<Frame>, NsqError>)
        ensures
            ({
                let step = decode_spec(old(self)@, bytes_mut_seq(*old(src)));
                &&& final(self)@ == step.codec
                &&& bytes_mut_seq(*final(src)) == step.src
                &&& decoded_as(r, step.out)
            }),
    {
        CodecV2::decode(self, src)
    }

    fn encode(&mut self, item: Resp, dst: &mut BytesMut) -> (r: Result<(), NsqError>)
        ensures
            *final(self) == *old(self),
            fits_frame(item@.payload) ==> {
                &&& r is Ok
                &&& bytes_mut_seq(*final(dst)) == bytes_mut_seq(*old(dst)) + frame_bytes(
                    item@.code,
                    item@.payload,
                )
            },
            !fits_frame(item@.payload) ==> {
                &&& r matches Err(NsqError::InvalidMsgLength)
                &&& bytes_mut_seq(*final(dst)) == bytes_mut_seq(*old(dst))
            },
    {
        CodecV2::encode(self, item, dst)
    }
}

/// A body that is whole stays what it is when more bytes follow.
pub proof fn lemma_body_joined(s: Seq<u8>, more: Seq<u8>, max: u32)
    requires
        body_spec(s, max) is Done,
    ensures
        body_spec(s + more, max) == body_spec(s, max),
        (s + more).subrange(body_spec(s, max)->Done_1, (s + more).len() as int) == s.subrange(
            body_spec(s, max)->Done_1,
            s.len() as int,
        ) + more,
{
    let all = s + more;
    assert(all.subrange(0, 4) =~= s.subrange(0, 4));
    let n = u32_from_be(s.subrange(0, 4));
    assert(all.subrange(4, n + 4) =~= s.subrange(4, n + 4));
    assert(all.subrange(n + 4, all.len() as int) =~= s.subrange(n + 4, s.len() as int) + more);
}

/// Reading bodies goes on where it stopped: reading them off the bytes at hand and
/// then, when more bytes have come, off what was left and the new bytes, gives
/// what reading them off all the bytes gives.
pub proof fn lemma_bodies_joined(s: Seq<u8>, more: Seq<u8>, need: nat, max: u32)
    requires
        !bodies_spec(s, need, max).too_big,
    ensures
        bodies_spec(s, need, max).bodies.len() <= need,
        ({
            let r = bodies_spec(s, need, max);
            let next = bodies_spec(r.rest + more, (need - r.bodies.len()) as nat, max);
            bodies_spec(s + more, need, max) == (BodiesRead {
                bodies: r.bodies + next.bodies,
                rest: next.rest,
                too_big: next.too_big,
            })
        }),
    decreases need,
{
    let r = bodies_spec(s, need, max);
    let next = bodies_spec(r.rest + more, (need - r.bodies.len()) as nat, max);
    if need == 0 {
        assert(r.bodies + next.bodies =~= next.bodies);
    } else {
        match body_spec(s, max) {
            BodyRead::Done(b, used) => {
                let tail = s.subrange(used, s.len() as int);
                lemma_body_joined(s, more, max);
                lemma_bodies_joined(tail, more, (need - 1) as nat, max);
                let r1 = bodies_spec(tail, (need - 1) as nat, max);
                let n1 = bodies_spec(r1.rest + more, (need - 1 - r1.bodies.len()) as nat, max);
                assert(seq![b] + (r1.bodies + n1.bodies) =~= (seq![b] + r1.bodies) + n1.bodies);
            },
            _ => {
                assert(r.bodies + next.bodies =~= next.bodies);
            },
        }
    }
}

/// No byte is looked at twice, and none is skipped: after a call the decoder has
/// searched for the end of a line exactly up to the end of what it left in the
/// buffer, or not at all.
pub proof fn law_decode_position(c: CodecV2View, src: Seq<u8>)
    requires
        c.frame is Some ==> c.next_index == 0,
    ensures
        decode_spec(c, src).codec.next_index == if decode_spec(c, src).out is Pending
            && decode_spec(c, src).codec.frame is None {
            decode_spec(c, src).src.len()
        } else {
            0
        },
        decode_spec(c, src).codec.max_msg_size == c.max_msg_size,
{
}

/// It does not matter in how many pieces the bytes arrive. A call that finds no
/// whole command only waits: what it leaves behind, with the bytes that come
/// next, is decoded as all the bytes together would have been.
pub proof fn law_decode_waits(c: CodecV2View, src: Seq<u8>, more: Seq<u8>)
    requires
        c.frame is None ==> c.next_index <= src.len(),
        decode_spec(c, src).out is Pending,
    ensures
        decode_spec(decode_spec(c, src).codec, decode_spec(c, src).src + more) == decode_spec(
            c,
            src + more,
        ),
{
    match c.frame {
        Some(f) => {
            lemma_fill_waits(c, f, src, more);
        },
        None => {
            lemma_first_at_joined(src, more, LF, c.next_index as int);
            let l = line_spec(c.next_index, src);
            let at = CodecV2View { next_index: l.next_index, ..c };
            match l.out {
                LineRead::Header(h) => {
                    let end = line_end(c.next_index, src);
                    let all = src + more;
                    lemma_first_at(src, LF, c.next_index as int);
                    assert(all.subrange(0, end) =~= src.subrange(0, end));
                    assert(all.subrange(end + 1, all.len() as int) =~= l.src + more);
                    lemma_fill_waits(at, h, l.src, more);
                },
                _ => {},
            }
        },
    }
}

/// A call that goes on waiting for the bodies of a command leaves behind what,
/// with the bytes that come next, is read as all the bytes together would have
/// been.
proof fn lemma_fill_waits(c: CodecV2View, f: FrameView, src: Seq<u8>, more: Seq<u8>)
    requires
        fill_spec(c, f, src).out is Pending,
    ensures
        fill_spec(c, f, src).codec.frame is Some,
        fill_spec(
            fill_spec(c, f, src).codec,
            fill_spec(c, f, src).codec.frame->0,
            fill_spec(c, f, src).src + more,
        ) == fill_spec(c, f, src + more),
{
    match f {
        FrameView::MPUB(t, got) => {
            let max = c.max_msg_size;
            let m = multi_spec(got, c.mpub_count, src, max);
            let all = src + more;
            if c.mpub_count is None && src.len() < 8 {
            } else {
                let n = m.count->0;
                let body = if c.mpub_count is None {
                    src.subrange(8, src.len() as int)
                } else {
                    src
                };
                if c.mpub_count is None {
                    assert(all.subrange(0, 4) =~= src.subrange(0, 4));
                    assert(all.subrange(4, 8) =~= src.subrange(4, 8));
                    assert(all.subrange(8, all.len() as int) =~= body + more);
                }
                let need: nat = if got.len() < n {
                    (n - got.len()) as nat
                } else {
                    0
                };
                lemma_bodies_joined(body, more, need, max);
                let r = bodies_spec(body, need, max);
                let next = bodies_spec(r.rest + more, (need - r.bodies.len()) as nat, max);
                assert((got + r.bodies) + next.bodies =~= got + (r.bodies + next.bodies));
            }
        },
        _ => {},
    }
}

} // verus!
