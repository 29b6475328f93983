use vstd::prelude::*;

use bytes::BytesMut;

use super::buttons::{bit, MouseButtonStates};
use super::text::{dec_bytes, parse_dec_u32, parse_u32_bytes, push_dec_bytes};
use vstd::slice::slice_subrange;
use vstd::slice::slice_to_vec;

verus! {

#[verifier::external_type_specification]
#[verifier::external_body]
pub struct ExBytesMut(BytesMut);

/// The bytes a `BytesMut` holds.
pub uninterp spec fn bytes_mut_contents(b: BytesMut) -> Seq<u8>;

/// `BytesMut::with_capacity`: an empty buffer (the capacity is not part of
/// the contents).
#[verifier::external_body]
fn bm_with_capacity(capacity: usize) -> (b: BytesMut)
    ensures
        bytes_mut_contents(b) == Seq::<u8>::empty(),
{
    BytesMut::with_capacity(capacity)
}

/// `BytesMut::extend_from_slice`: appends the bytes. Growing past
/// `isize::MAX` bytes panics in the allocator, so that is excluded.
#[verifier::external_body]
fn bm_extend(b: &mut BytesMut, data: &[u8])
    requires
        bytes_mut_contents(*old(b)).len() + data@.len() <= isize::MAX,
    ensures
        bytes_mut_contents(*final(b)) == bytes_mut_contents(*old(b)) + data@,
{
    b.extend_from_slice(data)
}

/// `BytesMut::split_to`: hands out the first `at` bytes and keeps the rest;
/// it panics when `at` exceeds the length, which is excluded.
#[verifier::external_body]
fn bm_split_to(b: &mut BytesMut, at: usize) -> (head: BytesMut)
    requires
        at <= bytes_mut_contents(*old(b)).len(),
    ensures
        bytes_mut_contents(head) == bytes_mut_contents(*old(b)).take(at as int),
        bytes_mut_contents(*final(b)) == bytes_mut_contents(*old(b)).skip(at as int),
{
    b.split_to(at)
}

/// `<BytesMut as AsRef<[u8]>>::as_ref`: the bytes held, as a slice.
#[verifier::external_body]
fn bm_as_slice(b: &BytesMut) -> (s: &[u8])
    ensures
        s@ == bytes_mut_contents(*b),
{
    b.as_ref()
}

/// The index of the first byte of `s` that is `a` or `b`.
pub open spec fn first_of(s: Seq<u8>, a: u8, b: u8) -> Option<int>
    decreases s.len(),
{
    if s.len() == 0 {
        None
    } else if s[0] == a || s[0] == b {
        Some(0)
    } else {
        match first_of(s.drop_first(), a, b) {
            Some(i) => Some(i + 1),
            None => None,
        }
    }
}

/// `memchr::memchr`: the index of the first occurrence of `needle`.
#[verifier::external_body]
fn find_byte(needle: u8, haystack: &[u8]) -> (r: Option<usize>)
    ensures
        match r {
            Some(i) => first_of(haystack@, needle, needle) == Some(i as int),
            None => first_of(haystack@, needle, needle) is None,
        },
{
    memchr::memchr(needle, haystack)
}

/// `memchr::memchr2`: the index of the first occurrence of either needle.
#[verifier::external_body]
fn find_either(needle1: u8, needle2: u8, haystack: &[u8]) -> (r: Option<usize>)
    ensures
        match r {
            Some(i) => first_of(haystack@, needle1, needle2) == Some(i as int),
            None => first_of(haystack@, needle1, needle2) is None,
        },
{
    memchr::memchr2(needle1, needle2, haystack)
}

/// A first occurrence lies inside the sequence and holds a needle.
pub proof fn lemma_first_of(s: Seq<u8>, a: u8, b: u8)
    ensures
        first_of(s, a, b) matches Some(i) ==> 0 <= i < s.len() && (s[i] == a || s[i] == b) && (
        forall|j: int| 0 <= j < i ==> s[j] != a && s[j] != b),
        first_of(s, a, b) is None ==> forall|j: int| 0 <= j < s.len() ==> s[j] != a && s[j] != b,
    decreases s.len(),
{
    if s.len() > 0 {
        lemma_first_of(s.drop_first(), a, b);
        assert forall|j: int| 1 <= j < s.len() implies s[j] == s.drop_first()[j - 1] by {}
    }
}

/// `p` is a prefix of `s`.
pub open spec fn starts_with(s: Seq<u8>, p: Seq<u8>) -> bool {
    p.len() <= s.len() && s.subrange(0, p.len() as int) == p
}

/// Whether `s` starts with `p`.
pub fn has_prefix(s: &[u8], p: &[u8]) -> (r: bool)
    ensures
        r == starts_with(s@, p@),
{
    if p.len() > s.len() {
        return false;
    }
    let mut k: usize = 0;
    while k < p.len()
        invariant
            p@.len() <= s@.len(),
            k <= p@.len(),
            forall|j: int| 0 <= j < k ==> s@[j] == p@[j],
        decreases p@.len() - k,
    {
        if s[k] != p[k] {
            assert(s@.subrange(0, p@.len() as int)[k as int] != p@[k as int]);
            return false;
        }
        k = k + 1;
    }
    assert(s@.subrange(0, p@.len() as int) =~= p@);
    true
}

/// Whether two byte strings are equal.
pub fn bytes_eq(a: &[u8], b: &[u8]) -> (r: bool)
    ensures
        r == (a@ == b@),
{
    if a.len() != b.len() {
        return false;
    }
    let r = has_prefix(a, b);
    assert(a@ =~= a@.subrange(0, b@.len() as int));
    r
}

/// Whether any byte is not zero: a write of only zero bytes is skipped.
pub fn has_payload(buf: &[u8]) -> (r: bool)
    ensures
        r == exists|i: int| 0 <= i < buf@.len() && buf@[i] != 0,
{
    let mut k: usize = 0;
    while k < buf.len()
        invariant
            k <= buf@.len(),
            forall|j: int| 0 <= j < k ==> buf@[j] == 0,
        decreases buf@.len() - k,
    {
        if buf[k] != 0 {
            return true;
        }
        k = k + 1;
    }
    false
}

/// An event for the application, in arrival order.
pub enum Inbound<P> {
    /// The device's button byte, decoded.
    Buttons(MouseButtonStates),
    /// A line nobody waited for (streamed data, or text made for the stream).
    Stream(Vec<u8>),
    /// The reply to a tracked command, for the waiter that sent it.
    Reply(P, Vec<u8>),
}

pub enum InboundView<P> {
    Buttons(MouseButtonStates),
    Stream(Seq<u8>),
    Reply(P, Seq<u8>),
}

impl<P> View for Inbound<P> {
    type V = InboundView<P>;

    open spec fn view(&self) -> InboundView<P> {
        match self {
            Inbound::Buttons(b) => InboundView::Buttons(*b),
            Inbound::Stream(t) => InboundView::Stream(t@),
            Inbound::Reply(p, t) => InboundView::Reply(*p, t@),
        }
    }
}

/// The views of a sequence of events.
pub open spec fn events_view<P>(v: Seq<Inbound<P>>) -> Seq<InboundView<P>> {
    v.map_values(|e: Inbound<P>| e@)
}

/// The button states a button byte encodes.
pub open spec fn states_of(mask: u8) -> MouseButtonStates {
    MouseButtonStates {
        left: bit(mask, 0),
        right: bit(mask, 1),
        middle: bit(mask, 2),
        side1: bit(mask, 3),
        side2: bit(mask, 4),
    }
}

/// `km.buttons`, the tag of a streamed button line (ASCII codes).
pub open spec fn buttons_tag() -> Seq<u8> {
    seq![107u8, 109u8, 46u8, 98u8, 117u8, 116u8, 116u8, 111u8, 110u8, 115u8]
}

/// `km.mouse`, the tag of a streamed mouse frame (ASCII codes).
pub open spec fn mouse_tag() -> Seq<u8> {
    seq![107u8, 109u8, 46u8, 109u8, 111u8, 117u8, 115u8, 101u8]
}

/// `>>>`, the device's prompt (ASCII codes).
pub open spec fn prompt() -> Seq<u8> {
    seq![62u8, 62u8, 62u8]
}

/// `mouse_raw:[`, the head of the text made for a streamed mouse frame
/// (ASCII codes).
pub open spec fn mouse_raw_head() -> Seq<u8> {
    seq![109u8, 111u8, 117u8, 115u8, 101u8, 95u8, 114u8, 97u8, 119u8, 58u8, 91u8]
}

/// An upper-case hexadecimal digit.
pub open spec fn hex_upper(d: int) -> u8 {
    if d < 10 {
        (d + 48) as u8
    } else {
        (d + 55) as u8
    }
}

/// Two upper-case hexadecimal digits of a byte.
pub open spec fn hex2(b: u8) -> Seq<u8> {
    seq![hex_upper((b / 16) as int), hex_upper((b % 16) as int)]
}

/// The bytes as two-digit upper-case hex, separated by `, `.
pub open spec fn hex_list(bs: Seq<u8>) -> Seq<u8>
    decreases bs.len(),
{
    if bs.len() == 0 {
        Seq::empty()
    } else if bs.len() == 1 {
        hex2(bs[0])
    } else {
        hex_list(bs.drop_last()) + seq![44u8, 32u8] + hex2(bs.last())
    }
}

/// `mouse_raw:[XX, XX, ...]`: the text passed on for a streamed mouse frame.
pub open spec fn mouse_raw_text(bs: Seq<u8>) -> Seq<u8> {
    mouse_raw_head() + hex_list(bs) + seq![93u8]
}

/// A raw line (through its `\n`) without its terminator and one `\r`.
pub open spec fn strip_line(raw: Seq<u8>) -> Seq<u8> {
    let l = if raw.len() > 0 && raw.last() == 10 {
        raw.drop_last()
    } else {
        raw
    };
    if l.len() > 0 && l.last() == 13 {
        l.drop_last()
    } else {
        l
    }
}

/// The id and the start of the payload of a tagged reply `...#<id>:<payload>`;
/// the id ends at the first `:` or `\r` after the first `#`.
pub open spec fn reply_tag(line: Seq<u8>) -> Option<(u32, int)> {
    match first_of(line, 35u8, 35u8) {
        Some(h) => {
            let after = line.skip(h + 1);
            match first_of(after, 58u8, 13u8) {
                Some(c) => match parse_dec_u32(after.take(c)) {
                    Some(cid) => Some((cid, h + 1 + c + 1)),
                    None => None,
                },
                None => None,
            }
        },
        None => None,
    }
}

/// The position of the first pending command with this id.
pub open spec fn index_of_id<P>(pending: Seq<(u32, P)>, cid: u32) -> Option<int>
    decreases pending.len(),
{
    if pending.len() == 0 {
        None
    } else if pending[0].0 == cid {
        Some(0)
    } else {
        match index_of_id(pending.drop_first(), cid) {
            Some(i) => Some(i + 1),
            None => None,
        }
    }
}

/// A line without the device prompt `>>>` and the one space after it.
pub open spec fn strip_prompt(line: Seq<u8>) -> Seq<u8> {
    if starts_with(line, prompt()) {
        let p = line.skip(3);
        if p.len() > 0 && p[0] == 32u8 {
            p.skip(1)
        } else {
            p
        }
    } else {
        line
    }
}

/// `payload` echoes the sent command `cmd`: it is the command itself, or it
/// starts with the command's name up to and including its `(`.
pub open spec fn echo_of(cmd: Seq<u8>, payload: Seq<u8>) -> bool {
    cmd == payload || match first_of(cmd, 40u8, 40u8) {
        Some(op) => starts_with(payload, cmd.take(op + 1)),
        None => false,
    }
}

/// `payload` echoes one of the recently sent commands.
pub open spec fn is_echo(sent: Seq<Seq<u8>>, payload: Seq<u8>) -> bool {
    exists|i: int| 0 <= i < sent.len() && echo_of(#[trigger] sent[i], payload)
}

/// What a text line does, given the commands sent and those still waiting:
/// with nothing waiting the line is streamed data, whatever it holds;
/// otherwise a tagged reply goes to the command waiting under its id (and is
/// dropped when none does), an echo of a sent command is dropped, and
/// anything else answers the oldest waiting command.
pub open spec fn on_text_line<P>(sent: Seq<Seq<u8>>, pending: Seq<(u32, P)>, line: Seq<u8>) -> (
    Seq<(u32, P)>,
    Option<InboundView<P>>,
) {
    if pending.len() == 0 {
        (pending, Some(InboundView::Stream(line)))
    } else {
        match reply_tag(line) {
            Some((cid, start)) => match index_of_id(pending, cid) {
                Some(i) => (
                    pending.remove(i),
                    Some(InboundView::Reply(pending[i].1, line.skip(start))),
                ),
                None => (pending, None),
            },
            None => {
                let payload = strip_prompt(line);
                if is_echo(sent, payload) {
                    (pending, None)
                } else {
                    (pending.drop_first(), Some(InboundView::Reply(pending[0].1, payload)))
                }
            },
        }
    }
}

/// What one received line (through its `\n`) does: empty lines are ignored,
/// `km.buttons<mask>` and `km.mouse<8 bytes>` are streamed data, and any
/// other line is text.
pub open spec fn on_line<P>(sent: Seq<Seq<u8>>, pending: Seq<(u32, P)>, raw: Seq<u8>) -> (
    Seq<(u32, P)>,
    Option<InboundView<P>>,
) {
    let line = strip_line(raw);
    if line.len() == 0 {
        (pending, None)
    } else if starts_with(line, buttons_tag()) && line.len() == 11 {
        (pending, Some(InboundView::Buttons(states_of(line[10]))))
    } else if starts_with(line, mouse_tag()) && line.len() == 16 {
        (pending, Some(InboundView::Stream(mouse_raw_text(line.skip(8)))))
    } else {
        on_text_line(sent, pending, line)
    }
}

/// Zero or one event as a sequence.
pub open spec fn opt_seq<T>(o: Option<T>) -> Seq<T> {
    match o {
        Some(e) => seq![e],
        None => Seq::empty(),
    }
}

/// The lines, in order, each handled with what the earlier ones left waiting.
pub open spec fn on_lines<P>(sent: Seq<Seq<u8>>, pending: Seq<(u32, P)>, lines: Seq<Seq<u8>>) -> (
    Seq<(u32, P)>,
    Seq<InboundView<P>>,
)
    decreases lines.len(),
{
    if lines.len() == 0 {
        (pending, Seq::empty())
    } else {
        let (p1, e1) = on_lines(sent, pending, lines.drop_last());
        let (p2, e2) = on_line(sent, p1, lines.last());
        (p2, e1 + opt_seq(e2))
    }
}

#[via_fn]
proof fn lines_decreases(s: Seq<u8>) {
    lemma_first_of(s, 10, 10);
}

/// The complete lines of `s`, each through its `\n`.
pub open spec fn lines_of(s: Seq<u8>) -> Seq<Seq<u8>>
    decreases s.len(),
    via lines_decreases
{
    match first_of(s, 10, 10) {
        Some(p) => seq![s.take(p + 1)] + lines_of(s.skip(p + 1)),
        None => Seq::empty(),
    }
}

#[via_fn]
proof fn tail_decreases(s: Seq<u8>) {
    lemma_first_of(s, 10, 10);
}

/// What follows the last `\n` of `s`.
pub open spec fn tail_of(s: Seq<u8>) -> Seq<u8>
    decreases s.len(),
    via tail_decreases
{
    match first_of(s, 10, 10) {
        Some(p) => tail_of(s.skip(p + 1)),
        None => s,
    }
}

/// A read of exactly one control byte other than CR and LF: the device's
/// binary button state.
pub open spec fn is_button_byte(chunk: Seq<u8>) -> bool {
    chunk.len() == 1 && chunk[0] < 32 && chunk[0] != 13 && chunk[0] != 10
}

/// How many commands the echo filter remembers.
pub const SENT_LOG_MAX: usize = 32;

/// The log after sending `payload`: the oldest entry leaves when it is full.
pub open spec fn log_push(sent: Seq<Seq<u8>>, payload: Seq<u8>) -> Seq<Seq<u8>> {
    if sent.len() == SENT_LOG_MAX {
        sent.drop_first().push(payload)
    } else {
        sent.push(payload)
    }
}

/// The waiting list after registering command `cid`: a command already
/// waiting under that id gets the new waiter, otherwise it joins the end.
pub open spec fn register<P>(pending: Seq<(u32, P)>, cid: u32, p: P) -> Seq<(u32, P)> {
    match index_of_id(pending, cid) {
        Some(i) => pending.update(i, (cid, p)),
        None => pending.push((cid, p)),
    }
}

/// The first occurrence of an id is one, and only the ids before it differ.
pub proof fn lemma_index_of_id<P>(pending: Seq<(u32, P)>, cid: u32)
    ensures
        index_of_id(pending, cid) matches Some(i) ==> 0 <= i < pending.len() && pending[i].0 == cid
            && (forall|j: int| 0 <= j < i ==> pending[j].0 != cid),
        index_of_id(pending, cid) is None ==> forall|j: int|
            0 <= j < pending.len() ==> pending[j].0 != cid,
    decreases pending.len(),
{
    if pending.len() > 0 {
        lemma_index_of_id(pending.drop_first(), cid);
        assert forall|j: int| 1 <= j < pending.len() implies pending[j] == pending.drop_first()[j
            - 1] by {}
    }
}

/// The id a tracked command gets after `last`: one more, wrapping to 0.
pub open spec fn next_id(last: u32) -> u32 {
    if last == u32::MAX {
        0
    } else {
        (last + 1) as u32
    }
}

/// A command line as sent: the payload and CR LF.
pub open spec fn ff_frame(payload: Seq<u8>) -> Seq<u8> {
    payload + seq![13u8, 10u8]
}

/// A tracked command line as sent: the payload, `#<id>` and CR LF.
pub open spec fn tracked_frame(payload: Seq<u8>, cid: u32) -> Seq<u8> {
    payload + seq![35u8] + dec_bytes(cid as nat) + seq![13u8, 10u8]
}

/// The event views of zero or one event.
pub open spec fn opt_view<P>(o: Option<Inbound<P>>) -> Option<InboundView<P>> {
    match o {
        Some(e) => Some(e@),
        None => None,
    }
}

pub(crate) fn hex_digit(d: u8) -> (h: u8)
    requires
        d < 16,
    ensures
        h == hex_upper(d as int),
{
    if d < 10 {
        d + 48
    } else {
        d + 55
    }
}

/// `mouse_raw:[XX, XX, ...]` for the given bytes.
pub fn mouse_raw(bs: &[u8]) -> (t: Vec<u8>)
    ensures
        t@ == mouse_raw_text(bs@),
{
    let mut t: Vec<u8> = Vec::new();
    t.push(109);
    t.push(111);
    t.push(117);
    t.push(115);
    t.push(101);
    t.push(95);
    t.push(114);
    t.push(97);
    t.push(119);
    t.push(58);
    t.push(91);
    assert(t@ =~= mouse_raw_head());
    let mut k: usize = 0;
    while k < bs.len()
        invariant
            k <= bs@.len(),
            t@ == mouse_raw_head() + hex_list(bs@.take(k as int)),
        decreases bs@.len() - k,
    {
        let ghost before = t@;
        if k > 0 {
            t.push(44);
            t.push(32);
        }
        let b = bs[k];
        t.push(hex_digit(b / 16));
        t.push(hex_digit(b % 16));
        proof {
            let s = bs@.take(k + 1);
            assert(s.drop_last() =~= bs@.take(k as int));
            if k == 0 {
                assert(hex_list(s) == hex2(s[0]));
            }
            assert(t@ =~= mouse_raw_head() + hex_list(s));
        }
        k = k + 1;
    }
    t.push(93);
    assert(bs@.take(bs@.len() as int) =~= bs@);
    assert(t@ =~= mouse_raw_text(bs@));
    t
}

/// No two waiting commands share an id.
pub open spec fn distinct_ids<P>(pending: Seq<(u32, P)>) -> bool {
    forall|i: int, j: int|
        0 <= i < j < pending.len() ==> #[trigger] pending[i].0 != #[trigger] pending[j].0
}

/// The commands sent most recently, oldest first, at most `SENT_LOG_MAX`:
/// a line that echoes one of them is not taken for a reply. One log serves
/// every link of the process, so it is kept apart from the links.
pub struct SentLog {
    sent: Vec<Vec<u8>>,
}

impl View for SentLog {
    type V = Seq<Seq<u8>>;

    closed spec fn view(&self) -> Seq<Seq<u8>> {
        self.sent@.map_values(|v: Vec<u8>| v@)
    }
}

impl SentLog {
    /// An empty log.
    pub fn new() -> (l: Self)
        ensures
            l@ == Seq::<Seq<u8>>::empty(),
    {
        let l = SentLog { sent: Vec::new() };
        assert(l@ =~= Seq::<Seq<u8>>::empty());
        l
    }

    /// How many commands the log holds.
    pub fn len(&self) -> (n: usize)
        ensures
            n == self@.len(),
    {
        self.sent.len()
    }

    /// Logs a sent command; when the log is full its oldest entry leaves.
    pub fn record(&mut self, payload: &[u8])
        ensures
            final(self)@ == log_push(old(self)@, payload@),
    {
        let ghost before = self.sent@;
        if self.sent.len() == SENT_LOG_MAX {
            self.sent.remove(0);
        }
        let ghost mid = self.sent@;
        self.sent.push(slice_to_vec(payload));
        proof {
            let f = |v: Vec<u8>| v@;
            if before.len() == SENT_LOG_MAX {
                assert(mid.map_values(f) =~= before.map_values(f).drop_first());
            }
            assert(self.sent@.map_values(f) =~= mid.map_values(f).push(payload@));
        }
    }

    /// Whether `payload` echoes a logged command (see [`echo_of`]).
    pub fn echoes(&self, payload: &[u8]) -> (r: bool)
        ensures
            r == is_echo(self@, payload@),
    {
        let mut k: usize = 0;
        while k < self.sent.len()
            invariant
                k <= self.sent@.len(),
                forall|j: int| 0 <= j < k ==> !echo_of(#[trigger] self@[j], payload@),
            decreases self.sent@.len() - k,
        {
            let cmd = self.sent[k].as_slice();
            assert(cmd@ == self@[k as int]);
            if bytes_eq(cmd, payload) {
                return true;
            }
            proof {
                lemma_first_of(cmd@, 40, 40);
            }
            match find_byte(40, cmd) {
                Some(op) => {
                    assert(first_of(cmd@, 40, 40) == Some(op as int));
                    assert(op < cmd@.len());
                    assert(op < cmd.len());
                    let name = slice_subrange(cmd, 0, op + 1);
                    assert(name@ =~= cmd@.take(op + 1));
                    if has_prefix(payload, name) {
                        return true;
                    }
                },
                None => {},
            }
            k = k + 1;
        }
        false
    }
}

/// The host side of the serial exchange with a device: the framing of
/// outgoing commands, the tracked commands waiting for a reply (each with the
/// waiter `P` that gets it), and the bytes of an incomplete received line.
/// Sent commands are logged in a [`SentLog`], which filters the echoes.
pub struct Link<P> {
    rx: BytesMut,
    pending: Vec<(u32, P)>,
    cmd_id: u32,
}

impl<P> Link<P> {
    /// Received bytes after the last complete line.
    pub closed spec fn rx_view(&self) -> Seq<u8> {
        bytes_mut_contents(self.rx)
    }

    /// The tracked commands waiting for a reply, oldest first.
    pub closed spec fn pending_view(&self) -> Seq<(u32, P)> {
        self.pending@
    }

    /// The id given to the last tracked command (0 before the first).
    pub closed spec fn last_id(&self) -> u32 {
        self.cmd_id
    }

    pub fn new() -> (l: Self)
        ensures
            l.rx_view() == Seq::<u8>::empty(),
            l.pending_view() == Seq::<(u32, P)>::empty(),
            l.last_id() == 0,
    {
        Link { rx: bm_with_capacity(2048), pending: Vec::new(), cmd_id: 0 }
    }

    /// How many received bytes wait for the end of their line.
    pub fn buffered(&self) -> (n: usize)
        ensures
            n == self.rx_view().len(),
    {
        bm_as_slice(&self.rx).len()
    }

    /// How many tracked commands wait for a reply.
    pub fn waiting(&self) -> (n: usize)
        ensures
            n == self.pending_view().len(),
    {
        self.pending.len()
    }

    /// The line for a fire-and-forget command; the command is logged so that
    /// its echo is not taken for a reply.
    pub fn frame_ff(&self, log: &mut SentLog, payload: &[u8]) -> (frame: Vec<u8>)
        ensures
            frame@ == ff_frame(payload@),
            final(log)@ == log_push(old(log)@, payload@),
    {
        log.record(payload);
        let mut v = slice_to_vec(payload);
        v.push(13);
        v.push(10);
        assert(v@ =~= ff_frame(payload@));
        v
    }

    fn find_pending(&self, cid: u32) -> (r: Option<usize>)
        ensures
            match r {
                Some(i) => index_of_id(self.pending_view(), cid) == Some(i as int) && i
                    < self.pending_view().len(),
                None => index_of_id(self.pending_view(), cid) is None,
            },
    {
        proof {
            lemma_index_of_id(self.pending@, cid);
        }
        let mut k: usize = 0;
        while k < self.pending.len()
            invariant
                k <= self.pending@.len(),
                forall|j: int| 0 <= j < k ==> self.pending@[j].0 != cid,
            decreases self.pending@.len() - k,
        {
            if self.pending[k].0 == cid {
                proof {
                    lemma_index_of_id(self.pending@, cid);
                }
                return Some(k);
            }
            k = k + 1;
        }
        proof {
            lemma_index_of_id(self.pending@, cid);
        }
        None
    }

    /// Registers a tracked command and gives its id and its line. The line
    /// carries `#<id>` so that the reply can be matched to the waiter `p`.
    pub fn frame_tracked(&mut self, log: &mut SentLog, payload: &[u8], p: P) -> (r: (u32, Vec<u8>))
        ensures
            r.0 == next_id(old(self).last_id()),
            r.1@ == tracked_frame(payload@, r.0),
            final(self).last_id() == r.0,
            final(self).pending_view() == register(old(self).pending_view(), r.0, p),
            final(log)@ == log_push(old(log)@, payload@),
            final(self).rx_view() == old(self).rx_view(),
    {
        log.record(payload);
        let cid = self.cmd_id.wrapping_add(1);
        self.cmd_id = cid;
        match self.find_pending(cid) {
            Some(i) => {
                self.pending.set(i, (cid, p));
            },
            None => {
                self.pending.push((cid, p));
            },
        }
        let mut v = slice_to_vec(payload);
        v.push(35);
        push_dec_bytes(&mut v, cid as u64);
        v.push(13);
        v.push(10);
        assert(v@ =~= tracked_frame(payload@, cid));
        (cid, v)
    }

    /// Withdraws the command `cid` (its reply did not come in time) and
    /// gives back its waiter.
    pub fn cancel(&mut self, cid: u32) -> (r: Option<P>)
        ensures
            match index_of_id(old(self).pending_view(), cid) {
                Some(i) => r == Some(old(self).pending_view()[i].1) && final(self).pending_view()
                    == old(self).pending_view().remove(i),
                None => r is None && final(self).pending_view() == old(self).pending_view(),
            },
            final(self).rx_view() == old(self).rx_view(),
            final(self).last_id() == old(self).last_id(),
    {
        match self.find_pending(cid) {
            Some(i) => {
                let (_, p) = self.pending.remove(i);
                Some(p)
            },
            None => None,
        }
    }

    /// The port closed: every waiter is handed back, oldest first, and the
    /// partial line is dropped.
    pub fn close(&mut self) -> (r: Vec<P>)
        ensures
            r@ == old(self).pending_view().map_values(|e: (u32, P)| e.1),
            final(self).pending_view() == Seq::<(u32, P)>::empty(),
            final(self).rx_view() == Seq::<u8>::empty(),
            final(self).last_id() == old(self).last_id(),
    {
        let mut r: Vec<P> = Vec::new();
        let ghost all = self.pending@;
        while self.pending.len() > 0
            invariant
                all == old(self).pending_view(),
                self.pending@ == all.skip(r@.len() as int),
                r@.len() <= all.len(),
                r@ == all.take(r@.len() as int).map_values(|e: (u32, P)| e.1),
                self.cmd_id == old(self).cmd_id,
                self.rx == old(self).rx,
            decreases self.pending@.len(),
        {
            let ghost k: int = r@.len() as int;
            let (_, p) = self.pending.remove(0);
            r.push(p);
            proof {
                assert(all.skip(k).drop_first() =~= all.skip(k + 1));
                assert(all.take(k + 1).map_values(|e: (u32, P)| e.1) =~= all.take(k).map_values(
                    |e: (u32, P)| e.1,
                ).push(all[k].1));
            }
        }
        assert(all.take(all.len() as int) =~= all);
        self.rx = bm_with_capacity(2048);
        r
    }

    fn on_text_line(&mut self, log: &SentLog, line: &[u8]) -> (e: Option<Inbound<P>>)
        ensures
            (final(self).pending_view(), opt_view(e)) == on_text_line(
                log@,
                old(self).pending_view(),
                line@,
            ),
            final(self).rx_view() == old(self).rx_view(),
            final(self).last_id() == old(self).last_id(),
    {
        if self.pending.len() == 0 {
            return Some(Inbound::Stream(slice_to_vec(line)));
        }
        proof {
            lemma_first_of(line@, 35, 35);
        }
        match find_byte(35, line) {
            Some(h) => {
                proof {
                    lemma_first_of(line@, 35, 35);
                }
                assert(h < line.len());
                let after = slice_subrange(line, h + 1, line.len());
                assert(after@ =~= line@.skip(h + 1));
                match find_either(58, 13, after) {
                    Some(c) => {
                        proof {
                            lemma_first_of(after@, 58, 13);
                        }
                        let digits = slice_subrange(after, 0, c);
                        assert(digits@ =~= after@.take(c as int));
                        match parse_u32_bytes(digits) {
                            Some(cid) => {
                                match self.find_pending(cid) {
                                    Some(i) => {
                                        let (_, p) = self.pending.remove(i);
                                        let start = h + 1 + c + 1;
                                        let payload = slice_to_vec(
                                            slice_subrange(line, start, line.len()),
                                        );
                                        assert(payload@ =~= line@.skip(start as int));
                                        return Some(Inbound::Reply(p, payload));
                                    },
                                    None => {
                                        return None;
                                    },
                                }
                            },
                            None => {},
                        }
                    },
                    None => {},
                }
            },
            None => {},
        }
        let prompt_bytes: [u8; 3] = [62, 62, 62];
        let pb: &[u8] = &prompt_bytes;
        assert(pb@ =~= prompt());
        let payload: &[u8] = if has_prefix(line, pb) {
            let p = slice_subrange(line, 3, line.len());
            if p.len() > 0 && p[0] == 32 {
                slice_subrange(p, 1, p.len())
            } else {
                p
            }
        } else {
            line
        };
        assert(payload@ =~= strip_prompt(line@));
        if log.echoes(payload) {
            return None;
        }
        let (_, p) = self.pending.remove(0);
        Some(Inbound::Reply(p, slice_to_vec(payload)))
    }

    fn on_line(&mut self, log: &SentLog, raw: &[u8]) -> (e: Option<Inbound<P>>)
        ensures
            (final(self).pending_view(), opt_view(e)) == on_line(
                log@,
                old(self).pending_view(),
                raw@,
            ),
            final(self).rx_view() == old(self).rx_view(),
            final(self).last_id() == old(self).last_id(),
    {
        let mut end = raw.len();
        if end > 0 && raw[end - 1] == 10 {
            end = end - 1;
        }
        if end > 0 && raw[end - 1] == 13 {
            end = end - 1;
        }
        let line = slice_subrange(raw, 0, end);
        assert(line@ =~= strip_line(raw@));
        if line.len() == 0 {
            return None;
        }
        let tag_buttons: [u8; 10] = [107, 109, 46, 98, 117, 116, 116, 111, 110, 115];
        let tb: &[u8] = &tag_buttons;
        assert(tb@ =~= buttons_tag());
        if has_prefix(line, tb) && line.len() == 11 {
            return Some(Inbound::Buttons(MouseButtonStates::from_mask(line[10])));
        }
        let tag_mouse: [u8; 8] = [107, 109, 46, 109, 111, 117, 115, 101];
        let tm: &[u8] = &tag_mouse;
        assert(tm@ =~= mouse_tag());
        if has_prefix(line, tm) && line.len() == 16 {
            let data = slice_subrange(line, 8, 16);
            assert(data@ =~= line@.skip(8));
            return Some(Inbound::Stream(mouse_raw(data)));
        }
        self.on_text_line(log, line)
    }

    /// Handles one read from the port, in arrival order: a lone control byte
    /// is the button state; other bytes are added to the partial line, and
    /// every line they complete is handled (see [`on_line`]); the bytes after
    /// the last line end stay for the next read.
    pub fn on_bytes(&mut self, log: &SentLog, chunk: &[u8]) -> (events: Vec<Inbound<P>>)
        requires
            old(self).rx_view().len() + chunk@.len() <= isize::MAX,
        ensures
            is_button_byte(chunk@) ==> events_view(events@) == seq![
                InboundView::<P>::Buttons(states_of(chunk@[0])),
            ] && final(self).pending_view() == old(self).pending_view() && final(self).rx_view()
                == old(self).rx_view(),
            !is_button_byte(chunk@) ==> ({
                let data = old(self).rx_view() + chunk@;
                let r = on_lines(log@, old(self).pending_view(), lines_of(data));
                &&& final(self).pending_view() == r.0
                &&& events_view(events@) == r.1
                &&& final(self).rx_view() == tail_of(data)
            }),
            final(self).last_id() == old(self).last_id(),
    {
        let mut events: Vec<Inbound<P>> = Vec::new();
        if chunk.len() == 1 && chunk[0] < 32 && chunk[0] != 13 && chunk[0] != 10 {
            events.push(Inbound::Buttons(MouseButtonStates::from_mask(chunk[0])));
            assert(events_view(events@) =~= seq![InboundView::<P>::Buttons(states_of(chunk@[0]))]);
            return events;
        }
        let ghost data = self.rx_view() + chunk@;
        let ghost sent = log@;
        let ghost pending0 = self.pending_view();
        bm_extend(&mut self.rx, chunk);
        let ghost mut done: Seq<Seq<u8>> = Seq::empty();
        proof {
            assert(done + lines_of(data) =~= lines_of(data));
            assert(events_view(events@) =~= Seq::<InboundView<P>>::empty());
        }
        loop
            invariant
                sent == log@,
                self.last_id() == old(self).last_id(),
                lines_of(data) == done + lines_of(self.rx_view()),
                tail_of(data) == tail_of(self.rx_view()),
                on_lines(sent, pending0, done) == (self.pending_view(), events_view(events@)),
            ensures
                sent == log@,
                self.last_id() == old(self).last_id(),
                lines_of(data) == done + lines_of(self.rx_view()),
                tail_of(data) == tail_of(self.rx_view()),
                on_lines(sent, pending0, done) == (self.pending_view(), events_view(events@)),
                first_of(self.rx_view(), 10, 10) is None,
            decreases self.rx_view().len(),
        {
            let ghost cur = self.rx_view();
            proof {
                lemma_first_of(cur, 10, 10);
            }
            let sl = bm_as_slice(&self.rx);
            let pos = match find_byte(10, sl) {
                Some(p) => p,
                None => {
                    break;
                },
            };
            assert(pos < sl.len());
            proof {
                lemma_first_of(cur, 10, 10);
            }
            let line_buf = bm_split_to(&mut self.rx, pos + 1);
            let raw = bm_as_slice(&line_buf);
            let e = self.on_line(log, raw);
            let ghost before = events@;
            match e {
                Some(ev) => {
                    events.push(ev);
                },
                None => {},
            }
            proof {
                assert(events_view(events@) =~= events_view(before) + opt_seq(opt_view(e)));
                let d2 = done.push(raw@);
                assert(d2.drop_last() =~= done);
                assert(lines_of(cur) == seq![cur.take(pos + 1)] + lines_of(cur.skip(pos + 1)));
                assert(d2 + lines_of(self.rx_view()) =~= done + lines_of(cur));
                done = d2;
            }
        }
        proof {
            assert(lines_of(self.rx_view()) =~= Seq::<Seq<u8>>::empty());
            assert(done + lines_of(self.rx_view()) =~= done);
        }
        events
    }
}

} // verus!
