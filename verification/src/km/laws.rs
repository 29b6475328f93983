use vstd::prelude::*;

use super::link::{
    distinct_ids, first_of, index_of_id, is_echo, lemma_first_of, lemma_index_of_id, lines_of,
    log_push, mouse_tag, on_line, on_lines, on_text_line, opt_seq, register, reply_tag, starts_with,
    strip_line, tail_of, buttons_tag, InboundView, SENT_LOG_MAX,
};
use super::buttons::mask_of;
use super::link::{prompt, states_of, strip_prompt};
use super::text::{all_digits, dec_bytes, digits_value, is_digit, parse_dec_u32, unsigned_digits};

verus! {

/// The first needle of `s` is also the first needle of `s` followed by more.
pub proof fn lemma_first_of_prefix(s: Seq<u8>, t: Seq<u8>, a: u8, b: u8)
    ensures
        first_of(s, a, b) is Some ==> first_of(s + t, a, b) == first_of(s, a, b),
        first_of(s, a, b) is None ==> first_of(s + t, a, b) == match first_of(t, a, b) {
            Some(i) => Some(i + s.len()),
            None => None,
        },
    decreases s.len(),
{
    if s.len() > 0 {
        assert((s + t).drop_first() =~= s.drop_first() + t);
        lemma_first_of_prefix(s.drop_first(), t, a, b);
    } else {
        assert(s + t =~= t);
    }
}

/// Splitting received bytes anywhere gives the same lines: those complete in
/// the first part, then those completed by the rest after its tail.
pub proof fn lemma_lines_concat(s: Seq<u8>, t: Seq<u8>)
    ensures
        lines_of(s + t) == lines_of(s) + lines_of(tail_of(s) + t),
        tail_of(s + t) == tail_of(tail_of(s) + t),
    decreases s.len(),
{
    lemma_first_of(s, 10, 10);
    lemma_first_of_prefix(s, t, 10, 10);
    match first_of(s, 10, 10) {
        Some(p) => {
            assert((s + t).skip(p + 1) =~= s.skip(p + 1) + t);
            assert((s + t).take(p + 1) =~= s.take(p + 1));
            lemma_lines_concat(s.skip(p + 1), t);
            let l = seq![s.take(p + 1)];
            assert(l + (lines_of(s.skip(p + 1)) + lines_of(tail_of(s.skip(p + 1)) + t)) =~= (l
                + lines_of(s.skip(p + 1))) + lines_of(tail_of(s.skip(p + 1)) + t));
        },
        None => {
            assert(Seq::<Seq<u8>>::empty() + lines_of(s + t) =~= lines_of(s + t));
        },
    }
}

/// Handling two runs of lines one after the other is handling them at once.
pub proof fn lemma_on_lines_concat<P>(
    sent: Seq<Seq<u8>>,
    pending: Seq<(u32, P)>,
    l1: Seq<Seq<u8>>,
    l2: Seq<Seq<u8>>,
)
    ensures
        ({
            let r1 = on_lines(sent, pending, l1);
            let r2 = on_lines(sent, r1.0, l2);
            on_lines(sent, pending, l1 + l2) == (r2.0, r1.1 + r2.1)
        }),
    decreases l2.len(),
{
    let r1 = on_lines(sent, pending, l1);
    if l2.len() == 0 {
        assert(l1 + l2 =~= l1);
        assert(r1.1 + Seq::<InboundView<P>>::empty() =~= r1.1);
    } else {
        assert((l1 + l2).drop_last() =~= l1 + l2.drop_last());
        assert((l1 + l2).last() == l2.last());
        lemma_on_lines_concat(sent, pending, l1, l2.drop_last());
        let m = on_lines(sent, r1.0, l2.drop_last());
        let e = on_line(sent, m.0, l2.last());
        assert(r1.1 + m.1 + opt_seq(e.1) =~= r1.1 + (m.1 + opt_seq(e.1)));
    }
}

/// Received text is handled the same however the reads split it (for reads
/// that are not a lone button byte): the waiting commands, the events in
/// order, and the partial line kept at the end all agree.
pub proof fn lemma_reads_split<P>(
    sent: Seq<Seq<u8>>,
    pending: Seq<(u32, P)>,
    rx: Seq<u8>,
    a: Seq<u8>,
    b: Seq<u8>,
)
    ensures
        ({
            let d1 = rx + a;
            let r1 = on_lines(sent, pending, lines_of(d1));
            let d2 = tail_of(d1) + b;
            let r2 = on_lines(sent, r1.0, lines_of(d2));
            let whole = rx + (a + b);
            &&& on_lines(sent, pending, lines_of(whole)) == (r2.0, r1.1 + r2.1)
            &&& tail_of(whole) == tail_of(d2)
        }),
{
    let d1 = rx + a;
    assert(rx + (a + b) =~= d1 + b);
    lemma_lines_concat(d1, b);
    lemma_on_lines_concat(sent, pending, lines_of(d1), lines_of(tail_of(d1) + b));
}

/// The echo filter never remembers more than its capacity.
pub proof fn lemma_log_bounded(sent: Seq<Seq<u8>>, payload: Seq<u8>)
    requires
        sent.len() <= SENT_LOG_MAX,
    ensures
        log_push(sent, payload).len() <= SENT_LOG_MAX,
        log_push(sent, payload).last() == payload,
{
}

/// Registering a command keeps the waiting ids distinct.
pub proof fn lemma_register_distinct<P>(pending: Seq<(u32, P)>, cid: u32, p: P)
    requires
        distinct_ids(pending),
    ensures
        distinct_ids(register(pending, cid, p)),
        index_of_id(register(pending, cid, p), cid) is Some,
{
    lemma_index_of_id(pending, cid);
    let r = register(pending, cid, p);
    lemma_index_of_id(r, cid);
    match index_of_id(pending, cid) {
        Some(i) => {
            assert(r[i].0 == cid);
            assert forall|j: int, k: int| 0 <= j < k < r.len() implies #[trigger] r[j].0
                != #[trigger] r[k].0 by {
                assert(r[j].0 == pending[j].0 && r[k].0 == pending[k].0);
            }
        },
        None => {
            assert(r[pending.len() as int].0 == cid);
            assert forall|j: int, k: int| 0 <= j < k < r.len() implies #[trigger] r[j].0
                != #[trigger] r[k].0 by {
                if k == pending.len() {
                    assert(r[j] == pending[j]);
                } else {
                    assert(r[j] == pending[j] && r[k] == pending[k]);
                }
            }
        },
    }
}

/// Withdrawing a command right after registering it under a fresh id hands
/// back its waiter and leaves the waiting list as it was.
pub proof fn lemma_cancel_undoes_register<P>(pending: Seq<(u32, P)>, cid: u32, p: P)
    requires
        index_of_id(pending, cid) is None,
    ensures
        index_of_id(register(pending, cid, p), cid) == Some(pending.len() as int),
        register(pending, cid, p)[pending.len() as int].1 == p,
        register(pending, cid, p).remove(pending.len() as int) == pending,
{
    lemma_index_of_id(pending, cid);
    let r = register(pending, cid, p);
    assert(r == pending.push((cid, p)));
    lemma_index_of_id(r, cid);
    assert(r[pending.len() as int].0 == cid);
    match index_of_id(r, cid) {
        Some(i) => {
            if i < pending.len() {
                assert(r[i] == pending[i]);
            }
        },
        None => {},
    }
    assert(r.remove(pending.len() as int) =~= pending);
}

/// Taking a command out of the waiting list keeps the ids distinct.
pub proof fn lemma_remove_distinct<P>(pending: Seq<(u32, P)>, i: int)
    requires
        distinct_ids(pending),
        0 <= i < pending.len(),
    ensures
        distinct_ids(pending.remove(i)),
{
    let r = pending.remove(i);
    assert forall|j: int, k: int| 0 <= j < k < r.len() implies #[trigger] r[j].0
        != #[trigger] r[k].0 by {
        let jj = if j < i { j } else { j + 1 };
        let kk = if k < i { k } else { k + 1 };
        assert(r[j] == pending[jj] && r[k] == pending[kk]);
    }
}

/// Received lines keep the waiting ids distinct.
pub proof fn lemma_on_lines_distinct<P>(
    sent: Seq<Seq<u8>>,
    pending: Seq<(u32, P)>,
    lines: Seq<Seq<u8>>,
)
    requires
        distinct_ids(pending),
    ensures
        distinct_ids(on_lines(sent, pending, lines).0),
    decreases lines.len(),
{
    if lines.len() > 0 {
        lemma_on_lines_distinct(sent, pending, lines.drop_last());
        let p1 = on_lines(sent, pending, lines.drop_last()).0;
        let line = strip_line(lines.last());
        match reply_tag(line) {
            Some((cid, _)) => {
                lemma_index_of_id(p1, cid);
                match index_of_id(p1, cid) {
                    Some(i) => lemma_remove_distinct(p1, i),
                    None => {},
                }
            },
            None => {
                if p1.len() > 0 {
                    lemma_remove_distinct(p1, 0);
                    assert(p1.remove(0) =~= p1.drop_first());
                }
            },
        }
    }
}

/// The decimal digits of a number read back as that number.
pub proof fn lemma_dec_roundtrip(n: nat)
    ensures
        all_digits(dec_bytes(n)),
        digits_value(dec_bytes(n)) == n,
        dec_bytes(n).len() >= 1,
    decreases n,
{
    if n >= 10 {
        lemma_dec_roundtrip(n / 10);
        let d = dec_bytes(n);
        assert(d.drop_last() =~= dec_bytes(n / 10));
        assert(forall|i: int| 0 <= i < d.len() - 1 ==> d[i] == dec_bytes(n / 10)[i]);
        assert(d.last() == ((n % 10) + 48) as u8);
        assert((n / 10) * 10 + n % 10 == n) by (nonlinear_arith);
        assert(digits_value(d) == digits_value(d.drop_last()) * 10 + (d.last() - 48) as nat);
        assert((d.last() - 48) as nat == n % 10);
        assert(digits_value(d) == (n / 10) * 10 + n % 10);
    } else {
        let d = dec_bytes(n);
        assert(d.drop_last() =~= Seq::<u8>::empty());
        assert(digits_value(d.drop_last()) == 0);
        assert(d.last() == (n + 48) as u8);
        assert(digits_value(d) == n);
    }
}

/// With no command waiting, every received line that is not empty and not a
/// binary button or mouse frame is streamed as it is, whatever it holds.
pub proof fn lemma_idle_line_streams<P>(sent: Seq<Seq<u8>>, raw: Seq<u8>)
    requires
        strip_line(raw).len() > 0,
        !(starts_with(strip_line(raw), buttons_tag()) && strip_line(raw).len() == 11),
        !(starts_with(strip_line(raw), mouse_tag()) && strip_line(raw).len() == 16),
    ensures
        on_line(sent, Seq::<(u32, P)>::empty(), raw) == (
            Seq::<(u32, P)>::empty(),
            Some(InboundView::<P>::Stream(strip_line(raw))),
        ),
{
}

/// The reply the device sends for a tracked command, `<text>#<id>:<payload>`
/// (the text holding no `#`), goes to the command waiting under that id,
/// which stops waiting; this holds of any line but a streamed mouse frame.
pub proof fn lemma_tagged_reply<P>(
    sent: Seq<Seq<u8>>,
    pending: Seq<(u32, P)>,
    text: Seq<u8>,
    cid: u32,
    payload: Seq<u8>,
)
    requires
        forall|k: int| 0 <= k < text.len() ==> text[k] != 35,
        index_of_id(pending, cid) is Some,
        ({
            let line = text + seq![35u8] + dec_bytes(cid as nat) + seq![58u8] + payload;
            !(starts_with(line, mouse_tag()) && line.len() == 16)
        }),
    ensures
        ({
            let line = text + seq![35u8] + dec_bytes(cid as nat) + seq![58u8] + payload;
            let i = index_of_id(pending, cid).unwrap();
            on_line(sent, pending, line + seq![13u8, 10u8]) == (
                pending.remove(i),
                Some(InboundView::Reply(pending[i].1, payload)),
            )
        }),
{
    let digits = dec_bytes(cid as nat);
    let line = text + seq![35u8] + digits + seq![58u8] + payload;
    lemma_dec_roundtrip(cid as nat);
    assert((line + seq![13u8, 10u8]).drop_last().drop_last() =~= line);
    assert(strip_line(line + seq![13u8, 10u8]) == line);
    // the first `#` is the one after the text
    lemma_first_of(text, 35, 35);
    lemma_first_of_prefix(text, seq![35u8] + digits + seq![58u8] + payload, 35, 35);
    assert(line =~= text + (seq![35u8] + digits + seq![58u8] + payload));
    assert(first_of(seq![35u8] + digits + seq![58u8] + payload, 35, 35) == Some(0int));
    let h = text.len() as int;
    assert(first_of(line, 35, 35) == Some(h));
    let after = line.skip(h + 1);
    assert(after =~= digits + (seq![58u8] + payload));
    // the id ends at the `:` after the digits
    assert forall|k: int| 0 <= k < digits.len() implies digits[k] != 58 && digits[k] != 13 by {
        assert(is_digit(digits[k]));
    }
    lemma_first_of(digits, 58, 13);
    lemma_first_of_prefix(digits, seq![58u8] + payload, 58, 13);
    assert(first_of(seq![58u8] + payload, 58, 13) == Some(0int));
    let c = digits.len() as int;
    assert(first_of(after, 58, 13) == Some(c));
    assert(after.take(c) =~= digits);
    assert(unsigned_digits(digits) == digits) by {
        assert(is_digit(digits[0]));
    }
    assert(parse_dec_u32(digits) == Some(cid));
    assert(reply_tag(line) == Some((cid, h + 1 + c + 1)));
    assert(line.skip(h + 1 + c + 1) =~= payload);
    // not a streamed button line: its tag holds no `#`
    assert(!(starts_with(line, buttons_tag()) && line.len() == 11)) by {
        if starts_with(line, buttons_tag()) && line.len() == 11 && h < 10 {
            assert(line.subrange(0, 10)[h] == line[h]);
        }
    }
    lemma_index_of_id(pending, cid);
}

/// A streamed button byte reads as the device encodes it: 0x01 left, 0x02
/// right, 0x04 middle, 0x08 side1 (back), 0x10 side2 (forward); the three
/// high bits carry nothing, so encoding the states gives the low five bits.
pub proof fn lemma_button_byte_decodes(m: u8)
    ensures
        states_of(m).left == (m & 0x01u8 != 0),
        states_of(m).right == (m & 0x02u8 != 0),
        states_of(m).middle == (m & 0x04u8 != 0),
        states_of(m).side1 == (m & 0x08u8 != 0),
        states_of(m).side2 == (m & 0x10u8 != 0),
        mask_of(states_of(m)) == m & 0x1fu8,
{
    assert((1u8 << 0u8) == 1u8 && (1u8 << 1u8) == 2u8 && (1u8 << 2u8) == 4u8 && (1u8 << 3u8) == 8u8
        && (1u8 << 4u8) == 16u8) by (bit_vector);
    super::buttons::lemma_mask_roundtrip(m);
}

/// A `km.buttons` line carrying the byte `m` is the button state `m`
/// encodes (see [`lemma_button_byte_decodes`]), whatever waits.
pub proof fn lemma_buttons_line_decodes<P>(sent: Seq<Seq<u8>>, pending: Seq<(u32, P)>, m: u8)
    ensures
        ({
            let raw = buttons_tag() + seq![m, 13u8, 10u8];
            &&& on_line(sent, pending, raw).0 == pending
            &&& on_line(sent, pending, raw).1 matches Some(InboundView::Buttons(st))
            &&& st.left == (m & 0x01u8 != 0)
            &&& st.right == (m & 0x02u8 != 0)
            &&& st.middle == (m & 0x04u8 != 0)
            &&& st.side1 == (m & 0x08u8 != 0)
            &&& st.side2 == (m & 0x10u8 != 0)
        }),
{
    let raw = buttons_tag() + seq![m, 13u8, 10u8];
    let line = buttons_tag() + seq![m];
    assert(raw.drop_last().drop_last() =~= line);
    assert(strip_line(raw) == line);
    assert(line.subrange(0, 10) =~= buttons_tag());
    assert(line[10] == m);
    lemma_button_byte_decodes(m);
}

/// An answer line that is neither tagged nor an echo goes to the oldest
/// waiting command without the device prompt `>>> ` in front of it.
pub proof fn lemma_prompted_answer<P>(sent: Seq<Seq<u8>>, pending: Seq<(u32, P)>, t: Seq<u8>)
    requires
        pending.len() > 0,
        forall|k: int| 0 <= k < t.len() ==> t[k] != 35,
        !is_echo(sent, t),
    ensures
        on_line(sent, pending, prompt() + seq![32u8] + t + seq![13u8, 10u8]) == (
            pending.drop_first(),
            Some(InboundView::Reply(pending[0].1, t)),
        ),
{
    let line = prompt() + seq![32u8] + t;
    let raw = line + seq![13u8, 10u8];
    assert(raw.drop_last().drop_last() =~= line);
    assert(strip_line(raw) == line);
    assert(line.subrange(0, 3) =~= prompt());
    assert(line.skip(3) =~= seq![32u8] + t);
    assert((seq![32u8] + t).skip(1) =~= t);
    assert(strip_prompt(line) == t);
    lemma_first_of(line, 35, 35);
    assert forall|k: int| 0 <= k < line.len() implies line[k] != 35 by {
        if k >= 4 {
            assert(line[k] == t[k - 4]);
        }
    }
    assert(line[0] == 62);
    assert(!starts_with(line, buttons_tag())) by {
        if starts_with(line, buttons_tag()) {
            assert(line.subrange(0, 10)[0] == line[0]);
        }
    }
    assert(!starts_with(line, mouse_tag())) by {
        if starts_with(line, mouse_tag()) {
            assert(line.subrange(0, 8)[0] == line[0]);
        }
    }
}

/// An answer line without the prompt that is neither tagged nor an echo
/// goes as it is to the oldest waiting command.
pub proof fn lemma_plain_answer<P>(sent: Seq<Seq<u8>>, pending: Seq<(u32, P)>, t: Seq<u8>)
    requires
        pending.len() > 0,
        t.len() > 0,
        forall|k: int| 0 <= k < t.len() ==> t[k] != 35,
        !starts_with(t, prompt()),
        !(starts_with(t, buttons_tag()) && t.len() == 11),
        !(starts_with(t, mouse_tag()) && t.len() == 16),
        !is_echo(sent, t),
    ensures
        on_line(sent, pending, t + seq![13u8, 10u8]) == (
            pending.drop_first(),
            Some(InboundView::Reply(pending[0].1, t)),
        ),
{
    let raw = t + seq![13u8, 10u8];
    assert(raw.drop_last().drop_last() =~= t);
    assert(strip_line(raw) == t);
    lemma_first_of(t, 35, 35);
}

/// While a command waits, a line that repeats a sent command (the device
/// echoing it) is dropped and the command keeps waiting.
pub proof fn lemma_echo_dropped<P>(sent: Seq<Seq<u8>>, pending: Seq<(u32, P)>, k: int)
    requires
        pending.len() > 0,
        0 <= k < sent.len(),
        sent[k].len() > 0,
        forall|x: int| 0 <= x < sent[k].len() ==> sent[k][x] != 35,
        !starts_with(sent[k], prompt()),
        !(starts_with(sent[k], buttons_tag()) && sent[k].len() == 11),
        !(starts_with(sent[k], mouse_tag()) && sent[k].len() == 16),
    ensures
        on_line(sent, pending, sent[k] + seq![13u8, 10u8]) == (pending, None::<InboundView<P>>),
{
    let t = sent[k];
    let raw = t + seq![13u8, 10u8];
    assert(raw.drop_last().drop_last() =~= t);
    assert(strip_line(raw) == t);
    lemma_first_of(t, 35, 35);
    assert(super::link::echo_of(sent[k], t));
}

} // verus!
