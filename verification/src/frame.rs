//! Field-line parsing for one frame of the event-stream wire format.
//!
//! A frame is a run of lines.  Each line is split at its first colon into a
//! field name and a value (the value loses at most one leading space); a line
//! without a colon is all name.  The fields `event` and `id` overwrite their
//! slot, last write wins; every `data` value is appended to the frame's data
//! buffer with a trailing line feed, so multi-line payloads concatenate with
//! line-feed separators; `retry` asks for a new reconnect-delay hint when its
//! value is a run of decimal digits that fits an unsigned 64-bit count of
//! milliseconds, and is ignored otherwise; unknown names are ignored.  An
//! empty line reports that the frame is complete.

use vstd::prelude::*;

use crate::sse::{CR, LF};

verus! {

/// Colon byte, the name/value separator.
pub const COLON: u8 = 58;

/// Space byte; one is dropped from the front of a value.
pub const SP: u8 = 32;

/// The byte 0 of decimal digits.
pub const DIGIT0: u8 = 48;

/// The byte after 9 of decimal digits.
pub const DIGIT9: u8 = 57;

/// The field name `event`.
pub open spec fn kw_event() -> Seq<u8> {
    seq![101u8, 118u8, 101u8, 110u8, 116u8]
}

/// The field name `data`.
pub open spec fn kw_data() -> Seq<u8> {
    seq![100u8, 97u8, 116u8, 97u8]
}

/// The field name `id`.
pub open spec fn kw_id() -> Seq<u8> {
    seq![105u8, 100u8]
}

/// The field name `retry`.
pub open spec fn kw_retry() -> Seq<u8> {
    seq![114u8, 101u8, 116u8, 114u8, 121u8]
}

/// One frame under assembly: the optional event id and event type, and the
/// data payload collected from every `data` line seen so far.
pub struct Frame {
    /// Last `id` value seen, if any.
    pub id: Option<Vec<u8>>,
    /// Last `event` value seen, if any.
    pub event: Option<Vec<u8>>,
    /// Every `data` value seen, each followed by a line feed.
    pub data: Vec<u8>,
}

/// The mathematical image of a [`Frame`].
pub struct FrameV {
    /// Last `id` value seen, if any.
    pub id: Option<Seq<u8>>,
    /// Last `event` value seen, if any.
    pub event: Option<Seq<u8>>,
    /// Every `data` value seen, each followed by a line feed.
    pub data: Seq<u8>,
}

impl View for Frame {
    type V = FrameV;

    open spec fn view(&self) -> FrameV {
        FrameV {
            id: match self.id {
                Some(v) => Some(v@),
                None => None,
            },
            event: match self.event {
                Some(v) => Some(v@),
                None => None,
            },
            data: self.data@,
        }
    }
}

/// The empty frame.
pub open spec fn empty_frame() -> FrameV {
    FrameV { id: None, event: None, data: Seq::empty() }
}

impl Frame {
    /// Creates a frame with no fields seen yet.
    pub fn new() -> (f: Frame)
        ensures
            f@ == empty_frame(),
    {
        Frame { id: None, event: None, data: Vec::new() }
    }
}

/// What one parsed line asks the caller to do.
#[derive(Clone, Copy, Debug, PartialEq, Eq, Structural)]
pub enum LineOutcome {
    /// The line was a field line (or unrecognized); keep feeding lines.
    Continue,
    /// The line was empty: the frame is complete.
    FrameComplete,
    /// The line was a well-formed `retry` field: adopt this reconnect delay,
    /// in milliseconds.
    SetRetryHint(u64),
}

/// The index of the first occurrence of `t` at or after `i` in `b`, if any.
pub open spec fn find_byte_from(b: Seq<u8>, t: u8, i: int) -> Option<int>
    decreases b.len() - i,
{
    if i >= b.len() {
        None
    } else if b[i] == t {
        Some(i)
    } else {
        find_byte_from(b, t, i + 1)
    }
}

/// What `find_byte_from` returns: the earliest occurrence at or after `i`, or
/// none and then `t` does not occur at or after `i`.
pub proof fn lemma_find_byte_from(b: Seq<u8>, t: u8, i: int)
    requires
        0 <= i,
    ensures
        match find_byte_from(b, t, i) {
            Some(j) => i <= j < b.len() && b[j] == t && forall|k: int| i <= k < j ==> b[k] != t,
            None => forall|k: int| i <= k < b.len() ==> b[k] != t,
        },
    decreases b.len() - i,
{
    if i >= b.len() {
    } else if b[i] == t {
    } else {
        lemma_find_byte_from(b, t, i + 1);
    }
}

/// The earliest occurrence is unchanged when the scan starts anywhere in the
/// occurrence-free stretch before it.
pub proof fn lemma_find_byte_exact(b: Seq<u8>, t: u8, i: int, j: int)
    requires
        0 <= i <= j < b.len(),
        b[j] == t,
        forall|k: int| i <= k < j ==> b[k] != t,
    ensures
        find_byte_from(b, t, i) == Some(j),
    decreases j - i,
{
    if i < j {
        lemma_find_byte_exact(b, t, i + 1, j);
    }
}

/// When `t` occurs nowhere at or after `i`, the scan finds nothing.
pub proof fn lemma_find_byte_none(b: Seq<u8>, t: u8, i: int)
    requires
        0 <= i,
        forall|k: int| i <= k < b.len() ==> b[k] != t,
    ensures
        find_byte_from(b, t, i) is None,
{
    lemma_find_byte_from(b, t, i);
    if find_byte_from(b, t, i) is Some {
        let j = find_byte_from(b, t, i)->Some_0;
        assert(b[j] != t);
    }
}

/// A line with one trailing carriage return stripped.
pub open spec fn strip_cr(l: Seq<u8>) -> Seq<u8> {
    if l.len() > 0 && l[l.len() - 1] == CR {
        l.drop_last()
    } else {
        l
    }
}

/// A line split at its first colon: the name before it, and the value after
/// it minus at most one leading space.  A line without a colon is all name.
pub open spec fn split_field(l: Seq<u8>) -> (Seq<u8>, Seq<u8>) {
    match find_byte_from(l, COLON, 0) {
        None => (l, Seq::empty()),
        Some(c) => {
            let v = l.skip(c + 1);
            (l.take(c), if v.len() > 0 && v[0] == SP {
                v.skip(1)
            } else {
                v
            })
        },
    }
}

/// Whether every byte of `s` is a decimal digit.
pub open spec fn is_digits(s: Seq<u8>) -> bool {
    forall|k: int| 0 <= k < s.len() ==> DIGIT0 <= #[trigger] s[k] <= DIGIT9
}

/// The number the digit run `s` denotes.
pub open spec fn digits_val(s: Seq<u8>) -> int
    decreases s.len(),
{
    if s.len() == 0 {
        0
    } else {
        10 * digits_val(s.drop_last()) + (s.last() - DIGIT0)
    }
}

/// A digit run denotes a number no smaller than any of its prefixes'.
pub proof fn lemma_digits_val_prefix(s: Seq<u8>, i: int)
    requires
        is_digits(s),
        0 <= i <= s.len(),
    ensures
        0 <= digits_val(s.take(i)) <= digits_val(s),
        digits_val(s.take(s.len() as int)) == digits_val(s),
    decreases s.len() - i,
{
    if i == s.len() {
        assert(s.take(i) =~= s);
        lemma_digits_val_nonneg(s);
    } else {
        lemma_digits_val_prefix(s, i + 1);
        assert(s.take(i + 1).drop_last() =~= s.take(i));
        assert(is_digits(s.take(i + 1)));
        lemma_digits_val_nonneg(s.take(i));
    }
}

/// A digit run denotes a non-negative number.
pub proof fn lemma_digits_val_nonneg(s: Seq<u8>)
    requires
        is_digits(s),
    ensures
        digits_val(s) >= 0,
    decreases s.len(),
{
    if s.len() > 0 {
        assert(is_digits(s.drop_last()));
        lemma_digits_val_nonneg(s.drop_last());
    }
}

/// The value of a `retry` field: the number its digits denote, when the value
/// is a non-empty run of decimal digits that fits an unsigned 64-bit integer;
/// anything else is ignored.
pub open spec fn retry_value(s: Seq<u8>) -> Option<u64> {
    if s.len() > 0 && is_digits(s) && digits_val(s) <= u64::MAX {
        Some(digits_val(s) as u64)
    } else {
        None
    }
}

/// What parsing one line does to a frame, and what it reports.
pub open spec fn parse_line_spec(f: FrameV, line: Seq<u8>) -> (FrameV, LineOutcome) {
    let l = strip_cr(line);
    if l.len() == 0 {
        (f, LineOutcome::FrameComplete)
    } else {
        let (name, value) = split_field(l);
        if name == kw_event() {
            (FrameV { id: f.id, event: Some(value), data: f.data }, LineOutcome::Continue)
        } else if name == kw_data() {
            (
                FrameV { id: f.id, event: f.event, data: f.data + value + seq![LF] },
                LineOutcome::Continue,
            )
        } else if name == kw_id() {
            (FrameV { id: Some(value), event: f.event, data: f.data }, LineOutcome::Continue)
        } else if name == kw_retry() {
            (
                f,
                match retry_value(value) {
                    Some(ms) => LineOutcome::SetRetryHint(ms),
                    None => LineOutcome::Continue,
                },
            )
        } else {
            (f, LineOutcome::Continue)
        }
    }
}

/// Whether `name` is the field name `event`.
fn is_kw_event(name: &[u8]) -> (r: bool)
    ensures
        r == (name@ == kw_event()),
{
    if name.len() == 5 && name[0] == 101 && name[1] == 118 && name[2] == 101 && name[3] == 110
        && name[4] == 116 {
        proof {
            assert(name@ =~= kw_event());
        }
        true
    } else {
        proof {
            if name@ == kw_event() {
                assert(name@.len() == 5);
            }
        }
        false
    }
}

/// Whether `name` is the field name `data`.
fn is_kw_data(name: &[u8]) -> (r: bool)
    ensures
        r == (name@ == kw_data()),
{
    if name.len() == 4 && name[0] == 100 && name[1] == 97 && name[2] == 116 && name[3] == 97 {
        proof {
            assert(name@ =~= kw_data());
        }
        true
    } else {
        proof {
            if name@ == kw_data() {
                assert(name@.len() == 4);
            }
        }
        false
    }
}

/// Whether `name` is the field name `id`.
fn is_kw_id(name: &[u8]) -> (r: bool)
    ensures
        r == (name@ == kw_id()),
{
    if name.len() == 2 && name[0] == 105 && name[1] == 100 {
        proof {
            assert(name@ =~= kw_id());
        }
        true
    } else {
        proof {
            if name@ == kw_id() {
                assert(name@.len() == 2);
            }
        }
        false
    }
}

/// Whether `name` is the field name `retry`.
fn is_kw_retry(name: &[u8]) -> (r: bool)
    ensures
        r == (name@ == kw_retry()),
{
    if name.len() == 5 && name[0] == 114 && name[1] == 101 && name[2] == 116 && name[3] == 114
        && name[4] == 121 {
        proof {
            assert(name@ =~= kw_retry());
        }
        true
    } else {
        proof {
            if name@ == kw_retry() {
                assert(name@.len() == 5);
            }
        }
        false
    }
}

/// Parses a run of decimal digits as a count of milliseconds, exactly when
/// the whole value is digits and the number fits.
fn parse_retry(value: &[u8]) -> (r: Option<u64>)
    ensures
        r == retry_value(value@),
{
    let n = value.len();
    if n == 0 {
        return None;
    }
    let mut acc: u64 = 0;
    let mut i: usize = 0;
    while i < n
        invariant
            n == value@.len(),
            0 <= i <= n,
            is_digits(value@.take(i as int)),
            acc == digits_val(value@.take(i as int)),
        decreases n - i,
    {
        let d = value[i];
        if d < DIGIT0 || d > DIGIT9 {
            proof {
                assert(!is_digits(value@));
            }
            return None;
        }
        let wide: u128 = (acc as u128) * 10 + ((d - DIGIT0) as u128);
        proof {
            assert(value@.take(i + 1).drop_last() =~= value@.take(i as int));
            assert(is_digits(value@.take(i + 1)));
            assert(wide == digits_val(value@.take(i + 1)));
        }
        if wide > u64::MAX as u128 {
            proof {
                if is_digits(value@) {
                    lemma_digits_val_prefix(value@, i + 1);
                }
            }
            return None;
        }
        acc = wide as u64;
        i = i + 1;
    }
    proof {
        assert(value@.take(n as int) =~= value@);
    }
    Some(acc)
}

/// Parses one line, with its trailing line feed already removed, into the
/// frame: strips one trailing carriage return, splits at the first colon,
/// and applies the field.  Two calls with the same line and the same starting
/// frame always leave the same frame and report the same outcome, since both
/// are fixed by `parse_line_spec` of those two values alone.
pub fn parse_line(line: &[u8], frame: &mut Frame) -> (r: LineOutcome)
    ensures
        final(frame)@ == parse_line_spec(old(frame)@, line@).0,
        r == parse_line_spec(old(frame)@, line@).1,
{
    let full = line.len();
    let l_end = if full > 0 && line[full - 1] == CR {
        full - 1
    } else {
        full
    };
    proof {
        assert(strip_cr(line@) =~= line@.take(l_end as int));
    }
    if l_end == 0 {
        proof {
            assert(strip_cr(line@).len() == 0);
        }
        return LineOutcome::FrameComplete;
    }
    let ghost l = strip_cr(line@);
    // Find the first colon within the stripped line.
    let mut c: usize = 0;
    while c < l_end && line[c] != COLON
        invariant
            0 <= c <= l_end <= line@.len(),
            l == strip_cr(line@),
            l == line@.take(l_end as int),
            forall|k: int| 0 <= k < c ==> l[k] != COLON,
        decreases l_end - c,
    {
        c = c + 1;
    }
    let (name, value) = if c < l_end {
        proof {
            lemma_find_byte_exact(l, COLON, 0, c as int);
        }
        let vstart = if c + 1 < l_end && line[c + 1] == SP {
            c + 2
        } else {
            c + 1
        };
        let name = vstd::slice::slice_subrange(line, 0, c);
        let value = vstd::slice::slice_subrange(line, vstart, l_end);
        proof {
            assert(name@ =~= split_field(l).0);
            assert(value@ =~= split_field(l).1);
        }
        (name, value)
    } else {
        proof {
            lemma_find_byte_none(l, COLON, 0);
        }
        let name = vstd::slice::slice_subrange(line, 0, l_end);
        let value = vstd::slice::slice_subrange(line, l_end, l_end);
        proof {
            assert(name@ =~= split_field(l).0);
            assert(value@ =~= split_field(l).1);
        }
        (name, value)
    };
    if is_kw_event(name) {
        frame.event = Some(vstd::slice::slice_to_vec(value));
        LineOutcome::Continue
    } else if is_kw_data(name) {
        let mut v = vstd::slice::slice_to_vec(value);
        frame.data.append(&mut v);
        frame.data.push(LF);
        proof {
            assert(frame@.data =~= old(frame)@.data + value@ + seq![LF]);
        }
        LineOutcome::Continue
    } else if is_kw_id(name) {
        frame.id = Some(vstd::slice::slice_to_vec(value));
        LineOutcome::Continue
    } else if is_kw_retry(name) {
        match parse_retry(value) {
            Some(ms) => LineOutcome::SetRetryHint(ms),
            None => LineOutcome::Continue,
        }
    } else {
        LineOutcome::Continue
    }
}

/// The lines of a frame's raw text, split at line feeds; a trailing span
/// without a line feed is a line too, and empty text has no lines.
pub open spec fn split_lines(b: Seq<u8>) -> Seq<Seq<u8>>
    decreases b.len(),
    via split_lines_dec
{
    if b.len() == 0 {
        Seq::empty()
    } else {
        match find_byte_from(b, LF, 0) {
            None => seq![b],
            Some(i) => seq![b.take(i)] + split_lines(b.skip(i + 1)),
        }
    }
}

#[via_fn]
proof fn split_lines_dec(b: Seq<u8>) {
    lemma_find_byte_from(b, LF, 0);
}

/// Folding a run of lines into a frame, carrying the latest reconnect-delay
/// hint along.
pub open spec fn fold_lines(f: FrameV, hint: Option<u64>, lines: Seq<Seq<u8>>) -> (
    FrameV,
    Option<u64>,
)
    decreases lines.len(),
{
    if lines.len() == 0 {
        (f, hint)
    } else {
        let (nf, oc) = parse_line_spec(f, lines[0]);
        let nh = match oc {
            LineOutcome::SetRetryHint(ms) => Some(ms),
            _ => hint,
        };
        fold_lines(nf, nh, lines.skip(1))
    }
}

/// The frame a raw frame text denotes, and the reconnect-delay hint its last
/// well-formed `retry` line set, if any.
pub open spec fn parse_frame_spec(raw: Seq<u8>) -> (FrameV, Option<u64>) {
    fold_lines(empty_frame(), None, split_lines(raw))
}

/// Parses one raw frame text: splits it at line feeds and folds every line
/// into an initially empty frame.
pub fn parse_frame(raw: &[u8]) -> (r: (Frame, Option<u64>))
    ensures
        r.0@ == parse_frame_spec(raw@).0,
        r.1 == parse_frame_spec(raw@).1,
{
    let mut frame = Frame::new();
    let mut hint: Option<u64> = None;
    let n = raw.len();
    let mut pos: usize = 0;
    proof {
        assert(raw@.skip(0) =~= raw@);
    }
    while pos < n
        invariant
            n == raw@.len(),
            0 <= pos <= n,
            fold_lines(frame@, hint, split_lines(raw@.skip(pos as int))) == parse_frame_spec(
                raw@,
            ),
        decreases n - pos,
    {
        let mut j = pos;
        while j < n && raw[j] != LF
            invariant
                n == raw@.len(),
                pos <= j <= n,
                forall|k: int| pos <= k < j ==> raw@[k] != LF,
            decreases n - j,
        {
            j = j + 1;
        }
        let ghost rem = raw@.skip(pos as int);
        let ghost lines = split_lines(rem);
        let line = vstd::slice::slice_subrange(raw, pos, j);
        proof {
            if j < n {
                assert(rem[j - pos] == LF);
                assert forall|k: int| 0 <= k < j - pos implies rem[k] != LF by {
                    assert(rem[k] == raw@[pos + k]);
                }
                lemma_find_byte_exact(rem, LF, 0, j - pos);
                assert(line@ =~= rem.take(j - pos));
                assert(raw@.skip(j + 1) =~= rem.skip(j - pos + 1));
            } else {
                assert forall|k: int| 0 <= k < rem.len() implies rem[k] != LF by {
                    assert(rem[k] == raw@[pos + k]);
                }
                lemma_find_byte_none(rem, LF, 0);
                assert(line@ =~= rem);
            }
            assert(lines.len() > 0 && lines[0] == line@);
        }
        let oc = parse_line(line, &mut frame);
        match oc {
            LineOutcome::SetRetryHint(ms) => {
                hint = Some(ms);
            },
            _ => {},
        }
        if j < n {
            pos = j + 1;
            proof {
                assert(lines.skip(1) =~= split_lines(raw@.skip(pos as int)));
            }
        } else {
            pos = n;
            proof {
                assert(raw@.skip(pos as int) =~= Seq::<u8>::empty());
                assert(lines.skip(1) =~= split_lines(raw@.skip(pos as int)));
            }
        }
    }
    proof {
        assert(raw@.skip(pos as int) =~= Seq::<u8>::empty());
    }
    (frame, hint)
}

/// One encoded field line: the name, a colon and a space, the value, and a
/// carriage-return line-feed terminator.
pub open spec fn encode_line(name: Seq<u8>, value: Seq<u8>) -> Seq<u8> {
    name + seq![COLON, SP] + value + seq![CR, LF]
}

/// Appends a byte slice to a vector.
fn append_bytes(v: &mut Vec<u8>, s: &[u8])
    ensures
        final(v)@ == old(v)@ + s@,
{
    let n = s.len();
    let mut i: usize = 0;
    while i < n
        invariant
            n == s@.len(),
            0 <= i <= n,
            v@ == old(v)@ + s@.take(i as int),
        decreases n - i,
    {
        v.push(s[i]);
        proof {
            assert(old(v)@ + s@.take(i as int) + seq![s@[i as int]] =~= old(v)@ + s@.take(
                i + 1,
            ));
        }
        i = i + 1;
    }
    proof {
        assert(old(v)@ + s@.take(n as int) =~= old(v)@ + s@);
    }
}

/// Writes one field as a wire line, `name: value` with a carriage-return
/// line-feed terminator.
pub fn encode_field(name: &[u8], value: &[u8]) -> (r: Vec<u8>)
    ensures
        r@ == encode_line(name@, value@),
{
    let mut out: Vec<u8> = Vec::new();
    append_bytes(&mut out, name);
    out.push(COLON);
    out.push(SP);
    append_bytes(&mut out, value);
    out.push(CR);
    out.push(LF);
    proof {
        assert(out@ =~= encode_line(name@, value@));
    }
    out
}

/// An encoded line splits back into exactly the name and the value it was
/// made from, provided the name contains no colon.
pub proof fn lemma_encoded_line_splits(name: Seq<u8>, value: Seq<u8>)
    requires
        forall|k: int| 0 <= k < name.len() ==> name[k] != COLON,
    ensures
        split_field(strip_cr(name + seq![COLON, SP] + value + seq![CR])) == (name, value),
{
    let line = name + seq![COLON, SP] + value + seq![CR];
    assert(line[line.len() - 1] == CR);
    let l = strip_cr(line);
    assert(l =~= name + seq![COLON, SP] + value);
    let c = name.len() as int;
    assert(l[c] == COLON);
    lemma_find_byte_exact(l, COLON, 0, c);
    let v = l.skip(c + 1);
    assert(v[0] == SP);
    assert(l.take(c) =~= name);
    assert(v.skip(1) =~= value);
}

/// Every value, each followed by a line feed, in order: the data payload a
/// frame of those `data` lines carries.
pub open spec fn join_data(values: Seq<Seq<u8>>) -> Seq<u8>
    decreases values.len(),
{
    if values.len() == 0 {
        Seq::empty()
    } else {
        values[0] + seq![LF] + join_data(values.skip(1))
    }
}

/// The raw text of one frame holding the given values as `data` lines.
pub open spec fn encode_data_frame(values: Seq<Seq<u8>>) -> Seq<u8>
    decreases values.len(),
{
    if values.len() == 0 {
        Seq::empty()
    } else {
        encode_line(kw_data(), values[0]) + encode_data_frame(values.skip(1))
    }
}

/// Folding the encoded `data` lines onto any starting frame appends exactly
/// the joined values to its data payload and touches nothing else.
proof fn lemma_data_lines_fold(f: FrameV, h: Option<u64>, values: Seq<Seq<u8>>)
    requires
        forall|m: int, k: int|
            0 <= m < values.len() && 0 <= k < values[m].len() ==> #[trigger] values[m][k] != LF,
    ensures
        fold_lines(f, h, split_lines(encode_data_frame(values))) == (
            FrameV { id: f.id, event: f.event, data: f.data + join_data(values) },
            h,
        ),
    decreases values.len(),
{
    if values.len() == 0 {
        assert(split_lines(encode_data_frame(values)).len() == 0);
        assert(f.data + join_data(values) =~= f.data);
        assert(FrameV { id: f.id, event: f.event, data: f.data + join_data(values) } == f);
    } else {
        let v0 = values[0];
        let raw = encode_data_frame(values);
        let el = encode_line(kw_data(), v0);
        let rest = encode_data_frame(values.skip(1));
        assert(raw == el + rest);
        let ll = el.len() - 1;
        // The only line feed of the encoded line is its final byte.
        assert(raw[ll] == LF);
        assert forall|k: int| 0 <= k < ll implies raw[k] != LF by {
            assert(kw_data()[0] == 100 && kw_data()[1] == 97 && kw_data()[2] == 116 && kw_data()[3]
                == 97);
            if k < 4 {
                assert(raw[k] == kw_data()[k]);
            } else if k < 6 {
                assert(raw[k] == seq![COLON, SP][k - 4]);
            } else if k < 6 + v0.len() {
                assert(raw[k] == v0[k - 6]);
                assert(values[0][k - 6] != LF);
            } else {
                assert(raw[k] == CR);
            }
        }
        lemma_find_byte_exact(raw, LF, 0, ll);
        let line = raw.take(ll);
        assert(line =~= kw_data() + seq![COLON, SP] + v0 + seq![CR]);
        lemma_encoded_line_splits(kw_data(), v0);
        assert(strip_cr(line).len() > 0);
        let step = parse_line_spec(f, line);
        assert(step.0 == FrameV { id: f.id, event: f.event, data: f.data + v0 + seq![LF] });
        assert(step.1 == LineOutcome::Continue);
        assert(raw.skip(ll + 1) =~= rest);
        assert(split_lines(raw) == seq![line] + split_lines(rest));
        assert(split_lines(raw).skip(1) =~= split_lines(rest));
        assert(split_lines(raw)[0] == line);
        lemma_data_lines_fold(step.0, h, values.skip(1));
        assert(f.data + v0 + seq![LF] + join_data(values.skip(1)) =~= f.data + join_data(values));
    }
}

/// Round trip: writing values as `data: value` wire lines and parsing the
/// resulting frame text reproduces exactly those values, joined with their
/// line-feed separators, as the frame's data payload; no other field is set
/// and no reconnect-delay hint arises.
pub proof fn lemma_data_round_trip(values: Seq<Seq<u8>>)
    requires
        forall|m: int, k: int|
            0 <= m < values.len() && 0 <= k < values[m].len() ==> #[trigger] values[m][k] != LF,
    ensures
        parse_frame_spec(encode_data_frame(values)) == (
            FrameV { id: None, event: None, data: join_data(values) },
            None::<u64>,
        ),
{
    lemma_data_lines_fold(empty_frame(), None, values);
    assert(Seq::<u8>::empty() + join_data(values) =~= join_data(values));
}

} // verus!
