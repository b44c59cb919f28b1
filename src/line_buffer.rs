//! The line buffer and its two kinds of write transaction.
use vstd::prelude::*;
use vstd::utf8::{is_char_boundary, valid_utf8};

use crate::text::{
    byte_len, clear_text, empty_with_capacity, floor_boundary, lemma_boundary_concat,
    lemma_floor_at_least, lemma_utf8_concat, max_text_len, push_char, push_text, safe_truncate,
    truncate_bytes, utf8,
};

verus! {

broadcast use vstd::utf8::group_utf8_lib;

/// Appended to a line whose content was cut to fit the budget.
pub const TRUNCATED_MARKER: &'static str = " TRUNCATED";

/// The byte length of the truncation marker.
pub const MARKER_LEN: usize = 10;

/// The bytes of the truncation marker.
pub open spec fn marker() -> Seq<u8> {
    utf8(TRUNCATED_MARKER@)
}

/// The bytes of a line feed.
pub open spec fn newline() -> Seq<u8> {
    utf8(seq!['\n'])
}

/// The marker is ten bytes of valid UTF-8.
pub proof fn lemma_marker_len()
    ensures
        marker().len() == MARKER_LEN,
        valid_utf8(marker()),
{
    reveal_strlit(" TRUNCATED");
    assert(TRUNCATED_MARKER@ == " TRUNCATED"@);
    assert(vstd::utf8::is_ascii_chars(TRUNCATED_MARKER@));
}

/// A newline is one byte.
pub proof fn lemma_newline_len()
    ensures
        newline().len() == 1,
{
    assert(vstd::utf8::is_ascii_chars(seq!['\n']));
}

/// What a line buffer holds, in bytes.
pub struct LineBufferView {
    /// Committed lines, followed by the metadata of an open or abandoned line.
    pub text: Seq<u8>,
    /// How many bytes of `text` belong to committed lines.
    pub committed: nat,
    pub payload: Seq<u8>,
    pub fields: Seq<u8>,
    pub max_line_size: nat,
}

impl LineBufferView {
    /// The committed lines.
    pub open spec fn lines(self) -> Seq<u8> {
        self.text.subrange(0, self.committed as int)
    }

    /// The metadata written after the committed lines.
    pub open spec fn meta(self) -> Seq<u8> {
        self.text.subrange(self.committed as int, self.text.len() as int)
    }

    pub open spec fn wf(self) -> bool {
        &&& valid_utf8(self.text)
        &&& valid_utf8(self.payload)
        &&& valid_utf8(self.fields)
        &&& self.committed <= self.text.len()
        &&& is_char_boundary(self.text, self.committed as int)
    }
}

/// A buffer of committed log lines, plus the segments of the line being
/// written.
pub struct LineBuffer {
    buffer: String,
    payload: String,
    fields: String,
    max_line_size: usize,
    committed_len: usize,
}

impl View for LineBuffer {
    type V = LineBufferView;

    closed spec fn view(&self) -> LineBufferView {
        LineBufferView {
            text: utf8(self.buffer@),
            committed: self.committed_len as nat,
            payload: utf8(self.payload@),
            fields: utf8(self.fields@),
            max_line_size: self.max_line_size as nat,
        }
    }
}

impl LineBuffer {
    pub open spec fn wf(&self) -> bool {
        self@.wf()
    }

    /// A buffer that reserves `capacity` bytes for its lines and holds each
    /// line to `max_line_size` bytes.
    pub fn with_capacity(capacity: usize, max_line_size: usize) -> (r: Self)
        ensures
            r.wf(),
            r@.text == Seq::<u8>::empty(),
            r@.committed == 0,
            r@.payload == Seq::<u8>::empty(),
            r@.fields == Seq::<u8>::empty(),
            r@.max_line_size == max_line_size,
    {
        let r = LineBuffer {
            buffer: empty_with_capacity(capacity),
            payload: String::new(),
            fields: String::new(),
            max_line_size,
            committed_len: 0,
        };
        proof {
            assert(utf8(Seq::<char>::empty()) =~= Seq::<u8>::empty());
        }
        r
    }

    /// Sets the budget of the lines written from now on.
    pub fn configure(&mut self, max_line_size: usize)
        ensures
            final(self)@ == (LineBufferView { max_line_size: max_line_size as nat, ..old(self)@ }),
    {
        self.max_line_size = max_line_size;
    }

    /// Discards the lines and both segments.
    pub fn clear(&mut self)
        ensures
            final(self).wf(),
            final(self)@ == (LineBufferView {
                text: Seq::<u8>::empty(),
                committed: 0,
                payload: Seq::<u8>::empty(),
                fields: Seq::<u8>::empty(),
                ..old(self)@
            }),
    {
        clear_text(&mut self.buffer);
        clear_text(&mut self.payload);
        clear_text(&mut self.fields);
        self.committed_len = 0;
        proof {
            assert(utf8(Seq::<char>::empty()) =~= Seq::<u8>::empty());
        }
    }

    /// The committed lines.
    pub fn as_str(&self) -> (r: &str)
        requires
            self.wf(),
        ensures
            utf8(r@) == self@.lines(),
    {
        let (lines, _) = self.buffer.as_str().split_at(self.committed_len);
        lines
    }
}


/// The smaller of two integers.
pub open spec fn min_of(a: int, b: int) -> int {
    if a < b {
        a
    } else {
        b
    }
}

/// Bytes of a segment that survive trimming `need` bytes from its end,
/// and the bytes still to remove afterwards.
///
/// The cut is moved down to a character boundary; bytes removed by that
/// move count against the deficit.
pub open spec fn trim(seg: Seq<u8>, need: int) -> (int, int) {
    let part = min_of(seg.len() as int, need);
    let target = seg.len() - part;
    let keep = floor_boundary(seg, target);
    let rest = need - part - (target - keep);
    (keep, if rest > 0 { rest } else { 0 })
}

/// The length of the line as written so far, without marker and newline.
pub open spec fn line_len(v: LineBufferView) -> int {
    (v.meta().len() + v.payload.len() + v.fields.len()) as int
}

/// The bytes kept of metadata, payload and fields when a truncating
/// transaction commits, and whether the marker is appended.
///
/// A line within the budget keeps every byte, and is marked when the marker
/// would not fit beside it. A longer line loses bytes from the end of its
/// payload first, then of its fields, then of its metadata, until the
/// content and the marker fit; it is marked when the marker then fits.
pub open spec fn truncation(v: LineBufferView) -> (int, int, int, bool) {
    let len = line_len(v);
    let max = v.max_line_size as int;
    if len <= max {
        (v.meta().len() as int, v.payload.len() as int, v.fields.len() as int, len + MARKER_LEN
            > max)
    } else {
        let need = len - max + MARKER_LEN;
        let (pk, need1) = trim(v.payload, need);
        let (fk, need2) = trim(v.fields, need1);
        let meta_to = v.text.len() - min_of(v.meta().len() as int, need2);
        let mk = floor_boundary(v.text, meta_to) - v.committed;
        (mk, pk, fk, mk + pk + fk + MARKER_LEN <= max)
    }
}

/// The line that a truncating transaction commits, newline included.
pub open spec fn truncated_line(v: LineBufferView) -> Seq<u8> {
    let (mk, pk, fk, marked) = truncation(v);
    v.meta().subrange(0, mk) + v.payload.subrange(0, pk) + v.fields.subrange(0, fk) + (if marked {
        marker()
    } else {
        Seq::<u8>::empty()
    }) + newline()
}

/// The buffer after a truncating transaction commits: the line is appended,
/// and the segments keep what was left of them.
pub open spec fn truncating_commit(v: LineBufferView) -> LineBufferView {
    let (mk, pk, fk, marked) = truncation(v);
    LineBufferView {
        text: v.lines() + truncated_line(v),
        committed: (v.committed + truncated_line(v).len()) as nat,
        payload: v.payload.subrange(0, pk),
        fields: v.fields.subrange(0, fk),
        ..v
    }
}

/// The buffer after a direct transaction commits, when its line fits.
pub open spec fn direct_commit(v: LineBufferView) -> LineBufferView {
    LineBufferView { text: v.text + newline(), committed: (v.text.len() + 1) as nat, ..v }
}

/// The buffer after a transaction ends without a commit.
pub open spec fn rolled_back(v: LineBufferView) -> LineBufferView {
    LineBufferView { text: v.lines(), ..v }
}

/// Room in memory for a line and its marker.
pub open spec fn has_room(v: LineBufferView) -> bool {
    v.text.len() + v.payload.len() + v.fields.len() + MARKER_LEN + 4 <= max_text_len()
}

/// A line whose segments are trimmed to fit the budget on commit.
///
/// The line starts after the buffer's committed lines; until it commits, it
/// is not part of them.
pub struct TruncatingWrite<'a> {
    pub buf: &'a mut LineBuffer,
}

/// A line that is committed whole or not at all.
///
/// All three segments are written straight after the committed lines.
pub struct DirectWrite<'a> {
    pub buf: &'a mut LineBuffer,
}

impl LineBuffer {
    /// Drops what an abandoned transaction left after the committed lines.
    fn discard_pending(&mut self)
        requires
            old(self).wf(),
        ensures
            final(self).wf(),
            final(self)@ == rolled_back(old(self)@),
    {
        proof {
            vstd::utf8::valid_utf8_split(self@.text, self@.committed as int);
            vstd::utf8::is_char_boundary_start_end_of_seq(self@.lines());
        }
        truncate_bytes(&mut self.buffer, self.committed_len);
    }

    /// Opens a transaction whose line is committed whole or not at all.
    ///
    /// Metadata left by an earlier transaction that did not commit is
    /// discarded.
    pub fn direct_write(&mut self) -> (r: DirectWrite<'_>)
        requires
            old(self).wf(),
        ensures
            r.buf.wf(),
            r.buf@ == rolled_back(old(self)@),
            final(self)@ == final(r.buf)@,
    {
        self.discard_pending();
        DirectWrite { buf: self }
    }

    /// Opens a transaction whose line is trimmed to the budget on commit.
    ///
    /// Metadata left by an earlier transaction that did not commit is
    /// discarded.
    pub fn truncating_write(&mut self) -> (r: TruncatingWrite<'_>)
        requires
            old(self).wf(),
        ensures
            r.buf.wf(),
            r.buf@ == rolled_back(old(self)@),
            final(self)@ == final(r.buf)@,
    {
        self.discard_pending();
        TruncatingWrite { buf: self }
    }
}

/// The buffer once a truncating transaction has cut its segments: what
/// `truncation` keeps stays, the rest is gone.
pub open spec fn trimmed(v: LineBufferView) -> LineBufferView {
    let (mk, pk, fk, marked) = truncation(v);
    LineBufferView {
        text: v.text.subrange(0, v.committed as int + mk),
        payload: v.payload.subrange(0, pk),
        fields: v.fields.subrange(0, fk),
        ..v
    }
}

/// Trimming keeps a prefix of the segment, removes at least what it was
/// asked to unless the segment runs out, and passes on only what it could
/// not remove.
pub proof fn lemma_trim_bounds(seg: Seq<u8>, need: int)
    requires
        valid_utf8(seg),
        need >= 0,
    ensures
        0 <= trim(seg, need).0 <= seg.len(),
        0 <= trim(seg, need).1 <= need,
        trim(seg, need).0 - trim(seg, need).1 <= seg.len() - need,
        trim(seg, need).1 > 0 ==> trim(seg, need).0 == 0,
        need == 0 ==> trim(seg, need).0 == seg.len(),
{
    let part = min_of(seg.len() as int, need);
    vstd::utf8::is_char_boundary_start_end_of_seq(seg);
    lemma_floor_at_least(seg, seg.len() - part, 0);
}

/// What a truncating transaction keeps of each segment lies within it.
pub proof fn lemma_truncation_bounds(v: LineBufferView)
    requires
        v.wf(),
    ensures
        0 <= truncation(v).0 <= v.meta().len(),
        0 <= truncation(v).1 <= v.payload.len(),
        0 <= truncation(v).2 <= v.fields.len(),
{
    let len = line_len(v);
    let max = v.max_line_size as int;
    if len > max {
        let need = len - max + MARKER_LEN;
        lemma_trim_bounds(v.payload, need);
        let (pk, need1) = trim(v.payload, need);
        lemma_trim_bounds(v.fields, need1);
        let (fk, need2) = trim(v.fields, need1);
        let meta_to = v.text.len() - min_of(v.meta().len() as int, need2);
        lemma_floor_at_least(v.text, meta_to, v.committed as int);
    }
}

/// Cuts `need` bytes, moved down to a character boundary, from the end of a
/// segment and returns how many bytes are still to go.
fn trim_segment(seg: &mut String, need: usize) -> (rest: usize)
    ensures
        utf8(final(seg)@) == utf8(old(seg)@).subrange(0, trim(utf8(old(seg)@), need as int).0),
        rest == trim(utf8(old(seg)@), need as int).1,
{
    let len = byte_len(seg);
    let part = len.min(need);
    let rest = need - part;
    rest.saturating_sub(safe_truncate(seg, len - part))
}

impl LineBuffer {
    /// Cuts up to `need` bytes, moved down to a character boundary, from
    /// the end of the metadata after the committed lines.
    fn trim_meta(&mut self, need: usize)
        requires
            old(self).wf(),
        ensures
            final(self).wf(),
            final(self)@ == (LineBufferView {
                text: old(self)@.text.subrange(
                    0,
                    floor_boundary(
                        old(self)@.text,
                        old(self)@.text.len() - min_of(old(self)@.meta().len() as int, need as int),
                    ),
                ),
                ..old(self)@
            }),
    {
        let ghost v = self@;
        let meta_len = byte_len(&self.buffer) - self.committed_len;
        let meta_part = meta_len.min(need);
        let truncate_meta_to = byte_len(&self.buffer) - meta_part;
        proof {
            lemma_floor_at_least(v.text, truncate_meta_to as int, v.committed as int);
        }
        safe_truncate(&mut self.buffer, truncate_meta_to);
        proof {
            let floor = floor_boundary(v.text, truncate_meta_to as int);
            let c = v.committed as int;
            vstd::utf8::valid_utf8_split(v.text, c);
            assert(v.text =~= v.lines() + v.meta());
            lemma_boundary_concat(v.lines(), v.meta(), floor);
            vstd::utf8::valid_utf8_split(v.meta(), floor - c);
            let kept = v.meta().subrange(0, floor - c);
            assert(v.text.subrange(0, floor) =~= v.lines() + kept);
            lemma_boundary_concat(v.lines(), kept, c);
            vstd::utf8::is_char_boundary_start_end_of_seq(v.lines());
        }
    }
}

impl<'a> TruncatingWrite<'a> {
    /// The metadata segment: the buffer, whose end after the committed
    /// lines holds this line's metadata.
    pub fn meta_mut(&mut self) -> (r: &mut String)
        ensures
            utf8(r@) == old(self).buf@.text,
            final(self).buf@ == (LineBufferView { text: utf8(final(r)@), ..old(self).buf@ }),
            *final(final(self).buf) == *final(old(self).buf),
    {
        &mut self.buf.buffer
    }

    /// The payload segment.
    pub fn payload_mut(&mut self) -> (r: &mut String)
        ensures
            utf8(r@) == old(self).buf@.payload,
            final(self).buf@ == (LineBufferView { payload: utf8(final(r)@), ..old(self).buf@ }),
            *final(final(self).buf) == *final(old(self).buf),
    {
        &mut self.buf.payload
    }

    /// The fields segment.
    pub fn fields_mut(&mut self) -> (r: &mut String)
        ensures
            utf8(r@) == old(self).buf@.fields,
            final(self).buf@ == (LineBufferView { fields: utf8(final(r)@), ..old(self).buf@ }),
            *final(final(self).buf) == *final(old(self).buf),
    {
        &mut self.buf.fields
    }

    /// The bytes of metadata written so far.
    pub fn meta_len(&self) -> (r: usize)
        requires
            self.buf.wf(),
        ensures
            r == old(self.buf)@.meta().len(),
    {
        byte_len(&self.buf.buffer) - self.buf.committed_len
    }

    /// The bytes of the line written so far, without marker and newline.
    pub fn len(&self) -> (r: usize)
        requires
            self.buf.wf(),
            has_room(self.buf@),
        ensures
            r == line_len(old(self.buf)@),
    {
        self.meta_len() + byte_len(&self.buf.payload) + byte_len(&self.buf.fields)
    }

    /// Cuts the segments as `truncation` says and tells whether the marker
    /// is to be appended.
    fn probe_size_limit(&mut self) -> (r: bool)
        requires
            old(self).buf.wf(),
            has_room(old(self).buf@),
        ensures
            final(self).buf.wf(),
            final(self).buf@ == trimmed(old(self).buf@),
            r == truncation(old(self).buf@).3,
            *final(final(self).buf) == *final(old(self).buf),
    {
        let ghost v = self.buf@;
        let len = self.len();
        let max = self.buf.max_line_size;
        if len <= max {
            proof {
                assert(v.text.subrange(0, (v.committed + v.meta().len()) as int) =~= v.text);
                assert(v.payload.subrange(0, v.payload.len() as int) =~= v.payload);
                assert(v.fields.subrange(0, v.fields.len() as int) =~= v.fields);
            }
            return len + MARKER_LEN > max;
        }
        let mut need_to_erase = len - max + MARKER_LEN;

        proof {
            lemma_trim_bounds(v.payload, need_to_erase as int);
        }
        let need_to_erase = trim_segment(&mut self.buf.payload, need_to_erase);
        proof {
            lemma_trim_bounds(v.fields, need_to_erase as int);
        }
        let need_to_erase = trim_segment(&mut self.buf.fields, need_to_erase);
        let ghost meta_to = v.text.len() - min_of(v.meta().len() as int, need_to_erase as int);
        proof {
            lemma_floor_at_least(v.text, meta_to, v.committed as int);
        }
        self.buf.trim_meta(need_to_erase);
        assert(self.buf@ == trimmed(v));
        self.len() + MARKER_LEN <= max
    }

    /// Ends the transaction: the line, trimmed to the budget, is appended
    /// to the committed lines. It always succeeds.
    pub fn try_commit(self) -> (r: bool)
        requires
            self.buf.wf(),
            has_room(self.buf@),
        ensures
            r,
            final(self.buf).wf(),
            final(self.buf)@ == truncating_commit(old(self.buf)@),
    {
        let ghost v = self.buf@;
        let mut this = self;
        proof {
            lemma_truncation_bounds(v);
        }
        let add_truncated_marker = this.probe_size_limit();
        let ghost t = this.buf@;
        proof {
            lemma_marker_len();
            lemma_newline_len();
            lemma_utf8_concat(this.buf.buffer@, this.buf.payload@);
        }
        push_text(&mut this.buf.buffer, this.buf.payload.as_str());
        proof {
            lemma_utf8_concat(this.buf.buffer@, this.buf.fields@);
        }
        push_text(&mut this.buf.buffer, this.buf.fields.as_str());
        if add_truncated_marker {
            proof {
                lemma_utf8_concat(this.buf.buffer@, TRUNCATED_MARKER@);
            }
            push_text(&mut this.buf.buffer, TRUNCATED_MARKER);
        }
        let ghost before = this.buf.buffer@;
        proof {
            lemma_utf8_concat(this.buf.buffer@, seq!['\n']);
            assert(before.push('\n') =~= before + seq!['\n']);
        }
        push_char(&mut this.buf.buffer, '\n');
        this.buf.committed_len = byte_len(&this.buf.buffer);
        proof {
            let (mk, pk, fk, marked) = truncation(v);
            let tail = if marked {
                marker()
            } else {
                Seq::<u8>::empty()
            };
            assert(t.text =~= v.lines() + v.meta().subrange(0, mk));
            assert(this.buf@.text =~= v.lines() + truncated_line(v));
            vstd::utf8::is_char_boundary_start_end_of_seq(this.buf@.text);
        }
        true
    }
}

impl<'a> DirectWrite<'a> {
    /// The metadata segment: the buffer, whose end after the committed
    /// lines holds this line.
    pub fn meta_mut(&mut self) -> (r: &mut String)
        ensures
            utf8(r@) == old(self).buf@.text,
            final(self).buf@ == (LineBufferView { text: utf8(final(r)@), ..old(self).buf@ }),
            *final(final(self).buf) == *final(old(self).buf),
    {
        &mut self.buf.buffer
    }

    /// The payload segment, which is the metadata segment.
    pub fn payload_mut(&mut self) -> (r: &mut String)
        ensures
            utf8(r@) == old(self).buf@.text,
            final(self).buf@ == (LineBufferView { text: utf8(final(r)@), ..old(self).buf@ }),
            *final(final(self).buf) == *final(old(self).buf),
    {
        &mut self.buf.buffer
    }

    /// The fields segment, which is the metadata segment.
    pub fn fields_mut(&mut self) -> (r: &mut String)
        ensures
            utf8(r@) == old(self).buf@.text,
            final(self).buf@ == (LineBufferView { text: utf8(final(r)@), ..old(self).buf@ }),
            *final(final(self).buf) == *final(old(self).buf),
    {
        &mut self.buf.buffer
    }

    /// The bytes of the line written so far, without newline.
    pub fn len(&self) -> (r: usize)
        requires
            self.buf.wf(),
        ensures
            r == old(self.buf)@.meta().len(),
    {
        byte_len(&self.buf.buffer) - self.buf.committed_len
    }

    /// Ends the transaction. A line within the budget is appended to the
    /// committed lines with its newline; a longer one is discarded whole and
    /// `false` returned.
    pub fn try_commit(self) -> (r: bool)
        requires
            self.buf.wf(),
            self.buf@.text.len() + 4 <= max_text_len(),
        ensures
            r == (old(self.buf)@.meta().len() <= old(self.buf)@.max_line_size),
            final(self.buf).wf(),
            r ==> final(self.buf)@ == direct_commit(old(self.buf)@),
            !r ==> final(self.buf)@ == rolled_back(old(self.buf)@),
    {
        let ghost v = self.buf@;
        if self.len() > self.buf.max_line_size {
            self.buf.discard_pending();
            false
        } else {
            proof {
                lemma_newline_len();
                lemma_utf8_concat(self.buf.buffer@, seq!['\n']);
            }
            let ghost before = self.buf.buffer@;
            push_char(&mut self.buf.buffer, '\n');
            self.buf.committed_len = byte_len(&self.buf.buffer);
            proof {
                assert(before.push('\n') =~= before + seq!['\n']);
                vstd::utf8::is_char_boundary_start_end_of_seq(self.buf@.text);
            }
            true
        }
    }
}

/// A line cut to the budget fits it: its content, and its marker when it
/// has one, take at most `max_line_size` bytes. The one exception is a line
/// that was within the budget and had no room left for the marker: it keeps
/// all of its content and gets the marker.
pub proof fn lemma_truncated_line_within_budget(v: LineBufferView)
    requires
        v.wf(),
    ensures
        truncated_line(v).len() - 1 <= v.max_line_size || (line_len(v) <= v.max_line_size
            && truncation(v).3 && truncated_line(v).len() - 1 == line_len(v) + MARKER_LEN),
{
    lemma_marker_len();
    lemma_newline_len();
    lemma_truncation_bounds(v);
    let len = line_len(v);
    let max = v.max_line_size as int;
    let (mk, pk, fk, marked) = truncation(v);
    if len > max {
        let need = len - max + MARKER_LEN;
        lemma_trim_bounds(v.payload, need);
        let (p, need1) = trim(v.payload, need);
        lemma_trim_bounds(v.fields, need1);
        let (f, need2) = trim(v.fields, need1);
        let meta_to = v.text.len() - min_of(v.meta().len() as int, need2);
        lemma_floor_at_least(v.text, meta_to, v.committed as int);
    }
}

/// Bytes are cut from the payload first, then from the fields, then from
/// the metadata: a segment loses bytes only where the ones before it in
/// that order have lost all of theirs.
pub proof fn lemma_truncation_order(v: LineBufferView)
    requires
        v.wf(),
    ensures
        truncation(v).2 < v.fields.len() ==> truncation(v).1 == 0,
        truncation(v).0 < v.meta().len() ==> truncation(v).1 == 0 && truncation(v).2 == 0,
{
    lemma_truncation_bounds(v);
    let len = line_len(v);
    let max = v.max_line_size as int;
    if len > max {
        let need = len - max + MARKER_LEN;
        lemma_trim_bounds(v.payload, need);
        let (p, need1) = trim(v.payload, need);
        lemma_trim_bounds(v.fields, need1);
        let (f, need2) = trim(v.fields, need1);
        vstd::utf8::is_char_boundary_start_end_of_seq(v.text);
        if need2 == 0 {
            assert(floor_boundary(v.text, v.text.len() as int) == v.text.len());
        }
    }
}

/// With a budget of zero bytes, a line with any content is committed as a
/// bare newline.
pub proof fn lemma_zero_budget_leaves_newline(v: LineBufferView)
    requires
        v.wf(),
        v.max_line_size == 0,
        line_len(v) > 0,
    ensures
        truncated_line(v) == newline(),
{
    lemma_truncated_line_within_budget(v);
    lemma_truncation_bounds(v);
    lemma_marker_len();
    lemma_newline_len();
    let (mk, pk, fk, marked) = truncation(v);
    assert(v.meta().subrange(0, mk) =~= Seq::<u8>::empty());
    assert(v.payload.subrange(0, pk) =~= Seq::<u8>::empty());
    assert(v.fields.subrange(0, fk) =~= Seq::<u8>::empty());
    assert(truncated_line(v) =~= newline());
}

/// A transaction that ends without a commit leaves the committed lines as
/// they were: whatever it wrote after them and into the segments, the lines
/// read the same, and the next transaction starts right after them.
pub proof fn lemma_abandoned_line_keeps_lines(
    v: LineBufferView,
    meta: Seq<u8>,
    payload: Seq<u8>,
    fields: Seq<u8>,
)
    requires
        v.wf(),
    ensures
        ({
            let w = LineBufferView {
                text: rolled_back(v).text + meta,
                payload,
                fields,
                ..v
            };
            &&& w.lines() == v.lines()
            &&& rolled_back(w).text == v.lines()
        }),
{
    let w = LineBufferView { text: rolled_back(v).text + meta, payload, fields, ..v };
    assert(w.lines() =~= v.lines());
    assert(v.lines().subrange(0, v.committed as int) =~= v.lines());
}

/// A direct transaction appends all of its line with the newline, or
/// nothing at all.
pub proof fn lemma_direct_all_or_nothing(v: LineBufferView)
    requires
        v.wf(),
    ensures
        direct_commit(v).lines() == v.lines() + v.meta() + newline(),
        rolled_back(v).text == v.lines(),
{
    lemma_newline_len();
    assert(direct_commit(v).lines() =~= v.lines() + v.meta() + newline());
}

} // verus!
