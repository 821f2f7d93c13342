use vstd::prelude::*;

use crate::chunk::{is_terminal, ChunkModel, StreamChunk};
use crate::frame::{chunk_of_payload, parse_chunk};
use crate::text::{decode_lossy, lossy_decode, trim, trim_str};

verus! {

// The response body arrives as an arbitrary sequence of byte reads. The
// decoder buffers bytes, cuts them at line feeds, and decodes each complete
// line on its own; chunks therefore depend only on the total byte sequence,
// never on where the reads were split.

/// Whether a trimmed line starts with the frame marker `data: `.
pub open spec fn has_data_prefix(t: Seq<char>) -> bool {
    &&& t.len() >= 6
    &&& t[0] == 'd'
    &&& t[1] == 'a'
    &&& t[2] == 't'
    &&& t[3] == 'a'
    &&& t[4] == ':'
    &&& t[5] == ' '
}

/// The chunk a candidate line yields, if any: the line is trimmed, must
/// carry the frame marker, and the rest must be a well-formed payload.
pub open spec fn chunk_of_line_chars(chars: Seq<char>) -> Option<ChunkModel> {
    let t = trim(chars);
    if has_data_prefix(t) {
        chunk_of_payload(t.subrange(6, t.len() as int))
    } else {
        None
    }
}

/// Same, from the raw bytes of one line.
pub open spec fn chunk_of_line(line: Seq<u8>) -> Option<ChunkModel> {
    chunk_of_line_chars(lossy_decode(line))
}

/// Index of the first line feed, or the length if there is none.
pub open spec fn first_nl(buf: Seq<u8>) -> int
    decreases buf.len(),
{
    if buf.len() == 0 {
        0
    } else if buf[0] == 10 {
        0
    } else {
        1 + first_nl(buf.subrange(1, buf.len() as int))
    }
}

proof fn lemma_first_nl(buf: Seq<u8>)
    ensures
        0 <= first_nl(buf) <= buf.len(),
        forall|k: int| 0 <= k < first_nl(buf) ==> buf[k] != 10,
        first_nl(buf) < buf.len() ==> buf[first_nl(buf)] == 10,
    decreases buf.len(),
{
    if buf.len() == 0 {
    } else if buf[0] == 10 {
    } else {
        let b1 = buf.subrange(1, buf.len() as int);
        lemma_first_nl(b1);
        assert(forall|k: int| 0 <= k < first_nl(buf) ==> buf[k] != 10) by {
            assert(forall|k: int| 1 <= k < first_nl(buf) ==> buf[k] == b1[k - 1]);
        }
    }
}

proof fn lemma_first_nl_at(buf: Seq<u8>, i: int)
    requires
        0 <= i <= buf.len(),
        forall|k: int| 0 <= k < i ==> buf[k] != 10,
        i == buf.len() || buf[i] == 10,
    ensures
        first_nl(buf) == i,
    decreases i,
{
    if i == 0 {
    } else {
        let b1 = buf.subrange(1, buf.len() as int);
        lemma_first_nl_at(b1, i - 1);
    }
}

/// What draining a byte buffer yields: the bytes kept for later, whether a
/// terminal chunk stopped the turn, and the decoded chunks in order.
pub struct DrainOut {
    pub buf: Seq<u8>,
    pub done: bool,
    pub out: Seq<ChunkModel>,
}

/// Cuts every complete line off the buffer in order and decodes it,
/// stopping for good the moment a terminal chunk is decoded.
pub open spec fn spec_drain(buf: Seq<u8>) -> DrainOut
    decreases buf.len(),
{
    let i = first_nl(buf);
    if 0 <= i && i < buf.len() {
        let line = buf.subrange(0, i);
        let rest = buf.subrange(i + 1, buf.len() as int);
        match chunk_of_line(line) {
            None => spec_drain(rest),
            Some(c) => if is_terminal(c) {
                DrainOut { buf: rest, done: true, out: seq![c] }
            } else {
                let d = spec_drain(rest);
                DrainOut { buf: d.buf, done: d.done, out: seq![c] + d.out }
            },
        }
    } else {
        DrainOut { buf, done: false, out: seq![] }
    }
}

/// Mathematical image of a [`Decoder`].
pub struct DecoderModel {
    pub buf: Seq<u8>,
    pub done: bool,
}

/// What one read does to a decoder: nothing once a terminal chunk was
/// seen; otherwise the bytes join the buffer and complete lines drain.
pub open spec fn spec_feed(st: DecoderModel, bytes: Seq<u8>) -> DrainOut {
    if st.done {
        DrainOut { buf: st.buf, done: true, out: seq![] }
    } else {
        spec_drain(st.buf + bytes)
    }
}

/// A decoder at rest: once it is not done, no complete line is waiting.
pub open spec fn decoder_quiet(st: DecoderModel) -> bool {
    st.done || first_nl(st.buf) == st.buf.len()
}

proof fn lemma_drain_quiet(buf: Seq<u8>)
    ensures
        !spec_drain(buf).done ==> first_nl(spec_drain(buf).buf) == spec_drain(buf).buf.len(),
    decreases buf.len(),
{
    lemma_first_nl(buf);
    let i = first_nl(buf);
    if 0 <= i && i < buf.len() {
        lemma_drain_quiet(buf.subrange(i + 1, buf.len() as int));
    }
}

/// Incremental decoding over a single stream: after draining `buf`,
/// draining what is kept plus `extra` continues exactly where `buf + extra`
/// drained at once would be.
proof fn lemma_drain_extend(buf: Seq<u8>, extra: Seq<u8>)
    ensures
        ({
            let a = spec_drain(buf);
            let j = spec_drain(buf + extra);
            if a.done {
                j.out == a.out && j.done && j.buf == a.buf + extra
            } else {
                let b = spec_drain(a.buf + extra);
                j.out == a.out + b.out && j.done == b.done && j.buf == b.buf
            }
        }),
    decreases buf.len(),
{
    let a = spec_drain(buf);
    let j0 = buf + extra;
    let i = first_nl(buf);
    lemma_first_nl(buf);
    if 0 <= i && i < buf.len() {
        lemma_first_nl_at(j0, i);
        let line = buf.subrange(0, i);
        let rest = buf.subrange(i + 1, buf.len() as int);
        assert(j0.subrange(0, i) =~= line);
        assert(j0.subrange(i + 1, j0.len() as int) =~= rest + extra);
        match chunk_of_line(line) {
            None => {
                lemma_drain_extend(rest, extra);
            },
            Some(c) => {
                if is_terminal(c) {
                    assert(spec_drain(j0).buf == rest + extra);
                } else {
                    lemma_drain_extend(rest, extra);
                    let d = spec_drain(rest);
                    if d.done {
                        assert(spec_drain(rest + extra).out == d.out);
                        assert(spec_drain(j0).out =~= seq![c] + d.out);
                    } else {
                        let b = spec_drain(d.buf + extra);
                        assert(spec_drain(rest + extra).out == d.out + b.out);
                        assert(seq![c] + (d.out + b.out) =~= (seq![c] + d.out) + b.out);
                    }
                }
            },
        }
    } else {
        assert(buf + extra =~= a.buf + extra);
        assert(a.out + spec_drain(a.buf + extra).out =~= spec_drain(a.buf + extra).out);
    }
}

/// Splitting the same bytes over two reads yields the same chunks, in the
/// same order, as one read, and leaves the decoder in the same state.
pub proof fn lemma_feed_split(st: DecoderModel, b1: Seq<u8>, b2: Seq<u8>)
    ensures
        ({
            let r1 = spec_feed(st, b1);
            let m1 = DecoderModel { buf: r1.buf, done: r1.done };
            let r2 = spec_feed(m1, b2);
            let r12 = spec_feed(st, b1 + b2);
            &&& r1.out + r2.out == r12.out
            &&& r2.done == r12.done
            &&& (!r2.done ==> r2.buf == r12.buf)
        }),
{
    let r1 = spec_feed(st, b1);
    let m1 = DecoderModel { buf: r1.buf, done: r1.done };
    let r2 = spec_feed(m1, b2);
    let r12 = spec_feed(st, b1 + b2);
    if st.done {
        assert(r1.out + r2.out =~= r12.out);
    } else {
        lemma_drain_extend(st.buf + b1, b2);
        assert((st.buf + b1) + b2 =~= st.buf + (b1 + b2));
        if r1.done {
            assert(r1.out + r2.out =~= r12.out);
        }
    }
}

/// The byte sequences of several successive reads, as one sequence.
pub open spec fn concat_all(reads: Seq<Seq<u8>>) -> Seq<u8>
    decreases reads.len(),
{
    if reads.len() == 0 {
        Seq::empty()
    } else {
        reads[0] + concat_all(reads.subrange(1, reads.len() as int))
    }
}

/// The chunks that a run of successive reads yields, in order.
pub open spec fn feed_all_out(st: DecoderModel, reads: Seq<Seq<u8>>) -> Seq<ChunkModel>
    decreases reads.len(),
{
    if reads.len() == 0 {
        Seq::empty()
    } else {
        let r = spec_feed(st, reads[0]);
        r.out + feed_all_out(
            DecoderModel { buf: r.buf, done: r.done },
            reads.subrange(1, reads.len() as int),
        )
    }
}

/// However the same total bytes are split across read boundaries — even
/// inside a multi-byte character or inside a `data: ` line — the decoded
/// chunks are exactly those of delivering all bytes in one read.
pub proof fn lemma_split_invariance(st: DecoderModel, reads: Seq<Seq<u8>>)
    requires
        decoder_quiet(st),
    ensures
        feed_all_out(st, reads) == spec_feed(st, concat_all(reads)).out,
    decreases reads.len(),
{
    if reads.len() == 0 {
        if !st.done {
            assert(st.buf + Seq::<u8>::empty() =~= st.buf);
        }
    } else {
        let tail = reads.subrange(1, reads.len() as int);
        let r = spec_feed(st, reads[0]);
        let next = DecoderModel { buf: r.buf, done: r.done };
        if !st.done {
            lemma_drain_quiet(st.buf + reads[0]);
        }
        lemma_split_invariance(next, tail);
        lemma_feed_split(st, reads[0], concat_all(tail));
    }
}

/// A line without the `data: ` marker — a keep-alive blank line, say —
/// yields no chunk and leaves the decoder exactly as it was.
pub proof fn lemma_non_frame_line(st: DecoderModel, line: Seq<u8>)
    requires
        !st.done,
        st.buf.len() == 0,
        forall|k: int| 0 <= k < line.len() ==> line[k] != 10,
        !has_data_prefix(trim(lossy_decode(line))),
    ensures
        ({
            let r = spec_feed(st, line.push(10));
            r.out == Seq::<ChunkModel>::empty() && r.buf == st.buf && r.done == st.done
        }),
{
    lemma_line_without_chunk(st, line);
}

/// A `data: ` line whose payload is not a well-formed frame is skipped:
/// no chunk comes out, nothing aborts, and later frames decode as if the
/// line had never arrived.
pub proof fn lemma_malformed_frame_skipped(st: DecoderModel, line: Seq<u8>)
    requires
        !st.done,
        st.buf.len() == 0,
        forall|k: int| 0 <= k < line.len() ==> line[k] != 10,
        has_data_prefix(trim(lossy_decode(line))),
        chunk_of_payload(
            trim(lossy_decode(line)).subrange(6, trim(lossy_decode(line)).len() as int),
        ) is None,
    ensures
        ({
            let r = spec_feed(st, line.push(10));
            r.out == Seq::<ChunkModel>::empty() && r.buf == st.buf && r.done == st.done
        }),
{
    lemma_line_without_chunk(st, line);
}

proof fn lemma_line_without_chunk(st: DecoderModel, line: Seq<u8>)
    requires
        !st.done,
        st.buf.len() == 0,
        forall|k: int| 0 <= k < line.len() ==> line[k] != 10,
        chunk_of_line(line) is None,
    ensures
        ({
            let r = spec_feed(st, line.push(10));
            r.out == Seq::<ChunkModel>::empty() && r.buf == st.buf && r.done == st.done
        }),
{
    let whole = st.buf + line.push(10);
    assert(whole =~= line.push(10));
    lemma_first_nl_at(whole, line.len() as int);
    assert(whole.subrange(0, line.len() as int) =~= line);
    assert(whole.subrange(line.len() as int + 1, whole.len() as int) =~= Seq::<u8>::empty());
    assert(first_nl(Seq::<u8>::empty()) == 0);
    assert(spec_drain(Seq::<u8>::empty()).buf =~= st.buf);
}

/// A terminal chunk can only be the last chunk a drain yields, and it is
/// exactly what sets the done flag.
proof fn lemma_drain_terminal_last(buf: Seq<u8>)
    ensures
        ({
            let d = spec_drain(buf);
            &&& forall|k: int| 0 <= k < d.out.len() - 1 ==> !is_terminal(d.out[k])
            &&& d.done == (d.out.len() > 0 && is_terminal(d.out.last()))
        }),
    decreases buf.len(),
{
    let i = first_nl(buf);
    lemma_first_nl(buf);
    if 0 <= i && i < buf.len() {
        let line = buf.subrange(0, i);
        let rest = buf.subrange(i + 1, buf.len() as int);
        match chunk_of_line(line) {
            None => {
                lemma_drain_terminal_last(rest);
            },
            Some(c) => {
                if is_terminal(c) {
                } else {
                    lemma_drain_terminal_last(rest);
                    let d = spec_drain(rest);
                    let o = seq![c] + d.out;
                    assert(forall|k: int| 1 <= k < o.len() ==> o[k] == d.out[k - 1]);
                    if d.out.len() > 0 {
                        assert(o.last() == d.out.last());
                    }
                }
            },
        }
    }
}

/// A terminal chunk can only be the last chunk a read yields.
pub proof fn lemma_feed_terminal_last(st: DecoderModel, bytes: Seq<u8>)
    ensures
        ({
            let r = spec_feed(st, bytes);
            &&& forall|k: int| 0 <= k < r.out.len() - 1 ==> !is_terminal(r.out[k])
            &&& r.done == (st.done || (r.out.len() > 0 && is_terminal(r.out.last())))
        }),
{
    if !st.done {
        lemma_drain_terminal_last(st.buf + bytes);
    }
}

/// After a terminal chunk, later bytes of the same turn yield nothing and
/// change nothing: the decoder is drained for good.
pub proof fn lemma_done_latch(st: DecoderModel, bytes: Seq<u8>)
    requires
        st.done,
    ensures
        spec_feed(st, bytes).out == Seq::<ChunkModel>::empty(),
        spec_feed(st, bytes).buf == st.buf,
        spec_feed(st, bytes).done,
{
}

fn find_nl(v: &Vec<u8>) -> (r: Option<usize>)
    ensures
        match r {
            Some(i) => i == first_nl(v@) && i < v@.len(),
            None => first_nl(v@) == v@.len(),
        },
{
    let mut i: usize = 0;
    while i < v.len()
        invariant
            i <= v@.len(),
            forall|k: int| 0 <= k < i ==> v@[k] != 10,
        decreases v@.len() - i,
    {
        if v[i] == 10 {
            proof {
                lemma_first_nl_at(v@, i as int);
            }
            return Some(i);
        }
        i = i + 1;
    }
    proof {
        lemma_first_nl_at(v@, v@.len() as int);
    }
    None
}

fn subvec(v: &Vec<u8>, a: usize, b: usize) -> (r: Vec<u8>)
    requires
        a <= b <= v@.len(),
    ensures
        r@ == v@.subrange(a as int, b as int),
{
    let mut r: Vec<u8> = Vec::new();
    let mut i: usize = a;
    while i < b
        invariant
            a <= i <= b <= v@.len(),
            r@ == v@.subrange(a as int, i as int),
        decreases b - i,
    {
        r.push(v[i]);
        proof {
            assert(v@.subrange(a as int, i as int).push(v@[i as int]) =~= v@.subrange(
                a as int,
                i + 1 as int,
            ));
        }
        i = i + 1;
    }
    r
}

/// Decodes one candidate line, exactly as [`chunk_of_line`] says.
pub fn line_chunk(line: &Vec<u8>) -> (r: Option<StreamChunk>)
    ensures
        r.deep_view() == chunk_of_line(line@),
{
    let s = decode_lossy(line);
    let t = trim_str(s.as_str());
    let n = t.unicode_len();
    if n >= 6 && t.get_char(0) == 'd' && t.get_char(1) == 'a' && t.get_char(2) == 't'
        && t.get_char(3) == 'a' && t.get_char(4) == ':' && t.get_char(5) == ' ' {
        let payload = t.substring_char(6, n);
        parse_chunk(payload)
    } else {
        None
    }
}

/// The incremental chunk decoder for one turn's response stream.
pub struct Decoder {
    buf: Vec<u8>,
    done: bool,
}

impl View for Decoder {
    type V = DecoderModel;

    closed spec fn view(&self) -> DecoderModel {
        DecoderModel { buf: self.buf@, done: self.done }
    }
}

impl Decoder {
    /// A decoder that has seen no bytes.
    pub fn new() -> (d: Decoder)
        ensures
            d@.buf == Seq::<u8>::empty(),
            !d@.done,
            decoder_quiet(d@),
    {
        Decoder { buf: Vec::new(), done: false }
    }

    /// Whether a terminal chunk ended this turn's decoding.
    pub fn is_done(&self) -> (r: bool)
        ensures
            r == self@.done,
    {
        self.done
    }

    /// Consumes one read of the response stream and returns the chunks it
    /// completes, in arrival order, exactly as [`spec_feed`] says.
    pub fn feed(&mut self, bytes: &Vec<u8>) -> (out: Vec<StreamChunk>)
        ensures
            ({
                let r = spec_feed(old(self)@, bytes@);
                &&& final(self)@.buf == r.buf
                &&& final(self)@.done == r.done
                &&& out.deep_view() == r.out
            }),
            decoder_quiet(final(self)@),
    {
        if self.done {
            let out: Vec<StreamChunk> = Vec::new();
            proof {
                assert(out.deep_view() =~= Seq::<ChunkModel>::empty());
            }
            return out;
        }
        let mut k: usize = 0;
        while k < bytes.len()
            invariant
                k <= bytes@.len(),
                self.buf@ == old(self)@.buf + bytes@.take(k as int),
                !self.done,
            decreases bytes@.len() - k,
        {
            self.buf.push(bytes[k]);
            proof {
                assert((old(self)@.buf + bytes@.take(k as int)).push(bytes@[k as int]) =~= old(
                    self,
                )@.buf + bytes@.take(k + 1 as int));
            }
            k = k + 1;
        }
        proof {
            assert(bytes@.take(bytes@.len() as int) =~= bytes@);
        }
        let ghost start = self.buf@;
        let mut out: Vec<StreamChunk> = Vec::new();
        proof {
            assert(out.deep_view() =~= Seq::<ChunkModel>::empty());
            assert(Seq::<ChunkModel>::empty() + spec_drain(start).out =~= spec_drain(start).out);
        }
        loop
            invariant_except_break
                !self.done,
                spec_drain(start).buf == spec_drain(self.buf@).buf,
                spec_drain(start).done == spec_drain(self.buf@).done,
                spec_drain(start).out == out.deep_view() + spec_drain(self.buf@).out,
            ensures
                spec_drain(start).buf == self.buf@,
                spec_drain(start).done == self.done,
                spec_drain(start).out == out.deep_view(),
                self.done || first_nl(self.buf@) == self.buf@.len(),
            decreases self.buf@.len(),
        {
            let pos = find_nl(&self.buf);
            match pos {
                None => {
                    proof {
                        assert(spec_drain(self.buf@).out =~= Seq::<ChunkModel>::empty());
                        assert(out.deep_view() + Seq::<ChunkModel>::empty() =~= out.deep_view());
                    }
                    break ;
                },
                Some(i) => {
                    let ghost prev = self.buf@;
                    let blen = self.buf.len();
                    let line = subvec(&self.buf, 0, i);
                    let rest = subvec(&self.buf, i + 1, blen);
                    self.buf = rest;
                    let c = line_chunk(&line);
                    match c {
                        None => {
                            proof {
                                assert(spec_drain(prev) == spec_drain(self.buf@));
                            }
                        },
                        Some(ch) => {
                            let t = ch.terminal();
                            let ghost out_before = out.deep_view();
                            out.push(ch);
                            proof {
                                assert(out.deep_view() =~= out_before.push(ch@));
                            }
                            if t {
                                self.done = true;
                                proof {
                                    assert(spec_drain(prev).out =~= seq![ch@]);
                                    assert(out_before + seq![ch@] =~= out_before.push(ch@));
                                }
                                break ;
                            } else {
                                proof {
                                    let d = spec_drain(self.buf@);
                                    assert(spec_drain(prev).out == seq![ch@] + d.out);
                                    assert(out_before + (seq![ch@] + d.out) =~= out_before.push(
                                        ch@,
                                    ) + d.out);
                                }
                            }
                        },
                    }
                },
            }
        }
        proof {
            lemma_first_nl(start);
        }
        out
    }
}

} // verus!
