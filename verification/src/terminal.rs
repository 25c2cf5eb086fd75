//! Terminal-aware renderer: turns the raw byte stream of a child
//! process into a stable sequence of visible lines.
//!
//! The byte stream is decoded incrementally as UTF-8; bytes that cannot
//! yet be completed into a codepoint are carried to the next chunk, and
//! only truly malformed bytes materialize as U+FFFD. Three in-band
//! control bytes are interpreted: a line feed freezes the current line
//! and begins a new one; a carriage return emits nothing and starts no
//! line, but returns the cursor to the head of the current line, so
//! progress-bar output rewrites the last line in place; a backspace
//! removes the last code point of the current line, at most down to
//! empty. The resulting state is a function of the bytes fed so far,
//! whatever the chunking.

use vstd::prelude::*;

use crate::textutil::chars_to_string;

verus! {

/// The replacement character emitted for malformed bytes.
pub open spec fn replacement_char() -> char {
    '\u{fffd}'
}

// ---------------------------------------------------------------------
// Byte classification
// ---------------------------------------------------------------------

/// A byte that begins a two-, three- or four-byte UTF-8 sequence.
pub open spec fn is_lead_byte(b: u8) -> bool {
    0xc2 <= b <= 0xf4
}

/// How many bytes the sequence begun by lead byte `b` has in all.
pub open spec fn seq_width(b: u8) -> int {
    if b <= 0xdf {
        2
    } else if b <= 0xef {
        3
    } else {
        4
    }
}

/// Lowest value the first continuation byte may take after lead `b`.
/// The raised bounds for 0xE0 and 0xF0 exclude overlong encodings.
pub open spec fn cont1_lo(b: u8) -> u8 {
    if b == 0xe0 {
        0xa0
    } else if b == 0xf0 {
        0x90
    } else {
        0x80
    }
}

/// Highest value the first continuation byte may take after lead `b`.
/// The lowered bounds for 0xED and 0xF4 exclude surrogates and values
/// beyond the last scalar.
pub open spec fn cont1_hi(b: u8) -> u8 {
    if b == 0xed {
        0x9f
    } else if b == 0xf4 {
        0x8f
    } else {
        0xbf
    }
}

/// Whether `b` may continue the incomplete sequence `pend`.
pub open spec fn cont_ok(pend: Seq<u8>, b: u8) -> bool
    recommends
        pend.len() >= 1,
{
    if pend.len() == 1 {
        cont1_lo(pend[0]) <= b <= cont1_hi(pend[0])
    } else {
        0x80 <= b <= 0xbf
    }
}

/// The scalar value encoded by the complete sequence `pend`.
pub open spec fn scalar_of(pend: Seq<u8>) -> u32
    recommends
        2 <= pend.len() <= 4,
{
    if pend.len() == 2 {
        (((pend[0] & 0x1f) as u32) << 6) | ((pend[1] & 0x3f) as u32)
    } else if pend.len() == 3 {
        (((pend[0] & 0x0f) as u32) << 12) | (((pend[1] & 0x3f) as u32) << 6) | ((pend[2]
            & 0x3f) as u32)
    } else {
        (((pend[0] & 0x07) as u32) << 18) | (((pend[1] & 0x3f) as u32) << 12) | (((pend[2]
            & 0x3f) as u32) << 6) | ((pend[3] & 0x3f) as u32)
    }
}

// ---------------------------------------------------------------------
// The decode automaton
// ---------------------------------------------------------------------

/// Outcome of offering one byte to the decoder: the new carry and the
/// characters that materialize.
#[verifier::ext_equal]
pub struct DecodeStep {
    pub pend: Seq<u8>,
    pub emitted: Seq<char>,
}

/// One byte offered to an empty carry.
pub open spec fn fresh_step(b: u8) -> DecodeStep {
    if b < 0x80 {
        DecodeStep { pend: seq![], emitted: seq![b as char] }
    } else if is_lead_byte(b) {
        DecodeStep { pend: seq![b], emitted: seq![] }
    } else {
        DecodeStep { pend: seq![], emitted: seq![replacement_char()] }
    }
}

/// One byte offered to the decoder with carry `pend`. A byte that
/// cannot continue the carry materializes the carry as one replacement
/// character and is then reconsidered on its own.
pub open spec fn decode_step(pend: Seq<u8>, b: u8) -> DecodeStep {
    if pend.len() == 0 {
        fresh_step(b)
    } else if cont_ok(pend, b) {
        let np = pend.push(b);
        if np.len() == seq_width(pend[0]) {
            DecodeStep { pend: seq![], emitted: seq![scalar_of(np) as char] }
        } else {
            DecodeStep { pend: np, emitted: seq![] }
        }
    } else {
        let fresh = fresh_step(b);
        DecodeStep { pend: fresh.pend, emitted: seq![replacement_char()].add(fresh.emitted) }
    }
}

// ---------------------------------------------------------------------
// The line automaton
// ---------------------------------------------------------------------

/// The renderer's abstract state: the frozen lines, the current line
/// with the cursor's place in it, and the undecoded byte carry.
#[verifier::ext_equal]
pub struct RenderModel {
    pub frozen: Seq<Seq<char>>,
    pub cur: Seq<char>,
    pub col: nat,
    pub pend: Seq<u8>,
}

pub open spec fn rm_init() -> RenderModel {
    RenderModel { frozen: seq![], cur: seq![], col: 0, pend: seq![] }
}

/// One decoded character applied to the line state. A line feed
/// freezes the current line; a carriage return moves the cursor to
/// the head of the current line; a backspace removes the line's last
/// code point; any other character lands at the cursor, overwriting
/// what stood there or extending the line at its end.
pub open spec fn rm_apply_char(m: RenderModel, c: char) -> RenderModel {
    if c == '\n' {
        RenderModel { frozen: m.frozen.push(m.cur), cur: seq![], col: 0, pend: m.pend }
    } else if c == '\r' {
        RenderModel { col: 0, ..m }
    } else if c == '\u{8}' {
        if m.cur.len() == 0 {
            m
        } else {
            let shorter = m.cur.drop_last();
            RenderModel {
                cur: shorter,
                col: if m.col <= shorter.len() {
                    m.col
                } else {
                    shorter.len()
                },
                ..m
            }
        }
    } else {
        if m.col < m.cur.len() {
            RenderModel { cur: m.cur.update(m.col as int, c), col: m.col + 1, ..m }
        } else {
            RenderModel { cur: m.cur.push(c), col: m.cur.len() + 1, ..m }
        }
    }
}

/// The cursor never stands past the end of the current line.
pub open spec fn cursor_wf(m: RenderModel) -> bool {
    m.col <= m.cur.len()
}

proof fn lemma_apply_char_cursor_wf(m: RenderModel, c: char)
    requires
        cursor_wf(m),
    ensures
        cursor_wf(rm_apply_char(m, c)),
{
}

proof fn lemma_apply_chars_cursor_wf(m: RenderModel, cs: Seq<char>)
    requires
        cursor_wf(m),
    ensures
        cursor_wf(rm_apply_chars(m, cs)),
    decreases cs.len(),
{
    if cs.len() > 0 {
        lemma_apply_char_cursor_wf(m, cs[0]);
        lemma_apply_chars_cursor_wf(rm_apply_char(m, cs[0]), cs.drop_first());
    }
}

proof fn lemma_feed_cursor_wf(m: RenderModel, bytes: Seq<u8>)
    requires
        cursor_wf(m),
    ensures
        cursor_wf(rm_feed(m, bytes)),
    decreases bytes.len(),
{
    if bytes.len() > 0 {
        let step = decode_step(m.pend, bytes[0]);
        lemma_apply_chars_cursor_wf(RenderModel { pend: step.pend, ..m }, step.emitted);
        lemma_feed_cursor_wf(rm_step_byte(m, bytes[0]), bytes.drop_first());
    }
}

pub open spec fn rm_apply_chars(m: RenderModel, cs: Seq<char>) -> RenderModel
    decreases cs.len(),
{
    if cs.len() == 0 {
        m
    } else {
        rm_apply_chars(rm_apply_char(m, cs[0]), cs.drop_first())
    }
}

/// One raw byte applied to the renderer state.
pub open spec fn rm_step_byte(m: RenderModel, b: u8) -> RenderModel {
    let step = decode_step(m.pend, b);
    let stepped = rm_apply_chars(RenderModel { pend: step.pend, ..m }, step.emitted);
    stepped
}

/// A whole byte sequence applied to the renderer state, first byte
/// first.
pub open spec fn rm_feed(m: RenderModel, bytes: Seq<u8>) -> RenderModel
    decreases bytes.len(),
{
    if bytes.len() == 0 {
        m
    } else {
        rm_feed(rm_step_byte(m, bytes[0]), bytes.drop_first())
    }
}

/// The lines a reader of the buffer sees: the frozen lines, and the
/// current line when it is not empty.
pub open spec fn rm_visible(m: RenderModel) -> Seq<Seq<char>> {
    if m.cur.len() == 0 {
        m.frozen
    } else {
        m.frozen.push(m.cur)
    }
}

/// The line sequence produced by a byte stream fed as one chunk.
pub open spec fn rendered_lines(bytes: Seq<u8>) -> Seq<Seq<char>> {
    rm_visible(rm_feed(rm_init(), bytes))
}

// ---------------------------------------------------------------------
// Chunk-boundary invariance
// ---------------------------------------------------------------------

/// Feeding two byte sequences one after the other is feeding their
/// concatenation.
pub proof fn lemma_rm_feed_concat(m: RenderModel, a: Seq<u8>, b: Seq<u8>)
    ensures
        rm_feed(rm_feed(m, a), b) == rm_feed(m, a.add(b)),
    decreases a.len(),
{
    if a.len() == 0 {
        assert(a.add(b) =~= b);
    } else {
        lemma_rm_feed_concat(rm_step_byte(m, a[0]), a.drop_first(), b);
        assert(a.add(b).drop_first() =~= a.drop_first().add(b));
        assert(a.add(b)[0] == a[0]);
    }
}

/// A sequence of chunks applied in order.
pub open spec fn rm_feed_all(m: RenderModel, chunks: Seq<Seq<u8>>) -> RenderModel
    decreases chunks.len(),
{
    if chunks.len() == 0 {
        m
    } else {
        rm_feed_all(rm_feed(m, chunks[0]), chunks.drop_first())
    }
}

/// Chunk-boundary invariance: for every sequence of byte chunks, the
/// renderer state after feeding the chunks one at a time equals the
/// state after feeding their concatenation as a single chunk; so the
/// rendered line sequence depends only on the bytes, not on the
/// chunking.
pub proof fn lemma_chunking_invariance(chunks: Seq<Seq<u8>>)
    ensures
        rm_feed_all(rm_init(), chunks) == rm_feed(rm_init(), chunks.flatten()),
        rm_visible(rm_feed_all(rm_init(), chunks)) == rendered_lines(chunks.flatten()),
{
    lemma_rm_feed_all_flatten(rm_init(), chunks);
}

proof fn lemma_rm_feed_all_flatten(m: RenderModel, chunks: Seq<Seq<u8>>)
    ensures
        rm_feed_all(m, chunks) == rm_feed(m, chunks.flatten()),
    decreases chunks.len(),
{
    if chunks.len() == 0 {
        assert(chunks.flatten() =~= Seq::<u8>::empty());
    } else {
        lemma_rm_feed_all_flatten(rm_feed(m, chunks[0]), chunks.drop_first());
        lemma_rm_feed_concat(m, chunks[0], chunks.drop_first().flatten());
        assert(chunks.flatten() =~= chunks[0].add(chunks.drop_first().flatten()));
    }
}

/// Feeding one more byte is one automaton step on the state so far.
pub proof fn lemma_rm_feed_snoc(m: RenderModel, s: Seq<u8>, b: u8)
    ensures
        rm_feed(m, s.push(b)) == rm_step_byte(rm_feed(m, s), b),
{
    lemma_rm_feed_concat(m, s, seq![b]);
    assert(s.push(b) =~= s.add(seq![b]));
    let m1 = rm_feed(m, s);
    reveal_with_fuel(rm_feed, 3);
    assert(seq![b].drop_first() =~= Seq::<u8>::empty());
    assert(rm_feed(m1, seq![b]) == rm_feed(rm_step_byte(m1, b), seq![b].drop_first()));
    assert(rm_feed(rm_step_byte(m1, b), Seq::<u8>::empty()) == rm_step_byte(m1, b));
}

proof fn lemma_rm_apply_one(m: RenderModel, c: char)
    ensures
        rm_apply_chars(m, seq![c]) == rm_apply_char(m, c),
{
    reveal_with_fuel(rm_apply_chars, 3);
    assert(seq![c].drop_first() =~= Seq::<char>::empty());
    assert(rm_apply_chars(m, seq![c]) == rm_apply_chars(rm_apply_char(m, c), seq![c].drop_first()));
    assert(rm_apply_chars(rm_apply_char(m, c), Seq::<char>::empty()) == rm_apply_char(m, c));
}

proof fn lemma_rm_apply_two(m: RenderModel, c1: char, c2: char)
    ensures
        rm_apply_chars(m, seq![c1, c2]) == rm_apply_char(rm_apply_char(m, c1), c2),
{
    assert(seq![c1, c2].drop_first() =~= seq![c2]);
    lemma_rm_apply_one(rm_apply_char(m, c1), c2);
}


// ---------------------------------------------------------------------
// Shape of the byte carry
// ---------------------------------------------------------------------

/// The carry is always a proper prefix of one well-formed multi-byte
/// sequence: a lead byte, then in-range continuation bytes, fewer than
/// the sequence's width.
pub open spec fn pend_wf(p: Seq<u8>) -> bool {
    &&& p.len() <= 3
    &&& (p.len() >= 1 ==> is_lead_byte(p[0]) && p.len() < seq_width(p[0]))
    &&& (p.len() >= 2 ==> cont1_lo(p[0]) <= p[1] <= cont1_hi(p[0]))
    &&& (forall|i: int| 2 <= i < p.len() ==> 0x80 <= #[trigger] p[i] <= 0xbf)
}

/// Applying decoded characters never touches the byte carry.
proof fn lemma_apply_chars_keeps_pend(m: RenderModel, cs: Seq<char>)
    ensures
        rm_apply_chars(m, cs).pend == m.pend,
    decreases cs.len(),
{
    if cs.len() > 0 {
        lemma_apply_chars_keeps_pend(rm_apply_char(m, cs[0]), cs.drop_first());
    }
}

proof fn lemma_step_byte_pend_wf(m: RenderModel, b: u8)
    requires
        pend_wf(m.pend),
    ensures
        pend_wf(rm_step_byte(m, b).pend),
{
    let step = decode_step(m.pend, b);
    lemma_apply_chars_keeps_pend(RenderModel { pend: step.pend, ..m }, step.emitted);
}

/// Feeding any byte stream from the start leaves a well-formed carry.
proof fn lemma_feed_pend_wf(m: RenderModel, bytes: Seq<u8>)
    requires
        pend_wf(m.pend),
    ensures
        pend_wf(rm_feed(m, bytes).pend),
    decreases bytes.len(),
{
    if bytes.len() > 0 {
        lemma_step_byte_pend_wf(m, bytes[0]);
        lemma_feed_pend_wf(rm_step_byte(m, bytes[0]), bytes.drop_first());
    }
}

// ---------------------------------------------------------------------
// The executable renderer
// ---------------------------------------------------------------------

/// The line buffer of one job: an append-only sequence of frozen lines,
/// a mutable current line, and the undecoded byte carry. Its whole
/// state is a function of the bytes fed so far, whatever the chunking.
pub struct LineBuffer {
    frozen: Vec<String>,
    cur: Vec<char>,
    col: usize,
    pend: Vec<u8>,
    fed: Ghost<Seq<u8>>,
}

impl LineBuffer {
    /// Every byte fed so far, in order.
    pub closed spec fn bytes_fed(self) -> Seq<u8> {
        self.fed@
    }

    pub closed spec fn model(self) -> RenderModel {
        RenderModel {
            frozen: self.frozen.deep_view(),
            cur: self.cur@,
            col: self.col as nat,
            pend: self.pend@,
        }
    }

    /// The buffer renders exactly the bytes fed so far.
    pub open spec fn wf(self) -> bool {
        self.model() == rm_feed(rm_init(), self.bytes_fed())
    }

    /// The visible lines, as character sequences.
    pub open spec fn lines(self) -> Seq<Seq<char>> {
        rm_visible(rm_feed(rm_init(), self.bytes_fed()))
    }

    pub fn new() -> (out: LineBuffer)
        ensures
            out.wf(),
            out.bytes_fed() == Seq::<u8>::empty(),
            out.lines() == Seq::<Seq<char>>::empty(),
    {
        let out = LineBuffer {
            frozen: Vec::new(),
            cur: Vec::new(),
            col: 0,
            pend: Vec::new(),
            fed: Ghost(Seq::empty()),
        };
        proof {
            assert(out.frozen.deep_view() =~= Seq::<Seq<char>>::empty());
            assert(out.model() =~= rm_init());
        }
        out
    }

    /// One decoded character applied to the line state.
    fn apply_char(&mut self, c: char)
        requires
            cursor_wf(old(self).model()),
        ensures
            final(self).model() == rm_apply_char(old(self).model(), c),
            final(self).fed == old(self).fed,
    {
        if c == '\n' {
            let line = chars_to_string(&self.cur);
            self.frozen.push(line);
            self.cur.clear();
            self.col = 0;
            proof {
                assert(self.model() =~= rm_apply_char(old(self).model(), c));
            }
        } else if c == '\r' {
            self.col = 0;
            proof {
                assert(self.model() =~= rm_apply_char(old(self).model(), c));
            }
        } else if c == '\u{8}' {
            if self.cur.len() > 0 {
                self.cur.pop();
                if self.col > self.cur.len() {
                    self.col = self.cur.len();
                }
                proof {
                    assert(self.model() =~= rm_apply_char(old(self).model(), c));
                }
            } else {
                proof {
                    assert(self.model() =~= rm_apply_char(old(self).model(), c));
                }
            }
        } else {
            if self.col < self.cur.len() {
                self.cur.set(self.col, c);
                self.col = self.col + 1;
                proof {
                    assert(self.model() =~= rm_apply_char(old(self).model(), c));
                }
            } else {
                self.cur.push(c);
                self.col = self.cur.len();
                proof {
                    assert(self.model() =~= rm_apply_char(old(self).model(), c));
                }
            }
        }
    }

    /// One byte offered while the carry is empty.
    fn fresh_byte(&mut self, b: u8)
        requires
            old(self).pend@.len() == 0,
            cursor_wf(old(self).model()),
        ensures
            final(self).model() == rm_apply_chars(
                RenderModel { pend: fresh_step(b).pend, ..old(self).model() },
                fresh_step(b).emitted,
            ),
            final(self).fed == old(self).fed,
    {
        let ghost m0 = self.model();
        if b < 0x80 {
            self.apply_char(b as char);
            proof {
                assert(RenderModel { pend: fresh_step(b).pend, ..m0 } =~= m0);
                lemma_rm_apply_one(m0, b as char);
            }
        } else if 0xc2 <= b && b <= 0xf4 {
            self.pend.push(b);
            proof {
                assert(self.model() =~= RenderModel { pend: fresh_step(b).pend, ..m0 });
                assert(rm_apply_chars(RenderModel { pend: fresh_step(b).pend, ..m0 }, fresh_step(b).emitted)
                    == RenderModel { pend: fresh_step(b).pend, ..m0 });
            }
        } else {
            self.apply_char('\u{fffd}');
            proof {
                assert(RenderModel { pend: fresh_step(b).pend, ..m0 } =~= m0);
                lemma_rm_apply_one(m0, replacement_char());
            }
        }
    }

    /// The scalar encoded by the complete carry, as a character.
    fn decode_pending(&self) -> (c: char)
        requires
            2 <= self.pend@.len() <= 4,
            is_lead_byte(self.pend@[0]),
            self.pend@.len() == seq_width(self.pend@[0]),
            cont1_lo(self.pend@[0]) <= self.pend@[1] <= cont1_hi(self.pend@[0]),
            forall|i: int| 2 <= i < self.pend@.len() ==> 0x80 <= #[trigger] self.pend@[i] <= 0xbf,
        ensures
            c == (scalar_of(self.pend@) as char),
    {
        let b0 = self.pend[0];
        let b1 = self.pend[1];
        let v: u32 = if self.pend.len() == 2 {
            let v = (((b0 & 0x1f) as u32) << 6) | ((b1 & 0x3f) as u32);
            assert(0x80 <= v < 0xd800) by (bit_vector)
                requires
                    0xc2 <= b0 <= 0xdf,
                    0x80 <= b1 <= 0xbf,
                    v == (((b0 & 0x1f) as u32) << 6) | ((b1 & 0x3f) as u32),
            ;
            v
        } else if self.pend.len() == 3 {
            let b2 = self.pend[2];
            let v = (((b0 & 0x0f) as u32) << 12) | (((b1 & 0x3f) as u32) << 6) | ((b2
                & 0x3f) as u32);
            assert(v < 0xd800 || (0xe000 <= v < 0x110000)) by (bit_vector)
                requires
                    0xe0 <= b0 <= 0xef,
                    0x80 <= b1 <= 0xbf,
                    b0 == 0xe0 ==> b1 >= 0xa0,
                    b0 == 0xed ==> b1 <= 0x9f,
                    0x80 <= b2 <= 0xbf,
                    v == (((b0 & 0x0f) as u32) << 12) | (((b1 & 0x3f) as u32) << 6) | ((b2
                        & 0x3f) as u32),
            ;
            v
        } else {
            let b2 = self.pend[2];
            let b3 = self.pend[3];
            let v = (((b0 & 0x07) as u32) << 18) | (((b1 & 0x3f) as u32) << 12) | (((b2
                & 0x3f) as u32) << 6) | ((b3 & 0x3f) as u32);
            assert(0xe000 <= v < 0x110000) by (bit_vector)
                requires
                    0xf0 <= b0 <= 0xf4,
                    0x80 <= b1 <= 0xbf,
                    b0 == 0xf0 ==> b1 >= 0x90,
                    b0 == 0xf4 ==> b1 <= 0x8f,
                    0x80 <= b2 <= 0xbf,
                    0x80 <= b3 <= 0xbf,
                    v == (((b0 & 0x07) as u32) << 18) | (((b1 & 0x3f) as u32) << 12) | (((b2
                        & 0x3f) as u32) << 6) | ((b3 & 0x3f) as u32),
            ;
            v
        };
        let c = char_from_scalar(v);
        proof {
            vstd::utf8::char_u32_cast(c, v);
        }
        c
    }

    /// One raw byte fed to the renderer.
    fn step_byte(&mut self, b: u8)
        requires
            old(self).wf(),
        ensures
            final(self).wf(),
            final(self).bytes_fed() == old(self).bytes_fed().push(b),
    {
        proof {
            lemma_rm_feed_snoc(rm_init(), self.fed@, b);
            lemma_feed_pend_wf(rm_init(), self.fed@);
            lemma_feed_cursor_wf(rm_init(), self.fed@);
        }
        let ghost m0 = self.model();
        self.fed = Ghost(self.fed@.push(b));
        if self.pend.len() == 0 {
            self.fresh_byte(b);
            proof {
                assert(self.model() == rm_step_byte(m0, b));
            }
        } else {
            let lead = self.pend[0];
            let lo: u8 = if self.pend.len() == 1 {
                if lead == 0xe0 {
                    0xa0
                } else if lead == 0xf0 {
                    0x90
                } else {
                    0x80
                }
            } else {
                0x80
            };
            let hi: u8 = if self.pend.len() == 1 {
                if lead == 0xed {
                    0x9f
                } else if lead == 0xf4 {
                    0x8f
                } else {
                    0xbf
                }
            } else {
                0xbf
            };
            proof {
                assert((lo <= b && b <= hi) == cont_ok(m0.pend, b));
            }
            if lo <= b && b <= hi {
                self.pend.push(b);
                let width: usize = if lead <= 0xdf {
                    2
                } else if lead <= 0xef {
                    3
                } else {
                    4
                };
                let ghost np = m0.pend.push(b);
                proof {
                    assert(self.pend@ == np);
                    assert(width == seq_width(m0.pend[0]));
                }
                if self.pend.len() == width {
                    let c = self.decode_pending();
                    self.pend.clear();
                    let ghost m1 = self.model();
                    self.apply_char(c);
                    proof {
                        assert(m1 =~= RenderModel { pend: decode_step(m0.pend, b).pend, ..m0 });
                        lemma_rm_apply_one(m1, c);
                        assert(self.model() == rm_step_byte(m0, b));
                    }
                } else {
                    proof {
                        assert(self.model() =~= RenderModel {
                            pend: decode_step(m0.pend, b).pend,
                            ..m0
                        });
                        assert(self.model() == rm_step_byte(m0, b));
                    }
                }
            } else {
                self.pend.clear();
                let ghost m1 = self.model();
                proof {
                    assert(m1 =~= RenderModel { pend: seq![], ..m0 });
                }
                self.apply_char('\u{fffd}');
                if b < 0x80 {
                    self.apply_char(b as char);
                    proof {
                        assert(decode_step(m0.pend, b).emitted =~= seq![
                            replacement_char(),
                            b as char,
                        ]);
                        assert(RenderModel { pend: decode_step(m0.pend, b).pend, ..m0 } =~= m1);
                        lemma_rm_apply_two(m1, replacement_char(), b as char);
                        assert(self.model() == rm_step_byte(m0, b));
                    }
                } else if 0xc2 <= b && b <= 0xf4 {
                    self.pend.push(b);
                    proof {
                        assert(decode_step(m0.pend, b).emitted =~= seq![replacement_char()]);
                        let base = RenderModel { pend: decode_step(m0.pend, b).pend, ..m0 };
                        lemma_rm_apply_one(base, replacement_char());
                        assert(self.model() =~= rm_apply_char(base, replacement_char()));
                        assert(self.model() == rm_step_byte(m0, b));
                    }
                } else {
                    self.apply_char('\u{fffd}');
                    proof {
                        assert(decode_step(m0.pend, b).emitted =~= seq![
                            replacement_char(),
                            replacement_char(),
                        ]);
                        assert(RenderModel { pend: decode_step(m0.pend, b).pend, ..m0 } =~= m1);
                        lemma_rm_apply_two(m1, replacement_char(), replacement_char());
                        assert(self.model() == rm_step_byte(m0, b));
                    }
                }
            }
        }
    }

    /// Feed one chunk of raw bytes. The buffer afterwards renders the
    /// old bytes followed by the chunk; where the chunk ends inside a
    /// codepoint, the started bytes are carried, not rendered.
    pub fn feed(&mut self, chunk: &[u8])
        requires
            old(self).wf(),
        ensures
            final(self).wf(),
            final(self).bytes_fed() == old(self).bytes_fed().add(chunk@),
    {
        let n = chunk.len();
        let mut i: usize = 0;
        while i < n
            invariant
                n == chunk@.len(),
                i <= n,
                self.wf(),
                self.bytes_fed() == old(self).bytes_fed().add(chunk@.subrange(0, i as int)),
            decreases n - i,
        {
            let ghost before = self.bytes_fed();
            let b = chunk[i];
            self.step_byte(b);
            proof {
                assert(before.push(chunk@[i as int]) =~= old(self).bytes_fed().add(
                    chunk@.subrange(0, i as int + 1),
                ));
            }
            i += 1;
        }
        proof {
            assert(chunk@.subrange(0, n as int) =~= chunk@);
        }
    }

    /// The visible lines at indices at or past `offset`, in order: the
    /// slice `lines[offset..]` at the moment of the call. An offset at
    /// or past the end yields nothing.
    pub fn read_lines(&self, offset: usize) -> (out: Vec<String>)
        requires
            self.wf(),
        ensures
            offset <= self.lines().len() ==> out.deep_view() == self.lines().skip(offset as int),
            offset > self.lines().len() ==> out.deep_view() == Seq::<Seq<char>>::empty(),
    {
        let n = self.frozen.len();
        let mut out: Vec<String> = Vec::new();
        let mut i: usize = if offset < n {
            offset
        } else {
            n
        };
        let ghost start = i as int;
        while i < n
            invariant
                0 <= start <= i <= n,
                n == self.frozen@.len(),
                out.deep_view() =~= self.frozen.deep_view().subrange(start, i as int),
            decreases n - i,
        {
            let ghost dv0 = out.deep_view();
            let line = self.frozen[i].clone();
            out.push(line);
            proof {
                let fz = self.frozen.deep_view();
                assert(out.deep_view() =~= dv0.push(line@));
                assert(line@ == fz[i as int]);
                assert(fz.subrange(start, i as int).push(fz[i as int]) =~= fz.subrange(
                    start,
                    i as int + 1,
                ));
            }
            i += 1;
        }
        let ghost loop_dv = out.deep_view();
        if self.cur.len() > 0 && offset <= n {
            let line = chars_to_string(&self.cur);
            out.push(line);
            proof {
                assert(out.deep_view() =~= loop_dv.push(self.cur@));
            }
        }
        proof {
            let vis = self.lines();
            assert(vis == rm_visible(self.model()));
            let fz = self.frozen.deep_view();
            assert(loop_dv =~= fz.subrange(start, n as int));
            if self.cur@.len() == 0 {
                assert(vis == fz);
                if offset <= vis.len() {
                    assert(out.deep_view() =~= vis.skip(offset as int));
                } else {
                    assert(out.deep_view() =~= Seq::<Seq<char>>::empty());
                }
            } else {
                assert(vis == fz.push(self.cur@));
                if offset <= n {
                    assert(start == offset);
                    assert(out.deep_view() =~= fz.subrange(offset as int, n as int).push(
                        self.cur@,
                    ));
                    assert(out.deep_view() =~= vis.skip(offset as int));
                } else {
                    assert(out.deep_view() =~= loop_dv);
                    assert(loop_dv =~= fz.subrange(n as int, n as int));
                    assert(out.deep_view() =~= Seq::<Seq<char>>::empty());
                    if offset <= vis.len() {
                        assert(offset == vis.len());
                        assert(vis.skip(offset as int) =~= Seq::<Seq<char>>::empty());
                    }
                }
            }
        }
        out
    }
}

/// Relies on char::from_u32: for a Unicode scalar value it returns the
/// character with exactly that value.
#[verifier::external_body]
fn char_from_scalar(v: u32) -> (c: char)
    requires
        v < 0xd800 || (0xe000 <= v && v < 0x110000),
    ensures
        c as u32 == v,
{
    char::from_u32(v).unwrap_or('\u{fffd}')
}


// ---------------------------------------------------------------------
// Agreement with the UTF-8 specification
// ---------------------------------------------------------------------

/// On a well-formed scalar encoding the decoder accepts every byte:
/// the lead is in range and the first continuation byte lies between
/// the bounds that rule out overlong encodings and surrogates.
proof fn lemma_valid_scalar_accepted(bytes: Seq<u8>)
    requires
        vstd::utf8::valid_first_scalar(bytes),
        !vstd::utf8::is_leading_byte_width_1(bytes[0]),
    ensures
        is_lead_byte(bytes[0]),
        vstd::utf8::length_of_first_scalar(bytes) == seq_width(bytes[0]),
        cont1_lo(bytes[0]) <= bytes[1] <= cont1_hi(bytes[0]),
{
    let b0 = bytes[0];
    let b1 = bytes[1];
    let v = vstd::utf8::decode_first_codepoint(bytes);
    if vstd::utf8::is_leading_byte_width_2(b0) {
        assert(v == ((b0 & 0x1f) as u32) << 6 | ((b1 & 0x3f) as u32));
        assert(0xc2 <= b0 <= 0xdf && 0x80 <= b1 <= 0xbf) by (bit_vector)
            requires
                0xc0 <= b0 <= 0xdf,
                0x80 <= b1 <= 0xbf,
                (((b0 & 0x1f) as u32) << 6 | ((b1 & 0x3f) as u32)) >= 0x80,
        ;
    } else if vstd::utf8::is_leading_byte_width_3(b0) {
        let b2 = bytes[2];
        assert(v == ((b0 & 0x0f) as u32) << 12 | ((b1 & 0x3f) as u32) << 6 | ((b2
            & 0x3f) as u32));
        assert((b0 == 0xe0 ==> b1 >= 0xa0) && (b0 == 0xed ==> b1 <= 0x9f)) by (bit_vector)
            requires
                0xe0 <= b0 <= 0xef,
                0x80 <= b1 <= 0xbf,
                0x80 <= b2 <= 0xbf,
                (((b0 & 0x0f) as u32) << 12 | ((b1 & 0x3f) as u32) << 6 | ((b2 & 0x3f) as u32))
                    >= 0x800,
                !(0xd800 <= (((b0 & 0x0f) as u32) << 12 | ((b1 & 0x3f) as u32) << 6 | ((b2
                    & 0x3f) as u32)) <= 0xdfff),
        ;
    } else {
        let b2 = bytes[2];
        let b3 = bytes[3];
        assert(v == ((b0 & 0x07) as u32) << 18 | ((b1 & 0x3f) as u32) << 12 | ((b2
            & 0x3f) as u32) << 6 | ((b3 & 0x3f) as u32));
        assert(0xf0 <= b0 <= 0xf4 && (b0 == 0xf0 ==> b1 >= 0x90) && (b0 == 0xf4 ==> b1
            <= 0x8f)) by (bit_vector)
            requires
                0xf0 <= b0 <= 0xf7,
                0x80 <= b1 <= 0xbf,
                0x80 <= b2 <= 0xbf,
                0x80 <= b3 <= 0xbf,
                0x10000 <= (((b0 & 0x07) as u32) << 18 | ((b1 & 0x3f) as u32) << 12 | ((b2
                    & 0x3f) as u32) << 6 | ((b3 & 0x3f) as u32)) <= 0x10ffff,
        ;
    }
}

/// Feeding one well-formed scalar encoding from an empty carry emits
/// exactly that scalar and leaves the carry empty.
proof fn lemma_feed_first_scalar(m: RenderModel, bytes: Seq<u8>)
    requires
        m.pend == Seq::<u8>::empty(),
        vstd::utf8::valid_first_scalar(bytes),
    ensures
        rm_feed(m, bytes.take(vstd::utf8::length_of_first_scalar(bytes))) == rm_apply_char(
            m,
            (vstd::utf8::decode_first_scalar(bytes) as char),
        ),
{
    reveal_with_fuel(rm_feed, 6);
    reveal_with_fuel(rm_apply_chars, 3);
    let v = vstd::utf8::decode_first_scalar(bytes);
    let b0 = bytes[0];
    if vstd::utf8::is_leading_byte_width_1(b0) {
        let piece = bytes.take(1);
        assert(piece[0] == b0);
        assert(piece.drop_first() =~= Seq::<u8>::empty());
        assert(rm_feed(m, piece) == rm_step_byte(m, b0));
        assert(b0 < 0x80);
        assert(fresh_step(b0).emitted == seq![b0 as char]);
        assert(RenderModel { pend: fresh_step(b0).pend, ..m } =~= m);
        lemma_rm_apply_one(m, b0 as char);
        assert(v == (b0 & 0x7f) as u32);
        assert((b0 & 0x7f) == b0) by (bit_vector)
            requires
                b0 <= 0x7f,
        ;
        assert((b0 as char) as u32 == v);
        vstd::utf8::char_u32_cast(b0 as char, v);
    } else {
        lemma_valid_scalar_accepted(bytes);
        let k = vstd::utf8::length_of_first_scalar(bytes);
        let piece = bytes.take(k);
        assert(piece.len() == k);
        let b1 = bytes[1];
        // The first step stores the lead byte.
        assert(piece[0] == b0);
        let m1 = rm_step_byte(m, b0);
        assert(fresh_step(b0) == (DecodeStep { pend: seq![b0], emitted: seq![] }));
        assert(m1 =~= RenderModel { pend: seq![b0], ..m });
        // The second step consumes the first continuation byte.
        assert(cont_ok(seq![b0], b1));
        if k == 2 {
            assert(piece.drop_first() =~= seq![b1]);
            assert(rm_feed(m, piece) == rm_feed(m1, seq![b1]));
            assert(seq![b1].drop_first() =~= Seq::<u8>::empty());
            let np = seq![b0].push(b1);
            assert(np.len() == seq_width(b0));
            assert(rm_feed(m1, seq![b1]) == rm_step_byte(m1, b1));
            assert(decode_step(seq![b0], b1) == (DecodeStep {
                pend: seq![],
                emitted: seq![scalar_of(np) as char],
            }));
            assert(RenderModel { pend: seq![], ..m1 } =~= m);
            lemma_rm_apply_one(m, scalar_of(np) as char);
            assert(np[0] == b0 && np[1] == b1);
            assert(scalar_of(np) == v);
        } else {
            let b2 = bytes[2];
            let m2 = rm_step_byte(m1, b1);
            let p2 = seq![b0].push(b1);
            assert(p2.len() != seq_width(b0));
            assert(decode_step(seq![b0], b1) == (DecodeStep { pend: p2, emitted: seq![] }));
            assert(m2 =~= RenderModel { pend: p2, ..m });
            assert(p2[0] == b0 && p2[1] == b1);
            assert(cont_ok(p2, b2));
            if k == 3 {
                assert(piece.drop_first() =~= seq![b1, b2]);
                assert(seq![b1, b2].drop_first() =~= seq![b2]);
                assert(seq![b2].drop_first() =~= Seq::<u8>::empty());
                assert(rm_feed(m, piece) == rm_feed(m1, seq![b1, b2]));
                assert(rm_feed(m1, seq![b1, b2]) == rm_feed(m2, seq![b2]));
                assert(rm_feed(m2, seq![b2]) == rm_step_byte(m2, b2));
                let np = p2.push(b2);
                assert(np.len() == seq_width(b0));
                assert(decode_step(p2, b2) == (DecodeStep {
                    pend: seq![],
                    emitted: seq![scalar_of(np) as char],
                }));
                assert(RenderModel { pend: seq![], ..m2 } =~= m);
                lemma_rm_apply_one(m, scalar_of(np) as char);
                assert(np[0] == b0 && np[1] == b1 && np[2] == b2);
                assert(scalar_of(np) == v);
            } else {
                let b3 = bytes[3];
                let m3 = rm_step_byte(m2, b2);
                let p3 = p2.push(b2);
                assert(p3.len() != seq_width(b0));
                assert(decode_step(p2, b2) == (DecodeStep { pend: p3, emitted: seq![] }));
                assert(m3 =~= RenderModel { pend: p3, ..m });
                assert(p3[0] == b0 && p3[1] == b1 && p3[2] == b2);
                assert(cont_ok(p3, b3));
                assert(piece.drop_first() =~= seq![b1, b2, b3]);
                assert(seq![b1, b2, b3].drop_first() =~= seq![b2, b3]);
                assert(seq![b2, b3].drop_first() =~= seq![b3]);
                assert(seq![b3].drop_first() =~= Seq::<u8>::empty());
                assert(rm_feed(m, piece) == rm_feed(m1, seq![b1, b2, b3]));
                assert(rm_feed(m1, seq![b1, b2, b3]) == rm_feed(m2, seq![b2, b3]));
                assert(rm_feed(m2, seq![b2, b3]) == rm_feed(m3, seq![b3]));
                assert(rm_feed(m3, seq![b3]) == rm_step_byte(m3, b3));
                let np = p3.push(b3);
                assert(np.len() == seq_width(b0));
                assert(decode_step(p3, b3) == (DecodeStep {
                    pend: seq![],
                    emitted: seq![scalar_of(np) as char],
                }));
                assert(RenderModel { pend: seq![], ..m3 } =~= m);
                lemma_rm_apply_one(m, scalar_of(np) as char);
                assert(np[0] == b0 && np[1] == b1 && np[2] == b2 && np[3] == b3);
                assert(scalar_of(np) == v);
            }
        }
    }
}

/// Feeding a valid UTF-8 stream from an empty carry applies exactly
/// the stream's own decoded scalars to the line state.
proof fn lemma_feed_valid_stream(m: RenderModel, bytes: Seq<u8>)
    requires
        m.pend == Seq::<u8>::empty(),
        vstd::utf8::valid_utf8(bytes),
    ensures
        rm_feed(m, bytes) == rm_apply_chars(m, vstd::utf8::decode_utf8(bytes)),
    decreases bytes.len(),
{
    if bytes.len() == 0 {
    } else {
        reveal_with_fuel(vstd::utf8::valid_utf8, 2);
        reveal_with_fuel(vstd::utf8::decode_utf8, 2);
        reveal_with_fuel(rm_apply_chars, 3);
        let k = vstd::utf8::length_of_first_scalar(bytes);
        let c0 = vstd::utf8::decode_first_scalar(bytes) as char;
        let rest = vstd::utf8::pop_first_scalar(bytes);
        assert(1 <= k <= bytes.len());
        assert(rest =~= bytes.skip(k));
        lemma_rm_feed_concat(m, bytes.take(k), bytes.skip(k));
        assert(bytes.take(k).add(bytes.skip(k)) =~= bytes);
        lemma_feed_first_scalar(m, bytes);
        let m1 = rm_apply_char(m, c0);
        assert(m1.pend == m.pend);
        lemma_feed_valid_stream(m1, rest);
        assert(rm_feed(m, bytes) == rm_feed(m1, rest));
        let cs = vstd::utf8::decode_utf8(bytes);
        assert(cs == seq![c0].add(vstd::utf8::decode_utf8(rest)));
        assert(cs.len() > 0 && cs[0] == c0);
        assert(cs.drop_first() =~= vstd::utf8::decode_utf8(rest));
        assert(rm_apply_chars(m, cs) == rm_apply_chars(m1, vstd::utf8::decode_utf8(rest)));
    }
}

/// On a valid UTF-8 stream the renderer works on exactly the stream's
/// own characters: the rendered lines are the line automaton applied
/// to the decoded scalar sequence, so no replacement character
/// materializes that the stream did not itself carry, and nothing is
/// left in the byte carry.
pub proof fn lemma_valid_utf8_renders_its_scalars(bytes: Seq<u8>)
    requires
        vstd::utf8::valid_utf8(bytes),
    ensures
        rm_feed(rm_init(), bytes) == rm_apply_chars(rm_init(), vstd::utf8::decode_utf8(bytes)),
        rendered_lines(bytes) == rm_visible(
            rm_apply_chars(rm_init(), vstd::utf8::decode_utf8(bytes)),
        ),
        rm_feed(rm_init(), bytes).pend == Seq::<u8>::empty(),
{
    lemma_feed_valid_stream(rm_init(), bytes);
    lemma_apply_chars_keeps_pend(rm_init(), vstd::utf8::decode_utf8(bytes));
}

} // verus!
