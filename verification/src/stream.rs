//! Line framing: the shared primitive that turns the TCP byte stream into
//! newline-delimited text records.
//!
//! The server's bridge writes each produced line followed by exactly one
//! newline (`frame_line`, `session_output`); the client's reader turns the
//! received bytes back into lines as chunks arrive (`LineReader`). Lines
//! are opaque to the protocol: they are forwarded byte for byte, with no
//! parsing and no terminator of their own. `lemma_line_integrity` states
//! the guarantee of one uninterrupted session: the lines read back from
//! the framed stream are exactly the lines written, in order, each once.

use vstd::prelude::*;

verus! {

/// A line carries no terminator of its own.
pub open spec fn line_free(l: Seq<u8>) -> bool {
    forall|i: int| 0 <= i < l.len() ==> l[i] != 10
}

/// Whether `b` holds a newline anywhere.
pub open spec fn has_nl(b: Seq<u8>) -> bool {
    exists|i: int| 0 <= i < b.len() && b[i] == 10
}

/// One line as written to the wire: its bytes plus a single newline.
pub open spec fn frame_spec(l: Seq<u8>) -> Seq<u8> {
    l + seq![10u8]
}

/// The whole byte stream of a session that carried `ls` in order.
pub open spec fn frames_concat(ls: Seq<Seq<u8>>) -> Seq<u8>
    decreases ls.len(),
{
    if ls.len() == 0 {
        Seq::empty()
    } else {
        frame_spec(ls.first()) + frames_concat(ls.drop_first())
    }
}

/// The newline-terminated lines at the front of `b`, in order, without
/// their terminators.
pub open spec fn complete_lines(b: Seq<u8>) -> Seq<Seq<u8>>
    decreases b.len(),
{
    if b.len() == 0 {
        Seq::empty()
    } else if b.first() == 10 {
        seq![Seq::<u8>::empty()] + complete_lines(b.drop_first())
    } else {
        let rest = complete_lines(b.drop_first());
        if rest.len() == 0 {
            Seq::empty()
        } else {
            seq![seq![b.first()] + rest.first()] + rest.drop_first()
        }
    }
}

/// What follows the last newline of `b`: the partial line not yet
/// terminated.
pub open spec fn tail_fragment(b: Seq<u8>) -> Seq<u8>
    decreases b.len(),
{
    if b.len() == 0 {
        b
    } else if !has_nl(b) {
        b
    } else {
        tail_fragment(b.drop_first())
    }
}

/// Appending one byte adds a newline exactly when that byte is one.
proof fn lemma_has_nl_push(b: Seq<u8>, x: u8)
    ensures
        has_nl(b.push(x)) == (has_nl(b) || x == 10),
{
    if x == 10 {
        assert(b.push(x)[b.len() as int] == 10);
    }
    if has_nl(b) {
        let i = choose|i: int| 0 <= i < b.len() && b[i] == 10;
        assert(b.push(x)[i] == 10);
    }
    if has_nl(b.push(x)) && x != 10 && !has_nl(b) {
        let i = choose|i: int| 0 <= i < b.push(x).len() && b.push(x)[i] == 10;
        assert(i < b.len());
        assert(b[i] == 10);
    }
}

/// A nonempty `b` holds a newline exactly when its head is one or its
/// tail holds one.
proof fn lemma_has_nl_head(b: Seq<u8>)
    requires
        b.len() > 0,
    ensures
        has_nl(b) == (b.first() == 10 || has_nl(b.drop_first())),
{
    if b.first() == 10 {
        assert(b[0] == 10);
    }
    if has_nl(b.drop_first()) {
        let i = choose|i: int| 0 <= i < b.drop_first().len() && b.drop_first()[i] == 10;
        assert(b[i + 1] == 10);
    }
    if has_nl(b) && b.first() != 10 {
        let i = choose|i: int| 0 <= i < b.len() && b[i] == 10;
        assert(b.drop_first()[i - 1] == 10);
    }
}

/// `b` completes no line exactly when it holds no newline.
proof fn lemma_no_nl_no_lines(b: Seq<u8>)
    ensures
        (complete_lines(b).len() == 0) == !has_nl(b),
    decreases b.len(),
{
    if b.len() == 0 {
        assert(!has_nl(b));
    } else {
        lemma_has_nl_head(b);
        if b.first() != 10 {
            lemma_no_nl_no_lines(b.drop_first());
        }
    }
}

/// Holding no newline, `b` is entirely its own tail fragment.
proof fn lemma_no_nl_tail(b: Seq<u8>)
    requires
        !has_nl(b),
    ensures
        tail_fragment(b) == b,
{
}

/// How one received byte advances the framing: a newline completes the
/// pending fragment as one more line; any other byte extends the
/// fragment.
proof fn lemma_framing_push(b: Seq<u8>, x: u8)
    ensures
        x == 10 ==> complete_lines(b.push(x)) == complete_lines(b).push(tail_fragment(b)),
        x != 10 ==> complete_lines(b.push(x)) == complete_lines(b),
        x == 10 ==> tail_fragment(b.push(x)) == Seq::<u8>::empty(),
        x != 10 ==> tail_fragment(b.push(x)) == tail_fragment(b).push(x),
    decreases b.len(),
{
    let bp = b.push(x);
    lemma_has_nl_push(b, x);
    if b.len() == 0 {
        assert(bp.drop_first() =~= Seq::<u8>::empty());
        assert(bp.first() == x);
        assert(complete_lines(Seq::<u8>::empty()) == Seq::<Seq<u8>>::empty());
        assert(tail_fragment(Seq::<u8>::empty()) == Seq::<u8>::empty());
        assert(b =~= Seq::<u8>::empty());
        if x == 10 {
            assert(complete_lines(bp) =~= complete_lines(b).push(tail_fragment(b)));
            assert(tail_fragment(bp) == Seq::<u8>::empty());
        } else {
            assert(complete_lines(bp) =~= complete_lines(b));
            assert(!has_nl(bp));
            assert(tail_fragment(bp) =~= tail_fragment(b).push(x));
        }
    } else {
        assert(bp.first() == b.first());
        assert(bp.drop_first() =~= b.drop_first().push(x));
        lemma_framing_push(b.drop_first(), x);
        lemma_has_nl_head(b);
        lemma_has_nl_head(bp);
        lemma_no_nl_no_lines(b.drop_first());
        if b.first() == 10 {
            if x == 10 {
                assert(complete_lines(bp) =~= complete_lines(b).push(tail_fragment(b)));
            } else {
                assert(complete_lines(bp) =~= complete_lines(b));
            }
        } else {
            let rest = complete_lines(b.drop_first());
            let restp = complete_lines(bp.drop_first());
            if x == 10 {
                if rest.len() == 0 {
                    lemma_no_nl_tail(b.drop_first());
                    lemma_no_nl_tail(b);
                    assert(restp == rest.push(tail_fragment(b.drop_first())));
                    assert(restp.len() == 1);
                    assert(restp.first() == b.drop_first());
                    assert(seq![b.first()] + b.drop_first() =~= b);
                    assert(restp.drop_first() =~= Seq::<Seq<u8>>::empty());
                    assert(complete_lines(bp) =~= complete_lines(b).push(tail_fragment(b)));
                } else {
                    assert(restp == rest.push(tail_fragment(b.drop_first())));
                    assert(restp.first() == rest.first());
                    assert(restp.drop_first() =~= rest.drop_first().push(
                        tail_fragment(b.drop_first()),
                    ));
                    assert(complete_lines(bp) =~= complete_lines(b).push(tail_fragment(b)));
                }
                assert(tail_fragment(bp) == Seq::<u8>::empty());
            } else {
                assert(restp == rest);
                assert(complete_lines(bp) =~= complete_lines(b));
                if has_nl(b) {
                    assert(tail_fragment(bp) == tail_fragment(b).push(x));
                } else {
                    lemma_no_nl_tail(b);
                    assert(!has_nl(bp));
                    lemma_no_nl_tail(bp);
                    assert(tail_fragment(bp) =~= tail_fragment(b).push(x));
                }
            }
        }
    }
}

/// The tail fragment never holds a newline.
proof fn lemma_tail_fragment_free(b: Seq<u8>)
    ensures
        !has_nl(tail_fragment(b)),
    decreases b.len(),
{
    if b.len() == 0 {
    } else if !has_nl(b) {
    } else {
        lemma_tail_fragment_free(b.drop_first());
    }
}

/// Chunk boundaries do not matter: reading `b` and then `c` completes
/// exactly the lines of `b + c` — first those of `b`, then those the rest
/// of the bytes finish — and leaves the same fragment pending as reading
/// the whole stream at once. No line is split, merged or reordered by how
/// the transport delivers the bytes.
pub proof fn lemma_chunking_independent(b: Seq<u8>, c: Seq<u8>)
    ensures
        complete_lines(b + c) == complete_lines(b) + complete_lines(tail_fragment(b) + c),
        tail_fragment(b + c) == tail_fragment(tail_fragment(b) + c),
    decreases c.len(),
{
    if c.len() == 0 {
        assert(b + c =~= b);
        assert(tail_fragment(b) + c =~= tail_fragment(b));
        lemma_tail_fragment_free(b);
        lemma_no_nl_no_lines(tail_fragment(b));
        lemma_no_nl_tail(tail_fragment(b));
        assert(complete_lines(b) + complete_lines(tail_fragment(b)) =~= complete_lines(b));
    } else {
        let c0 = c.drop_last();
        let x = c.last();
        lemma_chunking_independent(b, c0);
        lemma_framing_push(b + c0, x);
        lemma_framing_push(tail_fragment(b) + c0, x);
        assert((b + c0).push(x) =~= b + c);
        assert((tail_fragment(b) + c0).push(x) =~= tail_fragment(b) + c);
        if x == 10 {
            assert(complete_lines(b + c) =~= complete_lines(b) + complete_lines(
                tail_fragment(b) + c,
            ));
        }
    }
}

/// One framed line at the front of a stream is read back whole: the
/// stream's first complete line is the framed one, and the rest frames on
/// by itself.
proof fn lemma_prefix_line(a: Seq<u8>, r: Seq<u8>)
    requires
        line_free(a),
    ensures
        complete_lines(a + seq![10u8] + r) == seq![a] + complete_lines(r),
        tail_fragment(a + seq![10u8] + r) == tail_fragment(r),
    decreases a.len(),
{
    let b = a + seq![10u8] + r;
    assert(b[a.len() as int] == 10);
    assert(has_nl(b));
    if a.len() == 0 {
        assert(b.first() == 10);
        assert(b.drop_first() =~= r);
        assert(a =~= Seq::<u8>::empty());
        assert(complete_lines(b) =~= seq![a] + complete_lines(r));
    } else {
        assert(b.first() == a.first());
        assert(a.first() != 10);
        assert(b.drop_first() =~= a.drop_first() + seq![10u8] + r);
        lemma_prefix_line(a.drop_first(), r);
        let rest = complete_lines(b.drop_first());
        assert(rest == seq![a.drop_first()] + complete_lines(r));
        assert(rest.len() > 0);
        assert(rest.first() == a.drop_first());
        assert(seq![b.first()] + rest.first() =~= a);
        assert(rest.drop_first() =~= complete_lines(r));
        assert(complete_lines(b) =~= seq![a] + complete_lines(r));
        assert(tail_fragment(b) == tail_fragment(b.drop_first()));
    }
}

/// Line integrity over one uninterrupted session: reading back the
/// concatenation of the framed lines yields exactly those lines, in
/// order, each once, and leaves no partial fragment behind.
pub proof fn lemma_line_integrity(lines: Seq<Seq<u8>>)
    requires
        forall|i: int| 0 <= i < lines.len() ==> line_free(#[trigger] lines[i]),
    ensures
        complete_lines(frames_concat(lines)) == lines,
        tail_fragment(frames_concat(lines)) == Seq::<u8>::empty(),
    decreases lines.len(),
{
    if lines.len() == 0 {
        assert(complete_lines(frames_concat(lines)) =~= lines);
    } else {
        assert(forall|i: int| 0 <= i < lines.drop_first().len() ==> line_free(
            #[trigger] lines.drop_first()[i],
        ));
        lemma_line_integrity(lines.drop_first());
        assert(frames_concat(lines) =~= lines.first() + seq![10u8] + frames_concat(
            lines.drop_first(),
        ));
        lemma_prefix_line(lines.first(), frames_concat(lines.drop_first()));
        assert(seq![lines.first()] + lines.drop_first() =~= lines);
    }
}

/// Appending one more line to a session appends its framed bytes.
proof fn lemma_frames_concat_snoc(ls: Seq<Seq<u8>>, l: Seq<u8>)
    ensures
        frames_concat(ls.push(l)) == frames_concat(ls) + frame_spec(l),
    decreases ls.len(),
{
    if ls.len() == 0 {
        assert(ls.push(l).drop_first() =~= Seq::<Seq<u8>>::empty());
        assert(frames_concat(Seq::<Seq<u8>>::empty()) == Seq::<u8>::empty());
        assert(frames_concat(ls.push(l)) =~= frames_concat(ls) + frame_spec(l));
    } else {
        assert(ls.push(l).first() == ls.first());
        assert(ls.push(l).drop_first() =~= ls.drop_first().push(l));
        lemma_frames_concat_snoc(ls.drop_first(), l);
        assert(frames_concat(ls.push(l)) =~= frames_concat(ls) + frame_spec(l));
    }
}

/// Renders one produced line as the bridge writes it to the peer: the
/// line's bytes, in order, followed by exactly one newline.
pub fn frame_line(line: &[u8]) -> (r: Vec<u8>)
    ensures
        r@ == frame_spec(line@),
{
    let mut r: Vec<u8> = Vec::new();
    proof {
        assert(r@ =~= line@.take(0));
    }
    let mut i: usize = 0;
    while i < line.len()
        invariant
            0 <= i <= line@.len(),
            r@ == line@.take(i as int),
        decreases line@.len() - i,
    {
        r.push(line[i]);
        proof {
            assert(r@ =~= line@.take(i + 1));
        }
        i = i + 1;
    }
    r.push(10u8);
    proof {
        assert(line@.take(line@.len() as int) =~= line@);
        assert(r@ =~= frame_spec(line@));
    }
    r
}

/// The whole byte stream one session writes for `lines`: each line
/// framed, in order, nothing else.
pub fn session_output(lines: &Vec<Vec<u8>>) -> (r: Vec<u8>)
    ensures
        r@ == frames_concat(lines@.map_values(|l: Vec<u8>| l@)),
{
    let ghost all = lines@.map_values(|l: Vec<u8>| l@);
    let mut r: Vec<u8> = Vec::new();
    proof {
        assert(all.take(0) =~= Seq::<Seq<u8>>::empty());
        assert(frames_concat(Seq::<Seq<u8>>::empty()) == Seq::<u8>::empty());
        assert(r@ =~= frames_concat(all.take(0)));
    }
    let mut i: usize = 0;
    while i < lines.len()
        invariant
            0 <= i <= lines@.len(),
            all == lines@.map_values(|l: Vec<u8>| l@),
            r@ == frames_concat(all.take(i as int)),
        decreases lines@.len() - i,
    {
        let mut f = frame_line(lines[i].as_slice());
        r.append(&mut f);
        proof {
            lemma_frames_concat_snoc(all.take(i as int), all[i as int]);
            assert(all.take(i + 1) =~= all.take(i as int).push(all[i as int]));
        }
        i = i + 1;
    }
    proof {
        assert(all.take(lines@.len() as int) =~= all);
    }
    r
}

/// The client's incremental line reader. It accumulates received bytes
/// and hands back each line the moment its newline arrives, keeping the
/// unterminated rest pending for the next chunk. Chunk boundaries never
/// split, merge or reorder lines: what comes out depends only on the
/// bytes fed in.
pub struct LineReader {
    pub pending: Vec<u8>,
}

impl LineReader {
    /// The pending fragment never holds a newline.
    pub open spec fn wf(self) -> bool {
        !has_nl(self.pending@)
    }

    /// A fresh reader with nothing pending.
    pub fn new() -> (r: LineReader)
        ensures
            r.pending@ == Seq::<u8>::empty(),
            r.wf(),
    {
        let r = LineReader { pending: Vec::new() };
        proof {
            assert(!has_nl(r.pending@));
        }
        r
    }

    /// Feeds the next received chunk. Returns exactly the lines completed
    /// by the bytes seen so far — the complete lines of the pending
    /// fragment followed by this chunk — and keeps what follows the last
    /// newline pending.
    pub fn push_bytes(&mut self, chunk: &[u8]) -> (out: Vec<Vec<u8>>)
        requires
            old(self).wf(),
        ensures
            out@.map_values(|l: Vec<u8>| l@) == complete_lines(old(self).pending@ + chunk@),
            final(self).pending@ == tail_fragment(old(self).pending@ + chunk@),
            final(self).wf(),
    {
        let ghost base0 = self.pending@;
        let mut out: Vec<Vec<u8>> = Vec::new();
        proof {
            assert(base0 + chunk@.take(0) =~= base0);
            lemma_no_nl_no_lines(base0);
            lemma_no_nl_tail(base0);
            assert(out@.map_values(|l: Vec<u8>| l@) =~= complete_lines(base0));
        }
        let mut j: usize = 0;
        while j < chunk.len()
            invariant
                0 <= j <= chunk@.len(),
                base0 == old(self).pending@,
                !has_nl(base0),
                self.pending@ == tail_fragment(base0 + chunk@.take(j as int)),
                !has_nl(self.pending@),
                out@.map_values(|l: Vec<u8>| l@) == complete_lines(base0 + chunk@.take(j as int)),
            decreases chunk@.len() - j,
        {
            let c = chunk[j];
            proof {
                lemma_framing_push(base0 + chunk@.take(j as int), c);
                assert((base0 + chunk@.take(j as int)).push(c) =~= base0 + chunk@.take(j + 1));
            }
            if c == 10 {
                let mut done: Vec<u8> = Vec::new();
                core::mem::swap(&mut done, &mut self.pending);
                out.push(done);
                proof {
                    assert(out@.map_values(|l: Vec<u8>| l@) =~= complete_lines(
                        base0 + chunk@.take(j + 1),
                    ));
                    assert(!has_nl(self.pending@));
                }
            } else {
                self.pending.push(c);
                proof {
                    lemma_has_nl_push(tail_fragment(base0 + chunk@.take(j as int)), c);
                }
            }
            j = j + 1;
        }
        proof {
            assert(base0 + chunk@.take(chunk@.len() as int) =~= base0 + chunk@);
        }
        out
    }
}

} // verus!
