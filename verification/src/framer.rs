//! Line framer: turns raw byte chunks from the control socket into complete,
//! newline-delimited lines, carrying an unterminated trailing fragment forward
//! across reads. Completed lines are trimmed of ASCII whitespace (the wire's
//! carriage returns); the carry-over is never trimmed until it completes.

use vstd::prelude::*;

verus! {

/// ASCII whitespace as the protocol uses it: space, tab, line feed,
/// carriage return, form feed.
pub open spec fn is_ws(b: u8) -> bool {
    b == 32 || b == 9 || b == 10 || b == 13 || b == 12
}

pub open spec fn no_nl(s: Seq<u8>) -> bool {
    forall|i: int| 0 <= i < s.len() ==> s[i] != 10u8
}

/// Split a byte sequence at every line feed. The result always has at least
/// one segment; the last segment is the (possibly empty) tail after the final
/// line feed and never contains a line feed itself.
pub open spec fn split_lines(s: Seq<u8>) -> Seq<Seq<u8>>
    decreases s.len(),
{
    if s.len() == 0 {
        seq![Seq::<u8>::empty()]
    } else if s.last() == 10u8 {
        split_lines(s.drop_last()).push(Seq::<u8>::empty())
    } else {
        let pre = split_lines(s.drop_last());
        pre.update(pre.len() - 1, pre.last().push(s.last()))
    }
}

pub open spec fn trim_start_spec(s: Seq<u8>) -> Seq<u8>
    decreases s.len(),
{
    if s.len() > 0 && is_ws(s.first()) {
        trim_start_spec(s.drop_first())
    } else {
        s
    }
}

pub open spec fn trim_end_spec(s: Seq<u8>) -> Seq<u8>
    decreases s.len(),
{
    if s.len() > 0 && is_ws(s.last()) {
        trim_end_spec(s.drop_last())
    } else {
        s
    }
}

/// A completed line with ASCII whitespace removed from both ends.
pub open spec fn trim_spec(s: Seq<u8>) -> Seq<u8> {
    trim_end_spec(trim_start_spec(s))
}

/// The complete, trimmed lines produced when `input` arrives while `carry`
/// is the fragment left over from earlier reads.
pub open spec fn framer_lines(carry: Seq<u8>, input: Seq<u8>) -> Seq<Seq<u8>> {
    split_lines(carry + input).drop_last().map_values(|l: Seq<u8>| trim_spec(l))
}

/// The fragment carried forward after `input` arrives on top of `carry`.
pub open spec fn framer_carry(carry: Seq<u8>, input: Seq<u8>) -> Seq<u8> {
    split_lines(carry + input).last()
}

pub proof fn lemma_split_lines_basic(s: Seq<u8>)
    ensures
        split_lines(s).len() >= 1,
        no_nl(split_lines(s).last()),
    decreases s.len(),
{
    if s.len() == 0 {
    } else {
        lemma_split_lines_basic(s.drop_last());
        if s.last() == 10u8 {
        } else {
            let pre = split_lines(s.drop_last());
            assert(no_nl(pre.last().push(s.last())));
        }
    }
}

proof fn lemma_split_push(s: Seq<u8>, c: u8)
    ensures
        c == 10u8 ==> split_lines(s.push(c)) == split_lines(s).push(Seq::<u8>::empty()),
        c != 10u8 ==> split_lines(s.push(c)) == split_lines(s).update(
            split_lines(s).len() - 1,
            split_lines(s).last().push(c),
        ),
{
    assert(s.push(c).drop_last() =~= s);
    assert(s.push(c).last() == c);
    assert(s.push(c).len() == s.len() + 1);
}

/// A fragment with no line feed splits into just itself.
pub proof fn lemma_split_lines_whole(s: Seq<u8>)
    requires
        no_nl(s),
    ensures
        split_lines(s) == seq![s],
    decreases s.len(),
{
    if s.len() == 0 {
        assert(split_lines(s) =~~= seq![s]);
    } else {
        lemma_split_lines_whole(s.drop_last());
        assert(s.last() != 10u8);
        let pre = split_lines(s.drop_last());
        assert(pre == seq![s.drop_last()]);
        assert(pre.update(pre.len() - 1, pre.last().push(s.last())) =~= seq![
            s.drop_last().push(s.last()),
        ]);
        assert(s.drop_last().push(s.last()) =~= s);
    }
}

/// Splitting distributes over concatenation: the head segments of `a` stay,
/// and `a`'s open tail is welded onto the first segment of `b`.
pub proof fn lemma_split_lines_append(a: Seq<u8>, b: Seq<u8>)
    ensures
        split_lines(a + b) == split_lines(a).drop_last() + split_lines(b).update(
            0,
            split_lines(a).last() + split_lines(b).first(),
        ),
    decreases b.len(),
{
    lemma_split_lines_basic(a);
    lemma_split_lines_basic(b);
    let sa = split_lines(a);
    if b.len() == 0 {
        assert(a + b =~= a);
        assert(split_lines(b) == seq![Seq::<u8>::empty()]);
        assert(sa.last() + Seq::<u8>::empty() =~= sa.last());
        assert(sa.drop_last() + seq![Seq::<u8>::empty()].update(0, sa.last()) =~= sa);
    } else {
        lemma_split_lines_append(a, b.drop_last());
        lemma_split_lines_basic(b.drop_last());
        let sb0 = split_lines(b.drop_last());
        let prev = sa.drop_last() + sb0.update(0, sa.last() + sb0.first());
        assert((a + b).drop_last() =~= a + b.drop_last());
        assert((a + b).last() == b.last());
        lemma_split_push(a + b.drop_last(), b.last());
        if b.last() == 10u8 {
            assert(split_lines(a + b) == prev.push(Seq::<u8>::empty()));
            assert(split_lines(b) == sb0.push(Seq::<u8>::empty()));
            assert(split_lines(b).first() == sb0.first());
            assert(prev.push(Seq::<u8>::empty()) =~= sa.drop_last() + split_lines(b).update(
                0,
                sa.last() + split_lines(b).first(),
            ));
        } else {
            assert(split_lines(a + b) == prev.update(prev.len() - 1, prev.last().push(b.last())));
            assert(split_lines(b) == sb0.update(sb0.len() - 1, sb0.last().push(b.last())));
            if sb0.len() == 1 {
                assert(prev.last() == sa.last() + sb0.first());
                assert(split_lines(b).first() == sb0.first().push(b.last()));
                assert(sa.last() + sb0.first().push(b.last()) =~= (sa.last()
                    + sb0.first()).push(b.last()));
                assert(prev.update(prev.len() - 1, prev.last().push(b.last())) =~= sa.drop_last()
                    + split_lines(b).update(0, sa.last() + split_lines(b).first()));
            } else {
                assert(prev.last() == sb0.last());
                assert(split_lines(b).first() == sb0.first());
                assert(prev.update(prev.len() - 1, prev.last().push(b.last())) =~= sa.drop_last()
                    + split_lines(b).update(0, sa.last() + split_lines(b).first()));
            }
        }
    }
}

/// Feeding `a` and then `b` emits exactly the lines of feeding `a + b` at
/// once, and leaves the same carry-over: the framer neither loses,
/// duplicates, nor reorders lines across read boundaries.
pub proof fn lemma_framer_split(carry: Seq<u8>, a: Seq<u8>, b: Seq<u8>)
    ensures
        framer_lines(carry, a + b) == framer_lines(carry, a) + framer_lines(
            framer_carry(carry, a),
            b,
        ),
        framer_carry(carry, a + b) == framer_carry(framer_carry(carry, a), b),
{
    let ca = carry + a;
    lemma_split_lines_basic(ca);
    lemma_split_lines_basic(b);
    let sa = split_lines(ca);
    let sb = split_lines(b);
    assert(carry + (a + b) =~= ca + b);
    lemma_split_lines_append(ca, b);
    // The carry after `a` has no line feed, so splitting (carry_a + b)
    // just extends b's first segment.
    lemma_split_lines_append(sa.last(), b);
    lemma_split_lines_whole(sa.last());
    assert(seq![sa.last()].drop_last() =~= Seq::<Seq<u8>>::empty());
    assert(split_lines(sa.last() + b) =~= sb.update(0, sa.last() + sb.first()));
    let whole = sa.drop_last() + sb.update(0, sa.last() + sb.first());
    assert(split_lines(ca + b) == whole);
    assert(whole.last() == sb.update(0, sa.last() + sb.first()).last());
    if sb.len() == 1 {
        assert(framer_carry(carry, a + b) == sa.last() + sb.first());
    } else {
        assert(framer_carry(carry, a + b) == sb.last());
    }
    assert(framer_carry(carry, a + b) == framer_carry(framer_carry(carry, a), b));
    assert(whole.drop_last() =~= sa.drop_last() + sb.update(0, sa.last() + sb.first()).drop_last());
    assert(framer_lines(carry, a + b) =~= framer_lines(carry, a) + framer_lines(
        framer_carry(carry, a),
        b,
    ));
}

/// The lines emitted over a whole run of chunks fed in order, starting from
/// carry-over `carry`.
pub open spec fn fed_lines(carry: Seq<u8>, chunks: Seq<Seq<u8>>) -> Seq<Seq<u8>>
    decreases chunks.len(),
{
    if chunks.len() == 0 {
        Seq::<Seq<u8>>::empty()
    } else {
        framer_lines(carry, chunks.first()) + fed_lines(
            framer_carry(carry, chunks.first()),
            chunks.drop_first(),
        )
    }
}

/// The carry-over left after a whole run of chunks.
pub open spec fn fed_carry(carry: Seq<u8>, chunks: Seq<Seq<u8>>) -> Seq<u8>
    decreases chunks.len(),
{
    if chunks.len() == 0 {
        carry
    } else {
        fed_carry(framer_carry(carry, chunks.first()), chunks.drop_first())
    }
}

/// Line reassembly is independent of chunking: however a byte stream is cut
/// into chunks, feeding them in order yields exactly the trimmed lines of
/// splitting the whole stream at once, and the same final carry-over.
pub proof fn lemma_reassembly(carry: Seq<u8>, chunks: Seq<Seq<u8>>)
    requires
        no_nl(carry),
    ensures
        fed_lines(carry, chunks) == framer_lines(carry, chunks.flatten()),
        fed_carry(carry, chunks) == framer_carry(carry, chunks.flatten()),
    decreases chunks.len(),
{
    if chunks.len() == 0 {
        assert(chunks.flatten() == Seq::<u8>::empty());
        assert(carry + Seq::<u8>::empty() =~= carry);
        lemma_split_lines_whole(carry);
        assert(framer_lines(carry, chunks.flatten()) =~= Seq::<Seq<u8>>::empty());
    } else {
        let c1 = framer_carry(carry, chunks.first());
        lemma_split_lines_basic(carry + chunks.first());
        lemma_reassembly(c1, chunks.drop_first());
        assert(chunks.flatten() == chunks.first() + chunks.drop_first().flatten());
        lemma_framer_split(carry, chunks.first(), chunks.drop_first().flatten());
    }
}

fn ws(b: u8) -> (r: bool)
    ensures
        r == is_ws(b),
{
    b == 32 || b == 9 || b == 10 || b == 13 || b == 12
}

proof fn lemma_trim_start_skip(s: Seq<u8>, k: int)
    requires
        0 <= k <= s.len(),
        forall|i: int| 0 <= i < k ==> is_ws(s[i]),
        k == s.len() || !is_ws(s[k]),
    ensures
        trim_start_spec(s) == s.skip(k),
    decreases k,
{
    if k == 0 {
        assert(s.skip(0) =~= s);
    } else {
        assert(is_ws(s.first()));
        lemma_trim_start_skip(s.drop_first(), k - 1);
        assert(s.drop_first().skip(k - 1) =~= s.skip(k));
    }
}

proof fn lemma_trim_end_take(s: Seq<u8>, m: int)
    requires
        0 <= m <= s.len(),
        forall|i: int| m <= i < s.len() ==> is_ws(s[i]),
        m == 0 || !is_ws(s[m - 1]),
    ensures
        trim_end_spec(s) == s.take(m),
    decreases s.len() - m,
{
    if m == s.len() {
        assert(s.take(m) =~= s);
    } else {
        assert(is_ws(s.last()));
        lemma_trim_end_take(s.drop_last(), m);
        assert(s.drop_last().take(m) =~= s.take(m));
    }
}

/// Copy of `v` with ASCII whitespace removed from both ends.
pub fn trim_bytes(v: &[u8]) -> (r: Vec<u8>)
    ensures
        r@ == trim_spec(v@),
{
    let mut lo: usize = 0;
    while lo < v.len() && ws(v[lo])
        invariant
            lo <= v@.len(),
            forall|i: int| 0 <= i < lo ==> is_ws(v@[i]),
        decreases v@.len() - lo,
    {
        lo = lo + 1;
    }
    let mut hi: usize = v.len();
    while hi > lo && ws(v[hi - 1])
        invariant
            lo <= hi <= v@.len(),
            forall|i: int| 0 <= i < lo ==> is_ws(v@[i]),
            forall|i: int| hi <= i < v@.len() ==> is_ws(v@[i]),
        decreases hi,
    {
        hi = hi - 1;
    }
    proof {
        lemma_trim_start_skip(v@, lo as int);
        lemma_trim_end_take(v@.skip(lo as int), hi - lo);
        assert(v@.skip(lo as int).take(hi - lo) =~= v@.subrange(lo as int, hi as int));
    }
    let mut out: Vec<u8> = Vec::new();
    let mut i: usize = lo;
    while i < hi
        invariant
            lo <= i <= hi <= v@.len(),
            out@ == v@.subrange(lo as int, i as int),
        decreases hi - i,
    {
        out.push(v[i]);
        proof {
            assert(v@.subrange(lo as int, i + 1) =~= v@.subrange(lo as int, i as int).push(
                v@[i as int],
            ));
        }
        i = i + 1;
    }
    out
}

/// The framer's state: the bytes of a line whose terminator has not yet
/// arrived. No bound is imposed on its growth; an unterminated stream from a
/// misbehaving peer grows it indefinitely (an accepted risk).
pub struct LineFramer {
    carry: Vec<u8>,
}

impl View for LineFramer {
    type V = Seq<u8>;

    closed spec fn view(&self) -> Seq<u8> {
        self.carry@
    }
}

impl LineFramer {
    pub open spec fn wf(&self) -> bool {
        no_nl(self@)
    }

    pub fn new() -> (r: LineFramer)
        ensures
            r@ == Seq::<u8>::empty(),
            r.wf(),
    {
        LineFramer { carry: Vec::new() }
    }

    /// Feed one raw read from the socket. Returns every line completed by
    /// this chunk, trimmed; whatever follows the last terminator replaces
    /// the carry-over.
    pub fn feed(&mut self, chunk: &[u8]) -> (lines: Vec<Vec<u8>>)
        requires
            old(self).wf(),
        ensures
            final(self).wf(),
            lines.deep_view() == framer_lines(old(self)@, chunk@),
            final(self)@ == framer_carry(old(self)@, chunk@),
    {
        let ghost carry0 = self@;
        let mut lines: Vec<Vec<u8>> = Vec::new();
        proof {
            assert(carry0 + chunk@.take(0) =~= carry0);
            lemma_split_lines_whole(carry0);
            assert(lines.deep_view() =~= framer_lines(carry0, chunk@.take(0)));
        }
        let mut i: usize = 0;
        while i < chunk.len()
            invariant
                i <= chunk@.len(),
                lines.deep_view() == framer_lines(carry0, chunk@.take(i as int)),
                self@ == framer_carry(carry0, chunk@.take(i as int)),
                self.wf(),
            decreases chunk@.len() - i,
        {
            let ghost full_i = carry0 + chunk@.take(i as int);
            let ghost full_n = carry0 + chunk@.take(i + 1);
            proof {
                assert(full_n.drop_last() =~= full_i);
                assert(full_n =~= full_i.push(chunk@[i as int]));
                lemma_split_push(full_i, chunk@[i as int]);
                lemma_split_lines_basic(full_i);
            }
            let b = chunk[i];
            if b == 10 {
                let t = trim_bytes(self.carry.as_slice());
                let ghost old_lines = lines.deep_view();
                lines.push(t);
                self.carry = Vec::new();
                proof {
                    assert(split_lines(full_n) == split_lines(full_i).push(Seq::<u8>::empty()));
                    assert(split_lines(full_n).drop_last() =~= split_lines(full_i));
                    assert(split_lines(full_i) =~= split_lines(full_i).drop_last().push(
                        split_lines(full_i).last(),
                    ));
                    assert(lines.deep_view() =~~= old_lines.push(t@));
                    assert(framer_lines(carry0, chunk@.take(i + 1)) =~~= old_lines.push(
                        trim_spec(split_lines(full_i).last()),
                    ));
                }
            } else {
                self.carry.push(b);
                proof {
                    let pre = split_lines(full_i);
                    assert(split_lines(full_n) == pre.update(pre.len() - 1, pre.last().push(b)));
                    assert(split_lines(full_n).drop_last() =~= pre.drop_last());
                    assert(framer_lines(carry0, chunk@.take(i + 1)) =~~= framer_lines(
                        carry0,
                        chunk@.take(i as int),
                    ));
                    assert(split_lines(full_n).last() == pre.last().push(b));
                }
            }
            i = i + 1;
        }
        proof {
            assert(chunk@.take(chunk@.len() as int) =~= chunk@);
        }
        lines
    }
}

} // verus!
