//! Cutting a request body, which arrives in frames of any size, into blocks
//! of a fixed size.

use vstd::prelude::*;

verus! {

/// The length of the first block cut from `len` bytes.
pub open spec fn first_len(len: nat, block_size: nat) -> nat {
    if len <= block_size {
        len
    } else {
        block_size
    }
}

/// The blocks of a whole body: each `block_size` bytes long, but the last,
/// which holds what is left. An empty body has no block, and with a block
/// size of zero nothing is ever cut.
pub open spec fn chunks(body: Seq<u8>, block_size: nat) -> Seq<Seq<u8>>
    decreases body.len(),
{
    if body.len() == 0 || block_size == 0 {
        Seq::empty()
    } else {
        let n = first_len(body.len(), block_size) as int;
        seq![body.take(n)] + chunks(body.skip(n), block_size)
    }
}

/// The bytes of a list of blocks, one after the other.
pub open spec fn concat(blocks: Seq<Seq<u8>>) -> Seq<u8>
    decreases blocks.len(),
{
    if blocks.len() == 0 {
        Seq::empty()
    } else {
        blocks[0] + concat(blocks.drop_first())
    }
}

/// How many blocks `len` bytes are cut into.
pub open spec fn block_count(len: nat, block_size: nat) -> nat {
    if block_size == 0 {
        0
    } else {
        ((len + block_size - 1) / (block_size as int)) as nat
    }
}

/// The blocks of a body, put together again, are the body; there are as
/// many as the body's length asks for; none is empty; and each is
/// `block_size` long but the last, which holds the remainder.
pub proof fn lemma_chunks(body: Seq<u8>, block_size: nat)
    requires
        block_size > 0,
    ensures
        concat(chunks(body, block_size)) == body,
        chunks(body, block_size).len() == block_count(body.len(), block_size),
        forall|i: int|
            0 <= i < chunks(body, block_size).len() ==> 0 < (#[trigger] chunks(
                body,
                block_size,
            )[i]).len() <= block_size,
        forall|i: int|
            0 <= i < chunks(body, block_size).len() - 1 ==> (#[trigger] chunks(
                body,
                block_size,
            )[i]).len() == block_size,
        body.len() > 0 ==> chunks(body, block_size).last().len() == body.len() - (chunks(
            body,
            block_size,
        ).len() - 1) * block_size,
    decreases body.len(),
{
    let c = chunks(body, block_size);
    if body.len() == 0 {
        assert(concat(c) =~= body);
        assert(block_count(0, block_size) == 0) by (nonlinear_arith)
            requires
                block_size > 0,
        ;
    } else {
        let n = first_len(body.len(), block_size) as int;
        let rest = body.skip(n);
        let cr = chunks(rest, block_size);
        lemma_chunks(rest, block_size);
        assert(c.drop_first() =~= cr);
        assert(c[0] == body.take(n));
        assert(concat(c) =~= body.take(n) + concat(cr));
        assert(body.take(n) + rest =~= body);
        assert forall|i: int| 0 <= i < c.len() implies 0 < (#[trigger] c[i]).len()
            <= block_size by {
            if i > 0 {
                assert(c[i] == cr[i - 1]);
            }
        }
        assert forall|i: int| 0 <= i < c.len() - 1 implies (#[trigger] c[i]).len()
            == block_size by {
            if i > 0 {
                assert(c[i] == cr[i - 1]);
            } else {
                if body.len() <= block_size {
                    assert(rest.len() == 0);
                    assert(cr.len() == 0);
                }
            }
        }
        let len = body.len() as int;
        let bs = block_size as int;
        if len <= bs {
            assert(rest.len() == 0);
            assert(cr.len() == 0);
            assert((len + bs - 1) / bs == 1) by (nonlinear_arith)
                requires
                    0 < len <= bs,
            ;
            assert(c.len() == 1);
            assert(c.last() == body.take(n));
            assert((c.len() - 1) * bs == 0);
        } else {
            assert(rest.len() == len - bs);
            assert(cr.len() > 0);
            assert((len + bs - 1) / bs == 1 + (len - bs + bs - 1) / bs) by (nonlinear_arith)
                requires
                    bs > 0,
                    len > bs,
            ;
            assert(c.last() == cr.last());
            assert((c.len() - 1) * bs == bs + (cr.len() - 1) * bs) by (nonlinear_arith)
                requires
                    c.len() == cr.len() + 1,
            ;
        }
    }
}

/// A full block at the front of the buffer is the body's next block
/// whatever arrives after it.
pub proof fn lemma_chunks_prefix(pending: Seq<u8>, rest: Seq<u8>, block_size: nat)
    requires
        block_size > 0,
        pending.len() >= block_size,
    ensures
        chunks(pending + rest, block_size) == seq![pending.take(block_size as int)] + chunks(
            pending.skip(block_size as int) + rest,
            block_size,
        ),
{
    let all = pending + rest;
    let n = block_size as int;
    if all.len() == n {
        assert(rest.len() == 0);
    }
    assert(first_len(all.len(), block_size) == block_size);
    assert(all.take(n) =~= pending.take(n));
    assert(all.skip(n) =~= pending.skip(n) + rest);
}

/// What the chunker wants done next.
#[derive(Debug, Clone, PartialEq, Eq)]
pub enum ChunkerStep {
    /// Read the next frame of the body and `feed` it, or call `finish` if
    /// the body has ended; then ask again.
    NeedInput,
    /// The next block of the body.
    Block(Vec<u8>),
    /// The body has ended and every byte of it has been handed out.
    Done,
}

/// Cuts a body that arrives frame by frame into blocks of `block_size`
/// bytes. It keeps what has arrived and has not been handed out yet.
#[derive(Debug)]
pub struct BodyChunker {
    read_all: bool,
    block_size: usize,
    buf: Vec<u8>,
}

/// The mathematical value of a `BodyChunker`.
pub struct ChunkerView {
    /// The bytes that have arrived and have not been handed out.
    pub pending: Seq<u8>,
    /// Whether the body has ended.
    pub read_all: bool,
    /// The size of every block but the last.
    pub block_size: nat,
}

impl ChunkerView {
    /// More of the body is needed before a block can be cut.
    pub open spec fn wants_input(self) -> bool {
        !self.read_all && self.pending.len() < self.block_size
    }
}

impl View for BodyChunker {
    type V = ChunkerView;

    closed spec fn view(&self) -> ChunkerView {
        ChunkerView {
            pending: self.buf@,
            read_all: self.read_all,
            block_size: self.block_size as nat,
        }
    }
}

impl BodyChunker {
    /// A chunker for a body of which nothing has arrived yet.
    pub fn new(block_size: usize) -> (c: BodyChunker)
        ensures
            c@ == (ChunkerView {
                pending: Seq::empty(),
                read_all: false,
                block_size: block_size as nat,
            }),
    {
        BodyChunker { read_all: false, block_size, buf: Vec::new() }
    }

    /// Whether more of the body is needed before a block can be cut.
    pub fn wants_input(&self) -> (r: bool)
        ensures
            r == self@.wants_input(),
    {
        !self.read_all && self.buf.len() < self.block_size
    }

    /// How many bytes have arrived and not been handed out.
    pub fn buffered(&self) -> (n: usize)
        ensures
            n == self@.pending.len(),
    {
        self.buf.len()
    }

    /// Takes in the next frame of the body. Where input was wanted, the
    /// buffer afterwards holds less than a block and a frame.
    pub fn feed(&mut self, frame: &[u8])
        ensures
            final(self)@ == (ChunkerView {
                pending: old(self)@.pending + frame@,
                ..old(self)@
            }),
            old(self)@.wants_input() ==> final(self)@.pending.len() < old(self)@.block_size
                + frame@.len(),
    {
        let ghost before = self.buf@;
        self.buf.extend_from_slice(frame);
        proof {
            assert(self.buf@ =~= before + frame@);
        }
    }

    /// Records that the body has ended.
    pub fn finish(&mut self)
        ensures
            final(self)@ == (ChunkerView { read_all: true, ..old(self)@ }),
    {
        self.read_all = true;
    }

    /// The next step: more input while less than a block is buffered and
    /// the body has not ended; then the first block of what is buffered;
    /// and `Done` once the body has ended and the buffer is empty.
    pub fn next(&mut self) -> (step: ChunkerStep)
        ensures
            old(self)@.wants_input() ==> step == ChunkerStep::NeedInput && final(self)@ == old(
                self,
            )@,
            !old(self)@.wants_input() && old(self)@.pending.len() == 0 ==> step
                == ChunkerStep::Done && final(self)@ == old(self)@,
            !old(self)@.wants_input() && old(self)@.pending.len() > 0 ==> {
                let n = first_len(old(self)@.pending.len(), old(self)@.block_size) as int;
                &&& step matches ChunkerStep::Block(b)
                &&& b@ == old(self)@.pending.take(n)
                &&& final(self)@ == (ChunkerView {
                    pending: old(self)@.pending.skip(n),
                    ..old(self)@
                })
                &&& old(self)@.block_size > 0 ==> 0 < n
                &&& (n == old(self)@.block_size || (old(self)@.read_all && n
                    < old(self)@.block_size))
            },
    {
        if !self.read_all && self.buf.len() < self.block_size {
            ChunkerStep::NeedInput
        } else if self.buf.len() == 0 {
            ChunkerStep::Done
        } else if self.buf.len() <= self.block_size {
            let mut block: Vec<u8> = Vec::new();
            std::mem::swap(&mut block, &mut self.buf);
            proof {
                assert(block@ == old(self)@.pending);
                assert(block@.take(block@.len() as int) =~= block@);
                assert(self.buf@ =~= block@.skip(block@.len() as int));
            }
            ChunkerStep::Block(block)
        } else {
            let rest = self.buf.split_off(self.block_size);
            let mut block = rest;
            std::mem::swap(&mut block, &mut self.buf);
            proof {
                assert(block@ == old(self)@.pending.take(self.block_size as int));
                assert(self.buf@ == old(self)@.pending.skip(self.block_size as int));
            }
            ChunkerStep::Block(block)
        }
    }
}

/// Cuts a body that is held in memory into its blocks, by feeding it to a
/// chunker in one frame.
pub fn split_body(body: &[u8], block_size: usize) -> (blocks: Vec<Vec<u8>>)
    ensures
        blocks@.len() == chunks(body@, block_size as nat).len(),
        forall|i: int|
            0 <= i < blocks@.len() ==> (#[trigger] blocks@[i])@ == chunks(
                body@,
                block_size as nat,
            )[i],
{
    let mut chunker = BodyChunker::new(block_size);
    let mut blocks: Vec<Vec<u8>> = Vec::new();
    if block_size == 0 {
        return blocks;
    }
    chunker.feed(body);
    chunker.finish();
    assert(chunker@.pending =~= body@);
    let ghost all = chunks(body@, block_size as nat);
    loop
        invariant
            chunker@.read_all,
            chunker@.block_size == block_size as nat,
            block_size > 0,
            all == chunks(body@, block_size as nat),
            blocks@.len() <= all.len(),
            forall|i: int| 0 <= i < blocks@.len() ==> (#[trigger] blocks@[i])@ == all[i],
            chunks(chunker@.pending, block_size as nat) =~= all.skip(blocks@.len() as int),
        decreases chunker@.pending.len(),
    {
        let ghost pending = chunker@.pending;
        match chunker.next() {
            ChunkerStep::Block(b) => {
                proof {
                    let n = first_len(pending.len(), block_size as nat) as int;
                    let c = chunks(pending, block_size as nat);
                    assert(c[0] == pending.take(n));
                    assert(c.drop_first() =~= chunks(pending.skip(n), block_size as nat));
                    assert(c[0] == all[blocks@.len() as int]);
                    assert(c.drop_first() =~= all.skip(blocks@.len() as int + 1));
                }
                blocks.push(b);
            },
            _ => {
                proof {
                    assert(chunks(pending, block_size as nat).len() == 0);
                }
                return blocks;
            },
        }
    }
}

} // verus!
