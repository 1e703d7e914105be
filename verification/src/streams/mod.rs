//! A growable, seekable byte buffer stored in fixed-size blocks.
pub mod utf16;

use vstd::prelude::*;
use vstd::arithmetic::div_mod::*;

use self::utf16::{
    be_bytes_to_units, decode_string_bytes, decode_utf16_lossy, encode_utf16, string_bytes,
    units_to_be_bytes, utf16_encode,
};

verus! {

/// `n` zero bytes.
pub open spec fn zeros(n: nat) -> Seq<u8> {
    Seq::new(n, |i: int| 0u8)
}

/// The number of blocks of `bs` bytes that cover the positions `[0, end)`.
pub open spec fn blocks_for(end: nat, bs: nat) -> nat {
    if end == 0 {
        0
    } else {
        ((end - 1) as nat / bs + 1) as nat
    }
}

/// The capacity after writing up to (not including) position `end` into
/// `len` bytes of blocks of `bs` bytes: whole blocks are added as needed.
pub open spec fn grown_len(len: nat, bs: nat, end: nat) -> nat {
    if end <= len {
        len
    } else {
        blocks_for(end, bs) * bs
    }
}

/// `len` bytes that hold `bytes` at position `p`, `data` elsewhere, and zero
/// past the end of `data`.
pub open spec fn overlay(data: Seq<u8>, len: nat, p: nat, bytes: Seq<u8>) -> Seq<u8> {
    Seq::new(
        len,
        |i: int|
            if p <= i < p + bytes.len() {
                bytes[i - p]
            } else if i < data.len() {
                data[i]
            } else {
                0u8
            },
    )
}

/// The contents after writing `bytes` at position `p`: the capacity grows by
/// whole zero-filled blocks, the written range holds `bytes`, the rest is kept.
pub open spec fn write_at(data: Seq<u8>, bs: nat, p: nat, bytes: Seq<u8>) -> Seq<u8> {
    overlay(data, grown_len(data.len(), bs, p + bytes.len()), p, bytes)
}

/// The four bytes of an integer, least significant first (two's complement).
pub open spec fn int_bytes(v: i32) -> Seq<u8> {
    let u = v as u32;
    seq![(u & 0xff) as u8, ((u >> 8) & 0xff) as u8, ((u >> 16) & 0xff) as u8, ((u >> 24) & 0xff) as u8]
}

/// The integer held by four bytes, least significant first (two's complement).
pub open spec fn bytes_int(b0: u8, b1: u8, b2: u8, b3: u8) -> i32 {
    ((b0 as u32) | ((b1 as u32) << 8) | ((b2 as u32) << 16) | ((b3 as u32) << 24)) as i32
}

/// The integer held by the four bytes of `data` at position `p`.
pub open spec fn int_at(data: Seq<u8>, p: int) -> i32 {
    bytes_int(data[p], data[p + 1], data[p + 2], data[p + 3])
}

/// The low 16 bits of a character, as written by `write_char`.
pub open spec fn char_unit(c: char) -> u16 {
    ((c as u32) % 0x10000) as u16
}

/// Whether `v` is a Unicode scalar value (a valid `char`).
pub open spec fn is_scalar_value(v: u32) -> bool {
    v <= 0xD7FF || (0xE000 <= v <= 0x10FFFF)
}

/// The character with scalar value `v`. Trusted: calls `char::from_u32`,
/// taken to give `None` exactly when `v` is a surrogate or above U+10FFFF.
#[verifier::external_body]
fn char_from_u32(v: u32) -> (r: Option<char>)
    ensures
        r == if is_scalar_value(v) {
            Some(v as char)
        } else {
            None::<char>
        },
{
    char::from_u32(v)
}

/// The abstract state of a stream.
pub struct StreamView {
    /// The bytes of all blocks, in order; its length is the capacity.
    pub data: Seq<u8>,
    /// The block size.
    pub blocksize: nat,
    /// One past the highest position written (or loaded).
    pub size: nat,
    /// The position of the next read or write.
    pub pointer: nat,
}

impl StreamView {
    /// What holds of every stream.
    pub open spec fn valid(self) -> bool {
        &&& self.blocksize >= 1
        &&& self.data.len() % self.blocksize == 0
        &&& self.size <= self.data.len()
        &&& self.pointer <= self.data.len()
        &&& self.data.len() <= usize::MAX
    }

    /// The bytes written so far: the first `size` bytes.
    pub open spec fn contents(self) -> Seq<u8> {
        self.data.take(self.size as int)
    }

    /// The state after writing `bytes` at the current position.
    pub open spec fn after_write(self, bytes: Seq<u8>) -> StreamView {
        let end = self.pointer + bytes.len();
        StreamView {
            data: write_at(self.data, self.blocksize, self.pointer, bytes),
            blocksize: self.blocksize,
            size: if end > self.size {
                end
            } else {
                self.size
            },
            pointer: end,
        }
    }

    /// The same state with the position moved to `p`.
    pub open spec fn with_pointer(self, p: int) -> StreamView {
        StreamView { pointer: p as nat, ..self }
    }

    /// Whether `n` more bytes can be written without the capacity leaving
    /// the address space.
    pub open spec fn can_write(self, n: nat) -> bool {
        self.pointer + n + self.blocksize <= usize::MAX
    }

    /// Whether `n` bytes can be read from the current position.
    pub open spec fn can_read(self, n: nat) -> bool {
        self.pointer + n <= self.data.len()
    }
}

/// A byte buffer that grows in blocks and has a current position used by all
/// reads and writes. Positions past the written size but inside the
/// allocated blocks read as the bytes stored there (zero when never written).
#[derive(Debug)]
pub struct RandomAccessByteStream {
    blocksize: usize,
    buffers: Vec<Vec<u8>>,
    size: usize,
    pointer: usize,
}

impl View for RandomAccessByteStream {
    type V = StreamView;

    closed spec fn view(&self) -> StreamView {
        StreamView {
            data: Seq::new(
                (self.buffers.len() * self.blocksize) as nat,
                |i: int| self.buffers[i / (self.blocksize as int)][i % (self.blocksize as int)],
            ),
            blocksize: self.blocksize as nat,
            size: self.size as nat,
            pointer: self.pointer as nat,
        }
    }
}

proof fn lemma_split(i: int, bs: int)
    requires
        bs > 0,
        i >= 0,
    ensures
        i == (i / bs) * bs + i % bs,
        0 <= i % bs < bs,
        i / bs >= 0,
{
    lemma_fundamental_div_mod(i, bs);
    lemma_mod_pos_bound(i, bs);
    lemma_div_pos_is_pos(i, bs);
    assert(bs * (i / bs) == (i / bs) * bs) by (nonlinear_arith);
}

proof fn lemma_block_of(i: int, bs: int, q: int)
    requires
        bs > 0,
        q * bs <= i < q * bs + bs,
    ensures
        i / bs == q,
        i % bs == i - q * bs,
{
    lemma_fundamental_div_mod_converse(i, bs, q, i - q * bs);
}

proof fn lemma_below_cap(i: int, bs: int, n: int)
    requires
        bs > 0,
        0 <= i < n * bs,
    ensures
        i / bs < n,
{
    lemma_split(i, bs);
    let q = i / bs;
    if q >= n {
        assert(q * bs >= n * bs) by (nonlinear_arith)
            requires
                q >= n,
                bs > 0,
        ;
    }
}

proof fn lemma_in_block(p: int, bs: int, n: int)
    requires
        bs > 0,
        p >= 0,
        p / bs < n,
    ensures
        p < n * bs,
{
    lemma_split(p, bs);
    let q = p / bs;
    assert(q * bs + bs <= n * bs) by (nonlinear_arith)
        requires
            q < n,
            bs > 0,
    ;
}

proof fn lemma_mul_le(a: int, b: int, bs: int)
    requires
        0 <= a <= b,
        bs >= 0,
    ensures
        a * bs <= b * bs,
{
    assert(a * bs <= b * bs) by (nonlinear_arith)
        requires
            0 <= a <= b,
            bs >= 0,
    ;
}

pub proof fn lemma_int_roundtrip_bytes(v: i32)
    ensures
        ({
            let b = int_bytes(v);
            bytes_int(b[0], b[1], b[2], b[3]) == v
        }),
{
    let u = v as u32;
    assert(((((u & 0xff) as u8) as u32) | ((((u >> 8) & 0xff) as u8) as u32) << 8 | ((((u >> 16)
        & 0xff) as u8) as u32) << 16 | ((((u >> 24) & 0xff) as u8) as u32) << 24) == u)
        by (bit_vector);
    assert((u as i32) == v) by (bit_vector)
        requires
            u == v as u32,
    ;
}

impl RandomAccessByteStream {
    /// The internal representation is consistent.
    pub closed spec fn wf(&self) -> bool {
        &&& self.blocksize >= 1
        &&& forall|k: int| 0 <= k < self.buffers.len() ==> #[trigger] self.buffers[k].len() == self.blocksize
        &&& self.size <= self.buffers.len() * self.blocksize
        &&& self.pointer <= self.buffers.len() * self.blocksize
        &&& self.buffers.len() * self.blocksize <= usize::MAX
    }

    /// Every well-formed stream has a valid view.
    pub proof fn lemma_valid(&self)
        requires
            self.wf(),
        ensures
            self@.valid(),
    {
        let n = self.buffers.len() as int;
        let bs = self.blocksize as int;
        lemma_mod_multiples_basic(n, bs);
    }

    fn spec_byte(&self, pos: usize) -> (b: u8)
        requires
            self.wf(),
            pos < self@.data.len(),
        ensures
            b == self@.data[pos as int],
    {
        let bs = self.blocksize;
        proof {
            lemma_split(pos as int, bs as int);
            lemma_below_cap(pos as int, bs as int, self.buffers.len() as int);
        }
        let bn = pos / bs;
        let lp = pos - bn * bs;
        assert(self.buffers[bn as int].len() == bs);
        self.buffers[bn][lp]
    }

    fn put_byte(&mut self, pos: usize, b: u8)
        requires
            old(self).wf(),
            pos < old(self)@.data.len(),
        ensures
            final(self).wf(),
            final(self)@ == (StreamView { data: old(self)@.data.update(pos as int, b), ..old(self)@ }),
    {
        let bs = self.blocksize;
        proof {
            lemma_split(pos as int, bs as int);
            lemma_below_cap(pos as int, bs as int, self.buffers.len() as int);
        }
        let bn = pos / bs;
        let lp = pos - bn * bs;
        assert(self.buffers[bn as int].len() == bs);
        let ghost old_data = self@.data;
        self.buffers[bn].set(lp, b);
        let ghost new_data = self@.data;
        assert forall|i: int| 0 <= i < new_data.len() implies new_data[i] == old_data.update(
            pos as int,
            b,
        )[i] by {
            lemma_split(i, bs as int);
            lemma_below_cap(i, bs as int, self.buffers.len() as int);
            if i / (bs as int) == bn as int && i % (bs as int) == lp as int {
                assert(i == pos);
            }
        }
        assert(new_data =~= old_data.update(pos as int, b));
    }

    /// Adds zero-filled blocks until block `bn` exists.
    fn ensure_block(&mut self, bn: usize)
        requires
            old(self).wf(),
            (bn + 1) * old(self).blocksize <= usize::MAX,
        ensures
            final(self).wf(),
            bn < final(self).buffers.len(),
            final(self).buffers.len() == if bn < old(self).buffers.len() {
                old(self).buffers.len() as int
            } else {
                bn + 1
            },
            final(self).blocksize == old(self).blocksize,
            final(self)@.data.len() == if bn < old(self).buffers.len() {
                old(self)@.data.len() as int
            } else {
                (bn + 1) * old(self).blocksize
            },
            final(self)@.data == old(self)@.data + zeros(
                (final(self)@.data.len() - old(self)@.data.len()) as nat,
            ),
            final(self)@.size == old(self)@.size,
            final(self)@.pointer == old(self)@.pointer,
            final(self)@.blocksize == old(self)@.blocksize,
    {
        let ghost old_data = self@.data;
        let bs = self.blocksize;
        while self.buffers.len() <= bn
            invariant
                self.wf(),
                self.blocksize == bs,
                (bn + 1) * bs <= usize::MAX,
                self.buffers.len() <= bn + 1 || self.buffers.len() == old(self).buffers.len(),
                self@.data.len() >= old_data.len(),
                self@.data.len() == old_data.len() || self@.data.len() == self.buffers.len() * bs,
                old(self).buffers.len() <= self.buffers.len(),
                self.buffers.len() > old(self).buffers.len() ==> self@.data.len() == self.buffers.len() * bs,
                self@.data.len() == self.buffers.len() * bs,
                old_data.len() == old(self).buffers.len() * bs,
                self@.data == old_data + zeros((self@.data.len() - old_data.len()) as nat),
                self@.size == old(self)@.size,
                self@.pointer == old(self)@.pointer,
            decreases bn + 1 - self.buffers.len(),
        {
            let ghost before = self@.data;
            let ghost n = self.buffers.len() as int;
            proof {
                lemma_mul_le(n + 1, bn + 1, bs as int);
            }
            let block: Vec<u8> = vec![0u8; bs];
            assert forall|j: int| 0 <= j < block.len() implies block[j] == 0u8 by {
                assert(cloned(0u8, block[j]));
            }
            self.buffers.push(block);
            let ghost after = self@.data;
            assert(after.len() == before.len() + bs) by (nonlinear_arith)
                requires
                    after.len() == (n + 1) * bs,
                    before.len() == n * bs,
            ;
            assert forall|i: int| 0 <= i < after.len() implies after[i] == (before + zeros(
                bs as nat,
            ))[i] by {
                lemma_split(i, bs as int);
                if i < before.len() {
                    lemma_below_cap(i, bs as int, n);
                } else {
                    lemma_block_of(i, bs as int, n);
                }
            }
            assert(after =~= before + zeros(bs as nat));
            assert(after =~= old_data + zeros((after.len() - old_data.len()) as nat));
        }
        proof {
            if bn >= old(self).buffers.len() {
                assert(self.buffers.len() == bn + 1);
            }
        }
    }

    /// A stream with blocks of 8000 bytes and one block allocated.
    pub fn new() -> (s: Self)
        ensures
            s.wf(),
            s@.blocksize == 8000,
            s@.data == zeros(8000),
            s@.size == 0,
            s@.pointer == 0,
    {
        Self::with_blocksize(8000)
    }

    /// A stream with blocks of `blocksize` bytes and one block allocated.
    pub fn with_blocksize(blocksize: usize) -> (s: Self)
        requires
            blocksize >= 1,
        ensures
            s.wf(),
            s@.blocksize == blocksize,
            s@.data == zeros(blocksize as nat),
            s@.size == 0,
            s@.pointer == 0,
    {
        Self::with_blocksize_and_blocks(blocksize, 1)
    }

    /// A stream with `numblocks` zero-filled blocks of `blocksize` bytes.
    pub fn with_blocksize_and_blocks(blocksize: usize, numblocks: usize) -> (s: Self)
        requires
            blocksize >= 1,
            numblocks >= 1,
            numblocks * blocksize <= usize::MAX,
        ensures
            s.wf(),
            s@.blocksize == blocksize,
            s@.data == zeros((numblocks * blocksize) as nat),
            s@.size == 0,
            s@.pointer == 0,
    {
        let mut s = RandomAccessByteStream {
            blocksize,
            buffers: Vec::new(),
            size: 0,
            pointer: 0,
        };
        assert(s.buffers@.len() == 0);
        assert(s.buffers.len() * s.blocksize == 0) by (nonlinear_arith)
            requires
                s.buffers.len() == 0,
        ;
        assert(s@.data =~= zeros(0));
        let mut k: usize = 0;
        while k < numblocks
            invariant
                s.wf(),
                k <= numblocks,
                s.buffers.len() == k,
                s.blocksize == blocksize,
                numblocks * blocksize <= usize::MAX,
                s@.data == zeros((k * blocksize) as nat),
                s@.size == 0,
                s@.pointer == 0,
            decreases numblocks - k,
        {
            proof {
                lemma_mul_le(k + 1, numblocks as int, blocksize as int);
            }
            s.ensure_block(k);
            k = k + 1;
            assert(s@.data =~= zeros((k * blocksize) as nat));
        }
        s
    }

    /// Writes one byte at the current position and advances it, adding a
    /// zero-filled block when the position is past the last block.
    pub fn write_byte(&mut self, b: u8)
        requires
            old(self).wf(),
            old(self)@.can_write(1),
        ensures
            final(self).wf(),
            final(self)@ == old(self)@.after_write(seq![b]),
    {
        let bs = self.blocksize;
        let p = self.pointer;
        proof {
            lemma_split(p as int, bs as int);
            assert((p / bs + 1) * bs <= p + bs) by (nonlinear_arith)
                requires
                    p == (p / bs) * bs + p % bs,
                    p % bs >= 0,
            ;
            self.lemma_valid();
        }
        let bn = p / bs;
        let ghost old_view = self@;
        self.ensure_block(bn);
        assert(p < self@.data.len()) by {
            lemma_in_block(p as int, bs as int, self.buffers.len() as int);
        }
        let ghost grown = self@.data;
        self.put_byte(p, b);
        self.pointer = p + 1;
        if self.pointer > self.size {
            self.size = self.pointer;
        }
        proof {
            let expect = old_view.after_write(seq![b]);
            let end = p + 1;
            if end <= old_view.data.len() {
                assert(bn < old(self).buffers.len()) by {
                    lemma_below_cap(p as int, bs as int, old(self).buffers.len() as int);
                }
            } else {
                assert(p == old_view.data.len() || p > old_view.data.len() - 1);
                assert(blocks_for(end as nat, bs as nat) == bn + 1);
                if bn < old(self).buffers.len() {
                    lemma_in_block(p as int, bs as int, old(self).buffers.len() as int);
                }
            }
            assert(self@.data =~= expect.data);
        }
    }

    /// Writes `buf` at the current position and advances past it, adding
    /// zero-filled blocks as the writing crosses into new ones.
    pub fn write_bytes(&mut self, buf: &[u8])
        requires
            old(self).wf(),
            old(self)@.can_write(buf@.len()),
        ensures
            final(self).wf(),
            final(self)@ == old(self)@.after_write(buf@),
    {
        let ghost v0 = self@;
        let bs = self.blocksize;
        let p0 = self.pointer;
        proof {
            self.lemma_valid();
            assert(buf@.take(0) =~= Seq::<u8>::empty());
            assert(self@.data =~= write_at(v0.data, bs as nat, p0 as nat, buf@.take(0)));
        }
        let mut bp: usize = 0;
        while bp < buf.len()
            invariant
                self.wf(),
                self.blocksize == bs,
                bs == v0.blocksize,
                v0.valid(),
                bp <= buf.len(),
                self.pointer == p0 + bp,
                p0 == v0.pointer,
                v0.can_write(buf@.len()),
                self@.size == v0.size,
                self@.data == write_at(v0.data, bs as nat, p0 as nat, buf@.take(bp as int)),
            decreases buf.len() - bp,
        {
            let ptr = self.pointer;
            proof {
                lemma_split(ptr as int, bs as int);
                assert((ptr / bs + 1) * bs <= ptr + bs) by (nonlinear_arith)
                    requires
                        ptr == (ptr / bs) * bs + ptr % bs,
                        ptr % bs >= 0,
                ;
            }
            let bn = ptr / bs;
            let ghost before = self@.data;
            let ghost nb_before = self.buffers.len();
            let ghost want: int = if v0.data.len() >= (bn + 1) * bs {
                v0.data.len() as int
            } else {
                (bn + 1) * bs
            };
            proof {
                assert(bn * bs + bs == (bn + 1) * bs) by (nonlinear_arith);
                assert(ptr < (bn + 1) * bs);
                assert(before.len() == nb_before * bs);
                if ptr as int <= v0.data.len() {
                    assert(before.len() == v0.data.len());
                } else {
                    assert(before.len() == blocks_for(ptr as nat, bs as nat) * bs);
                    lemma_div_is_ordered(ptr - 1, ptr as int, bs as int);
                    lemma_mul_le(blocks_for(ptr as nat, bs as nat) as int, bn + 1, bs as int);
                }
            }
            self.ensure_block(bn);
            let ghost cap = self@.data.len();
            proof {
                lemma_in_block(ptr as int, bs as int, self.buffers.len() as int);
                assert(cap == self.buffers.len() * bs);
                if bn < nb_before {
                    lemma_mul_le(bn + 1, nb_before as int, bs as int);
                } else {
                    if nb_before > bn {
                        assert(false);
                    }
                    lemma_mul_le(nb_before as int, bn as int, bs as int);
                    assert(bn * bs < (bn + 1) * bs);
                }
                assert(cap == want);
            }
            let lp = ptr - bn * bs;
            let remaining_in_block = bs - lp;
            let remaining_in_buf = buf.len() - bp;
            let copy = if remaining_in_block < remaining_in_buf {
                remaining_in_block
            } else {
                remaining_in_buf
            };
            assert(self@.data =~= overlay(v0.data, cap, p0 as nat, buf@.take(bp as int))) by {
                assert forall|i: int| 0 <= i < cap implies #[trigger] self@.data[i] == overlay(
                    v0.data,
                    cap,
                    p0 as nat,
                    buf@.take(bp as int),
                )[i] by {
                    if i < before.len() {
                        assert(self@.data[i] == before[i]);
                    } else {
                        assert(self@.data[i] == 0u8);
                    }
                }
            }
            let mut x: usize = 0;
            while x < copy
                invariant
                    self.wf(),
                    self.blocksize == bs,
                    bs == v0.blocksize,
                    x <= copy,
                    bp + copy <= buf.len(),
                    lp + copy <= bs,
                    ptr == bn * bs + lp,
                    self.buffers.len() * bs == cap,
                    cap == want,
                    want == if v0.data.len() >= (bn + 1) * bs {
                        v0.data.len() as int
                    } else {
                        (bn + 1) * bs
                    },
                    ptr + copy <= (bn + 1) * bs,
                    self.pointer == ptr,
                    ptr == p0 + bp,
                    self@.size == v0.size,
                    self@.data.len() == cap,
                    self@.data == overlay(v0.data, cap, p0 as nat, buf@.take(bp + x)),
                decreases copy - x,
            {
                let pos = ptr + x;
                let byte = buf[bp + x];
                self.put_byte(pos, byte);
                x = x + 1;
                assert(self@.data =~= overlay(v0.data, cap, p0 as nat, buf@.take(bp + x)));
            }
            self.pointer = ptr + copy;
            bp = bp + copy;
            proof {
                let end = p0 + bp;
                assert(end > bn * bs);
                assert(end <= (bn + 1) * bs);
                assert(cap >= (bn + 1) * bs);
                assert((end - 1) / (bs as int) == bn) by {
                    lemma_block_of(end - 1, bs as int, bn as int);
                }
                if end > v0.data.len() {
                    assert(grown_len(v0.data.len(), bs as nat, end as nat) == (bn + 1) * bs);
                    if cap != (bn + 1) * bs {
                        assert(false);
                    }
                } else {
                    assert((v0.data.len() as int) % (bs as int) == 0);
                    assert(v0.data.len() >= (bn + 1) * bs) by {
                        let m = (v0.data.len() as int) / (bs as int);
                        lemma_split(v0.data.len() as int, bs as int);
                        if m <= bn {
                            lemma_mul_le(m, bn as int, bs as int);
                        }
                    }
                    assert(cap == v0.data.len());
                }
                assert(self@.data =~= write_at(v0.data, bs as nat, p0 as nat, buf@.take(bp as int)));
            }
        }
        if self.pointer > self.size {
            self.size = self.pointer;
        }
        proof {
            assert(buf@.take(buf@.len() as int) =~= buf@);
        }
    }

    /// Reads the byte at the current position and advances past it.
    pub fn read_byte(&mut self) -> (b: u8)
        requires
            old(self).wf(),
            old(self)@.can_read(1),
        ensures
            final(self).wf(),
            b == old(self)@.data[old(self)@.pointer as int],
            final(self)@ == old(self)@.with_pointer(old(self)@.pointer + 1int),
    {
        let p = self.pointer;
        let b = self.spec_byte(p);
        self.pointer = p + 1;
        b
    }

    /// Reads `len` bytes from the current position and advances past them.
    pub fn read_bytes(&mut self, len: usize) -> (r: Vec<u8>)
        requires
            old(self).wf(),
            old(self)@.can_read(len as nat),
        ensures
            final(self).wf(),
            r@ == old(self)@.data.subrange(
                old(self)@.pointer as int,
                old(self)@.pointer + len,
            ),
            final(self)@ == old(self)@.with_pointer(old(self)@.pointer + len),
    {
        let ghost v0 = self@;
        let bs = self.blocksize;
        let mut data: Vec<u8> = Vec::new();
        let mut read_count: usize = 0;
        let mut to_read = len;
        while to_read > 0
            invariant
                self.wf(),
                self.blocksize == bs,
                read_count + to_read == len,
                self@ == v0.with_pointer(v0.pointer + read_count),
                v0.can_read(len as nat),
                data@ == v0.data.subrange(v0.pointer as int, v0.pointer + read_count),
            decreases to_read,
        {
            let ptr = self.pointer;
            proof {
                lemma_split(ptr as int, bs as int);
            }
            let buffer_number = ptr / bs;
            let local_pointer = ptr - buffer_number * bs;
            let chunk = if to_read <= bs - local_pointer {
                to_read
            } else {
                bs - local_pointer
            };
            let mut i: usize = 0;
            while i < chunk
                invariant
                    self.wf(),
                    self.blocksize == bs,
                    i <= chunk,
                    chunk <= to_read,
                    read_count + to_read == len,
                    self@ == v0.with_pointer(v0.pointer + read_count + i),
                    v0.can_read(len as nat),
                    data@ == v0.data.subrange(v0.pointer as int, v0.pointer + read_count + i),
                decreases chunk - i,
            {
                let b = self.read_byte();
                data.push(b);
                i = i + 1;
                assert(data@ =~= v0.data.subrange(v0.pointer as int, v0.pointer + read_count + i));
            }
            read_count = read_count + chunk;
            to_read = len - read_count;
        }
        data
    }

    /// Writes an integer as four bytes, least significant first.
    pub fn write_int(&mut self, val: i32)
        requires
            old(self).wf(),
            old(self)@.can_write(4),
        ensures
            final(self).wf(),
            final(self)@ == old(self)@.after_write(int_bytes(val)),
    {
        let u = val as u32;
        let bytes: [u8; 4] = [
            (u & 0xff) as u8,
            ((u >> 8) & 0xff) as u8,
            ((u >> 16) & 0xff) as u8,
            ((u >> 24) & 0xff) as u8,
        ];
        assert(bytes@ =~= int_bytes(val));
        self.write_bytes(bytes.as_slice());
    }

    /// Reads four bytes, least significant first, as an integer.
    pub fn read_int(&mut self) -> (r: i32)
        requires
            old(self).wf(),
            old(self)@.can_read(4),
        ensures
            final(self).wf(),
            r == int_at(old(self)@.data, old(self)@.pointer as int),
            final(self)@ == old(self)@.with_pointer(old(self)@.pointer + 4int),
    {
        let i1 = self.read_byte();
        let i2 = self.read_byte();
        let i3 = self.read_byte();
        let i4 = self.read_byte();
        ((i1 as u32) | ((i2 as u32) << 8) | ((i3 as u32) << 16) | ((i4 as u32) << 24)) as i32
    }

    /// Writes a boolean as the integer 1 or 0.
    pub fn write_bool(&mut self, val: bool)
        requires
            old(self).wf(),
            old(self)@.can_write(4),
        ensures
            final(self).wf(),
            final(self)@ == old(self)@.after_write(int_bytes(if val { 1 } else { 0 })),
    {
        self.write_int(if val { 1 } else { 0 });
    }

    /// Reads one byte as a boolean: true when it is not zero.
    pub fn read_bool(&mut self) -> (r: bool)
        requires
            old(self).wf(),
            old(self)@.can_read(1),
        ensures
            final(self).wf(),
            r == (old(self)@.data[old(self)@.pointer as int] != 0),
            final(self)@ == old(self)@.with_pointer(old(self)@.pointer + 1int),
    {
        self.read_byte() != 0
    }

    /// Writes the low 16 bits of a character, least significant byte first.
    pub fn write_char(&mut self, val: char)
        requires
            old(self).wf(),
            old(self)@.can_write(2),
        ensures
            final(self).wf(),
            final(self)@ == old(self)@.after_write(
                seq![(char_unit(val) % 256) as u8, (char_unit(val) / 256) as u8],
            ),
    {
        let v = ((val as u32) % 0x10000) as u16;
        let bytes: [u8; 2] = [(v % 256) as u8, (v / 256) as u8];
        assert(bytes@ =~= seq![(char_unit(val) % 256) as u8, (char_unit(val) / 256) as u8]);
        self.write_bytes(bytes.as_slice());
    }

    /// Reads two bytes, least significant first, as a character; a value that
    /// is not a valid character reads as U+0000.
    pub fn read_char(&mut self) -> (r: char)
        requires
            old(self).wf(),
            old(self)@.can_read(2),
        ensures
            final(self).wf(),
            ({
                let p = old(self)@.pointer as int;
                let v = (old(self)@.data[p] + 256 * old(self)@.data[p + 1]) as u32;
                r == if is_scalar_value(v) {
                    v as char
                } else {
                    '\0'
                }
            }),
            final(self)@ == old(self)@.with_pointer(old(self)@.pointer + 2int),
    {
        let b1 = self.read_byte();
        let b2 = self.read_byte();
        let val = (b1 as u32) + 256 * (b2 as u32);
        match char_from_u32(val) {
            Some(c) => c,
            None => '\0',
        }
    }

    /// Writes a string: the length of its body as an integer, then the body,
    /// which is the byte-order mark FE FF followed by the UTF-16 code units,
    /// most significant byte first.
    pub fn write_string(&mut self, val: &str)
        requires
            old(self).wf(),
            old(self)@.can_write(4 + string_bytes(val@).len()),
        ensures
            final(self).wf(),
            final(self)@ == old(self)@.after_write(
                int_bytes(string_bytes(val@).len() as i32),
            ).after_write(string_bytes(val@)),
    {
        let with_bom = string_body(val);
        self.write_int(with_bom.len() as i32);
        proof {
            self.lemma_valid();
        }
        self.write_bytes(with_bom.as_slice());
    }

    /// Reads a string written by `write_string`: an integer length, then that
    /// many bytes decoded as big-endian UTF-16 code units, dropping a leading
    /// byte-order mark (an odd last byte is ignored; unpaired surrogates
    /// become U+FFFD).
    pub fn read_string(&mut self) -> (r: String)
        requires
            old(self).wf(),
            old(self)@.can_read(4),
            int_at(old(self)@.data, old(self)@.pointer as int) >= 0,
            old(self)@.can_read(4 + int_at(old(self)@.data, old(self)@.pointer as int) as nat),
        ensures
            final(self).wf(),
            ({
                let p = old(self)@.pointer as int;
                let n = int_at(old(self)@.data, p) as int;
                &&& r@ == decode_string_bytes(old(self)@.data.subrange(p + 4, p + 4 + n))
                &&& final(self)@ == old(self)@.with_pointer(p + 4 + n)
            }),
    {
        let size = self.read_int() as usize;
        let bytes = self.read_bytes(size);
        let mut u16s: Vec<u16> = Vec::new();
        let half = bytes.len() / 2;
        let mut k: usize = 0;
        while k < half
            invariant
                k <= half,
                half == bytes@.len() / 2,
                u16s@ == be_bytes_to_units(bytes@).take(k as int),
            decreases half - k,
        {
            assert(2 * k + 1 < bytes.len());
            let hi = bytes[2 * k];
            let lo = bytes[2 * k + 1];
            u16s.push((hi as u16) * 256 + (lo as u16));
            k = k + 1;
            assert(u16s@ =~= be_bytes_to_units(bytes@).take(k as int));
        }
        assert(u16s@ =~= be_bytes_to_units(bytes@));
        if u16s.len() > 0 && u16s[0] == 0xFEFF {
            let mut rest: Vec<u16> = Vec::new();
            let mut j: usize = 1;
            while j < u16s.len()
                invariant
                    1 <= j <= u16s.len(),
                    rest@ == u16s@.subrange(1, j as int),
                decreases u16s.len() - j,
            {
                rest.push(u16s[j]);
                j = j + 1;
                assert(rest@ =~= u16s@.subrange(1, j as int));
            }
            assert(rest@ =~= u16s@.drop_first());
            decode_utf16_lossy(rest.as_slice())
        } else {
            decode_utf16_lossy(u16s.as_slice())
        }
    }

    /// Moves the current position to `pos`, which must lie inside the
    /// allocated blocks.
    pub fn seek(&mut self, pos: i32)
        requires
            old(self).wf(),
            0 <= pos < old(self)@.data.len(),
        ensures
            final(self).wf(),
            final(self)@ == old(self)@.with_pointer(pos as int),
    {
        let pos = pos as usize;
        self.pointer = pos;
    }

    /// The current position.
    pub fn get_pointer_position(&self) -> (r: i32)
        ensures
            r == self@.pointer as i32,
    {
        self.pointer as i32
    }

    /// The byte at the current position, without moving the position.
    pub fn peek_byte(&self) -> (r: u8)
        requires
            self.wf(),
            self@.can_read(1),
        ensures
            r == self@.data[self@.pointer as int],
    {
        self.spec_byte(self.pointer)
    }

    /// The integer at the current position, without moving the position.
    pub fn peek_int(&self) -> (r: i32)
        requires
            self.wf(),
            self@.can_read(4),
        ensures
            r == int_at(self@.data, self@.pointer as int),
    {
        let p = self.pointer;
        let i1 = self.spec_byte(p);
        let i2 = self.spec_byte(p + 1);
        let i3 = self.spec_byte(p + 2);
        let i4 = self.spec_byte(p + 3);
        ((i1 as u32) | ((i2 as u32) << 8) | ((i3 as u32) << 16) | ((i4 as u32) << 24)) as i32
    }

    /// The current position.
    pub fn position(&self) -> (r: usize)
        ensures
            r == self@.pointer,
    {
        self.pointer
    }

    /// The size of each allocated block.
    pub fn block_size(&self) -> (r: usize)
        ensures
            r == self@.blocksize,
    {
        self.blocksize
    }

    /// The number of bytes in the allocated blocks.
    pub fn capacity(&self) -> (r: usize)
        requires
            self.wf(),
        ensures
            r == self@.data.len(),
    {
        self.buffers.len() * self.blocksize
    }

    /// The number of bytes that can be read from the current position, up to
    /// the end of the allocated blocks.
    pub fn readable(&self) -> (r: usize)
        requires
            self.wf(),
        ensures
            r == self@.data.len() - self@.pointer,
    {
        self.buffers.len() * self.blocksize - self.pointer
    }

    /// The number of bytes written.
    pub fn size(&self) -> (r: i32)
        ensures
            r == self@.size as i32,
    {
        self.size as i32
    }

    /// The bytes written so far; the position is left where it was.
    pub fn get_bytes(&mut self) -> (r: Vec<u8>)
        requires
            old(self).wf(),
            old(self)@.pointer < old(self)@.data.len(),
            old(self)@.pointer <= i32::MAX,
        ensures
            final(self).wf(),
            r@ == old(self)@.contents(),
            final(self)@ == old(self)@,
    {
        let ghost v0 = self@;
        proof {
            self.lemma_valid();
        }
        let pos = self.get_pointer_position();
        self.seek(0);
        let mut data: Vec<u8> = Vec::new();
        let n = self.size;
        let mut k: usize = 0;
        while k < n
            invariant
                self.wf(),
                k <= n,
                n == v0.size,
                v0.valid(),
                self@ == v0.with_pointer(k as int),
                data@ == v0.data.take(k as int),
            decreases n - k,
        {
            let b = self.read_byte();
            data.push(b);
            k = k + 1;
            assert(data@ =~= v0.data.take(k as int));
        }
        self.seek(pos);
        assert(self@ =~= v0);
        data
    }

    /// Overwrites the four bytes at `pos` with an integer; the position is
    /// left where it was.
    pub fn set(&mut self, pos: i32, value: i32)
        requires
            old(self).wf(),
            0 <= pos < old(self)@.data.len(),
            old(self)@.pointer < old(self)@.with_pointer(pos as int).after_write(int_bytes(value)).data.len(),
            old(self)@.pointer <= i32::MAX,
            old(self)@.with_pointer(pos as int).can_write(4),
        ensures
            final(self).wf(),
            final(self)@ == old(self)@.with_pointer(pos as int).after_write(int_bytes(value)).with_pointer(
                old(self)@.pointer as int,
            ),
    {
        let old_pos = self.get_pointer_position();
        self.seek(pos);
        self.write_int(value);
        proof {
            self.lemma_valid();
        }
        self.seek(old_pos);
    }

    /// The bytes written so far, without moving the position.
    pub fn contents(&self) -> (r: Vec<u8>)
        requires
            self.wf(),
        ensures
            r@ == self@.contents(),
    {
        proof {
            self.lemma_valid();
        }
        let mut data: Vec<u8> = Vec::new();
        let mut k: usize = 0;
        while k < self.size
            invariant
                self.wf(),
                k <= self.size,
                self@.valid(),
                data@ == self@.data.take(k as int),
            decreases self.size - k,
        {
            let b = self.spec_byte(k);
            data.push(b);
            k = k + 1;
            assert(data@ =~= self@.data.take(k as int));
        }
        data
    }

    /// Replaces the whole contents by `bytes`, split into blocks (the last one
    /// zero-padded), with the position at 0.
    pub fn load(&mut self, bytes: &[u8])
        requires
            old(self).wf(),
            bytes@.len() + old(self)@.blocksize <= usize::MAX,
        ensures
            final(self).wf(),
            final(self)@ == (StreamView {
                data: write_at(Seq::empty(), old(self)@.blocksize, 0, bytes@),
                blocksize: old(self)@.blocksize,
                size: bytes@.len(),
                pointer: 0,
            }),
    {
        self.buffers = Vec::new();
        self.pointer = 0;
        self.size = 0;
        assert(self.buffers.len() * self.blocksize == 0) by (nonlinear_arith)
            requires
                self.buffers.len() == 0,
        ;
        assert(self@.data =~= Seq::<u8>::empty());
        self.write_bytes(bytes);
        proof {
            self.lemma_valid();
        }
        self.pointer = 0;
    }
}

impl Clone for RandomAccessByteStream {
    /// A copy of the contents with the position at 0.
    fn clone(&self) -> (r: Self)
        ensures
            self.wf() ==> r.wf() && r@ == self@.with_pointer(0),
    {
        let mut buffers: Vec<Vec<u8>> = Vec::new();
        let mut k: usize = 0;
        while k < self.buffers.len()
            invariant
                k <= self.buffers.len(),
                buffers.len() == k,
                forall|j: int| 0 <= j < k ==> #[trigger] buffers[j]@ == self.buffers[j]@,
            decreases self.buffers.len() - k,
        {
            let b = self.buffers[k].clone();
            assert(b@ =~= self.buffers[k as int]@);
            buffers.push(b);
            k = k + 1;
        }
        let r = RandomAccessByteStream {
            blocksize: self.blocksize,
            buffers,
            size: self.size,
            pointer: 0,
        };
        assert(r.buffers.len() == self.buffers.len());
        let ghost bs = self.blocksize as int;
        assert forall|i: int| self.wf() && 0 <= i < r@.data.len() implies #[trigger] r@.data[i] == self@.data[i] by {
            let j = i / bs;
            lemma_split(i, bs);
            lemma_below_cap(i, bs, self.buffers.len() as int);
            assert(r.buffers[j]@ == self.buffers[j]@);
        }
        assert(self.wf() ==> r@.data =~= self@.data);
        assert forall|k: int| 0 <= k < r.buffers.len() implies #[trigger] r.buffers[k].len() == self.buffers[k].len() by {
            assert(r.buffers[k]@ == self.buffers[k]@);
        }
        r
    }
}

impl Default for RandomAccessByteStream {
    /// The same as `RandomAccessByteStream::new()`.
    fn default() -> (s: Self)
        ensures
            s.wf(),
            s@.blocksize == 8000,
            s@.data == zeros(8000),
            s@.size == 0,
            s@.pointer == 0,
    {
        Self::new()
    }
}

pub proof fn lemma_grown_len(len: nat, bs: nat, end: nat)
    requires
        bs >= 1,
        len % bs == 0,
    ensures
        grown_len(len, bs, end) >= len,
        grown_len(len, bs, end) >= end,
        grown_len(len, bs, end) % bs == 0,
        end > len ==> grown_len(len, bs, end) + 1 <= end + bs,
{
    if end > len {
        let q = (end - 1) as int / (bs as int);
        lemma_split(end - 1, bs as int);
        assert((q + 1) * bs == q * bs + bs) by (nonlinear_arith);
        lemma_mod_multiples_basic(q + 1, bs as int);
    }
}

/// Bytes written at a position read back unchanged from that position, and
/// the capacity then covers them.
/// The bytes `write_string` stores after the length: a byte-order mark,
/// then the UTF-16 code units of `val`, most significant byte first.
pub fn string_body(val: &str) -> (r: Vec<u8>)
    ensures
        r@ == string_bytes(val@),
{
    let units = encode_utf16(val);
    let mut with_bom: Vec<u8> = Vec::new();
    with_bom.push(0xFE);
    with_bom.push(0xFF);
    let mut k: usize = 0;
    while k < units.len()
        invariant
            k <= units.len(),
            units@ == utf16_encode(val@),
            with_bom@ == seq![0xFEu8, 0xFFu8] + units_to_be_bytes(units@.take(k as int)),
        decreases units.len() - k,
    {
        let u = units[k];
        with_bom.push((u / 256) as u8);
        with_bom.push((u % 256) as u8);
        k = k + 1;
        assert(with_bom@ =~= seq![0xFEu8, 0xFFu8] + units_to_be_bytes(units@.take(k as int)));
    }
    assert(units@.take(units.len() as int) =~= units@);
    with_bom
}

pub proof fn lemma_write_then_read(v: StreamView, bytes: Seq<u8>)
    requires
        v.valid(),
        v.can_write(bytes.len()),
    ensures
        ({
            let w = v.after_write(bytes);
            &&& w.valid()
            &&& w.with_pointer(v.pointer as int).can_read(bytes.len())
            &&& w.data.subrange(v.pointer as int, v.pointer + bytes.len() as int) == bytes
        }),
{
    let w = v.after_write(bytes);
    let end = v.pointer + bytes.len();
    lemma_grown_len(v.data.len(), v.blocksize, end);
    assert(w.data.subrange(v.pointer as int, end as int) =~= bytes);
}

/// After a write the size is the larger of the old size and the position
/// the write ends at.
pub proof fn lemma_size_after_write(v: StreamView, bytes: Seq<u8>)
    ensures
        v.after_write(bytes).size >= v.size,
        v.after_write(bytes).size >= v.pointer + bytes.len(),
        v.after_write(bytes).size == v.size || v.after_write(bytes).size == v.pointer + bytes.len(),
{
}

/// Writing at a position leaves every other allocated byte as it was.
pub proof fn lemma_write_frame(v: StreamView, bytes: Seq<u8>, i: int)
    requires
        v.valid(),
        0 <= i < v.data.len(),
        !(v.pointer <= i < v.pointer + bytes.len()),
    ensures
        v.after_write(bytes).data[i] == v.data[i],
{
    lemma_grown_len(v.data.len(), v.blocksize, v.pointer + bytes.len());
}

/// An integer written at a position reads back as the same integer.
pub proof fn lemma_int_roundtrip(v: StreamView, x: i32)
    requires
        v.valid(),
        v.can_write(4),
    ensures
        ({
            let w = v.after_write(int_bytes(x));
            &&& w.with_pointer(v.pointer as int).can_read(4)
            &&& int_at(w.data, v.pointer as int) == x
        }),
{
    lemma_write_then_read(v, int_bytes(x));
    let w = v.after_write(int_bytes(x));
    let p = v.pointer as int;
    assert(w.data[p] == int_bytes(x)[0]);
    assert(w.data[p + 1] == int_bytes(x)[1]);
    assert(w.data[p + 2] == int_bytes(x)[2]);
    assert(w.data[p + 3] == int_bytes(x)[3]);
    lemma_int_roundtrip_bytes(x);
}

/// A boolean written at a position reads back as the same boolean.
pub proof fn lemma_bool_roundtrip(v: StreamView, b: bool)
    requires
        v.valid(),
        v.can_write(4),
    ensures
        ({
            let w = v.after_write(int_bytes(if b { 1 } else { 0 }));
            &&& w.with_pointer(v.pointer as int).can_read(1)
            &&& (w.data[v.pointer as int] != 0) == b
        }),
{
    lemma_write_then_read(v, int_bytes(if b { 1 } else { 0 }));
    let w = v.after_write(int_bytes(if b { 1 } else { 0 }));
    assert(w.data[v.pointer as int] == int_bytes(if b { 1 } else { 0 })[0]);
    assert((1i32 as u32 & 0xff) as u8 == 1u8) by (bit_vector);
    assert((0i32 as u32 & 0xff) as u8 == 0u8) by (bit_vector);
}

/// A character written at a position reads back as the character whose
/// value is the low 16 bits of its value: the character itself below
/// U+10000; above, that character when it is one, else U+0000.
pub proof fn lemma_char_roundtrip(v: StreamView, c: char)
    requires
        v.valid(),
        v.can_write(2),
    ensures
        ({
            let w = v.after_write(seq![(char_unit(c) % 256) as u8, (char_unit(c) / 256) as u8]);
            let p = v.pointer as int;
            let x = (w.data[p] + 256 * w.data[p + 1]) as u32;
            let low = ((c as u32) % 0x10000) as u32;
            &&& w.with_pointer(p).can_read(2)
            &&& x == low
            &&& (c as u32) < 0x10000 ==> is_scalar_value(x) && x as char == c
            &&& (if is_scalar_value(x) {
                x as char
            } else {
                '\0'
            }) == (if (c as u32) < 0x10000 {
                c
            } else if is_scalar_value(low) {
                low as char
            } else {
                '\0'
            })
        }),
{
    let bytes = seq![(char_unit(c) % 256) as u8, (char_unit(c) / 256) as u8];
    lemma_write_then_read(v, bytes);
    let w = v.after_write(bytes);
    let p = v.pointer as int;
    assert(w.data[p] == bytes[0]);
    assert(w.data[p + 1] == bytes[1]);
}

/// A string written at a position reads back as the same string: the length
/// prefix holds the body's length and the body decodes to the string.
pub proof fn lemma_string_roundtrip(v: StreamView, s: Seq<char>)
    requires
        v.valid(),
        v.can_write(4 + string_bytes(s).len()),
        string_bytes(s).len() <= i32::MAX,
    ensures
        ({
            let n = string_bytes(s).len();
            let w = v.after_write(int_bytes(n as i32)).after_write(string_bytes(s));
            let p = v.pointer as int;
            &&& w.valid()
            &&& w.with_pointer(p).can_read(4)
            &&& int_at(w.data, p) == n as i32
            &&& w.with_pointer(p).can_read(4 + n)
            &&& decode_string_bytes(w.data.subrange(p + 4, p + 4 + n)) == s
        }),
{
    let n = string_bytes(s).len();
    let b = string_bytes(s);
    let w1 = v.after_write(int_bytes(n as i32));
    let w = w1.after_write(b);
    let p = v.pointer as int;
    lemma_int_roundtrip(v, n as i32);
    lemma_write_then_read(v, int_bytes(n as i32));
    lemma_write_then_read(w1, b);
    assert forall|i: int| p <= i < p + 4 implies w.data[i] == w1.data[i] by {
        lemma_write_frame(w1, b, i);
    }
    assert(int_at(w.data, p) == int_at(w1.data, p));
    utf16::lemma_string_bytes_roundtrip(s);
}

/// Writing at the end of what was written appends to the contents.
pub proof fn lemma_append(v: StreamView, bytes: Seq<u8>)
    requires
        v.valid(),
        v.can_write(bytes.len()),
        v.pointer == v.size,
    ensures
        v.after_write(bytes).contents() == v.contents() + bytes,
{
    lemma_write_then_read(v, bytes);
    assert(v.after_write(bytes).contents() =~= v.contents() + bytes);
}

/// Loading bytes makes them the contents.
pub proof fn lemma_load_contents(bs: nat, bytes: Seq<u8>)
    requires
        bs >= 1,
    ensures
        (StreamView {
            data: write_at(Seq::empty(), bs, 0, bytes),
            blocksize: bs,
            size: bytes.len(),
            pointer: 0,
        }).contents() == bytes,
{
    let v = StreamView { data: Seq::empty(), blocksize: bs, size: 0, pointer: 0 };
    lemma_grown_len(0, bs, bytes.len());
    assert(write_at(Seq::empty(), bs, 0, bytes).take(bytes.len() as int) =~= bytes);
}

/// A call on a stream as its effect on the stream's state: a write of
/// bytes at the position, a move of the position, or a read of a number of
/// bytes.
pub enum StreamOp {
    Write(Seq<u8>),
    Seek(int),
    Read(nat),
}

/// The state of a stream after one call.
pub open spec fn apply_op(v: StreamView, op: StreamOp) -> StreamView {
    match op {
        StreamOp::Write(bytes) => v.after_write(bytes),
        StreamOp::Seek(p) => v.with_pointer(p),
        StreamOp::Read(n) => v.with_pointer((v.pointer + n) as int),
    }
}

/// The state of a stream after a sequence of calls.
pub open spec fn apply_ops(v: StreamView, ops: Seq<StreamOp>) -> StreamView
    decreases ops.len(),
{
    if ops.len() == 0 {
        v
    } else {
        apply_op(apply_ops(v, ops.drop_last()), ops.last())
    }
}

/// Where the `i`-th call ends when it is a write.
pub open spec fn write_end(v: StreamView, ops: Seq<StreamOp>, i: int) -> Option<int> {
    match ops[i] {
        StreamOp::Write(bytes) => Some((apply_ops(v, ops.take(i)).pointer + bytes.len()) as int),
        _ => None,
    }
}

/// The size of a stream after a sequence of calls is the largest of its
/// size before them and the end of every write among them: no write leaves
/// it below where the write ended, and seeks and reads never change it.
pub proof fn lemma_size_history(v: StreamView, ops: Seq<StreamOp>)
    ensures
        apply_ops(v, ops).size >= v.size,
        forall|i: int|
            0 <= i < ops.len() && #[trigger] write_end(v, ops, i) is Some ==> apply_ops(v, ops).size
                >= write_end(v, ops, i).unwrap(),
        apply_ops(v, ops).size == v.size || exists|i: int|
            0 <= i < ops.len() && #[trigger] write_end(v, ops, i) == Some(apply_ops(v, ops).size as int),
    decreases ops.len(),
{
    if ops.len() > 0 {
        let front = ops.drop_last();
        let n = ops.len() - 1;
        lemma_size_history(v, front);
        assert forall|i: int| 0 <= i < front.len() implies #[trigger] write_end(v, front, i) == write_end(v, ops, i) by {
            assert(front.take(i) =~= ops.take(i));
        }
        assert(ops.take(n) =~= front);
        let before = apply_ops(v, front);
        let after = apply_ops(v, ops);
        if before.size != v.size {
            let j = choose|j: int| 0 <= j < front.len() && #[trigger] write_end(v, front, j) == Some(before.size as int);
            assert(write_end(v, ops, j) == Some(before.size as int));
        }
        match ops.last() {
            StreamOp::Write(bytes) => {
                assert(write_end(v, ops, n) == Some((before.pointer + bytes.len()) as int));
            },
            _ => {},
        }
        assert(after.size >= before.size);
        assert forall|i: int|
            0 <= i < ops.len() && #[trigger] write_end(v, ops, i) is Some implies after.size
                >= write_end(v, ops, i).unwrap() by {
            if i < n {
                assert(write_end(v, front, i) == write_end(v, ops, i));
            }
        }
    }
}

} // verus!
