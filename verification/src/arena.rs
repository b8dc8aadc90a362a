//! Bump allocator for Cx function scopes: a chain of byte chunks, each
//! filled front to back, reset all at once when the scope ends.
use vstd::prelude::*;
use vstd::string::StringSliceAdditionalSpecFns;

verus! {

/// Size of every chunk the arena creates, unless one allocation needs more.
pub const DEFAULT_CHUNK_SIZE: usize = 65536;

/// `offset` rounded up to the next multiple of `align` (for a power-of-two
/// `align`), computed by masking.
pub open spec fn align_up(offset: usize, align: usize) -> usize {
    ((offset + (align - 1)) as usize) & !((align - 1) as usize)
}

/// `a` is a power of two.
pub open spec fn is_pow2(a: usize) -> bool {
    a != 0 && a & ((a - 1) as usize) == 0
}

/// For a power-of-two alignment, the masked round-up is aligned (its bits
/// below `align` are clear) and is the least such value not below `offset`.
pub proof fn lemma_align_up(offset: usize, align: usize)
    requires
        is_pow2(align),
        offset + align - 1 <= usize::MAX,
    ensures
        align_up(offset, align) & ((align - 1) as usize) == 0,
        offset <= align_up(offset, align),
        align_up(offset, align) < offset + align,
{
    let x: usize = (offset + (align - 1)) as usize;
    let m: usize = (align - 1) as usize;
    assert(x & !m == (x - (x & m)) as usize) by (bit_vector);
    assert((x & m) <= m) by (bit_vector);
    assert((x & !m) & m == 0) by (bit_vector);
    assert(x & !m == align_up(offset, align));
}

/// The masked round-up never exceeds `offset + align - 1`.
pub proof fn lemma_align_up_bound(offset: usize, align: usize)
    requires
        align >= 1,
        offset + align - 1 <= usize::MAX,
    ensures
        align_up(offset, align) <= offset + align - 1,
{
    let x: usize = (offset + (align - 1)) as usize;
    let m: usize = (align - 1) as usize;
    assert(x & !m <= x) by (bit_vector);
}

/// One contiguous block of bytes and the bump offset into it.
pub struct Chunk {
    data: Vec<u8>,
    offset: usize,
}

impl Chunk {
    /// Bytes handed out so far (the bump offset).
    pub closed spec fn used(&self) -> usize {
        self.offset
    }

    /// Total size of the chunk.
    pub closed spec fn capacity(&self) -> usize {
        self.data@.len() as usize
    }

    /// The chunk's bytes.
    pub closed spec fn bytes(&self) -> Seq<u8> {
        self.data@
    }

    pub open spec fn wf(&self) -> bool {
        &&& self.used() <= self.capacity()
        &&& self.bytes().len() == self.capacity()
    }

    /// Where an allocation of `size` bytes aligned to `align` lands, or
    /// `None` when it does not fit in what is left.
    pub open spec fn placement(&self, size: usize, align: usize) -> Option<usize> {
        let aligned = align_up(self.used(), align);
        if aligned + size > self.capacity() {
            None
        } else {
            Some(aligned)
        }
    }

    /// The arithmetic of an allocation stays within `usize`.
    pub open spec fn alloc_fits_usize(&self, size: usize, align: usize) -> bool {
        &&& align >= 1
        &&& self.used() + align - 1 <= usize::MAX
        &&& align_up(self.used(), align) + size <= usize::MAX
    }

    /// A zero-filled chunk of `size` bytes with nothing allocated.
    pub fn new(size: usize) -> (c: Self)
        ensures
            c.wf(),
            c.capacity() == size,
            c.used() == 0,
            c.bytes() == Seq::new(size as nat, |i: int| 0u8),
    {
        let data = vec![0u8; size];
        let c = Chunk { data, offset: 0 };
        proof {
            assert(c.bytes() =~= Seq::new(size as nat, |i: int| 0u8));
        }
        c
    }

    /// Bytes still free.
    pub fn remaining(&self) -> (r: usize)
        requires
            self.wf(),
        ensures
            r == self.capacity() - self.used(),
    {
        self.data.len() - self.offset
    }

    /// Reserve `size` bytes at the next offset aligned to `align`. Returns
    /// the offset of the reserved bytes, or `None` (changing nothing) when
    /// the chunk is exhausted.
    pub fn allocate(&mut self, size: usize, align: usize) -> (r: Option<usize>)
        requires
            old(self).wf(),
            old(self).alloc_fits_usize(size, align),
        ensures
            final(self).wf(),
            r == old(self).placement(size, align),
            final(self).capacity() == old(self).capacity(),
            final(self).bytes() == old(self).bytes(),
            r is None ==> final(self).used() == old(self).used(),
            r matches Some(o) ==> final(self).used() == o + size,
    {
        let aligned = (self.offset + (align - 1)) & !(align - 1);
        if aligned + size > self.data.len() {
            return None;
        }
        self.offset = aligned + size;
        Some(aligned)
    }

    /// Forget every allocation; the bytes stay as they are.
    pub fn reset(&mut self)
        requires
            old(self).wf(),
        ensures
            final(self).wf(),
            final(self).used() == 0,
            final(self).capacity() == old(self).capacity(),
            final(self).bytes() == old(self).bytes(),
    {
        self.offset = 0;
    }

    /// Copy `src` into the chunk starting at `at`.
    fn write_bytes(&mut self, at: usize, src: &[u8])
        requires
            old(self).wf(),
            at + src@.len() <= old(self).capacity(),
        ensures
            final(self).wf(),
            final(self).used() == old(self).used(),
            final(self).capacity() == old(self).capacity(),
            final(self).bytes() == old(self).bytes().take(at as int) + src@ + old(self).bytes().skip(
                at + src@.len(),
            ),
    {
        let mut i: usize = 0;
        while i < src.len()
            invariant
                i <= src@.len(),
                at + src@.len() <= old(self).capacity(),
                self.offset == old(self).offset,
                self.data@.len() == old(self).data@.len(),
                self.data@ =~= old(self).data@.take(at as int) + src@.take(i as int) + old(self).data@.skip(
                    at + i,
                ),
            decreases src@.len() - i,
        {
            self.data.set(at + i, src[i]);
            i = i + 1;
            proof {
                assert(self.data@ =~= old(self).data@.take(at as int) + src@.take(i as int)
                    + old(self).data@.skip(at + i));
            }
        }
        proof {
            assert(src@.take(src@.len() as int) =~= src@);
        }
    }
}

/// Where one arena allocation lives: the chunk index and the byte offset
/// within that chunk.
#[derive(Debug, Clone, Copy, PartialEq, Eq, Structural)]
pub struct Allocation {
    pub chunk: usize,
    pub offset: usize,
}

/// What `Arena::allocate(size, align)` does to the chunk states: the
/// placement and the chunk states after it (bump the last chunk when the
/// aligned request fits, else chain a new chunk).
pub open spec fn arena_step(cs: Seq<(usize, usize)>, size: usize, align: usize) -> (Allocation, Seq<(usize, usize)>) {
    let n = cs.len();
    let last = cs.last();
    let aligned = align_up(last.0, align);
    if aligned + size <= last.1 {
        (Allocation { chunk: (n - 1) as usize, offset: aligned }, cs.update(n - 1, ((aligned + size) as usize, last.1)))
    } else {
        (
            Allocation { chunk: n as usize, offset: align_up(0, align) },
            cs.push(((align_up(0, align) + size) as usize, Arena::chained_capacity(size, align) as usize)),
        )
    }
}

/// Whether `allocate(size, align)` may be asked of an arena with these
/// chunk states: a power-of-two alignment, and sizes that fit `usize`.
pub open spec fn step_fits(cs: Seq<(usize, usize)>, size: usize, align: usize) -> bool {
    &&& cs.len() >= 1
    &&& is_pow2(align)
    &&& size + align <= usize::MAX
    &&& cs.last().0 + align - 1 <= usize::MAX
    &&& align_up(cs.last().0, align) + size <= usize::MAX
}

/// Two allocations one after the other (no reset between) never overlap:
/// each lies within its chunk's capacity, and when both come from the same
/// chunk the second starts at or after the end of the first. Each is
/// aligned to its alignment, measured from its chunk's start.
pub proof fn law_allocations_disjoint(cs: Seq<(usize, usize)>, s1: usize, al1: usize, s2: usize, al2: usize)
    requires
        cs.len() + 2 <= usize::MAX,
        step_fits(cs, s1, al1),
        step_fits(arena_step(cs, s1, al1).1, s2, al2),
    ensures
        ({
            let (a1, cs1) = arena_step(cs, s1, al1);
            let (a2, cs2) = arena_step(cs1, s2, al2);
            &&& a1.offset + s1 <= cs1[a1.chunk as int].1
            &&& a2.offset + s2 <= cs2[a2.chunk as int].1
            &&& a1.chunk == a2.chunk ==> a1.offset + s1 <= a2.offset
            &&& a1.offset & ((al1 - 1) as usize) == 0
            &&& a2.offset & ((al2 - 1) as usize) == 0
        }),
{
    let (a1, cs1) = arena_step(cs, s1, al1);
    lemma_align_up(cs.last().0, al1);
    lemma_align_up(0, al1);
    lemma_align_up(cs1.last().0, al2);
    lemma_align_up(0, al2);
    lemma_align_up_bound(0, al1);
    lemma_align_up_bound(0, al2);
    assert(cs1.last().0 == a1.offset + s1);
    assert(a1.chunk as int == cs1.len() - 1);
    assert(a1.offset + s1 <= cs1[a1.chunk as int].1);
    let (a2, cs2) = arena_step(cs1, s2, al2);
    assert(a2.offset + s2 <= cs2[a2.chunk as int].1);
    assert(a1.chunk == a2.chunk ==> a1.offset + s1 <= a2.offset);
    assert(a1.offset & ((al1 - 1) as usize) == 0);
    assert(a2.offset & ((al2 - 1) as usize) == 0);
}

/// A chain of chunks; allocation bumps the last one and chains a new chunk
/// when it is exhausted.
pub struct Arena {
    chunks: Vec<Chunk>,
    current: usize,
}

/// Sum of the bump offsets of the first `n` chunks.
pub open spec fn sum_used(chunks: Seq<(usize, usize)>, n: int) -> nat
    decreases n,
{
    if n <= 0 {
        0
    } else {
        sum_used(chunks, n - 1) + chunks[n - 1].0 as nat
    }
}

impl Arena {
    /// Each chunk as (bytes used, capacity), in chain order.
    pub closed spec fn chunk_states(&self) -> Seq<(usize, usize)> {
        self.chunks@.map_values(|c: Chunk| (c.used(), c.capacity()))
    }

    pub closed spec fn wf(&self) -> bool {
        &&& self.chunks@.len() >= 1
        &&& self.current == self.chunks@.len() - 1
        &&& forall|i: int| 0 <= i < self.chunks@.len() ==> (#[trigger] self.chunks@[i]).wf()
    }

    /// Total bytes handed out, counting alignment padding.
    pub open spec fn used_total(&self) -> nat {
        sum_used(self.chunk_states(), self.chunk_states().len() as int)
    }

    /// The bytes of chunk `i`.
    pub closed spec fn chunk_bytes(&self, i: int) -> Seq<u8> {
        self.chunks@[i].bytes()
    }

    /// The capacity a chunk chained for an allocation of `size` bytes
    /// aligned to `align` gets.
    pub open spec fn chained_capacity(size: usize, align: usize) -> int {
        if DEFAULT_CHUNK_SIZE >= size + align {
            DEFAULT_CHUNK_SIZE as int
        } else {
            size + align
        }
    }

    proof fn lemma_sum_update(s: Seq<(usize, usize)>, k: int, x: (usize, usize), n: int)
        requires
            0 <= k < s.len(),
            0 <= n <= s.len(),
        ensures
            sum_used(s.update(k, x), n) + (if k < n { s[k].0 as int } else { 0 }) == sum_used(s, n) + (
            if k < n {
                x.0 as int
            } else {
                0
            }),
        decreases n,
    {
        if n > 0 {
            Self::lemma_sum_update(s, k, x, n - 1);
        }
    }

    proof fn lemma_sum_prefix(s: Seq<(usize, usize)>, t: Seq<(usize, usize)>, n: int)
        requires
            0 <= n <= s.len(),
            n <= t.len(),
            forall|i: int| 0 <= i < n ==> s[i] == t[i],
        ensures
            sum_used(s, n) == sum_used(t, n),
        decreases n,
    {
        if n > 0 {
            Self::lemma_sum_prefix(s, t, n - 1);
        }
    }

    /// An arena with one empty chunk of [`DEFAULT_CHUNK_SIZE`] bytes.
    pub fn new() -> (a: Self)
        ensures
            a.wf(),
            a.chunk_states() == seq![(0usize, DEFAULT_CHUNK_SIZE)],
            a.used_total() == 0,
    {
        let mut chunks: Vec<Chunk> = Vec::new();
        chunks.push(Chunk::new(DEFAULT_CHUNK_SIZE));
        let a = Arena { chunks, current: 0 };
        proof {
            assert(a.chunk_states() =~= seq![(0usize, DEFAULT_CHUNK_SIZE)]);
            assert(sum_used(a.chunk_states(), 1) == sum_used(a.chunk_states(), 0) + 0);
        }
        a
    }

    /// Reserve `size` bytes aligned to `align`. Allocation never fails: when
    /// the current chunk is exhausted, a new chunk of
    /// [`Self::chained_capacity`] bytes is chained and the bytes come from
    /// it.
    pub fn allocate(&mut self, size: usize, align: usize) -> (a: Allocation)
        requires
            old(self).wf(),
            align >= 1,
            size + align <= usize::MAX,
            ({
                let last = old(self).chunk_states().last();
                &&& last.0 + align - 1 <= usize::MAX
                &&& align_up(last.0, align) + size <= usize::MAX
            }),
        ensures
            final(self).wf(),
            ({
                let n = old(self).chunk_states().len();
                let last = old(self).chunk_states().last();
                let aligned = align_up(last.0, align);
                if aligned + size <= last.1 {
                    &&& a == Allocation { chunk: (n - 1) as usize, offset: aligned }
                    &&& final(self).chunk_states() == old(self).chunk_states().update(
                        n - 1,
                        ((aligned + size) as usize, last.1),
                    )
                } else {
                    &&& a == Allocation { chunk: n as usize, offset: align_up(0, align) }
                    &&& final(self).chunk_states() == old(self).chunk_states().push(
                        ((align_up(0, align) + size) as usize, Self::chained_capacity(size, align) as usize),
                    )
                }
            }),
            a.offset + size <= final(self).chunk_states()[a.chunk as int].1,
            a.chunk + 1 == old(self).chunk_states().len() ==> old(self).chunk_states().last().0 <= a.offset,
            is_pow2(align) ==> a.offset & ((align - 1) as usize) == 0,
            final(self).used_total() == old(self).used_total() + (a.offset - (if a.chunk + 1 == old(
                self,
            ).chunk_states().len() {
                old(self).chunk_states().last().0 as int
            } else {
                0
            })) + size,
            forall|i: int| 0 <= i < old(self).chunk_states().len() ==> #[trigger] final(self).chunk_bytes(i) == old(self).chunk_bytes(i),
            (a, final(self).chunk_states()) == arena_step(old(self).chunk_states(), size, align),
    {
        proof {
            let last = old(self).chunk_states().last();
            lemma_align_up_bound(last.0, align);
            lemma_align_up_bound(0, align);
            if is_pow2(align) {
                lemma_align_up(last.0, align);
                lemma_align_up(0, align);
            }
            assert(last.0 <= align_up(last.0, align)) by {
                let x: usize = (last.0 + (align - 1)) as usize;
                let m: usize = (align - 1) as usize;
                assert(x & !m == (x - (x & m)) as usize) by (bit_vector);
                assert((x & m) <= m) by (bit_vector);
            }
        }
        let cur = self.current;
        let mut chunk = Chunk::new(0);
        self.chunks.set_and_swap(cur, &mut chunk);
        let got = chunk.allocate(size, align);
        self.chunks.set_and_swap(cur, &mut chunk);
        match got {
            Some(offset) => {
                proof {
                    assert(self.chunk_states() =~= old(self).chunk_states().update(
                        cur as int,
                        (self.chunks@[cur as int].used(), self.chunks@[cur as int].capacity()),
                    ));
                    assert forall|i: int| 0 <= i < old(self).chunk_states().len() implies #[trigger] self.chunk_bytes(i) == old(self).chunk_bytes(i) by {
                    }
                    let s = old(self).chunk_states();
                    Self::lemma_sum_update(s, s.len() - 1, ((offset + size) as usize, s.last().1), s.len() as int);
                }
                Allocation { chunk: cur, offset }
            },
            None => {
                let new_size = if DEFAULT_CHUNK_SIZE >= size + align {
                    DEFAULT_CHUNK_SIZE
                } else {
                    size + align
                };
                let mut fresh = Chunk::new(new_size);
                proof {
                    lemma_align_up_bound(0, align);
                }
                let offset = match fresh.allocate(size, align) {
                    Some(o) => o,
                    None => {
                        proof {
                            assert(false);
                        }
                        0
                    },
                };
                self.chunks.push(fresh);
                self.current = self.chunks.len() - 1;
                proof {
                    assert(self.chunk_states() =~= old(self).chunk_states().push(
                        ((align_up(0, align) + size) as usize, new_size),
                    ));
                    assert(self.chunk_states()[cur as int] == old(self).chunk_states()[cur as int]);
                    assert forall|i: int| 0 <= i < old(self).chunk_states().len() implies #[trigger] self.chunk_bytes(i) == old(self).chunk_bytes(i) by {
                    }
                    Self::lemma_sum_prefix(old(self).chunk_states(), self.chunk_states(), old(self).chunk_states().len() as int);
                }
                Allocation { chunk: cur + 1, offset }
            },
        }
    }

    /// Copy `s` and a terminating NUL byte into the arena; returns where the
    /// copy starts.
    pub fn alloc_str(&mut self, s: &str) -> (a: Allocation)
        requires
            old(self).wf(),
            s.spec_bytes().len() + 2 <= usize::MAX,
            old(self).chunk_states().last().0 + s.spec_bytes().len() + 1 <= usize::MAX,
        ensures
            final(self).wf(),
            a.chunk < final(self).chunk_states().len(),
            a.offset + s.spec_bytes().len() + 1 <= final(self).chunk_states()[a.chunk as int].1,
            final(self).chunk_bytes(a.chunk as int).subrange(
                a.offset as int,
                a.offset + s.spec_bytes().len() + 1,
            ) == s.spec_bytes().push(0u8),
            final(self).used_total() == old(self).used_total() + s.spec_bytes().len() + 1,
    {
        let bytes = s.as_bytes();
        let n = bytes.len();
        proof {
            assert(align_up(old(self).chunk_states().last().0, 1) == old(self).chunk_states().last().0) by {
                let x = old(self).chunk_states().last().0;
                assert(x & !(0usize) == x) by (bit_vector);
            }
            assert(align_up(0, 1) == 0) by {
                assert(0usize & !(0usize) == 0) by (bit_vector);
            }
        }
        let a = self.allocate(n + 1, 1);
        let mut buf: Vec<u8> = Vec::new();
        let mut i: usize = 0;
        while i < n
            invariant
                i <= n,
                n == bytes@.len(),
                buf@ == bytes@.take(i as int),
            decreases n - i,
        {
            buf.push(bytes[i]);
            i = i + 1;
            proof {
                assert(buf@ =~= bytes@.take(i as int));
            }
        }
        buf.push(0u8);
        proof {
            assert(bytes@.take(n as int) =~= bytes@);
        }
        let ghost before = *self;
        let mut chunk = Chunk::new(0);
        self.chunks.set_and_swap(a.chunk, &mut chunk);
        chunk.write_bytes(a.offset, buf.as_slice());
        self.chunks.set_and_swap(a.chunk, &mut chunk);
        proof {
            assert(self.chunk_states() =~= before.chunk_states());
            assert(self.chunk_bytes(a.chunk as int).subrange(a.offset as int, a.offset + n + 1) =~= buf@);
        }
        a
    }

    /// Forget every allocation: keep only the first chunk, emptied.
    pub fn reset(&mut self)
        requires
            old(self).wf(),
        ensures
            final(self).wf(),
            final(self).chunk_states() == seq![(0usize, old(self).chunk_states()[0].1)],
            final(self).used_total() == 0,
    {
        self.chunks.truncate(1);
        let mut chunk = Chunk::new(0);
        self.chunks.set_and_swap(0, &mut chunk);
        chunk.reset();
        self.chunks.set_and_swap(0, &mut chunk);
        self.current = 0;
        proof {
            assert(self.chunk_states() =~= seq![(0usize, old(self).chunk_states()[0].1)]);
            assert(sum_used(self.chunk_states(), 1) == sum_used(self.chunk_states(), 0) + 0);
        }
    }

    /// Total bytes handed out, counting alignment padding.
    pub fn bytes_used(&self) -> (n: usize)
        requires
            self.wf(),
            self.used_total() <= usize::MAX,
        ensures
            n == self.used_total(),
    {
        let mut total: usize = 0;
        let mut i: usize = 0;
        while i < self.chunks.len()
            invariant
                self.wf(),
                self.used_total() <= usize::MAX,
                i <= self.chunks@.len(),
                total == sum_used(self.chunk_states(), i as int),
            decreases self.chunks@.len() - i,
        {
            proof {
                self.lemma_sum_mono(i as int + 1);
            }
            total = total + self.chunks[i].offset;
            i = i + 1;
        }
        total
    }

    proof fn lemma_sum_mono(&self, n: int)
        requires
            0 <= n <= self.chunk_states().len(),
        ensures
            sum_used(self.chunk_states(), n) <= self.used_total(),
        decreases self.chunk_states().len() - n,
    {
        if n < self.chunk_states().len() {
            self.lemma_sum_mono(n + 1);
        }
    }

    /// Number of chunks in the chain.
    pub fn chunk_count(&self) -> (n: usize)
        requires
            self.wf(),
        ensures
            n == self.chunk_states().len(),
    {
        self.chunks.len()
    }

    /// Read `len` bytes of chunk `chunk` starting at `offset`.
    pub fn read_bytes(&self, at: Allocation, len: usize) -> (r: Vec<u8>)
        requires
            self.wf(),
            at.chunk < self.chunk_states().len(),
            at.offset + len <= self.chunk_states()[at.chunk as int].1,
        ensures
            r@ == self.chunk_bytes(at.chunk as int).subrange(at.offset as int, at.offset + len),
    {
        let c = &self.chunks[at.chunk];
        let mut out: Vec<u8> = Vec::new();
        let mut i: usize = 0;
        while i < len
            invariant
                i <= len,
                c.wf(),
                *c == self.chunks@[at.chunk as int],
                at.offset + len <= c.capacity(),
                out@ == c.bytes().subrange(at.offset as int, at.offset + i),
            decreases len - i,
        {
            out.push(c.data[at.offset + i]);
            i = i + 1;
            proof {
                assert(out@ =~= c.bytes().subrange(at.offset as int, at.offset + i));
            }
        }
        out
    }
}

} // verus!
