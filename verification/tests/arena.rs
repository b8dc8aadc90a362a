use cx::arena::{Arena, Chunk, DEFAULT_CHUNK_SIZE};

#[test]
fn chunk_bumps_with_alignment() {
    let mut c = Chunk::new(32);
    assert_eq!(c.remaining(), 32);
    assert_eq!(c.allocate(3, 1), Some(0));
    assert_eq!(c.allocate(4, 8), Some(8));
    assert_eq!(c.remaining(), 20);
    assert_eq!(c.allocate(21, 1), None);
    assert_eq!(c.remaining(), 20);
    c.reset();
    assert_eq!(c.remaining(), 32);
}

#[test]
fn arena_chains_a_chunk_when_exhausted() {
    let mut a = Arena::new();
    assert_eq!(a.chunk_count(), 1);
    assert_eq!(a.bytes_used(), 0);
    let first = a.allocate(100, 8);
    assert_eq!((first.chunk, first.offset), (0, 0));
    let second = a.allocate(DEFAULT_CHUNK_SIZE, 8);
    assert_eq!((second.chunk, second.offset), (1, 0));
    assert_eq!(a.chunk_count(), 2);
    assert_eq!(a.bytes_used(), 100 + DEFAULT_CHUNK_SIZE);
    a.reset();
    assert_eq!(a.chunk_count(), 1);
    assert_eq!(a.bytes_used(), 0);
}

#[test]
fn arena_aligns_and_counts_padding() {
    let mut a = Arena::new();
    a.allocate(1, 1);
    let b = a.allocate(8, 8);
    assert_eq!(b.offset, 8);
    assert_eq!(a.bytes_used(), 16);
}

#[test]
fn arena_copies_strings_with_terminator() {
    let mut a = Arena::new();
    let at = a.alloc_str("héllo");
    let len = "héllo".len();
    assert_eq!(a.read_bytes(at, len + 1), b"h\xc3\xa9llo\0".to_vec());
    assert_eq!(a.bytes_used(), len + 1);
}

#[test]
fn consecutive_allocations_do_not_overlap() {
    let mut a = Arena::new();
    let sizes = [(3usize, 1usize), (5, 8), (16, 16), (1, 4)];
    let mut prev: Option<(usize, usize, usize)> = None;
    for (size, align) in sizes {
        let got = a.allocate(size, align);
        assert_eq!(got.offset % align, 0);
        if let Some((chunk, offset, psize)) = prev {
            if chunk == got.chunk {
                assert!(offset + psize <= got.offset);
            }
        }
        prev = Some((got.chunk, got.offset, size));
    }
}
