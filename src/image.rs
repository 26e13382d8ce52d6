use vstd::prelude::*;

verus! {

/// Bytes to be written starting at `address`.
#[derive(Clone, Debug)]
pub struct DataChunk {
    pub address: u64,
    pub bytes: Vec<u8>,
}

impl DataChunk {
    pub open spec fn end(&self) -> int {
        self.address + self.bytes@.len()
    }

    pub open spec fn covers(&self, a: int) -> bool {
        self.address <= a < self.end()
    }

    /// The chunk and `[address, address + len)` share at least one byte.
    pub open spec fn overlaps(&self, address: int, len: int) -> bool {
        self.address < address + len && address < self.end()
    }
}

/// Chunks are non-empty, end inside the 64-bit address space, and are
/// sorted by address without overlap.
pub open spec fn chunks_wf(cs: Seq<DataChunk>) -> bool {
    &&& forall|i: int| 0 <= i < cs.len() ==> (#[trigger] cs[i]).bytes@.len() > 0 && cs[i].end() <= u64::MAX
    &&& forall|i: int, j: int| 0 <= i < j < cs.len() ==> (#[trigger] cs[i]).end() <= (#[trigger] cs[j]).address
}

/// Address `a` is given a byte by some chunk.
pub open spec fn in_image(cs: Seq<DataChunk>, a: int) -> bool {
    exists|i: int| 0 <= i < cs.len() && (#[trigger] cs[i]).covers(a)
}

/// The byte that the chunks give address `a`.
pub open spec fn image_byte(cs: Seq<DataChunk>, a: int) -> u8 {
    let i = choose|i: int| 0 <= i < cs.len() && (#[trigger] cs[i]).covers(a);
    cs[i].bytes@[a - cs[i].address]
}

/// Of well-formed chunks only one covers an address, so it alone gives the byte.
pub proof fn lemma_image_byte_unique(cs: Seq<DataChunk>, i: int, a: int)
    requires
        chunks_wf(cs),
        0 <= i < cs.len(),
        cs[i].covers(a),
    ensures
        in_image(cs, a),
        image_byte(cs, a) == cs[i].bytes@[a - cs[i].address],
{
    let j = choose|j: int| 0 <= j < cs.len() && (#[trigger] cs[j]).covers(a);
    if j < i {
        assert(cs[j].end() <= cs[i].address);
    } else if i < j {
        assert(cs[i].end() <= cs[j].address);
    }
}

/// The byte given to address `a`, or `None` where no chunk covers it.
pub fn byte_at(cs: &Vec<DataChunk>, a: u64) -> (r: Option<u8>)
    requires
        chunks_wf(cs@),
    ensures
        r.is_some() == in_image(cs@, a as int),
        r matches Some(b) ==> b == image_byte(cs@, a as int),
{
    let mut i: usize = 0;
    while i < cs.len()
        invariant
            i <= cs@.len(),
            chunks_wf(cs@),
            forall|j: int| 0 <= j < i ==> !(#[trigger] cs@[j]).covers(a as int),
        decreases cs@.len() - i,
    {
        let c = &cs[i];
        if c.address <= a && a - c.address < c.bytes.len() as u64 {
            proof {
                lemma_image_byte_unique(cs@, i as int, a as int);
            }
            return Some(c.bytes[(a - c.address) as usize]);
        }
        i += 1;
    }
    None
}

/// Whether some chunk shares a byte with `[address, address + len)`.
pub fn overlaps_any(cs: &Vec<DataChunk>, address: u64, len: u64) -> (r: bool)
    ensures
        r == exists|i: int| 0 <= i < cs@.len() && #[trigger] cs@[i].overlaps(address as int, len as int),
{
    let mut i: usize = 0;
    while i < cs.len()
        invariant
            i <= cs@.len(),
            forall|j: int| 0 <= j < i ==> !(#[trigger] cs@[j].overlaps(address as int, len as int)),
        decreases cs@.len() - i,
    {
        let c = &cs[i];
        if (c.address as u128) < address as u128 + len as u128 && (address as u128) < c.address as u128 + c.bytes.len() as u128 {
            assert(cs@[i as int].overlaps(address as int, len as int));
            return true;
        }
        i += 1;
    }
    false
}

/// The bytes of `b` from index `from` up to `to`.
pub fn sub_bytes(b: &Vec<u8>, from: usize, to: usize) -> (r: Vec<u8>)
    requires
        from <= to <= b@.len(),
    ensures
        r@ == b@.subrange(from as int, to as int),
{
    let mut r: Vec<u8> = Vec::new();
    let mut i: usize = from;
    while i < to
        invariant
            from <= i <= to,
            to <= b@.len(),
            r@ == b@.subrange(from as int, i as int),
        decreases to - i,
    {
        r.push(b[i]);
        proof {
            assert(r@ =~= b@.subrange(from as int, i + 1));
        }
        i += 1;
    }
    r
}

/// Adds `chunk` to well-formed chunks, keeping them sorted, unless it
/// overlaps one of them; returns whether it was added.
pub fn insert_chunk(cs: &mut Vec<DataChunk>, chunk: DataChunk) -> (added: bool)
    requires
        chunks_wf(old(cs)@),
        chunk.bytes@.len() > 0,
        chunk.end() <= u64::MAX,
    ensures
        added == !(exists|i: int| 0 <= i < old(cs)@.len() && (#[trigger] old(cs)@[i]).overlaps(chunk.address as int, chunk.bytes@.len() as int)),
        !added ==> final(cs)@ == old(cs)@,
        chunks_wf(final(cs)@),
        added ==> exists|k: int| 0 <= k <= old(cs)@.len() && final(cs)@ == old(cs)@.insert(k, chunk),
        added ==> forall|a: int| #[trigger] in_image(final(cs)@, a) == (in_image(old(cs)@, a) || chunk.covers(a)),
        added ==> forall|a: int| in_image(final(cs)@, a) ==> #[trigger] image_byte(final(cs)@, a) == if chunk.covers(a) {
            chunk.bytes@[a - chunk.address]
        } else {
            image_byte(old(cs)@, a)
        },
{
    let ghost start = chunk.address as int;
    let ghost len = chunk.bytes@.len() as int;
    let mut k: usize = 0;
    while k < cs.len() && cs[k].address < chunk.address
        invariant
            k <= cs@.len(),
            forall|j: int| 0 <= j < k ==> (#[trigger] cs@[j]).address < chunk.address,
        decreases cs@.len() - k,
    {
        k += 1;
    }
    let chunk_end: u64 = chunk.address + chunk.bytes.len() as u64;
    if k > 0 {
        let prev = &cs[k - 1];
        if prev.address as u128 + prev.bytes.len() as u128 > chunk.address as u128 {
            assert(old(cs)@[k - 1].overlaps(start, len));
            return false;
        }
    }
    if k < cs.len() && cs[k].address < chunk_end {
        assert(old(cs)@[k as int].overlaps(start, len));
        return false;
    }
    proof {
        assert forall|i: int| 0 <= i < old(cs)@.len() implies !(#[trigger] old(cs)@[i]).overlaps(start, len) by {
            if i < k {
                assert(old(cs)@[i].end() <= old(cs)@[k - 1].end());
            } else {
                assert(old(cs)@[i].address >= old(cs)@[k as int].address);
            }
        }
    }
    let ghost before = cs@;
    let ghost c = chunk;
    cs.insert(k, chunk);
    proof {
        let after = cs@;
        assert(after == before.insert(k as int, c));
        assert(0 <= k <= before.len() && after == before.insert(k as int, c));
        assert forall|i: int, j: int| 0 <= i < j < after.len() implies (#[trigger] after[i]).end() <= (#[trigger] after[j]).address by {
            if j < k {
            } else if j == k {
                assert(before[k - 1].end() >= before[i].end());
            } else if i == k {
                assert(before[k as int].address <= before[j - 1].address);
            } else if i < k {
                assert(before[i].end() <= before[j - 1].address);
            } else {
                assert(before[i - 1].end() <= before[j - 1].address);
            }
        }
        assert forall|a: int| #[trigger] in_image(after, a) == (in_image(before, a) || c.covers(a)) by {
            if in_image(after, a) {
                let i = choose|i: int| 0 <= i < after.len() && (#[trigger] after[i]).covers(a);
                if i < k {
                    assert(before[i].covers(a));
                } else if i > k {
                    assert(before[i - 1].covers(a));
                }
            }
            if in_image(before, a) {
                let i = choose|i: int| 0 <= i < before.len() && (#[trigger] before[i]).covers(a);
                if i < k {
                    assert(after[i].covers(a));
                } else {
                    assert(after[i + 1].covers(a));
                }
            }
            if c.covers(a) {
                assert(after[k as int].covers(a));
            }
        }
        assert forall|a: int| in_image(after, a) implies #[trigger] image_byte(after, a) == if c.covers(a) {
            c.bytes@[a - c.address]
        } else {
            image_byte(before, a)
        } by {
            let i = choose|i: int| 0 <= i < after.len() && (#[trigger] after[i]).covers(a);
            lemma_image_byte_unique(after, i, a);
            if i < k {
                lemma_image_byte_unique(before, i, a);
            } else if i > k {
                lemma_image_byte_unique(before, i - 1, a);
            }
        }
    }
    true
}

} // verus!
