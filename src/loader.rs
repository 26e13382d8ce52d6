use crate::image::{chunks_wf, image_byte, in_image, insert_chunk, overlaps_any, sub_bytes, DataChunk};
use crate::layout::{build_layout, chunk_in_flash, image_in_flash, layout_of, FlashLayout};
use crate::memory::{covered_by_flash, find_flash_range, in_flash, map_wf, span_in_flash, MemoryRange};
use vstd::prelude::*;

verus! {

/// Why data could not be added to a loader.
#[derive(Clone, Copy, Debug, PartialEq, Eq, Structural)]
pub enum LoaderError {
    /// Some byte of the data lies outside every flash range of the memory map.
    OutOfBounds,
    /// The data shares an address with data added before.
    Overlap,
}

/// Collects the data to flash into a target with a given memory map.
pub struct FlashLoader {
    pub memory_map: Vec<MemoryRange>,
    pub chunks: Vec<DataChunk>,
    pub keep_unwritten_bytes: bool,
}

impl FlashLoader {
    /// The data sits in the map's flash ranges without overlap.
    pub open spec fn wf(&self) -> bool {
        &&& map_wf(self.memory_map@)
        &&& chunks_wf(self.chunks@)
        &&& image_in_flash(self.chunks@, self.memory_map@)
    }

    /// A loader with no data yet.
    pub fn new(memory_map: Vec<MemoryRange>, keep_unwritten_bytes: bool) -> (r: FlashLoader)
        requires
            map_wf(memory_map@),
        ensures
            r.wf(),
            r.memory_map@ == memory_map@,
            r.chunks@.len() == 0,
            r.keep_unwritten_bytes == keep_unwritten_bytes,
    {
        FlashLoader { memory_map, chunks: Vec::new(), keep_unwritten_bytes }
    }

    /// Registers `bytes` to be written from `address` on. Fails with
    /// `OutOfBounds` if some byte lies outside every flash range, and with
    /// `Overlap` if they share an address with earlier data; the loader is
    /// then unchanged. Data running over from one flash range into the next
    /// is kept as one piece per range. Empty data is accepted and changes
    /// nothing.
    pub fn add_data(&mut self, address: u64, bytes: Vec<u8>) -> (r: Result<(), LoaderError>)
        requires
            old(self).wf(),
        ensures
            final(self).wf(),
            final(self).memory_map@ == old(self).memory_map@,
            final(self).keep_unwritten_bytes == old(self).keep_unwritten_bytes,
            bytes@.len() > 0 && !span_in_flash(old(self).memory_map@, address as int, bytes@.len() as int)
                ==> r == Err::<(), LoaderError>(LoaderError::OutOfBounds),
            bytes@.len() > 0 && span_in_flash(old(self).memory_map@, address as int, bytes@.len() as int)
                && (exists|i: int| 0 <= i < old(self).chunks@.len() && #[trigger] old(self).chunks@[i].overlaps(address as int, bytes@.len() as int))
                ==> r == Err::<(), LoaderError>(LoaderError::Overlap),
            r.is_ok() <==> bytes@.len() == 0 || (span_in_flash(old(self).memory_map@, address as int, bytes@.len() as int)
                && !(exists|i: int| 0 <= i < old(self).chunks@.len() && #[trigger] old(self).chunks@[i].overlaps(address as int, bytes@.len() as int))),
            r.is_err() || bytes@.len() == 0 ==> final(self).chunks@ == old(self).chunks@,
            r.is_ok() ==> forall|a: int| #[trigger] in_image(final(self).chunks@, a) == (in_image(old(self).chunks@, a) || address <= a < address + bytes@.len()),
            r.is_ok() ==> forall|a: int| in_image(final(self).chunks@, a) ==> #[trigger] image_byte(final(self).chunks@, a) == if address <= a < address + bytes@.len() {
                bytes@[a - address]
            } else {
                image_byte(old(self).chunks@, a)
            },
    {
        if bytes.len() == 0 {
            return Ok(());
        }
        let n: usize = bytes.len();
        let len = n as u64;
        if !covered_by_flash(&self.memory_map, address, len) {
            return Err(LoaderError::OutOfBounds);
        }
        if overlaps_any(&self.chunks, address, len) {
            return Err(LoaderError::Overlap);
        }
        proof {
            assert(in_flash(self.memory_map@, address + len - 1));
            let k = choose|k: int| 0 <= k < self.memory_map@.len() && self.memory_map@[k].is_flash() && #[trigger] self.memory_map@[k].holds_span(address + len - 1, 1);
        }
        let end: u64 = address + len;
        let ghost old_cs = self.chunks@;
        let ghost old_map = self.memory_map@;
        let ghost old_keep = self.keep_unwritten_bytes;
        let mut off: u64 = 0;
        while off < len
            invariant
                self.memory_map@ == old_map,
                self.keep_unwritten_bytes == old_keep,
                len <= usize::MAX,
                map_wf(self.memory_map@),
                chunks_wf(self.chunks@),
                image_in_flash(self.chunks@, self.memory_map@),
                bytes@.len() == len,
                end == address + len,
                off <= len,
                span_in_flash(self.memory_map@, address as int, len as int),
                !(exists|i: int| 0 <= i < old_cs.len() && #[trigger] old_cs[i].overlaps(address as int, len as int)),
                forall|a: int| #[trigger] in_image(self.chunks@, a) == (in_image(old_cs, a) || address <= a < address + off),
                forall|a: int| in_image(self.chunks@, a) ==> #[trigger] image_byte(self.chunks@, a) == if address <= a < address + off {
                    bytes@[a - address]
                } else {
                    image_byte(old_cs, a)
                },
            decreases len - off,
        {
            let cur: u64 = address + off;
            proof {
                assert(in_flash(self.memory_map@, cur as int));
            }
            let k = match find_flash_range(&self.memory_map, cur, 1) {
                Some(k) => k,
                None => {
                    proof {
                        let k0 = choose|k0: int| 0 <= k0 < self.memory_map@.len() && self.memory_map@[k0].is_flash() && #[trigger] self.memory_map@[k0].holds_span(cur as int, 1);
                    }
                    0
                },
            };
            let e = self.memory_map[k].end;
            let piece_end: u64 = if e < end { e } else { end };
            let piece = sub_bytes(&bytes, off as usize, (piece_end - address) as usize);
            let chunk = DataChunk { address: cur, bytes: piece };
            let ghost c = chunk;
            let ghost before = self.chunks@;
            proof {
                assert(self.memory_map@[k as int].wf());
                assert forall|i: int| 0 <= i < before.len() implies !(#[trigger] before[i].overlaps(cur as int, (piece_end - cur) as int)) by {
                    if before[i].overlaps(cur as int, (piece_end - cur) as int) {
                        let a: int = if before[i].address < cur { cur as int } else { before[i].address as int };
                        assert(before[i].covers(a));
                        assert(in_image(before, a));
                        assert(in_image(old_cs, a));
                        let j = choose|j: int| 0 <= j < old_cs.len() && (#[trigger] old_cs[j]).covers(a);
                        assert(old_cs[j].overlaps(address as int, len as int));
                    }
                }
            }
            let added = insert_chunk(&mut self.chunks, chunk);
            proof {
                assert(added);
                let kk = choose|kk: int| 0 <= kk <= before.len() && self.chunks@ == before.insert(kk, c);
                assert(c.bytes@.len() == piece_end - cur);
                assert(self.memory_map@[k as int].holds_span(c.address as int, c.bytes@.len() as int));
                assert(chunk_in_flash(self.memory_map@, c));
                assert forall|i: int| 0 <= i < self.chunks@.len() implies #[trigger] chunk_in_flash(self.memory_map@, self.chunks@[i]) by {
                    if i < kk {
                        assert(chunk_in_flash(self.memory_map@, before[i]));
                    } else if i > kk {
                        assert(chunk_in_flash(self.memory_map@, before[i - 1]));
                    }
                }
                assert forall|a: int| in_image(self.chunks@, a) implies #[trigger] image_byte(self.chunks@, a) == if address <= a < piece_end {
                    bytes@[a - address]
                } else {
                    image_byte(old_cs, a)
                } by {
                    if c.covers(a) {
                        assert(c.bytes@[a - c.address] == bytes@[a - address]);
                    }
                }
            }
            off = piece_end - address;
        }
        Ok(())
    }

    /// The layout that committing this loader's data calls for.
    pub fn layout(&self) -> (l: FlashLayout)
        requires
            self.wf(),
        ensures
            layout_of(l, self.chunks@, self.memory_map@, self.keep_unwritten_bytes),
    {
        build_layout(&self.chunks, &self.memory_map, self.keep_unwritten_bytes)
    }
}

} // verus!
