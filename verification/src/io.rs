use vstd::prelude::*;
use vstd::slice::slice_subrange;
use byteorder::ByteOrder;
use crate::result::LevelMapError;
use crate::result::LevelResult;
use crate::result::StdIOError;
use crate::types::OffT;

verus! {

/// The number that the four bytes of `s` from `off` on stand for, least
/// significant byte first.
pub open spec fn u32_at(s: Seq<u8>, off: int) -> int {
    s[off] as int + (s[off + 1] as int) * 0x100 + (s[off + 2] as int) * 0x1_0000 + (s[off + 3] as int)
        * 0x100_0000
}

/// The number that the eight bytes of `s` from `off` on stand for, least
/// significant byte first.
pub open spec fn u64_at(s: Seq<u8>, off: int) -> int {
    u32_at(s, off) + u32_at(s, off + 4) * 0x1_0000_0000
}

/// `s` with the bytes of `data` written over it from `off` on.
pub open spec fn splice(s: Seq<u8>, off: int, data: Seq<u8>) -> Seq<u8> {
    Seq::new(
        s.len(),
        |i: int|
            if off <= i < off + data.len() {
                data[i - off]
            } else {
                s[i]
            },
    )
}

/// `s` with the `len` bytes from `off` on set to zero. The part of the range
/// that lies outside of `s` is ignored.
pub open spec fn zeroed(s: Seq<u8>, off: int, len: int) -> Seq<u8> {
    Seq::new(
        s.len(),
        |i: int|
            if off <= i < off + len {
                0u8
            } else {
                s[i]
            },
    )
}

/// `s` cut or extended with zero bytes to the length `len`.
pub open spec fn resized(s: Seq<u8>, len: int) -> Seq<u8> {
    Seq::new(
        len as nat,
        |i: int|
            if i < s.len() {
                s[i]
            } else {
                0u8
            },
    )
}

/// The `size` bytes that follow the first `off` bytes of `file`, read as
/// zero where the file has ended.
pub open spec fn region_of(file: Seq<u8>, off: int, size: int) -> Seq<u8> {
    Seq::new(
        size as nat,
        |i: int|
            if off + i < file.len() {
                file[off + i]
            } else {
                0u8
            },
    )
}

/// Whether `a` and `b` hold the same bytes in the `len` bytes from `off` on.
pub open spec fn same_within(a: Seq<u8>, b: Seq<u8>, off: int, len: int) -> bool {
    forall|i: int| off <= i < off + len ==> a[i] == b[i]
}

/// Whether the `len` bytes of `a` from `off` on are all zero.
pub open spec fn zero_within(a: Seq<u8>, off: int, len: int) -> bool {
    forall|i: int| off <= i < off + len ==> a[i] == 0
}

/// Whether `a` and `b` have the same length and hold the same bytes
/// everywhere but in the `len` bytes from `off` on.
pub open spec fn same_outside(a: Seq<u8>, b: Seq<u8>, off: int, len: int) -> bool {
    &&& a.len() == b.len()
    &&& forall|i: int| 0 <= i < a.len() && !(off <= i < off + len) ==> a[i] == b[i]
}

/// Decodes the first four bytes of `buf` with
/// `byteorder::LittleEndian::read_u32`: the result is the number that they
/// stand for, least significant byte first. The call panics on a shorter
/// buffer.
#[verifier::external_body]
pub(crate) fn read_u32_le(buf: &[u8]) -> (r: u32)
    requires
        buf@.len() >= 4,
    ensures
        r == u32_at(buf@, 0),
{
    byteorder::LittleEndian::read_u32(buf)
}

/// Decodes the first eight bytes of `buf` with
/// `byteorder::LittleEndian::read_u64`: the result is the number that they
/// stand for, least significant byte first. The call panics on a shorter
/// buffer.
#[verifier::external_body]
pub(crate) fn read_u64_le(buf: &[u8]) -> (r: u64)
    requires
        buf@.len() >= 8,
    ensures
        r == u64_at(buf@, 0),
{
    byteorder::LittleEndian::read_u64(buf)
}

/// Encodes `value` with `byteorder::LittleEndian::write_u32`: the four bytes
/// that come back stand for `value`, least significant byte first.
#[verifier::external_body]
pub(crate) fn u32_le_bytes(value: u32) -> (r: [u8; 4])
    ensures
        u32_at(r@, 0) == value,
{
    let mut buf = [0u8; 4];
    byteorder::LittleEndian::write_u32(&mut buf, value);
    buf
}

/// Encodes `value` with `byteorder::LittleEndian::write_u64`: the eight bytes
/// that come back stand for `value`, least significant byte first.
#[verifier::external_body]
pub(crate) fn u64_le_bytes(value: u64) -> (r: [u8; 8])
    ensures
        u64_at(r@, 0) == value,
{
    let mut buf = [0u8; 8];
    byteorder::LittleEndian::write_u64(&mut buf, value);
    buf
}

/// Makes the error that stands for a region too large to be mapped, with
/// `std::io::Error::from` on `ErrorKind::OutOfMemory`.
#[verifier::external_body]
fn out_of_memory() -> std::io::Error {
    std::io::Error::from(std::io::ErrorKind::OutOfMemory)
}

/// The error of a region that cannot be mapped at the size asked for.
pub fn map_failure() -> (r: LevelMapError)
    ensures
        r matches LevelMapError::IOError(e) && e.message matches Some(message) && message@
            == "failed to memory map file"@,
{
    LevelMapError::IOError(
        StdIOError::with_message("failed to memory map file".to_owned(), out_of_memory()),
    )
}

/// The mapped region of a file: the `size` bytes of the file that follow its
/// first `off` bytes.
#[derive(Debug)]
pub struct MappedFile {
    pub map: Vec<u8>,
    pub off: OffT,
    pub size: OffT,
}

impl View for MappedFile {
    type V = Seq<u8>;

    open spec fn view(&self) -> Seq<u8> {
        self.map@
    }
}

impl MappedFile {
    /// The region holds exactly `size` bytes, and its end is an offset of
    /// the file that a 64-bit number can hold.
    pub open spec fn wf(&self) -> bool {
        self.map@.len() == self.size && self.size <= usize::MAX && self.off + self.size <= u64::MAX
    }

    /// Whether a region of `size` bytes can be mapped behind the first `off`
    /// bytes of a file.
    pub open spec fn mappable(off: OffT, size: OffT) -> bool {
        size <= usize::MAX && off + size <= u64::MAX
    }

    /// Maps the region of `size` bytes that follows the first `off` bytes of
    /// a file with the contents `file`. Where the file ends before the
    /// region does, the region reads as zero from there on.
    pub fn new(file: Vec<u8>, off: OffT, size: OffT) -> (r: LevelResult<Self, LevelMapError>)
        ensures
            r is Ok <==> Self::mappable(off, size),
            r matches Ok(m) ==> {
                &&& m.wf()
                &&& m.off == off
                &&& m.size == size
                &&& m@ == region_of(file@, off as int, size as int)
            },
    {
        if size > usize::MAX as u64 || size > u64::MAX - off {
            return Err(map_failure());
        }
        let ghost file0 = file@;
        let mut file = file;
        let mut map: Vec<u8> = if off <= file.len() as u64 {
            file.split_off(off as usize)
        } else {
            Vec::new()
        };
        let ghost tail = map@;
        map.resize(size as usize, 0u8);
        proof {
            assert forall|i: int| 0 <= i < size implies #[trigger] map@[i] == if off + i < file0.len() {
                file0[off + i]
            } else {
                0u8
            } by {
                if size <= tail.len() {
                } else if i < tail.len() {
                    assert(map@.subrange(0, tail.len() as int)[i] == tail[i]);
                } else {
                    assert(cloned(0u8, map@[i]));
                }
            }
        }
        assert(map@ =~= region_of(file0, off as int, size as int));
        Ok(MappedFile { map, off, size })
    }

    /// Whether the bytes of the region from `offset` on are those of `arr`.
    /// It is `false` for an empty `arr`, and where `arr` would reach beyond
    /// the region.
    pub fn memeq(&self, offset: OffT, arr: &[u8]) -> (r: bool)
        requires
            self.wf(),
        ensures
            r == (arr@.len() > 0 && offset + arr@.len() <= self.size && self@.subrange(
                offset as int,
                offset + arr@.len(),
            ) == arr@),
    {
        let len = arr.len();
        if len == 0 || offset > self.size || len as u64 > self.size - offset {
            return false;
        }
        let pos = offset as usize;
        let mut i: usize = 0;
        while i < len
            invariant
                self.wf(),
                len == arr@.len(),
                pos == offset,
                pos + len <= self.size,
                i <= len,
                forall|k: int| 0 <= k < i ==> self@[pos + k] == arr@[k],
            decreases len - i,
        {
            if self.map[pos + i] != arr[i] {
                assert(self@.subrange(offset as int, offset + arr@.len())[i as int] != arr@[i as int]);
                return false;
            }
            i += 1;
        }
        assert(self@.subrange(offset as int, offset + arr@.len()) =~= arr@);
        true
    }

    /// Gives the disk blocks under the `len` bytes of the file from the file
    /// offset `offset` on back: the part of the region that lies in that
    /// range reads as zero afterwards. The size of the region stays.
    pub fn deallocate(&mut self, offset: OffT, len: OffT)
        requires
            old(self).wf(),
        ensures
            final(self).wf(),
            final(self).off == old(self).off,
            final(self).size == old(self).size,
            final(self)@ == zeroed(old(self)@, offset - old(self).off, len as int),
    {
        let end: u64 = if len <= u64::MAX - offset {
            offset + len
        } else {
            u64::MAX
        };
        let lo: u64 = if offset > self.off {
            offset - self.off
        } else {
            0
        };
        let hi: u64 = if end > self.off {
            if end - self.off < self.size {
                end - self.off
            } else {
                self.size
            }
        } else {
            0
        };
        let mut i: u64 = lo;
        while i < hi
            invariant
                self.wf(),
                self.off == old(self).off,
                self.size == old(self).size,
                old(self).map@.len() == self.size,
                hi <= self.size,
                lo <= i,
                i == lo || i <= hi,
                forall|k: int|
                    0 <= k < self.size ==> #[trigger] self.map@[k] == if lo <= k < i {
                        0u8
                    } else {
                        old(self).map@[k]
                    },
            decreases hi - i,
        {
            self.map[i as usize] = 0u8;
            i += 1;
        }
        assert(self.map@ =~= zeroed(old(self).map@, offset - old(self).off, len as int));
    }

    /// Copies the bytes of the region from `off` on into `dst`, as many as
    /// `dst` holds.
    pub fn read_at(&self, off: OffT, dst: &mut [u8])
        requires
            self.wf(),
            off + old(dst)@.len() <= self.size,
        ensures
            final(dst)@ == self@.subrange(off as int, off + old(dst)@.len()),
    {
        let pos = off as usize;
        let len = dst.len();
        let mut i: usize = 0;
        while i < len
            invariant
                self.wf(),
                len == dst@.len(),
                len == old(dst)@.len(),
                pos == off,
                pos + len <= self.size,
                i <= len,
                forall|k: int| 0 <= k < i ==> dst@[k] == self@[pos + k],
            decreases len - i,
        {
            dst[i] = self.map[pos + i];
            i += 1;
        }
        assert(dst@ =~= self@.subrange(off as int, off + old(dst)@.len()));
    }

    /// The bytes of the region from `off` on, `len` of them.
    pub fn read_vec(&self, off: OffT, len: usize) -> (r: Vec<u8>)
        requires
            self.wf(),
            off + len <= self.size,
        ensures
            r@ == self@.subrange(off as int, off + len),
    {
        let mut out: Vec<u8> = vec![0u8; len];
        self.read_at(off, out.as_mut_slice());
        out
    }

    /// Copies the bytes of `src` into the region from `off` on.
    pub fn write_at(&mut self, off: OffT, src: &[u8])
        requires
            old(self).wf(),
            off + src@.len() <= old(self).size,
        ensures
            final(self).wf(),
            final(self).off == old(self).off,
            final(self).size == old(self).size,
            final(self)@ == splice(old(self)@, off as int, src@),
    {
        let pos = off as usize;
        let len = src.len();
        let mut i: usize = 0;
        while i < len
            invariant
                self.wf(),
                self.off == old(self).off,
                self.size == old(self).size,
                old(self).map@.len() == self.size,
                len == src@.len(),
                pos == off,
                pos + len <= self.size,
                i <= len,
                forall|k: int|
                    0 <= k < self.size ==> #[trigger] self.map@[k] == if pos <= k < pos + i {
                        src@[k - pos]
                    } else {
                        old(self).map@[k]
                    },
            decreases len - i,
        {
            self.map[pos + i] = src[i];
            i += 1;
        }
        assert(self.map@ =~= splice(old(self).map@, off as int, src@));
    }

    /// The 32-bit number stored at `off`.
    pub fn r_u32(&self, off: OffT) -> (r: u32)
        requires
            self.wf(),
            off + 4 <= self.size,
        ensures
            r == u32_at(self@, off as int),
    {
        let pos = off as usize;
        let bytes = slice_subrange(self.map.as_slice(), pos, pos + 4);
        read_u32_le(bytes)
    }

    /// The 64-bit number stored at `off`.
    pub fn r_u64(&self, off: OffT) -> (r: u64)
        requires
            self.wf(),
            off + 8 <= self.size,
        ensures
            r == u64_at(self@, off as int),
    {
        let pos = off as usize;
        let bytes = slice_subrange(self.map.as_slice(), pos, pos + 8);
        read_u64_le(bytes)
    }

    /// Stores the 32-bit number `value` at `off`.
    pub fn w_u32(&mut self, off: OffT, value: u32)
        requires
            old(self).wf(),
            off + 4 <= old(self).size,
        ensures
            final(self).wf(),
            final(self).off == old(self).off,
            final(self).size == old(self).size,
            u32_at(final(self)@, off as int) == value,
            same_outside(old(self)@, final(self)@, off as int, 4),
    {
        let bytes = u32_le_bytes(value);
        self.write_at(off, bytes.as_slice());
    }

    /// Stores the 64-bit number `value` at `off`.
    pub fn w_u64(&mut self, off: OffT, value: u64)
        requires
            old(self).wf(),
            off + 8 <= old(self).size,
        ensures
            final(self).wf(),
            final(self).off == old(self).off,
            final(self).size == old(self).size,
            u64_at(final(self)@, off as int) == value,
            same_outside(old(self)@, final(self)@, off as int, 8),
    {
        let bytes = u64_le_bytes(value);
        self.write_at(off, bytes.as_slice());
    }

    /// Maps the region anew with the size `size`. The bytes that the old and
    /// the new region share stay; what the new region adds reads as zero.
    pub fn remap(&mut self, size: OffT) -> (r: LevelResult<(), LevelMapError>)
        requires
            old(self).wf(),
        ensures
            r is Ok <==> Self::mappable(old(self).off, size),
            final(self).wf(),
            final(self).off == old(self).off,
            r is Ok ==> final(self).size == size && final(self)@ == resized(old(self)@, size as int),
            r is Err ==> *final(self) == *old(self),
    {
        if size > usize::MAX as u64 || size > u64::MAX - self.off {
            return Err(map_failure());
        }
        self.map.resize(size as usize, 0u8);
        self.size = size;
        proof {
            let before = old(self).map@;
            assert forall|i: int| 0 <= i < size implies #[trigger] self.map@[i] == resized(before, size as int)[i] by {
                if size <= before.len() {
                } else if i < before.len() {
                    assert(self.map@.subrange(0, before.len() as int)[i] == before[i]);
                } else {
                    assert(cloned(0u8, self.map@[i]));
                }
            }
            assert(self@ =~= resized(before, size as int));
        }
        Ok(())
    }
}

} // verus!
