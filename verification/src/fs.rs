use vstd::prelude::*;
use crate::io::u64_at;
use crate::io::u64_le_bytes;
use crate::io::read_u64_le;
use crate::size::SIZE_U64;

verus! {

/// Whether a file with the contents `file` starts with the magic number
/// `magic`.
pub open spec fn has_magic(file: Seq<u8>, magic: u64) -> bool {
    file.len() >= SIZE_U64 && u64_at(file, 0) == magic
}

/// What `write_magic_file` leaves of a file with the contents `file`: with a
/// magic number, the file is at least eight bytes long and starts with the
/// number, and the bytes behind the first eight are the old ones.
pub open spec fn magic_written(file: Seq<u8>, magic_number: Option<u64>, out: Seq<u8>) -> bool {
    match magic_number {
        None => out == file,
        Some(magic) => {
            &&& has_magic(out, magic)
            &&& out.len() == if file.len() < SIZE_U64 {
                SIZE_U64 as nat
            } else {
                file.len()
            }
            &&& forall|i: int| SIZE_U64 <= i < file.len() ==> out[i] == file[i]
        },
    }
}

/// What `init_sparse_file` leaves of a file with the contents `file`: a file
/// that already starts with the magic number stays as it is; any other file
/// is cut to nothing and gets the magic number as its only content.
pub open spec fn sparse_file_ready(file: Seq<u8>, magic_number: Option<u64>, out: Seq<u8>) -> bool {
    match magic_number {
        None => out == file,
        Some(magic) => {
            &&& has_magic(out, magic)
            &&& if has_magic(file, magic) {
                out == file
            } else {
                out.len() == SIZE_U64
            }
        },
    }
}

/// Writes the magic number, if there is one, over the first eight bytes of
/// the file.
pub fn write_magic_file(file: &mut Vec<u8>, magic_number: Option<u64>)
    ensures
        magic_written(old(file)@, magic_number, final(file)@),
{
    if let Some(magic) = magic_number {
        let bytes = u64_le_bytes(magic);
        if file.len() < 8 {
            file.resize(8, 0u8);
        }
        let ghost grown = file@;
        let mut i: usize = 0;
        while i < 8
            invariant
                i <= 8,
                bytes@.len() == 8,
                file@.len() == grown.len(),
                grown.len() >= 8,
                forall|k: int| 0 <= k < i ==> file@[k] == bytes@[k],
                forall|k: int| 8 <= k < grown.len() ==> file@[k] == grown[k],
            decreases 8 - i,
        {
            file[i] = bytes[i];
            i += 1;
        }
        proof {
            assert forall|k: int| SIZE_U64 <= k < old(file)@.len() implies file@[k] == old(file)@[k] by {
                assert(grown == old(file)@);
            }
        }
    }
}

/// Prepares the contents of an index file for use. A file that does not
/// exist yet is handed in as an empty one.
///
/// With a magic number, a file that is long enough to hold one and starts
/// with this one is left alone. Any other file is cut to nothing, and the
/// magic number is written at its start.
pub fn init_sparse_file(file: Vec<u8>, magic_number: Option<u64>) -> (out: Vec<u8>)
    ensures
        sparse_file_ready(file@, magic_number, out@),
{
    let mut file = file;
    if let Some(magic) = magic_number {
        if file.len() >= 8 {
            let magic_f = read_u64_le(file.as_slice());
            if magic_f == magic {
                return file;
            }
            file.truncate(0);
        }
        let ghost before = file@;
        write_magic_file(&mut file, magic_number);
        proof {
            if before.len() >= 8 {
                assert(before.len() == 0);
            }
        }
    }
    file
}

} // verus!
