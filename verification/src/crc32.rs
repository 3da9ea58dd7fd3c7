//! The checksum engine: table-driven reflected CRC-32 (zlib-compatible
//! polynomial) with an incremental update step that zero-pads its input to a
//! requested width, and a finalization step that XORs with the initial value.

use vstd::prelude::*;
use vstd::utf8::encode_utf8;

verus! {

/// Initial CRC-32 state; finalization XORs with this same value.
pub const CRC32_INIT: u32 = 0xffff_ffff;

/// The 256-entry lookup table for the reflected CRC-32 polynomial.
pub const CRC32_TABLE: [u32; 256] = [
    0x00000000, 0x77073096, 0xee0e612c, 0x990951ba, 0x076dc419, 0x706af48f, 0xe963a535, 0x9e6495a3,
    0x0edb8832, 0x79dcb8a4, 0xe0d5e91e, 0x97d2d988, 0x09b64c2b, 0x7eb17cbd, 0xe7b82d07, 0x90bf1d91,
    0x1db71064, 0x6ab020f2, 0xf3b97148, 0x84be41de, 0x1adad47d, 0x6ddde4eb, 0xf4d4b551, 0x83d385c7,
    0x136c9856, 0x646ba8c0, 0xfd62f97a, 0x8a65c9ec, 0x14015c4f, 0x63066cd9, 0xfa0f3d63, 0x8d080df5,
    0x3b6e20c8, 0x4c69105e, 0xd56041e4, 0xa2677172, 0x3c03e4d1, 0x4b04d447, 0xd20d85fd, 0xa50ab56b,
    0x35b5a8fa, 0x42b2986c, 0xdbbbc9d6, 0xacbcf940, 0x32d86ce3, 0x45df5c75, 0xdcd60dcf, 0xabd13d59,
    0x26d930ac, 0x51de003a, 0xc8d75180, 0xbfd06116, 0x21b4f4b5, 0x56b3c423, 0xcfba9599, 0xb8bda50f,
    0x2802b89e, 0x5f058808, 0xc60cd9b2, 0xb10be924, 0x2f6f7c87, 0x58684c11, 0xc1611dab, 0xb6662d3d,
    0x76dc4190, 0x01db7106, 0x98d220bc, 0xefd5102a, 0x71b18589, 0x06b6b51f, 0x9fbfe4a5, 0xe8b8d433,
    0x7807c9a2, 0x0f00f934, 0x9609a88e, 0xe10e9818, 0x7f6a0dbb, 0x086d3d2d, 0x91646c97, 0xe6635c01,
    0x6b6b51f4, 0x1c6c6162, 0x856530d8, 0xf262004e, 0x6c0695ed, 0x1b01a57b, 0x8208f4c1, 0xf50fc457,
    0x65b0d9c6, 0x12b7e950, 0x8bbeb8ea, 0xfcb9887c, 0x62dd1ddf, 0x15da2d49, 0x8cd37cf3, 0xfbd44c65,
    0x4db26158, 0x3ab551ce, 0xa3bc0074, 0xd4bb30e2, 0x4adfa541, 0x3dd895d7, 0xa4d1c46d, 0xd3d6f4fb,
    0x4369e96a, 0x346ed9fc, 0xad678846, 0xda60b8d0, 0x44042d73, 0x33031de5, 0xaa0a4c5f, 0xdd0d7cc9,
    0x5005713c, 0x270241aa, 0xbe0b1010, 0xc90c2086, 0x5768b525, 0x206f85b3, 0xb966d409, 0xce61e49f,
    0x5edef90e, 0x29d9c998, 0xb0d09822, 0xc7d7a8b4, 0x59b33d17, 0x2eb40d81, 0xb7bd5c3b, 0xc0ba6cad,
    0xedb88320, 0x9abfb3b6, 0x03b6e20c, 0x74b1d29a, 0xead54739, 0x9dd277af, 0x04db2615, 0x73dc1683,
    0xe3630b12, 0x94643b84, 0x0d6d6a3e, 0x7a6a5aa8, 0xe40ecf0b, 0x9309ff9d, 0x0a00ae27, 0x7d079eb1,
    0xf00f9344, 0x8708a3d2, 0x1e01f268, 0x6906c2fe, 0xf762575d, 0x806567cb, 0x196c3671, 0x6e6b06e7,
    0xfed41b76, 0x89d32be0, 0x10da7a5a, 0x67dd4acc, 0xf9b9df6f, 0x8ebeeff9, 0x17b7be43, 0x60b08ed5,
    0xd6d6a3e8, 0xa1d1937e, 0x38d8c2c4, 0x4fdff252, 0xd1bb67f1, 0xa6bc5767, 0x3fb506dd, 0x48b2364b,
    0xd80d2bda, 0xaf0a1b4c, 0x36034af6, 0x41047a60, 0xdf60efc3, 0xa867df55, 0x316e8eef, 0x4669be79,
    0xcb61b38c, 0xbc66831a, 0x256fd2a0, 0x5268e236, 0xcc0c7795, 0xbb0b4703, 0x220216b9, 0x5505262f,
    0xc5ba3bbe, 0xb2bd0b28, 0x2bb45a92, 0x5cb36a04, 0xc2d7ffa7, 0xb5d0cf31, 0x2cd99e8b, 0x5bdeae1d,
    0x9b64c2b0, 0xec63f226, 0x756aa39c, 0x026d930a, 0x9c0906a9, 0xeb0e363f, 0x72076785, 0x05005713,
    0x95bf4a82, 0xe2b87a14, 0x7bb12bae, 0x0cb61b38, 0x92d28e9b, 0xe5d5be0d, 0x7cdcefb7, 0x0bdbdf21,
    0x86d3d2d4, 0xf1d4e242, 0x68ddb3f8, 0x1fda836e, 0x81be16cd, 0xf6b9265b, 0x6fb077e1, 0x18b74777,
    0x88085ae6, 0xff0f6a70, 0x66063bca, 0x11010b5c, 0x8f659eff, 0xf862ae69, 0x616bffd3, 0x166ccf45,
    0xa00ae278, 0xd70dd2ee, 0x4e048354, 0x3903b3c2, 0xa7672661, 0xd06016f7, 0x4969474d, 0x3e6e77db,
    0xaed16a4a, 0xd9d65adc, 0x40df0b66, 0x37d83bf0, 0xa9bcae53, 0xdebb9ec5, 0x47b2cf7f, 0x30b5ffe9,
    0xbdbdf21c, 0xcabac28a, 0x53b39330, 0x24b4a3a6, 0xbad03605, 0xcdd70693, 0x54de5729, 0x23d967bf,
    0xb3667a2e, 0xc4614ab8, 0x5d681b02, 0x2a6f2b94, 0xb40bbe37, 0xc30c8ea1, 0x5a05df1b, 0x2d02ef8d,
];

/// One step of the table-driven recurrence: fold `byte` into `state`.
pub open spec fn crc32_step(state: u32, byte: u8) -> u32 {
    CRC32_TABLE@[((state ^ (byte as u32)) & 0xff) as int] ^ (state >> 8)
}

/// State after folding every byte of `bytes` into `state`, in order.
pub open spec fn crc32_fold(state: u32, bytes: Seq<u8>) -> u32
    decreases bytes.len(),
{
    if bytes.len() == 0 {
        state
    } else {
        crc32_step(crc32_fold(state, bytes.drop_last()), bytes.last())
    }
}

/// `bytes` truncated, or extended with zero bytes, to exactly `length` bytes.
pub open spec fn zero_padded(bytes: Seq<u8>, length: nat) -> Seq<u8> {
    Seq::new(length, |i: int| if i < bytes.len() { bytes[i] } else { 0u8 })
}

/// State after one update call: exactly `length` bytes folded, the input
/// supplying the first bytes and zero bytes supplying the rest.
pub open spec fn crc32_update_spec(state: u32, bytes: Seq<u8>, length: nat) -> u32 {
    crc32_fold(state, zero_padded(bytes, length))
}

/// Finalization: XOR the state with the initial value.
pub open spec fn crc32_final_spec(state: u32) -> u32 {
    state ^ CRC32_INIT
}

/// Checksum of `bytes` zero-padded (or truncated) to `length` bytes.
pub open spec fn crc32_long_spec(bytes: Seq<u8>, length: nat) -> u32 {
    crc32_final_spec(crc32_update_spec(CRC32_INIT, bytes, length))
}

/// Fold exactly `length` bytes into `hash`: the bytes of `bs` while they
/// last, then zero bytes (nginx's fixed-width hashing quirk, kept for
/// bit-exact compatibility with its ring).
pub fn ngx_crc32_update(hash: u32, bs: &[u8], length: usize) -> (r: u32)
    ensures
        r == crc32_update_spec(hash, bs@, length as nat),
{
    let ghost padded = zero_padded(bs@, length as nat);
    let n: usize = bs.len();
    let mut h: u32 = hash;
    for i in 0..length
        invariant
            n == bs@.len(),
            h == crc32_fold(hash, padded.take(i as int)),
            padded == zero_padded(bs@, length as nat),
    {
        let b: u8 = if i < n {
            bs[i]
        } else {
            0
        };
        proof {
            assert(((h ^ (b as u32)) & 0xff) < 256) by (bit_vector);
            assert(padded.take(i + 1).drop_last() =~= padded.take(i as int));
            assert(padded.take(i + 1).last() == b);
        }
        h = CRC32_TABLE[((h ^ (b as u32)) & 0xff) as usize] ^ (h >> 8);
    }
    proof {
        assert(padded.take(length as int) =~= padded);
    }
    h
}

/// Finalize a CRC-32 state.
pub fn ngx_crc32_final(hash: u32) -> (r: u32)
    ensures
        r == crc32_final_spec(hash),
{
    hash ^ CRC32_INIT
}

/// Checksum of the first `length` bytes of `s` (zero-padded past its end):
/// initialize, fold, finalize in one call.
pub fn ngx_crc32_long(s: &String, length: usize) -> (r: u32)
    ensures
        r == crc32_long_spec(encode_utf8(s@), length as nat),
{
    ngx_crc32_final(ngx_crc32_update(CRC32_INIT, s.as_str().as_bytes(), length))
}

/// The four bytes of `hash`, low byte first.
pub open spec fn hash_le_bytes(hash: u32) -> Seq<u8> {
    seq![
        (hash & 0xff) as u8,
        ((hash >> 8) & 0xff) as u8,
        ((hash >> 16) & 0xff) as u8,
        ((hash >> 24) & 0xff) as u8,
    ]
}

/// Extract the bytes of a point hash, low byte first, for reuse as the next
/// ring-point input.
pub(crate) fn ngx_crc32_prev(hash: u32) -> (r: Vec<u8>)
    ensures
        r@ == hash_le_bytes(hash),
{
    proof {
        assert((hash & 0xff) < 256 && ((hash >> 8) & 0xff) < 256 && ((hash >> 16) & 0xff) < 256
            && ((hash >> 24) & 0xff) < 256) by (bit_vector);
    }
    let mut r: Vec<u8> = Vec::new();
    r.push((hash & 0xff) as u8);
    r.push(((hash >> 8) & 0xff) as u8);
    r.push(((hash >> 16) & 0xff) as u8);
    r.push(((hash >> 24) & 0xff) as u8);
    proof {
        assert(r@ =~= hash_le_bytes(hash));
    }
    r
}

/// The checksum is deterministic: the same byte sequence and padded length
/// always give the same value.
pub proof fn lemma_checksum_deterministic(bytes: Seq<u8>, length: nat, r1: u32, r2: u32)
    requires
        r1 == crc32_long_spec(bytes, length),
        r2 == crc32_long_spec(bytes, length),
    ensures
        r1 == r2,
{
}

} // verus!
