use vstd::prelude::*;

verus! {

/// First word of every SPIR-V module.
pub const SPIRV_MAGIC: u32 = 0x0723_0203;

/// The first four bytes hold the magic number least significant byte first.
pub open spec fn little_endian_magic(b: Seq<u8>) -> bool {
    b.len() >= 4 && b[0] == 0x03 && b[1] == 0x02 && b[2] == 0x23 && b[3] == 0x07
}

/// The first four bytes hold the magic number most significant byte first.
pub open spec fn big_endian_magic(b: Seq<u8>) -> bool {
    b.len() >= 4 && b[0] == 0x07 && b[1] == 0x23 && b[2] == 0x02 && b[3] == 0x03
}

/// A SPIR-V module: whole words, starting with the magic number in either
/// byte order.
pub open spec fn is_spirv(b: Seq<u8>) -> bool {
    b.len() % 4 == 0 && (little_endian_magic(b) || big_endian_magic(b))
}

/// Word `i` of `b`, read in the byte order that the magic number shows.
pub open spec fn spirv_word(b: Seq<u8>, i: int) -> u32 {
    if little_endian_magic(b) {
        (b[4 * i] + b[4 * i + 1] * 0x100 + b[4 * i + 2] * 0x1_0000 + b[4 * i + 3] * 0x100_0000) as u32
    } else {
        (b[4 * i + 3] + b[4 * i + 2] * 0x100 + b[4 * i + 1] * 0x1_0000 + b[4 * i] * 0x100_0000) as u32
    }
}

pub open spec fn spirv_words(b: Seq<u8>) -> Seq<u32> {
    Seq::new((b.len() / 4) as nat, |i: int| spirv_word(b, i))
}

/// Relies on ash's `util::read_spv`: on an in-memory module it fails unless
/// the length is a multiple of four and the first word is the magic number
/// in either byte order, and otherwise returns the words, swapping bytes when
/// the magic number shows the other byte order.
#[verifier::external_body]
fn read_spv(code: &Vec<u8>) -> (r: Option<Vec<u32>>)
    ensures
        r is Some <==> is_spirv(code@),
        r is Some ==> r->0@ == spirv_words(code@),
{
    ash::util::read_spv(&mut std::io::Cursor::new(code.as_slice())).ok()
}

/// The bytes given as shader code are not a SPIR-V module.
#[derive(Clone, Copy, Debug, PartialEq, Eq)]
pub struct InvalidShaderCode;

/// Decodes a shader's code into the words a shader module is made from.
pub fn shader_words(code: &Vec<u8>) -> (r: Result<Vec<u32>, InvalidShaderCode>)
    ensures
        r is Ok <==> is_spirv(code@),
        r is Ok ==> r->Ok_0@ == spirv_words(code@) && r->Ok_0@[0] == SPIRV_MAGIC,
{
    match read_spv(code) {
        Some(words) => {
            proof {
                let b = code@;
                assert(b.len() >= 4);
                if little_endian_magic(b) {
                    assert(spirv_word(b, 0) == SPIRV_MAGIC);
                } else {
                    assert(spirv_word(b, 0) == SPIRV_MAGIC);
                }
            }
            Ok(words)
        },
        None => Err(InvalidShaderCode),
    }
}

} // verus!
