use vstd::prelude::*;
use crate::error::Error;

verus! {

/// Word `i` of `b`, its four bytes read least significant first.
pub open spec fn le_word(b: Seq<u8>, i: int) -> u32 {
    (b[4 * i] + 256 * b[4 * i + 1] + 65536 * b[4 * i + 2] + 16777216 * b[4 * i + 3]) as u32
}

/// Word `i` of `b`, its four bytes read most significant first.
pub open spec fn be_word(b: Seq<u8>, i: int) -> u32 {
    (b[4 * i + 3] + 256 * b[4 * i + 2] + 65536 * b[4 * i + 1] + 16777216 * b[4 * i]) as u32
}

/// The words of a SPIR-V module: the bytes must come in whole words and
/// start with the magic number, written least significant byte first
/// (`03 02 23 07`, then every word is read that way) or most significant
/// byte first (`07 23 02 03`, likewise).
pub open spec fn spec_spirv_words(bytes: Seq<u8>) -> Option<Seq<u32>> {
    let n = bytes.len() / 4;
    if bytes.len() % 4 != 0 || bytes.len() == 0 {
        None
    } else if bytes[0] == 0x03 && bytes[1] == 0x02 && bytes[2] == 0x23 && bytes[3] == 0x07 {
        Some(Seq::new(n, |i: int| le_word(bytes, i)))
    } else if bytes[0] == 0x07 && bytes[1] == 0x23 && bytes[2] == 0x02 && bytes[3] == 0x03 {
        Some(Seq::new(n, |i: int| be_word(bytes, i)))
    } else {
        None
    }
}

/// Calls `ash::util::read_spv` on the bytes through a `std::io::Cursor`.
/// ash reads whole 32-bit words in the machine's byte order, swaps the bytes
/// of every word when the first word is the byte-swapped magic number, and
/// fails unless the length is a multiple of four and the first word is then
/// the magic number; on every machine that reads the words as
/// `spec_spirv_words` says.
#[verifier::external_body]
fn ash_read_spv(bytes: &[u8]) -> (r: Option<Vec<u32>>)
    ensures
        r is Some <==> spec_spirv_words(bytes@) is Some,
        r matches Some(w) ==> Some(w@) == spec_spirv_words(bytes@),
{
    let mut cursor = std::io::Cursor::new(bytes);
    ash::util::read_spv(&mut cursor).ok()
}

/// The message of the error for data that is not whole 32-bit words.
pub open spec fn length_message() -> Seq<char> {
    "input length not divisible by 4"@
}

/// The message of the error for data without the SPIR-V magic number.
pub open spec fn magic_message() -> Seq<char> {
    "input missing SPIR-V magic number"@
}

/// Reads a SPIR-V module from its bytes as 32-bit words; refuses data that
/// is not whole words, and data that does not start with the magic number.
pub fn read_shader_from_bytes(bytes: &[u8]) -> (r: Result<Vec<u32>, Error>)
    ensures
        r is Ok <==> spec_spirv_words(bytes@) is Some,
        r matches Ok(w) ==> Some(w@) == spec_spirv_words(bytes@),
        r matches Err(e) ==> (e matches Error::Load(m) && m@ == if bytes@.len() % 4 != 0 {
            length_message()
        } else {
            magic_message()
        }),
{
    match ash_read_spv(bytes) {
        Some(words) => Ok(words),
        None => {
            if bytes.len() % 4 != 0 {
                let m = String::from_str("input length not divisible by 4");
                proof {
                    reveal_strlit("input length not divisible by 4");
                }
                Err(Error::Load(m))
            } else {
                let m = String::from_str("input missing SPIR-V magic number");
                proof {
                    reveal_strlit("input missing SPIR-V magic number");
                }
                Err(Error::Load(m))
            }
        },
    }
}

} // verus!
