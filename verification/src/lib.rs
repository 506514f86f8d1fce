use vstd::prelude::*;

pub mod binary;
pub mod bufmut;
pub mod lexer;
pub mod rite;

verus! {

/// The four compiler-name tag bytes written into every image header.
pub open spec fn compiler_name_bytes() -> Seq<u8> {
    seq![77u8, 65u8, 83u8, 77u8]  // the ASCII bytes of "MASM"
}

/// Four-byte tag naming the compiler that produced a binary image.
pub fn compiler_name() -> (r: [u8; 4])
    ensures
        r@ == compiler_name_bytes(),
{
    let r = [77u8, 65u8, 83u8, 77u8];  // "MASM"
    proof {
        assert(r@ =~= compiler_name_bytes());
    }
    r
}

} // verus!
