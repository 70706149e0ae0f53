//! An entrance of a stage, as the game keeps the last one taken.
use crate::text::text_of;
use vstd::prelude::*;
use vstd::utf8::{decode_utf8, valid_utf8};

verus! {

/// An entrance: the name of the stage (zero-terminated within eight bytes),
/// the entrance's number and the room.
#[derive(Clone, Copy)]
pub struct Entrance {
    pub stage: [u8; 8],
    pub entrance: u16,
    pub room: u8,
}

/// The bytes of `stage` before its first zero byte (all of them if it has
/// none).
pub open spec fn stage_bytes(stage: Seq<u8>) -> Seq<u8>
    decreases stage.len(),
{
    if stage.len() == 0 || stage[0] == 0 {
        Seq::empty()
    } else {
        seq![stage[0]] + stage_bytes(stage.drop_first())
    }
}

impl Entrance {
    /// The name of the stage, where its bytes are UTF-8.
    pub fn stage_name(&self) -> (r: Option<&str>)
        ensures
            match r {
                Some(s) => valid_utf8(stage_bytes(self.stage@)) && s@ == decode_utf8(stage_bytes(self.stage@)),
                None => !valid_utf8(stage_bytes(self.stage@)),
            },
    {
        let bytes = self.stage.as_slice();
        let mut k: usize = 0;
        assert(bytes@.subrange(0, 0) + stage_bytes(bytes@.subrange(0, bytes@.len() as int)) =~= stage_bytes(
            bytes@,
        )) by {
            assert(bytes@.subrange(0, bytes@.len() as int) =~= bytes@);
        }
        while k < bytes.len() && bytes[k] != 0
            invariant
                k <= bytes@.len(),
                bytes@ == self.stage@,
                stage_bytes(bytes@) == bytes@.subrange(0, k as int) + stage_bytes(
                    bytes@.subrange(k as int, bytes@.len() as int),
                ),
            decreases bytes@.len() - k,
        {
            let ghost rest = bytes@.subrange(k as int, bytes@.len() as int);
            assert(rest.drop_first() =~= bytes@.subrange(k + 1, bytes@.len() as int));
            assert(bytes@.subrange(0, k + 1) =~= bytes@.subrange(0, k as int) + seq![rest[0]]);
            k = k + 1;
        }
        assert(stage_bytes(bytes@.subrange(k as int, bytes@.len() as int)) =~= Seq::<u8>::empty());
        assert(stage_bytes(bytes@) =~= bytes@.subrange(0, k as int));
        text_of(vstd::slice::slice_subrange(bytes, 0, k))
    }
}

} // verus!
