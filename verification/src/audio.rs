//! Sounds that a player can be handed.

use vstd::prelude::*;

verus! {

/// An encoded sound, held as the bytes that are compiled into the program.
#[derive(Clone)]
pub struct NativeSound {
    bytes: &'static [u8],
}

impl View for NativeSound {
    type V = Seq<u8>;

    /// The encoded bytes of the sound.
    closed spec fn view(&self) -> Seq<u8> {
        self.bytes@
    }
}

impl NativeSound {
    /// The sound whose encoding is `bytes`.
    pub fn new(bytes: &'static [u8]) -> (sound: Self)
        ensures
            sound@ == bytes@,
    {
        Self { bytes }
    }

    /// The encoding that the sound was made from.
    pub fn bytes(&self) -> (bytes: &'static [u8])
        ensures
            bytes@ == self@,
    {
        self.bytes
    }
}

} // verus!
