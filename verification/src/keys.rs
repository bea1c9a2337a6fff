//! The common key vocabulary between the byte decoder, the prompt state
//! machine and application callbacks.

use vstd::prelude::*;

verus! {

/// Direction key
#[derive(Debug, Copy, Clone, PartialEq, Eq, Structural)]
pub enum DirectionKey {
    Up,
    Down,
    Left,
    Right,
}

/// Decoded key press
#[derive(Debug, Copy, Clone, PartialEq, Eq, Structural)]
pub enum Key {
    Arrow(DirectionKey),
    Backspace,
    Tab,
    Newline,
    CarriageReturn,
    Break,
    Eot,
    Character(u8),
}

/// Key decoder error
#[derive(Debug, Copy, Clone, PartialEq, Eq, Structural)]
pub enum KeyDecoderError {
    UnknownSequence,
    MoreInputRequired,
}

/// Key decoder trait
pub trait KeyDecoder {
    fn decode(&mut self, byte: u8) -> Result<Key, KeyDecoderError>;
}

} // verus!
