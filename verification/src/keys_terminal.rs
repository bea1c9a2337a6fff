//! Terminal key decoder, from raw bytes to decoded key sequences.

use vstd::prelude::*;
use crate::keys::{DirectionKey, Key, KeyDecoder, KeyDecoderError};

verus! {

/// What one more byte makes of the bytes collected so far.
///
/// `prev` holds the pending escape-sequence bytes; `byte` is the byte that
/// just arrived.
pub open spec fn decode_spec(prev: Seq<u8>, byte: u8) -> Result<Key, KeyDecoderError> {
    let buf = prev.push(byte);
    if buf[0] == 0x1b {
        if buf.len() == 1 {
            Err(KeyDecoderError::MoreInputRequired)
        } else if buf[1] == 0x5b {
            if buf.len() == 2 {
                Err(KeyDecoderError::MoreInputRequired)
            } else if buf[2] == 0x41 {
                Ok(Key::Arrow(DirectionKey::Up))
            } else if buf[2] == 0x42 {
                Ok(Key::Arrow(DirectionKey::Down))
            } else if buf[2] == 0x43 {
                Ok(Key::Arrow(DirectionKey::Right))
            } else if buf[2] == 0x44 {
                Ok(Key::Arrow(DirectionKey::Left))
            } else {
                Err(KeyDecoderError::UnknownSequence)
            }
        } else {
            Err(KeyDecoderError::UnknownSequence)
        }
    } else if buf[0] == 0x7f {
        Ok(Key::Backspace)
    } else if buf[0] == 0x09 {
        Ok(Key::Tab)
    } else if buf[0] == 0x0a {
        Ok(Key::Newline)
    } else if buf[0] == 0x03 {
        Ok(Key::Break)
    } else if buf[0] == 0x0d {
        Ok(Key::CarriageReturn)
    } else if buf[0] == 0x04 {
        Ok(Key::Eot)
    } else {
        Ok(Key::Character(buf[0]))
    }
}

/// Terminal key decoder, from raw bytes to decoded key sequences.
///
/// Bytes that begin an escape sequence are held back until the sequence is
/// complete or found invalid; every other byte decodes immediately.
pub struct TerminalKeyDecoder {
    buffer: Vec<u8>,
}

impl View for TerminalKeyDecoder {
    type V = Seq<u8>;

    closed spec fn view(&self) -> Seq<u8> {
        self.buffer@
    }
}

impl TerminalKeyDecoder {
    /// Create a new decoder
    pub fn new() -> (decoder: TerminalKeyDecoder)
        ensures
            decoder@ == Seq::<u8>::empty(),
    {
        TerminalKeyDecoder { buffer: Vec::new() }
    }

    /// Feed one byte; a complete key or a decoder error comes back.
    ///
    /// The pending buffer is kept exactly when more input is required and
    /// cleared otherwise.
    pub fn decode(&mut self, byte: u8) -> (r: Result<Key, KeyDecoderError>)
        ensures
            r == decode_spec(old(self)@, byte),
            final(self)@ == if r == Err::<Key, KeyDecoderError>(
                KeyDecoderError::MoreInputRequired,
            ) {
                old(self)@.push(byte)
            } else {
                Seq::<u8>::empty()
            },
    {
        self.buffer.push(byte);

        let r: Result<Key, KeyDecoderError> = if self.buffer[0] == 0x1b {
            if self.buffer.len() == 1 {
                Err(KeyDecoderError::MoreInputRequired)
            } else if self.buffer[1] == 0x5b {
                if self.buffer.len() == 2 {
                    Err(KeyDecoderError::MoreInputRequired)
                } else if self.buffer[2] == 0x41 {
                    Ok(Key::Arrow(DirectionKey::Up))
                } else if self.buffer[2] == 0x42 {
                    Ok(Key::Arrow(DirectionKey::Down))
                } else if self.buffer[2] == 0x43 {
                    Ok(Key::Arrow(DirectionKey::Right))
                } else if self.buffer[2] == 0x44 {
                    Ok(Key::Arrow(DirectionKey::Left))
                } else {
                    Err(KeyDecoderError::UnknownSequence)
                }
            } else {
                Err(KeyDecoderError::UnknownSequence)
            }
        } else if self.buffer[0] == 0x7f {
            Ok(Key::Backspace)
        } else if self.buffer[0] == 0x09 {
            Ok(Key::Tab)
        } else if self.buffer[0] == 0x0a {
            Ok(Key::Newline)
        } else if self.buffer[0] == 0x03 {
            Ok(Key::Break)
        } else if self.buffer[0] == 0x0d {
            Ok(Key::CarriageReturn)
        } else if self.buffer[0] == 0x04 {
            Ok(Key::Eot)
        } else {
            Ok(Key::Character(self.buffer[0]))
        };

        match r {
            Err(KeyDecoderError::MoreInputRequired) => {},
            _ => {
                self.buffer.clear();
            },
        }

        r
    }
}

impl KeyDecoder for TerminalKeyDecoder {
    fn decode(&mut self, byte: u8) -> Result<Key, KeyDecoderError> {
        TerminalKeyDecoder::decode(self, byte)
    }
}

} // verus!
