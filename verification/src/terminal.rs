//! Character based terminal interfaces: a byte-oriented writer, a key
//! reader, and an in-memory writer that records everything written to it.

use vstd::prelude::*;
use vstd::string::StringSliceAdditionalSpecFns;
use crate::keys::Key;

verus! {

#[derive(Debug, Clone, PartialEq, Eq, Structural)]
pub enum TerminalError {
    Error,
    EndOfStream,
}

/// Character based terminal trait.
///
/// A writer appends bytes to its output stream and never takes anything
/// back; `written` is the whole stream so far.
pub trait CharacterTerminalWriter: Sized {
    /// Everything written so far.
    ///
    /// The default records nothing, which no writer's `print` can honour:
    /// it only lets writers that stand outside the proofs implement the
    /// trait.  Every writer that callers reason about overrides it, as
    /// [`BufferTerminal`] does.
    open spec fn written(&self) -> Seq<u8> {
        Seq::<u8>::empty()
    }

    /// The newline sequence this writer emits, `\r\n` unless a writer
    /// chooses otherwise.
    open spec fn newline_bytes(&self) -> Seq<u8> {
        seq![13u8, 10u8]
    }

    /// Write raw bytes.
    fn print(&mut self, bytes: &[u8])
        ensures
            final(self).written() == old(self).written() + bytes@,
            final(self).newline_bytes() == old(self).newline_bytes(),
    ;

    /// Write the configured newline sequence.
    fn print_newline_sequence(&mut self)
        ensures
            final(self).written() == old(self).written() + old(self).newline_bytes(),
            final(self).newline_bytes() == old(self).newline_bytes(),
    ;

    /// Write the bytes of a string.
    fn print_str(&mut self, s: &str)
        ensures
            final(self).written() == old(self).written() + s.spec_bytes(),
            final(self).newline_bytes() == old(self).newline_bytes(),
    {
        self.print(s.as_bytes());
    }

    /// Write the bytes of a string, then a newline.
    fn print_line(&mut self, s: &str)
        ensures
            final(self).written() == old(self).written() + s.spec_bytes()
                + old(self).newline_bytes(),
            final(self).newline_bytes() == old(self).newline_bytes(),
    {
        self.print_str(s);
        self.print_newline_sequence();
    }

    /// Write a newline.
    fn newline(&mut self)
        ensures
            final(self).written() == old(self).written() + old(self).newline_bytes(),
            final(self).newline_bytes() == old(self).newline_bytes(),
    {
        self.print_newline_sequence();
    }
}

/// Terminal key reader.
pub trait CharacterTerminalReader {
    fn read(&mut self) -> Result<Key, TerminalError>;
}

/// A terminal writer that keeps everything written to it in memory: the
/// sink for tests and for any caller that wants the bytes back.
pub struct BufferTerminal {
    buffer: Vec<u8>,
}

impl BufferTerminal {
    /// A fresh, empty terminal.
    pub fn new() -> (t: BufferTerminal)
        ensures
            t.written() == Seq::<u8>::empty(),
    {
        let t = BufferTerminal { buffer: Vec::new() };
        proof {
            assert(t.buffer@ =~= Seq::<u8>::empty());
        }
        t
    }

    /// Everything written, as bytes.
    pub fn bytes(&self) -> (r: &Vec<u8>)
        ensures
            r@ == self.written(),
    {
        &self.buffer
    }
}

impl CharacterTerminalWriter for BufferTerminal {
    closed spec fn written(&self) -> Seq<u8> {
        self.buffer@
    }

    open spec fn newline_bytes(&self) -> Seq<u8> {
        seq![13u8, 10u8]
    }

    fn print(&mut self, bytes: &[u8]) {
        crate::utils::append_bytes(&mut self.buffer, bytes);
    }

    fn print_newline_sequence(&mut self) {
        self.buffer.push(13);
        self.buffer.push(10);
        proof {
            assert(self.buffer@ =~= old(self).buffer@ + seq![13u8, 10u8]);
        }
    }
}

} // verus!
