//! The user-facing message texts, behind a small message-provider trait so
//! that another language can be supplied without touching the matcher.
//!
//! Every message is a byte string; values are handed in already formatted.

use vstd::prelude::*;
use crate::utils::{ascii_bytes, append_bytes, str_to_bytes};

verus! {

/// Message provider for the command line strings.
pub trait Strings: Sized {
    /// The message for a value that did not parse.
    spec fn property_invalid_value_spec(&self, id: Seq<u8>, input: Seq<u8>) -> Seq<u8>;

    /// The message for a value under the minimum.
    spec fn property_value_too_small_spec(&self, id: Seq<u8>, val: Seq<u8>, min: Seq<u8>) -> Seq<
        u8,
    >;

    /// The message for a value over the maximum.
    spec fn property_value_too_big_spec(&self, id: Seq<u8>, val: Seq<u8>, max: Seq<u8>) -> Seq<u8>;

    /// The message confirming a new value.
    spec fn property_value_set_spec(&self, id: Seq<u8>, val: Seq<u8>) -> Seq<u8>;

    /// The message for a line that matched nothing.
    spec fn cmd_not_recognized_spec(&self) -> Seq<u8>;

    fn property_invalid_value(&self, id: &[u8], input: &[u8]) -> (r: Vec<u8>)
        ensures
            r@ == self.property_invalid_value_spec(id@, input@),
    ;

    fn property_value_too_small(&self, id: &[u8], val: &[u8], min: &[u8]) -> (r: Vec<u8>)
        ensures
            r@ == self.property_value_too_small_spec(id@, val@, min@),
    ;

    fn property_value_too_big(&self, id: &[u8], val: &[u8], max: &[u8]) -> (r: Vec<u8>)
        ensures
            r@ == self.property_value_too_big_spec(id@, val@, max@),
    ;

    fn property_value_set(&self, id: &[u8], val: &[u8]) -> (r: Vec<u8>)
        ensures
            r@ == self.property_value_set_spec(id@, val@),
    ;

    fn cmd_not_recognized(&self) -> (r: Vec<u8>)
        ensures
            r@ == self.cmd_not_recognized_spec(),
    ;
}

/// The English texts.
#[derive(Debug, Copy, Clone, Default)]
pub struct English;

impl Strings for English {
    open spec fn property_invalid_value_spec(&self, id: Seq<u8>, input: Seq<u8>) -> Seq<u8> {
        id + ascii_bytes(": Unable to parse the value, input was '"@) + input + ascii_bytes("'."@)
    }

    open spec fn property_value_too_small_spec(&self, id: Seq<u8>, val: Seq<u8>, min: Seq<u8>) -> Seq<
        u8,
    > {
        id + ascii_bytes(": Value "@) + val + ascii_bytes(" is too small, the minimum value is "@)
            + min + ascii_bytes("."@)
    }

    open spec fn property_value_too_big_spec(&self, id: Seq<u8>, val: Seq<u8>, max: Seq<u8>) -> Seq<
        u8,
    > {
        id + ascii_bytes(": Value "@) + val + ascii_bytes(" is too large, the maximum value is "@)
            + max + ascii_bytes("."@)
    }

    open spec fn property_value_set_spec(&self, id: Seq<u8>, val: Seq<u8>) -> Seq<u8> {
        ascii_bytes("New value for "@) + id + ascii_bytes(" is "@) + val + ascii_bytes("."@)
    }

    open spec fn cmd_not_recognized_spec(&self) -> Seq<u8> {
        ascii_bytes("Command not recognized."@)
    }

    fn property_invalid_value(&self, id: &[u8], input: &[u8]) -> (r: Vec<u8>) {
        proof {
            reveal_strlit(": Unable to parse the value, input was '");
            reveal_strlit("'.");
        }
        let mut r = Vec::new();
        append_bytes(&mut r, id);
        let part = str_to_bytes(": Unable to parse the value, input was '");
        append_bytes(&mut r, part.as_slice());
        append_bytes(&mut r, input);
        let tail = str_to_bytes("'.");
        append_bytes(&mut r, tail.as_slice());
        proof {
            assert(r@ =~= self.property_invalid_value_spec(id@, input@));
        }
        r
    }

    fn property_value_too_small(&self, id: &[u8], val: &[u8], min: &[u8]) -> (r: Vec<u8>) {
        proof {
            reveal_strlit(": Value ");
            reveal_strlit(" is too small, the minimum value is ");
            reveal_strlit(".");
        }
        let mut r = Vec::new();
        append_bytes(&mut r, id);
        let p1 = str_to_bytes(": Value ");
        append_bytes(&mut r, p1.as_slice());
        append_bytes(&mut r, val);
        let p2 = str_to_bytes(" is too small, the minimum value is ");
        append_bytes(&mut r, p2.as_slice());
        append_bytes(&mut r, min);
        let p3 = str_to_bytes(".");
        append_bytes(&mut r, p3.as_slice());
        proof {
            assert(r@ =~= self.property_value_too_small_spec(id@, val@, min@));
        }
        r
    }

    fn property_value_too_big(&self, id: &[u8], val: &[u8], max: &[u8]) -> (r: Vec<u8>) {
        proof {
            reveal_strlit(": Value ");
            reveal_strlit(" is too large, the maximum value is ");
            reveal_strlit(".");
        }
        let mut r = Vec::new();
        append_bytes(&mut r, id);
        let p1 = str_to_bytes(": Value ");
        append_bytes(&mut r, p1.as_slice());
        append_bytes(&mut r, val);
        let p2 = str_to_bytes(" is too large, the maximum value is ");
        append_bytes(&mut r, p2.as_slice());
        append_bytes(&mut r, max);
        let p3 = str_to_bytes(".");
        append_bytes(&mut r, p3.as_slice());
        proof {
            assert(r@ =~= self.property_value_too_big_spec(id@, val@, max@));
        }
        r
    }

    fn property_value_set(&self, id: &[u8], val: &[u8]) -> (r: Vec<u8>) {
        proof {
            reveal_strlit("New value for ");
            reveal_strlit(" is ");
            reveal_strlit(".");
        }
        let mut r = Vec::new();
        let p1 = str_to_bytes("New value for ");
        append_bytes(&mut r, p1.as_slice());
        append_bytes(&mut r, id);
        let p2 = str_to_bytes(" is ");
        append_bytes(&mut r, p2.as_slice());
        append_bytes(&mut r, val);
        let p3 = str_to_bytes(".");
        append_bytes(&mut r, p3.as_slice());
        proof {
            assert(r@ =~= self.property_value_set_spec(id@, val@));
        }
        r
    }

    fn cmd_not_recognized(&self) -> (r: Vec<u8>) {
        proof {
            reveal_strlit("Command not recognized.");
        }
        str_to_bytes("Command not recognized.")
    }
}

} // verus!
