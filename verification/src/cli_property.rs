//! Contexts handed out when a property's `get` or `set` pattern matched.

use vstd::prelude::*;
use crate::i18n::Strings;
use crate::property::{PropertyValidationError, ValueOutput};
use crate::terminal::CharacterTerminalWriter;
use crate::utils::{append_bytes, ascii_bytes, str_to_bytes};

verus! {

/// How get and set commands are spelled.
pub enum PropertyCommandStyle {
    /// `<id>/get` and `<id>/set <value>`
    DelimitedGetSet,
}

/// What both property contexts carry.
pub struct PropertyContextCommon {
    /// What followed the matched pattern on the line
    pub args: Vec<u8>,
    /// The path under which the property was registered
    pub current_path: Vec<u8>,
    /// The property's name
    pub id: Vec<u8>,
    /// The command spelling in use
    pub style: PropertyCommandStyle,
}

impl PropertyContextCommon {
    pub fn get_args(&self) -> (r: &Vec<u8>)
        ensures
            r@ == self.args@,
    {
        &self.args
    }

    pub fn get_current_path(&self) -> (r: &Vec<u8>)
        ensures
            r@ == self.current_path@,
    {
        &self.current_path
    }

    pub fn get_property_id(&self) -> (r: &Vec<u8>)
        ensures
            r@ == self.id@,
    {
        &self.id
    }
}

/// The formatted value, or nothing when the formatter refused it.
pub open spec fn fmt_or_empty<V>(r: Result<Seq<u8>, PropertyValidationError<V>>) -> Seq<u8> {
    match r {
        Ok(b) => b,
        Err(e) => Seq::<u8>::empty(),
    }
}

/// A matched `<id>/get`.
pub struct PropertyContextGet {
    pub common: PropertyContextCommon,
}

impl PropertyContextGet {
    /// Print `<id> = <value>` through the value formatter.
    pub fn print_value_display<V, O: ValueOutput<V>, W: CharacterTerminalWriter>(
        &self,
        val: &V,
        output: &O,
        terminal: &mut W,
    )
        ensures
            final(terminal).newline_bytes() == old(terminal).newline_bytes(),
            final(terminal).written() == old(terminal).written() + self.common.id@ + ascii_bytes(
                " = "@,
            ) + fmt_or_empty(output.output_spec(*val)) + old(terminal).newline_bytes(),
    {
        proof {
            reveal_strlit(" = ");
        }
        let vb: Vec<u8> = match output.output(val) {
            Ok(b) => b,
            Err(e) => Vec::new(),
        };
        proof {
            assert(vb@ == fmt_or_empty(output.output_spec(*val)));
        }
        let mut msg: Vec<u8> = Vec::new();
        append_bytes(&mut msg, self.common.id.as_slice());
        let eq = str_to_bytes(" = ");
        append_bytes(&mut msg, eq.as_slice());
        append_bytes(&mut msg, vb.as_slice());
        terminal.print(msg.as_slice());
        terminal.print_newline_sequence();
        proof {
            assert(final(terminal).written() =~= old(terminal).written() + self.common.id@
                + ascii_bytes(" = "@) + fmt_or_empty(output.output_spec(*val)) + old(terminal).newline_bytes());
        }
    }
}

/// A matched `<id>/set` whose value parsed.
pub struct PropertyContextSet<V> {
    pub common: PropertyContextCommon,
    pub value: V,
}

/// A matched property command: either a retrieval or an update carrying
/// the parsed value.
pub enum PropertyContext<V> {
    Get(PropertyContextGet),
    SetValue(PropertyContextSet<V>),
}

impl<V: Copy> PropertyContext<V> {
    /// Retrieve or update the variable: a get prints it, a set stores the
    /// parsed value and confirms.
    pub fn apply<O: ValueOutput<V>, S: Strings, W: CharacterTerminalWriter>(
        self,
        property_value: &mut V,
        output: &O,
        strings: &S,
        terminal: &mut W,
    )
        ensures
            final(terminal).newline_bytes() == old(terminal).newline_bytes(),
            match self {
                PropertyContext::Get(g) => *final(property_value) == *old(property_value) && final(terminal).written() == old(terminal).written() + g.common.id@ + ascii_bytes(" = "@)
                    + fmt_or_empty(output.output_spec(*old(property_value))) + old(terminal).newline_bytes(),
                PropertyContext::SetValue(s) => *final(property_value) == s.value && final(terminal).written() == old(terminal).written() + strings.property_value_set_spec(
                    s.common.id@,
                    fmt_or_empty(output.output_spec(s.value)),
                ) + old(terminal).newline_bytes(),
            },
    {
        match self {
            PropertyContext::Get(get) => {
                get.print_value_display(property_value, output, terminal);
            },
            PropertyContext::SetValue(set) => {
                *property_value = set.value;
                let vb: Vec<u8> = match output.output(&set.value) {
                    Ok(b) => b,
                    Err(e) => Vec::new(),
                };
                let msg = strings.property_value_set(set.common.id.as_slice(), vb.as_slice());
                terminal.print(msg.as_slice());
                terminal.print_newline_sequence();
            },
        }
    }
}

} // verus!
