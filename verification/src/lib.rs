//! A helper library for implementing a low-level terminal command line
//! interface, like those on embedded bare-bones environments with a UART
//! port.
//!
//! The core is a byte-oriented line matcher with autocompletion, a property
//! get/set layer with typed parsing and range validation, and a prompt
//! state machine that consumes one decoded key at a time.  A small escape
//! sequence decoder and a minimal Telnet negotiation codec sit at the
//! edges; the terminal I/O backends themselves live outside the library
//! and exchange plain bytes and [`keys::Key`] values with it.

pub mod autocomplete;
pub mod cli;
pub mod cli_command;
pub mod cli_property;
pub mod i18n;
pub mod keys;
pub mod keys_terminal;
pub mod prompt_buffer;
pub mod property;
pub mod terminal;
pub mod terminal_telnet;
pub mod utils;

pub use autocomplete::{
    AutocompleteLine, AutocompleteResult, CliCommand, CliError, CliLineMatcher, LineBufferResult,
    LineMatcherMode, LineMatcherProgress,
};
pub use cli::{CliExecutor, CliRegistry, PrefixedExecutor};
pub use cli_command::CommandContext;
pub use cli_property::{
    PropertyCommandStyle, PropertyContext, PropertyContextCommon, PropertyContextGet,
    PropertyContextSet,
};
pub use i18n::{English, Strings};
pub use keys::{DirectionKey, Key, KeyDecoder, KeyDecoderError};
pub use keys_terminal::TerminalKeyDecoder;
pub use prompt_buffer::{NewlineSequence, PromptBuffer, PromptBufferOptions, PromptEvent};
pub use property::{
    new_property, new_property_min_max, validate_property_min_max, CliPropertyData, Property,
    PropertyValidationError, ValueBool, ValueCombineValidators, ValueInput, ValueInputFromStr,
    ValueInputValidate, ValueInputWithValidation, ValueMax, ValueMin, ValueOutput,
    ValueOutputToString,
};
pub use terminal::{
    BufferTerminal, CharacterTerminalReader, CharacterTerminalWriter, TerminalError,
};
pub use terminal_telnet::{
    TelnetCommand, TelnetError, TelnetEvent, TelnetStream, TelnetSubcommand, TelnetTerminal,
    TelnetTerminalState,
};
pub use utils::{format_in_columns, longest_common_prefix};
