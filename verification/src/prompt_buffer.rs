//! The prompt state machine: the live line buffer and the per-session
//! autocomplete state, driven one key at a time.

use vstd::prelude::*;
use crate::autocomplete::{
    lemma_reduce_single_extends, reduce_model, AutocompleteLine, AutocompleteResult,
    AutocompleteResultModel, CliLineMatcher, LineBufferModel, LineBufferResult, LineMatcherMode,
};
use crate::cli::{CliExecutor, CliRegistry};
use crate::keys::Key;
use crate::property::{trim_bytes, trim_spec};
use crate::terminal::CharacterTerminalWriter;
use crate::utils::{
    append_bytes, ascii_bytes, columns_output, format_in_columns, lemma_prefix_split, str_to_bytes,
};

verus! {

/// What key handling can signal to the host application.
#[derive(Debug, Copy, Clone, PartialEq, Eq, Structural)]
pub enum PromptEvent {
    Break,
}

/// Which key finishes a line.
#[derive(Debug, Copy, Clone, PartialEq, Eq, Structural)]
pub enum NewlineSequence {
    Newline,
    CarriageReturn,
    NewlineOrCarriageReturn,
}

/// Whether this key finishes the line under the given policy.
pub open spec fn line_finished(seq: NewlineSequence, key: Key) -> bool {
    match seq {
        NewlineSequence::Newline => key == Key::Newline,
        NewlineSequence::CarriageReturn => key == Key::CarriageReturn,
        NewlineSequence::NewlineOrCarriageReturn => key == Key::Newline || key
            == Key::CarriageReturn,
    }
}

/// The bytes of the complaint about an unmatched non-blank line.
pub open spec fn not_recognized_message() -> Seq<u8> {
    ascii_bytes("Command not recognized."@)
}

/// Whether `after` is `before`, then one matching pass's callback output,
/// then `tail`.  What the callback writes is its own; only its place in
/// the stream is fixed.
pub open spec fn pass_output(before: Seq<u8>, tail: Seq<u8>, after: Seq<u8>) -> bool {
    exists|cb: Seq<u8>| after == #[trigger] (before + cb) + tail
}

proof fn lemma_tab_noop(buffer: Seq<u8>, w0: Seq<u8>, cb: Seq<u8>, w1: Seq<u8>)
    requires
        w1 == w0 + cb,
    ensures
        buffer.is_prefix_of(buffer),
        buffer.skip(buffer.len() as int) =~= Seq::<u8>::empty(),
        pass_output(w0, buffer.skip(buffer.len() as int), w1),
        w0.is_prefix_of(w1),
{
    assert(buffer.subrange(0, buffer.len() as int) =~= buffer);
    assert(w1 =~= (w0 + cb) + buffer.skip(buffer.len() as int));
    assert(w1.subrange(0, w0.len() as int) =~= w0);
}

/// Options for the prompt buffer
pub struct PromptBufferOptions {
    /// Prompt sequence to be printed after every newline
    pub prompt: Vec<u8>,
    /// Newline sequence to be used in the suggestion listing
    pub newline: Vec<u8>,
    /// Maximum size of the line buffer; further characters are ignored
    pub max_line_length: usize,
    /// Echo the typed characters?
    pub echo: bool,
    /// Input newline key sequence
    pub newline_key_sequence: NewlineSequence,
}

impl Default for PromptBufferOptions {
    /// `# ` prompt, `\r\n` listing newline, 512 byte lines, echo on, either
    /// newline key.
    fn default() -> (r: PromptBufferOptions)
        ensures
            r.prompt@ == ascii_bytes("# "@),
            r.newline@ == ascii_bytes("\r\n"@),
            r.max_line_length == 512,
            r.echo == true,
            r.newline_key_sequence == NewlineSequence::NewlineOrCarriageReturn,
    {
        proof {
            reveal_strlit("# ");
            reveal_strlit("\r\n");
        }
        PromptBufferOptions {
            prompt: str_to_bytes("# "),
            newline: str_to_bytes("\r\n"),
            max_line_length: 512,
            echo: true,
            newline_key_sequence: NewlineSequence::NewlineOrCarriageReturn,
        }
    }
}

enum AutocompleteRequest {
    Idle,
    HaveMultipleOptions { lines: Vec<AutocompleteLine> },
}

/// Holds the current line buffer for a terminal and its possible
/// autocomplete state.
pub struct PromptBuffer {
    line_buffer: Vec<u8>,
    autocomplete: AutocompleteRequest,
    options: PromptBufferOptions,
}

impl PromptBuffer {
    /// The in-progress, uncommitted line.
    pub closed spec fn buffer_spec(&self) -> Seq<u8> {
        self.line_buffer@
    }

    /// Whether a first Tab press left candidates pending for a second one.
    pub closed spec fn awaiting(&self) -> bool {
        self.autocomplete is HaveMultipleOptions
    }

    /// The display parts pending from the first Tab press.
    pub closed spec fn awaiting_displays(&self) -> Seq<Seq<u8>> {
        match self.autocomplete {
            AutocompleteRequest::HaveMultipleOptions { lines } => lines@.map_values(
                |l: AutocompleteLine| l@.display,
            ),
            AutocompleteRequest::Idle => Seq::<Seq<u8>>::empty(),
        }
    }

    pub closed spec fn prompt_spec(&self) -> Seq<u8> {
        self.options.prompt@
    }

    pub closed spec fn newline_spec(&self) -> Seq<u8> {
        self.options.newline@
    }

    pub closed spec fn echo_spec(&self) -> bool {
        self.options.echo
    }

    pub closed spec fn max_len_spec(&self) -> usize {
        self.options.max_line_length
    }

    pub closed spec fn terminator_spec(&self) -> NewlineSequence {
        self.options.newline_key_sequence
    }

    /// The configuration, which no key changes.
    pub open spec fn options_unchanged(&self, other: &Self) -> bool {
        &&& self.prompt_spec() == other.prompt_spec()
        &&& self.newline_spec() == other.newline_spec()
        &&& self.echo_spec() == other.echo_spec()
        &&& self.max_len_spec() == other.max_len_spec()
        &&& self.terminator_spec() == other.terminator_spec()
    }

    /// Create a new prompt buffer
    pub fn new(options: PromptBufferOptions) -> (r: PromptBuffer)
        ensures
            r.buffer_spec() == Seq::<u8>::empty(),
            !r.awaiting(),
            r.prompt_spec() == options.prompt@,
            r.newline_spec() == options.newline@,
            r.echo_spec() == options.echo,
            r.max_len_spec() == options.max_line_length,
            r.terminator_spec() == options.newline_key_sequence,
    {
        let r = PromptBuffer {
            line_buffer: Vec::new(),
            autocomplete: AutocompleteRequest::Idle,
            options,
        };
        proof {
            assert(r.line_buffer@ =~= Seq::<u8>::empty());
        }
        r
    }

    /// Print the prompt
    pub fn print_prompt<T: CharacterTerminalWriter>(&self, output: &mut T)
        ensures
            final(output).written() == old(output).written() + self.prompt_spec(),
            final(output).newline_bytes() == old(output).newline_bytes(),
    {
        output.print(self.options.prompt.as_slice());
    }

    /// Handle the incoming key press.  The registry callback is invoked to
    /// match the commands, for execution when a line is finished and for
    /// suggestion when Tab is pressed.
    ///
    /// One key is fully processed before the next: the buffer mutation, at
    /// most one matching pass, and the echo all happen here.  Unless the
    /// key was a first Tab press, any pending autocomplete state is
    /// dropped, except on the two immediate session-end signals, which
    /// leave it as it stands.
    ///
    /// A finished line always emits a newline first and reprints the
    /// prompt last; between them stand the callback's own writes and, on
    /// an unmatched non-blank line, the complaint.  A first Tab press
    /// either holds candidates back, leaving the line alone, or extends
    /// the line and echoes exactly the appended bytes.
    pub fn handle_key<T: CharacterTerminalWriter, R: CliRegistry<T>>(
        &mut self,
        key: Key,
        terminal: &mut T,
        call_commands: &mut R,
    ) -> (r: Option<PromptEvent>)
        ensures
            final(self).options_unchanged(old(self)),
            final(terminal).newline_bytes() == old(terminal).newline_bytes(),
            old(terminal).written().is_prefix_of(final(terminal).written()),
            r == if key == Key::Eot || (key == Key::Break && old(self).buffer_spec().len() == 0) {
                Some(PromptEvent::Break)
            } else {
                Option::<PromptEvent>::None
            },
            line_finished(old(self).terminator_spec(), key) ==> {
                &&& final(self).buffer_spec() == Seq::<u8>::empty()
                &&& !final(self).awaiting()
                &&& (old(terminal).written() + old(terminal).newline_bytes()).is_prefix_of(
                    final(terminal).written(),
                )
                &&& (pass_output(
                    old(terminal).written() + old(terminal).newline_bytes(),
                    old(self).prompt_spec(),
                    final(terminal).written(),
                ) || pass_output(
                    old(terminal).written() + old(terminal).newline_bytes(),
                    not_recognized_message() + old(terminal).newline_bytes() + old(self).prompt_spec(),
                    final(terminal).written(),
                ))
                &&& trim_spec(old(self).buffer_spec()).len() == 0 ==> pass_output(
                    old(terminal).written() + old(terminal).newline_bytes(),
                    old(self).prompt_spec(),
                    final(terminal).written(),
                )
            },
            !line_finished(old(self).terminator_spec(), key) ==> match key {
                Key::Character(c) => {
                    &&& if c != 13 && old(self).buffer_spec().len() < old(self).max_len_spec() {
                        &&& final(self).buffer_spec() == old(self).buffer_spec().push(c)
                        &&& final(terminal).written() == old(terminal).written() + if old(self).echo_spec() {
                            seq![c]
                        } else {
                            Seq::<u8>::empty()
                        }
                    } else {
                        &&& final(self).buffer_spec() == old(self).buffer_spec()
                        &&& final(terminal).written() == old(terminal).written()
                    }
                    &&& !final(self).awaiting()
                },
                Key::Backspace => {
                    &&& if old(self).buffer_spec().len() > 0 {
                        &&& final(self).buffer_spec() == old(self).buffer_spec().drop_last()
                        &&& final(terminal).written() == old(terminal).written() + if old(self).echo_spec() {
                            seq![8u8, 32u8, 8u8]
                        } else {
                            Seq::<u8>::empty()
                        }
                    } else {
                        &&& final(self).buffer_spec() == old(self).buffer_spec()
                        &&& final(terminal).written() == old(terminal).written()
                    }
                    &&& !final(self).awaiting()
                },
                Key::Arrow(d) => {
                    &&& final(self).buffer_spec() == old(self).buffer_spec()
                    &&& final(terminal).written() == old(terminal).written()
                    &&& !final(self).awaiting()
                },
                Key::Newline => {
                    &&& final(self).buffer_spec() == old(self).buffer_spec()
                    &&& final(terminal).written() == old(terminal).written()
                    &&& !final(self).awaiting()
                },
                Key::CarriageReturn => {
                    &&& final(self).buffer_spec() == old(self).buffer_spec()
                    &&& final(terminal).written() == old(terminal).written()
                    &&& !final(self).awaiting()
                },
                Key::Break => {
                    if old(self).buffer_spec().len() == 0 {
                        &&& final(self).buffer_spec() == old(self).buffer_spec()
                        &&& final(terminal).written() == old(terminal).written()
                        &&& final(self).awaiting() == old(self).awaiting()
                    } else {
                        &&& final(self).buffer_spec() == Seq::<u8>::empty()
                        &&& final(terminal).written() == old(terminal).written() + old(terminal).newline_bytes() + old(self).prompt_spec()
                        &&& !final(self).awaiting()
                    }
                },
                Key::Eot => {
                    &&& final(self).buffer_spec() == old(self).buffer_spec()
                    &&& final(terminal).written() == old(terminal).written()
                    &&& final(self).awaiting() == old(self).awaiting()
                },
                Key::Tab => {
                    &&& (old(self).awaiting() ==> final(self).buffer_spec() == old(self).buffer_spec() && !final(self).awaiting() && final(terminal).written() == old(terminal).written() + old(terminal).newline_bytes() + columns_output(
                        old(self).awaiting_displays(),
                        80,
                        4,
                        old(self).newline_spec(),
                    ) + old(self).prompt_spec() + old(self).buffer_spec())
                    &&& (!old(self).awaiting() && final(self).awaiting() ==> final(self).buffer_spec() == old(self).buffer_spec())
                    &&& (!old(self).awaiting() && !final(self).awaiting() ==> old(self).buffer_spec().is_prefix_of(final(self).buffer_spec()) && pass_output(
                        old(terminal).written(),
                        final(self).buffer_spec().skip(old(self).buffer_spec().len() as int),
                        final(terminal).written(),
                    ))
                },
            },
    {
        let is_line_finished: bool = match self.options.newline_key_sequence {
            NewlineSequence::Newline => matches!(key, Key::Newline),
            NewlineSequence::CarriageReturn => matches!(key, Key::CarriageReturn),
            NewlineSequence::NewlineOrCarriageReturn => matches!(key, Key::Newline)
                || matches!(key, Key::CarriageReturn),
        };

        if is_line_finished {
            terminal.print_newline_sequence();
            let ghost w_nl = terminal.written();
            proof {
                assert(w_nl == old(terminal).written() + old(terminal).newline_bytes());
            }

            let matcher = CliLineMatcher::new(
                self.line_buffer.as_slice(),
                LineMatcherMode::Execute,
            );
            let mut executor = CliExecutor::new(matcher);
            call_commands.call_commands(&mut executor, terminal);
            let ghost cb = terminal.written().skip(w_nl.len() as int);
            proof {
                lemma_prefix_split(w_nl, terminal.written());
            }
            let result = executor.close().finish();

            let ghost mut printed_msg = false;
            match result {
                LineBufferResult::NoMatchFound => {
                    let trimmed = trim_bytes(self.line_buffer.as_slice());
                    if trimmed.len() > 0 {
                        proof {
                            reveal_strlit("Command not recognized.");
                        }
                        let msg = str_to_bytes("Command not recognized.");
                        terminal.print(msg.as_slice());
                        terminal.print_newline_sequence();
                        proof {
                            printed_msg = true;
                            assert(terminal.written() == w_nl + cb + not_recognized_message()
                                + old(terminal).newline_bytes());
                            assert(trim_spec(old(self).buffer_spec()).len() > 0);
                        }
                    }
                },
                _ => {},
            }
            proof {
                assert(terminal.written() == if printed_msg {
                    w_nl + cb + not_recognized_message() + old(terminal).newline_bytes()
                } else {
                    w_nl + cb
                });
                assert(printed_msg ==> trim_spec(old(self).buffer_spec()).len() > 0);
            }

            self.line_buffer.clear();
            self.print_prompt(terminal);
            self.autocomplete = AutocompleteRequest::Idle;
            proof {
                assert(self.line_buffer@ =~= Seq::<u8>::empty());
                let w_final = terminal.written();
                if printed_msg {
                    assert(w_final =~= (w_nl + cb) + (not_recognized_message() + old(terminal).newline_bytes() + old(self).prompt_spec()));
                    assert(pass_output(
                        w_nl,
                        not_recognized_message() + old(terminal).newline_bytes() + old(self).prompt_spec(),
                        w_final,
                    ));
                } else {
                    assert(w_final =~= (w_nl + cb) + old(self).prompt_spec());
                    assert(pass_output(w_nl, old(self).prompt_spec(), w_final));
                }
                assert(w_nl.is_prefix_of(w_final)) by {
                    assert(w_final.subrange(0, w_nl.len() as int) =~= w_nl);
                }
                assert(old(terminal).written().is_prefix_of(w_final)) by {
                    assert(w_final.subrange(0, old(terminal).written().len() as int) =~= old(terminal).written());
                }
            }
            return None;
        }

        let mut handled_autocomplete = false;

        match key {
            Key::Tab => {
                let awaiting = matches!(
                    self.autocomplete,
                    AutocompleteRequest::HaveMultipleOptions { .. },
                );
                if !awaiting {
                    let ghost w0 = terminal.written();
                    let matcher = CliLineMatcher::new(
                        self.line_buffer.as_slice(),
                        LineMatcherMode::AutocompleteOnly,
                    );
                    let mut executor = CliExecutor::new(matcher);
                    call_commands.call_commands(&mut executor, terminal);
                    let ghost cb = terminal.written().skip(w0.len() as int);
                    proof {
                        assert(w0 == old(terminal).written());
                        lemma_prefix_split(w0, terminal.written());
                    }
                    let m_fin = executor.close();
                    let ghost st = m_fin.state_model();
                    let ghost pass_line = m_fin.line_spec();
                    let ghost pass_sep = m_fin.sep_spec();
                    let result = m_fin.finish();
                    let ghost rm = result@;

                    match result {
                        LineBufferResult::Autocomplete { result } => match result {
                            AutocompleteResult::NoSuggestion => {
                                proof {
                                    lemma_tab_noop(old(self).buffer_spec(), w0, cb, terminal.written());
                                }
                            },
                            AutocompleteResult::SingleMatch { line } => {
                                proof {
                                    // the suggestion extends the typed line,
                                    // whether it came out of the reducer or
                                    // stood settled already
                                    assert(pass_line == old(self).buffer_spec());
                                    match st {
                                        LineBufferModel::MoreInputRequired(pm) => {
                                            assert(rm == LineBufferModel::Autocomplete(
                                                reduce_model(pm, pass_line, pass_sep),
                                            ));
                                            assert(reduce_model(pm, pass_line, pass_sep)
                                                == AutocompleteResultModel::SingleMatch(line@));
                                            lemma_reduce_single_extends(pm, pass_line, pass_sep);
                                        },
                                        LineBufferModel::Autocomplete(am) => {
                                            assert(am == AutocompleteResultModel::SingleMatch(
                                                line@,
                                            ));
                                        },
                                        _ => {
                                            assert(false);
                                        },
                                    }
                                    assert(pass_line.is_prefix_of(line@.full));
                                    assert(line@.additional == line@.full.skip(
                                        pass_line.len() as int,
                                    ));
                                }
                                // immediately send the new bytes, and replace the
                                // buffer with the suggestion so that future
                                // invocations stay consistent
                                terminal.print(line.get_additional_part().as_slice());
                                self.line_buffer.clear();
                                append_bytes(
                                    &mut self.line_buffer,
                                    line.get_full_new_line().as_slice(),
                                );
                                proof {
                                    let ob = old(self).buffer_spec();
                                    assert(self.line_buffer@ =~= line@.full);
                                    assert(ob.is_prefix_of(self.line_buffer@));
                                    let suffix = self.line_buffer@.skip(ob.len() as int);
                                    assert(suffix == line@.additional);
                                    assert(terminal.written() =~= (w0 + cb) + suffix);
                                    assert(pass_output(w0, suffix, terminal.written()));
                                    assert(old(terminal).written().is_prefix_of(
                                        terminal.written(),
                                    )) by {
                                        assert(terminal.written().subrange(
                                            0,
                                            w0.len() as int,
                                        ) =~= w0);
                                    }
                                }
                            },
                            AutocompleteResult::MultipleMatches { lines } => {
                                // first Tab press with several options: hold them
                                // until the user presses Tab again
                                self.autocomplete = AutocompleteRequest::HaveMultipleOptions {
                                    lines,
                                };
                            },
                        },
                        _ => {
                            proof {
                                lemma_tab_noop(old(self).buffer_spec(), w0, cb, terminal.written());
                            }
                        },
                    }
                    handled_autocomplete = true;
                } else {
                    // second Tab press: list the options in columns, then
                    // restore the prompt and the current buffer
                    terminal.print_newline_sequence();
                    let displays: Vec<Vec<u8>> = match &self.autocomplete {
                        AutocompleteRequest::HaveMultipleOptions { lines } => {
                            let mut v: Vec<Vec<u8>> = Vec::new();
                            let mut i: usize = 0;
                            while i < lines.len()
                                invariant
                                    i <= lines@.len(),
                                    v@.len() == i,
                                    forall|k: int|
                                        0 <= k < i ==> (#[trigger] v@[k])@ == lines@[k]@.display,
                                decreases lines@.len() - i,
                            {
                                let d = lines[i].get_display();
                                let mut c: Vec<u8> = Vec::new();
                                append_bytes(&mut c, d.as_slice());
                                v.push(c);
                                i += 1;
                            }
                            proof {
                                let m = lines@.map_values(|l: AutocompleteLine| l@.display);
                                assert(v.deep_view() =~= m) by {
                                    assert(v.deep_view().len() == v@.len());
                                    assert forall|k: int|
                                        0 <= k < v@.len() implies v.deep_view()[k] == m[k] by {
                                        assert(v.deep_view()[k] == v@[k].deep_view());
                                        assert(v@[k].deep_view() =~= v@[k]@);
                                    }
                                }
                            }
                            v
                        },
                        _ => Vec::new(),
                    };
                    proof {
                        assert(displays.deep_view() == old(self).awaiting_displays());
                    }
                    let _ok = format_in_columns(
                        displays.as_slice(),
                        80,
                        4,
                        self.options.newline.as_slice(),
                        terminal,
                    );
                    self.print_prompt(terminal);
                    terminal.print(self.line_buffer.as_slice());
                    proof {
                        assert(terminal.written() =~= old(terminal).written() + old(terminal).newline_bytes() + columns_output(
                            old(self).awaiting_displays(),
                            80,
                            4,
                            old(self).newline_spec(),
                        ) + old(self).prompt_spec() + old(self).buffer_spec());
                        assert(old(terminal).written().is_prefix_of(terminal.written())) by {
                            assert(terminal.written().subrange(
                                0,
                                old(terminal).written().len() as int,
                            ) =~= old(terminal).written());
                        }
                    }
                }
            },
            Key::Newline => {},
            Key::CarriageReturn => {},
            Key::Backspace => {
                let popped = self.line_buffer.pop();
                if popped.is_some() {
                    if self.options.echo {
                        let mut erase: Vec<u8> = Vec::new();
                        erase.push(8);
                        erase.push(32);
                        erase.push(8);
                        proof {
                            assert(erase@ =~= seq![8u8, 32u8, 8u8]);
                        }
                        terminal.print(erase.as_slice());
                        proof {
                            assert(old(terminal).written().is_prefix_of(terminal.written())) by {
                                assert(terminal.written().subrange(
                                    0,
                                    old(terminal).written().len() as int,
                                ) =~= old(terminal).written());
                            }
                        }
                    }
                }
            },
            Key::Break => {
                if self.line_buffer.len() == 0 {
                    return Some(PromptEvent::Break);
                }
                // clear the line
                self.line_buffer.clear();
                terminal.print_newline_sequence();
                self.print_prompt(terminal);
                proof {
                    assert(self.line_buffer@ =~= Seq::<u8>::empty());
                    assert(terminal.written() =~= old(terminal).written() + old(terminal).newline_bytes() + old(self).prompt_spec());
                    assert(old(terminal).written().is_prefix_of(terminal.written())) by {
                        assert(terminal.written().subrange(
                            0,
                            old(terminal).written().len() as int,
                        ) =~= old(terminal).written());
                    }
                }
            },
            Key::Eot => {
                return Some(PromptEvent::Break);
            },
            Key::Arrow(_) => {},
            Key::Character(c) => {
                if c != 13 {
                    if self.line_buffer.len() < self.options.max_line_length {
                        self.line_buffer.push(c);
                        if self.options.echo {
                            let mut one: Vec<u8> = Vec::new();
                            one.push(c);
                            proof {
                                assert(one@ =~= seq![c]);
                            }
                            terminal.print(one.as_slice());
                            proof {
                                assert(old(terminal).written().is_prefix_of(terminal.written()))
                                    by {
                                    assert(terminal.written().subrange(
                                        0,
                                        old(terminal).written().len() as int,
                                    ) =~= old(terminal).written());
                                }
                            }
                        }
                    }
                }
            },
        }

        if !handled_autocomplete {
            // reset autocomplete state
            self.autocomplete = AutocompleteRequest::Idle;
        }

        None
    }
}

} // verus!
