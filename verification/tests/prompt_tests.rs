use terminal_cli::{
    validate_property_min_max, BufferTerminal, CharacterTerminalWriter, CliExecutor, CliRegistry,
    DirectionKey, English, Key, PromptBuffer, PromptBufferOptions, PromptEvent, PropertyContext,
    ValueOutputToString,
};

/// A registry with one `help` command; it records the arguments of every
/// match and answers on the terminal.
struct HelpRegistry {
    matches: Vec<Vec<u8>>,
}

impl CliRegistry<BufferTerminal> for HelpRegistry {
    fn call_commands(&mut self, executor: &mut CliExecutor, terminal: &mut BufferTerminal) {
        if let Some(ctx) = executor.command(b"help") {
            self.matches.push(ctx.get_args().clone());
            terminal.print(b"Help!");
        }
    }
}

#[test]
fn test_end_to_end_help_session() {
    let options = PromptBufferOptions { echo: true, ..Default::default() };
    let mut prompt = PromptBuffer::new(options);
    let mut terminal = BufferTerminal::new();
    let mut registry = HelpRegistry { matches: Vec::new() };

    let input_keys = [
        Key::Character(b'h'),
        Key::Character(b'e'),
        Key::Character(b'l'),
        Key::Character(b'p'),
        Key::Newline,
    ];

    for key in &input_keys {
        let p = prompt.handle_key(*key, &mut terminal, &mut registry);
        assert_eq!(None, p);
    }

    // exactly one match, with no arguments
    assert_eq!(vec![b"".to_vec()], registry.matches);
    // echo, newline, the command's answer, and the fresh prompt
    assert_eq!(b"help\r\nHelp!# ".to_vec(), *terminal.bytes());

    // the buffer was cleared: an empty line matches nothing and prints no
    // complaint either
    let p = prompt.handle_key(Key::Newline, &mut terminal, &mut registry);
    assert_eq!(None, p);
    assert_eq!(vec![b"".to_vec()], registry.matches);
    assert_eq!(b"help\r\nHelp!# \r\n# ".to_vec(), *terminal.bytes());
}

#[test]
fn test_unrecognized_line() {
    let options = PromptBufferOptions { echo: false, ..Default::default() };
    let mut prompt = PromptBuffer::new(options);
    let mut terminal = BufferTerminal::new();
    let mut registry = HelpRegistry { matches: Vec::new() };

    for key in [Key::Character(b'x'), Key::Character(b'y'), Key::CarriageReturn] {
        prompt.handle_key(key, &mut terminal, &mut registry);
    }
    assert!(registry.matches.is_empty());
    assert_eq!(b"\r\nCommand not recognized.\r\n# ".to_vec(), *terminal.bytes());
}

struct StatusRegistry;

impl CliRegistry<BufferTerminal> for StatusRegistry {
    fn call_commands(&mut self, executor: &mut CliExecutor, terminal: &mut BufferTerminal) {
        if let Some(ctx) = executor.command(b"status") {
            let _ = ctx;
            terminal.print(b"ok");
        }
        if let Some(ctx) = executor.command(b"status net") {
            let _ = ctx;
            terminal.print(b"net ok");
        }
    }
}

#[test]
fn test_tab_completion_session() {
    let options = PromptBufferOptions { echo: true, ..Default::default() };
    let mut prompt = PromptBuffer::new(options);
    let mut terminal = BufferTerminal::new();
    let mut registry = StatusRegistry;

    prompt.handle_key(Key::Character(b's'), &mut terminal, &mut registry);
    prompt.handle_key(Key::Character(b't'), &mut terminal, &mut registry);

    // first Tab: the shared prefix of both commands is expanded at once
    prompt.handle_key(Key::Tab, &mut terminal, &mut registry);
    assert_eq!(b"status".to_vec(), *terminal.bytes());

    // next Tab: both candidates stay ambiguous and are held back
    prompt.handle_key(Key::Tab, &mut terminal, &mut registry);
    assert_eq!(b"status".to_vec(), *terminal.bytes());

    // a second Tab press lists them in columns and restores the line
    prompt.handle_key(Key::Tab, &mut terminal, &mut registry);
    assert_eq!(
        b"status\r\nstatus        status net    \r\n# status".to_vec(),
        *terminal.bytes()
    );
}

#[test]
fn test_break_and_eot() {
    let options = PromptBufferOptions { echo: false, ..Default::default() };
    let mut prompt = PromptBuffer::new(options);
    let mut terminal = BufferTerminal::new();
    let mut registry = HelpRegistry { matches: Vec::new() };

    // a break on a non-empty buffer only clears the line
    prompt.handle_key(Key::Character(b'x'), &mut terminal, &mut registry);
    assert_eq!(None, prompt.handle_key(Key::Break, &mut terminal, &mut registry));

    // a break on an empty buffer ends the session
    assert_eq!(
        Some(PromptEvent::Break),
        prompt.handle_key(Key::Break, &mut terminal, &mut registry)
    );

    // end of transmission always does
    prompt.handle_key(Key::Character(b'x'), &mut terminal, &mut registry);
    assert_eq!(
        Some(PromptEvent::Break),
        prompt.handle_key(Key::Eot, &mut terminal, &mut registry)
    );
}

#[test]
fn test_arrow_keys_are_ignored() {
    let options = PromptBufferOptions { echo: true, ..Default::default() };
    let mut prompt = PromptBuffer::new(options);
    let mut terminal = BufferTerminal::new();
    let mut registry = HelpRegistry { matches: Vec::new() };

    prompt.handle_key(Key::Character(b'h'), &mut terminal, &mut registry);
    prompt.handle_key(Key::Arrow(DirectionKey::Up), &mut terminal, &mut registry);
    prompt.handle_key(Key::Arrow(DirectionKey::Left), &mut terminal, &mut registry);
    // nothing was echoed or edited by the arrows
    assert_eq!(b"h".to_vec(), *terminal.bytes());
}

#[test]
fn test_line_length_limit() {
    // further characters are ignored once the configured maximum is
    // reached; they are not echoed either
    let options = PromptBufferOptions { max_line_length: 3, echo: true, ..Default::default() };
    let mut prompt = PromptBuffer::new(options);
    let mut terminal = BufferTerminal::new();
    let mut registry = HelpRegistry { matches: Vec::new() };

    for b in [b'h', b'e', b'l', b'p'] {
        prompt.handle_key(Key::Character(b), &mut terminal, &mut registry);
    }
    assert_eq!(b"hel".to_vec(), *terminal.bytes());
}

#[test]
fn test_backspace_editing() {
    let options = PromptBufferOptions { echo: true, ..Default::default() };
    let mut prompt = PromptBuffer::new(options);
    let mut terminal = BufferTerminal::new();
    let mut registry = HelpRegistry { matches: Vec::new() };

    for key in [
        Key::Character(b'h'),
        Key::Character(b'e'),
        Key::Character(b'l'),
        Key::Backspace,
        Key::Character(b'l'),
        Key::Character(b'p'),
        Key::Newline,
    ] {
        prompt.handle_key(key, &mut terminal, &mut registry);
    }
    assert_eq!(vec![b"".to_vec()], registry.matches);
}

#[test]
fn test_property_execution() {
    let parser = validate_property_min_max(1, 100);
    let output = ValueOutputToString;
    let strings = English;
    let mut num1: i64 = 5;

    // a set within bounds comes back as a context and applies
    {
        let matcher = terminal_cli::CliLineMatcher::new(
            b"num1/set 42",
            terminal_cli::LineMatcherMode::Execute,
        );
        let mut ex = CliExecutor::new(matcher);
        let mut term = BufferTerminal::new();
        let ctx = ex.property(b"num1", &parser, &output, &strings, &mut term);
        match ctx {
            Some(c) => c.apply(&mut num1, &output, &strings, &mut term),
            None => panic!("expected a set context"),
        }
        assert_eq!(42, num1);
        assert_eq!(b"New value for num1 is 42.\r\n".to_vec(), *term.bytes());
    }

    // a get prints the stored value
    {
        let matcher = terminal_cli::CliLineMatcher::new(
            b"num1/get",
            terminal_cli::LineMatcherMode::Execute,
        );
        let mut ex = CliExecutor::new(matcher);
        let mut term = BufferTerminal::new();
        let ctx = ex.property(b"num1", &parser, &output, &strings, &mut term);
        match ctx {
            Some(PropertyContext::Get(_)) => {},
            _ => panic!("expected a get context"),
        }
        match ctx {
            Some(c) => c.apply(&mut num1, &output, &strings, &mut term),
            None => unreachable!(),
        }
        assert_eq!(42, num1);
        assert_eq!(b"num1 = 42\r\n".to_vec(), *term.bytes());
    }

    // a set below the minimum consumes the match, reports, and applies
    // nothing
    {
        let matcher = terminal_cli::CliLineMatcher::new(
            b"num1/set 0",
            terminal_cli::LineMatcherMode::Execute,
        );
        let mut ex = CliExecutor::new(matcher);
        let mut term = BufferTerminal::new();
        let ctx = ex.property(b"num1", &parser, &output, &strings, &mut term);
        assert!(ctx.is_none());
        assert_eq!(42, num1);
        assert_eq!(
            b"num1: Value 0 is too small, the minimum value is 1.\r\n".to_vec(),
            *term.bytes()
        );
    }
}

#[test]
fn test_with_prefix_fast_path() {
    // the prefixed executor is entered only when the line starts with the
    // prefix; otherwise the prefix itself becomes a candidate
    let matcher =
        terminal_cli::CliLineMatcher::new(b"net stats 1", terminal_cli::LineMatcherMode::Execute);
    let mut ex = CliExecutor::new(matcher);
    let sub = ex.with_prefix(b"net ").expect("line starts with the prefix");
    let ctx = sub.command(&mut ex, b"stats").expect("prefixed command matches");
    assert_eq!(b"1".to_vec(), *ctx.get_args());

    let matcher =
        terminal_cli::CliLineMatcher::new(b"other", terminal_cli::LineMatcherMode::Execute);
    let mut ex = CliExecutor::new(matcher);
    assert!(ex.with_prefix(b"net ").is_none());
}
