use terminal_cli::{
    DirectionKey, Key, KeyDecoderError, TelnetCommand, TelnetStream, TelnetSubcommand,
    TelnetTerminal, TerminalKeyDecoder,
};

#[test]
fn test_escape_sequences() {
    {
        let mut decoder = TerminalKeyDecoder::new();
        assert_eq!(Err(KeyDecoderError::MoreInputRequired), decoder.decode(27));
        assert_eq!(Err(KeyDecoderError::MoreInputRequired), decoder.decode(91));
        assert_eq!(Ok(Key::Arrow(DirectionKey::Up)), decoder.decode(65));
    }
}

#[test]
fn test_decode_plain_keys() {
    let mut decoder = TerminalKeyDecoder::new();
    assert_eq!(Ok(Key::Character(b'a')), decoder.decode(b'a'));
    assert_eq!(Ok(Key::Backspace), decoder.decode(0x7f));
    assert_eq!(Ok(Key::Tab), decoder.decode(0x09));
    assert_eq!(Ok(Key::Newline), decoder.decode(0x0a));
    assert_eq!(Ok(Key::Break), decoder.decode(0x03));
    assert_eq!(Ok(Key::CarriageReturn), decoder.decode(0x0d));
    assert_eq!(Ok(Key::Eot), decoder.decode(4));
}

#[test]
fn test_decode_unknown_sequence_recovers() {
    let mut decoder = TerminalKeyDecoder::new();
    assert_eq!(Err(KeyDecoderError::MoreInputRequired), decoder.decode(27));
    assert_eq!(Err(KeyDecoderError::UnknownSequence), decoder.decode(b'x'));
    // the pending bytes are dropped; decoding goes on
    assert_eq!(Ok(Key::Character(b'y')), decoder.decode(b'y'));
}

#[test]
fn test_telnet_dec() {
    let client_hello = [
        0xff, 0xfb, 0x1f, 0xff, 0xfb, 0x20, 0xff, 0xfb, 0x18, 0xff, 0xfb, 0x27, 0xff, 0xfd, 0x01,
        0xff, 0xfb, 0x03, 0xff, 0xfd, 0x03,
    ];

    let s = TelnetTerminal::parse(&client_hello);

    assert_eq!(
        &s,
        &[
            TelnetStream::Command(TelnetCommand::Will, TelnetSubcommand::NegotiateAboutWindowSize),
            TelnetStream::Command(TelnetCommand::Will, TelnetSubcommand::TerminalSpeed),
            TelnetStream::Command(TelnetCommand::Will, TelnetSubcommand::TerminalType),
            TelnetStream::Command(TelnetCommand::Will, TelnetSubcommand::NewEnvironmentOption),
            TelnetStream::Command(TelnetCommand::Do, TelnetSubcommand::Echo),
            TelnetStream::Command(TelnetCommand::Will, TelnetSubcommand::SuppressGoAhead),
            TelnetStream::Command(TelnetCommand::Do, TelnetSubcommand::SuppressGoAhead)
        ]
    );

    let n = TelnetStream::all_to_network(&s);
    assert_eq!(&n[..], &client_hello[..]);

    let window_size = [0xff, 0xfa, 0x1f, 0x00, 0x50, 0x00, 0x18, 0xff, 0xf0];
    let s = TelnetTerminal::parse(&window_size);
    assert_eq!(
        &s,
        &[TelnetStream::Suboption(
            TelnetSubcommand::NegotiateAboutWindowSize,
            vec![0, 80, 0, 24]
        )]
    );

    let n = TelnetStream::all_to_network(&s);
    assert_eq!(&n[..], &window_size[..]);
}

#[test]
fn test_telnet_hello_once() {
    let mut t = TelnetTerminal::new();
    let first = t.hello();
    assert_eq!(
        vec![
            TelnetStream::Command(TelnetCommand::Do, TelnetSubcommand::Echo),
            TelnetStream::Command(TelnetCommand::Will, TelnetSubcommand::Echo),
            TelnetStream::Command(TelnetCommand::Will, TelnetSubcommand::SuppressGoAhead),
        ],
        first
    );
    let again = t.hello();
    assert!(again.is_empty());
}

#[test]
fn test_telnet_escaped_byte() {
    let s = TelnetTerminal::parse(&[0xff, 0xff, b'a']);
    assert_eq!(&s, &[TelnetStream::Data(255), TelnetStream::Data(b'a')]);
}
