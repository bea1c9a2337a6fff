//! A minimal Telnet option-negotiation codec: the byte filter that sits
//! between a network stream and the key decoder.

use vstd::prelude::*;
use crate::utils::bytes_range;

verus! {

/// Telnet commands that this codec understands.
#[derive(Debug, Copy, Clone, PartialEq, Eq, Structural)]
pub enum TelnetCommand {
    Will,
    Wont,
    Do,
    Dont,
    Nop,
    Suboption,
    SuboptionEnd,
}

/// Telnet options that this codec understands.
#[derive(Debug, Copy, Clone, PartialEq, Eq, Structural)]
pub enum TelnetSubcommand {
    Echo,
    SuppressGoAhead,
    NegotiateAboutWindowSize,
    TerminalSpeed,
    TerminalType,
    NewEnvironmentOption,
}

/// One decoded item of a Telnet stream.
#[derive(Debug, Clone, PartialEq)]
pub enum TelnetStream {
    Command(TelnetCommand, TelnetSubcommand),
    Suboption(TelnetSubcommand, Vec<u8>),
    CtrlC,
    CtrlD,
    Data(u8),
}

/// Ghost shape of one decoded item.
#[verifier::ext_equal]
pub enum TelnetStreamModel {
    Command(TelnetCommand, TelnetSubcommand),
    Suboption(TelnetSubcommand, Seq<u8>),
    CtrlC,
    CtrlD,
    Data(u8),
}

impl View for TelnetStream {
    type V = TelnetStreamModel;

    open spec fn view(&self) -> TelnetStreamModel {
        match self {
            TelnetStream::Command(a, b) => TelnetStreamModel::Command(*a, *b),
            TelnetStream::Suboption(a, d) => TelnetStreamModel::Suboption(*a, d@),
            TelnetStream::CtrlC => TelnetStreamModel::CtrlC,
            TelnetStream::CtrlD => TelnetStreamModel::CtrlD,
            TelnetStream::Data(d) => TelnetStreamModel::Data(*d),
        }
    }
}

/// The models of a sequence of decoded items.
pub open spec fn telnet_models(vs: Seq<TelnetStream>) -> Seq<TelnetStreamModel> {
    vs.map_values(|t: TelnetStream| t@)
}

/// The wire value of a command.
pub open spec fn telnet_command_val(c: TelnetCommand) -> u8 {
    match c {
        TelnetCommand::Will => 251,
        TelnetCommand::Wont => 252,
        TelnetCommand::Do => 253,
        TelnetCommand::Dont => 254,
        TelnetCommand::Nop => 241,
        TelnetCommand::Suboption => 250,
        TelnetCommand::SuboptionEnd => 240,
    }
}

/// The command a wire byte stands for.
pub open spec fn telnet_command_of(val: u8) -> Option<TelnetCommand> {
    if val == 251 {
        Some(TelnetCommand::Will)
    } else if val == 252 {
        Some(TelnetCommand::Wont)
    } else if val == 253 {
        Some(TelnetCommand::Do)
    } else if val == 254 {
        Some(TelnetCommand::Dont)
    } else if val == 241 {
        Some(TelnetCommand::Nop)
    } else if val == 250 {
        Some(TelnetCommand::Suboption)
    } else if val == 240 {
        Some(TelnetCommand::SuboptionEnd)
    } else {
        None
    }
}

/// The wire value of an option.
pub open spec fn telnet_subcommand_val(c: TelnetSubcommand) -> u8 {
    match c {
        TelnetSubcommand::Echo => 1,
        TelnetSubcommand::SuppressGoAhead => 3,
        TelnetSubcommand::NegotiateAboutWindowSize => 0x1f,
        TelnetSubcommand::TerminalSpeed => 0x20,
        TelnetSubcommand::TerminalType => 0x18,
        TelnetSubcommand::NewEnvironmentOption => 0x27,
    }
}

/// The option a wire byte stands for.
pub open spec fn telnet_subcommand_of(val: u8) -> Option<TelnetSubcommand> {
    if val == 1 {
        Some(TelnetSubcommand::Echo)
    } else if val == 3 {
        Some(TelnetSubcommand::SuppressGoAhead)
    } else if val == 0x1f {
        Some(TelnetSubcommand::NegotiateAboutWindowSize)
    } else if val == 0x20 {
        Some(TelnetSubcommand::TerminalSpeed)
    } else if val == 0x18 {
        Some(TelnetSubcommand::TerminalType)
    } else if val == 0x27 {
        Some(TelnetSubcommand::NewEnvironmentOption)
    } else {
        None
    }
}

/// The wire form of one decoded item.
pub open spec fn to_network_spec(m: TelnetStreamModel) -> Seq<u8> {
    match m {
        TelnetStreamModel::Command(a, b) => seq![
            255u8,
            telnet_command_val(a),
            telnet_subcommand_val(b),
        ],
        TelnetStreamModel::Suboption(a, d) => seq![255u8, 250u8, telnet_subcommand_val(a)] + d
            + seq![255u8, 240u8],
        TelnetStreamModel::CtrlC => seq![236u8],
        TelnetStreamModel::CtrlD => seq![248u8],
        TelnetStreamModel::Data(d) => seq![d],
    }
}

/// The wire form of a whole sequence of items.
pub open spec fn all_to_network_spec(ms: Seq<TelnetStreamModel>) -> Seq<u8>
    decreases ms.len(),
{
    if ms.len() == 0 {
        Seq::<u8>::empty()
    } else {
        to_network_spec(ms[0]) + all_to_network_spec(ms.skip(1))
    }
}

/// Trailing `IAC SE` removed from a suboption payload.
pub open spec fn strip_suboption_end(d: Seq<u8>) -> Seq<u8> {
    if d.len() >= 2 && d[d.len() - 2] == 255 && d[d.len() - 1] == 240 {
        d.take(d.len() - 2)
    } else {
        d
    }
}

/// What the parser makes of raw bytes: plain bytes become data, `IAC IAC`
/// an escaped 255, commands pair with their option, a suboption swallows
/// the rest of the datagram, and anything unreadable is dropped.
pub open spec fn telnet_parse_spec(s: Seq<u8>) -> Seq<TelnetStreamModel>
    decreases s.len(),
{
    if s.len() == 0 {
        Seq::<TelnetStreamModel>::empty()
    } else if s[0] != 255 {
        seq![TelnetStreamModel::Data(s[0])] + telnet_parse_spec(s.skip(1))
    } else if s.len() == 1 {
        Seq::<TelnetStreamModel>::empty()
    } else if s[1] == 255 {
        seq![TelnetStreamModel::Data(255u8)] + telnet_parse_spec(s.skip(2))
    } else if s[1] == 236 {
        seq![TelnetStreamModel::CtrlC] + telnet_parse_spec(s.skip(2))
    } else if s[1] == 248 {
        seq![TelnetStreamModel::CtrlD] + telnet_parse_spec(s.skip(2))
    } else {
        match telnet_command_of(s[1]) {
            Option::None => telnet_parse_spec(s.skip(2)),
            Option::Some(TelnetCommand::Suboption) => {
                if s.len() == 2 {
                    Seq::<TelnetStreamModel>::empty()
                } else {
                    match telnet_subcommand_of(s[2]) {
                        Option::None => telnet_parse_spec(s.skip(3)),
                        Option::Some(sub) => seq![
                            TelnetStreamModel::Suboption(sub, strip_suboption_end(s.skip(3))),
                        ],
                    }
                }
            },
            Option::Some(cmd) => {
                if s.len() == 2 {
                    Seq::<TelnetStreamModel>::empty()
                } else {
                    match telnet_subcommand_of(s[2]) {
                        Option::None => telnet_parse_spec(s.skip(3)),
                        Option::Some(sub) => seq![TelnetStreamModel::Command(cmd, sub)]
                            + telnet_parse_spec(s.skip(3)),
                    }
                }
            },
        }
    }
}

/// The bytes that reach the application out of a parsed stream: data
/// bytes, with the control items as their control bytes.
pub open spec fn telnet_payload(ms: Seq<TelnetStreamModel>) -> Seq<u8>
    decreases ms.len(),
{
    if ms.len() == 0 {
        Seq::<u8>::empty()
    } else {
        let head: Seq<u8> = match ms[0] {
            TelnetStreamModel::Data(d) => seq![d],
            TelnetStreamModel::CtrlC => seq![3u8],
            TelnetStreamModel::CtrlD => seq![4u8],
            _ => Seq::<u8>::empty(),
        };
        head + telnet_payload(ms.skip(1))
    }
}

impl TelnetCommand {
    /// The command a wire byte stands for, as `telnet_command_of` has it.
    pub fn parse(val: u8) -> (r: Option<Self>)
        ensures
            r == telnet_command_of(val),
    {
        match val {
            251 => Some(TelnetCommand::Will),
            252 => Some(TelnetCommand::Wont),
            253 => Some(TelnetCommand::Do),
            254 => Some(TelnetCommand::Dont),
            241 => Some(TelnetCommand::Nop),
            250 => Some(TelnetCommand::Suboption),
            240 => Some(TelnetCommand::SuboptionEnd),
            _ => None,
        }
    }

    /// The wire value of this command, as `telnet_command_val` has it.
    pub fn to_val(&self) -> (r: u8)
        ensures
            r == telnet_command_val(*self),
    {
        match *self {
            TelnetCommand::Will => 251,
            TelnetCommand::Wont => 252,
            TelnetCommand::Do => 253,
            TelnetCommand::Dont => 254,
            TelnetCommand::Nop => 241,
            TelnetCommand::Suboption => 250,
            TelnetCommand::SuboptionEnd => 240,
        }
    }
}

impl TelnetSubcommand {
    /// The option a wire byte stands for, as `telnet_subcommand_of` has it.
    pub fn parse(val: u8) -> (r: Option<Self>)
        ensures
            r == telnet_subcommand_of(val),
    {
        match val {
            1 => Some(TelnetSubcommand::Echo),
            3 => Some(TelnetSubcommand::SuppressGoAhead),
            0x1f => Some(TelnetSubcommand::NegotiateAboutWindowSize),
            0x20 => Some(TelnetSubcommand::TerminalSpeed),
            0x18 => Some(TelnetSubcommand::TerminalType),
            0x27 => Some(TelnetSubcommand::NewEnvironmentOption),
            _ => None,
        }
    }

    /// The wire value of this option, as `telnet_subcommand_val` has it.
    pub fn to_val(&self) -> (r: u8)
        ensures
            r == telnet_subcommand_val(*self),
    {
        match *self {
            TelnetSubcommand::Echo => 1,
            TelnetSubcommand::SuppressGoAhead => 3,
            TelnetSubcommand::NegotiateAboutWindowSize => 0x1f,
            TelnetSubcommand::TerminalSpeed => 0x20,
            TelnetSubcommand::TerminalType => 0x18,
            TelnetSubcommand::NewEnvironmentOption => 0x27,
        }
    }
}

impl TelnetStream {
    /// The wire form of this item, as `to_network_spec` has it.
    pub fn to_network(&self) -> (r: Vec<u8>)
        ensures
            r@ == to_network_spec(self@),
    {
        let mut v: Vec<u8> = Vec::new();
        match self {
            TelnetStream::Command(a, b) => {
                v.push(255);
                v.push(a.to_val());
                v.push(b.to_val());
                proof {
                    assert(v@ =~= to_network_spec(self@));
                }
            },
            TelnetStream::Suboption(a, b) => {
                v.push(255);
                v.push(250);
                v.push(a.to_val());
                crate::utils::append_bytes(&mut v, b.as_slice());
                v.push(255);
                v.push(240);
                proof {
                    assert(v@ =~= to_network_spec(self@));
                }
            },
            TelnetStream::CtrlC => {
                v.push(236);
                proof {
                    assert(v@ =~= to_network_spec(self@));
                }
            },
            TelnetStream::CtrlD => {
                v.push(248);
                proof {
                    assert(v@ =~= to_network_spec(self@));
                }
            },
            TelnetStream::Data(d) => {
                v.push(*d);
                proof {
                    assert(v@ =~= to_network_spec(self@));
                }
            },
        }
        v
    }

    /// The wire form of a whole stream, as `all_to_network_spec` has it.
    pub fn all_to_network(stream: &[TelnetStream]) -> (r: Vec<u8>)
        ensures
            r@ == all_to_network_spec(telnet_models(stream@)),
    {
        let ghost ms = telnet_models(stream@);
        let mut v: Vec<u8> = Vec::new();
        let mut i: usize = 0;
        proof {
            assert(v@ =~= Seq::<u8>::empty());
            assert(ms.skip(0) =~= ms);
        }
        while i < stream.len()
            invariant
                i <= stream@.len(),
                ms == telnet_models(stream@),
                v@ + all_to_network_spec(ms.skip(i as int)) == all_to_network_spec(ms),
            decreases stream@.len() - i,
        {
            let part = stream[i].to_network();
            crate::utils::append_bytes(&mut v, part.as_slice());
            proof {
                assert(ms.skip(i as int)[0] == ms[i as int]);
                assert(ms[i as int] == stream@[i as int]@);
                assert(ms.skip(i as int).skip(1) =~= ms.skip(i as int + 1));
            }
            i += 1;
        }
        proof {
            assert(all_to_network_spec(ms.skip(stream@.len() as int)) =~= Seq::<u8>::empty());
            assert(v@ =~= all_to_network_spec(ms));
        }
        v
    }
}

#[derive(Debug, Copy, Clone, PartialEq, Eq, Structural)]
enum State {
    Negotiation,
    Main,
}

/// The Telnet side of an interactive session: hello negotiation and the
/// byte filter in front of the key decoder.
pub struct TelnetTerminal {
    state: State,
}

/// The negotiated session options.
pub struct TelnetTerminalState {
    pub echo: bool,
    pub suppress: bool,
}

#[derive(Debug, Copy, Clone, PartialEq, Eq, Structural)]
pub enum TelnetError {
    MoreDataRequired,
}

/// What one datagram of input amounts to.
pub enum TelnetEvent {
    NoEvent,
    ReceivedData(Vec<u8>),
    ServerResponse(Vec<TelnetStream>),
}

impl TelnetTerminal {
    /// Whether the hello negotiation is still owed.
    pub closed spec fn negotiating(&self) -> bool {
        self.state == State::Negotiation
    }

    pub fn new() -> (r: Self)
        ensures
            r.negotiating(),
    {
        TelnetTerminal { state: State::Negotiation }
    }

    /// Parse one datagram and hand the application its payload bytes;
    /// commands are taken in without an answer.
    pub fn handle_input(&mut self, data: &[u8]) -> (r: Result<TelnetEvent, TelnetError>)
        ensures
            final(self).negotiating() == old(self).negotiating(),
            match r {
                Ok(TelnetEvent::ReceivedData(d)) => d@ == telnet_payload(telnet_parse_spec(data@))
                    && d@.len() > 0,
                Ok(TelnetEvent::NoEvent) => telnet_payload(telnet_parse_spec(data@)).len() == 0,
                _ => false,
            },
    {
        let parsed = Self::parse(data);
        let ghost ms = telnet_models(parsed@);

        let mut payload: Vec<u8> = Vec::new();
        let mut commands: Vec<TelnetStream> = Vec::new();
        let mut i: usize = 0;
        proof {
            assert(payload@ =~= Seq::<u8>::empty());
            assert(ms.skip(0) =~= ms);
        }
        while i < parsed.len()
            invariant
                i <= parsed@.len(),
                ms == telnet_models(parsed@),
                payload@ + telnet_payload(ms.skip(i as int)) == telnet_payload(ms),
            decreases parsed@.len() - i,
        {
            proof {
                assert(ms.skip(i as int)[0] == ms[i as int]);
                assert(ms[i as int] == parsed@[i as int]@);
                assert(ms.skip(i as int).skip(1) =~= ms.skip(i as int + 1));
            }
            match &parsed[i] {
                TelnetStream::Data(d) => {
                    payload.push(*d);
                },
                TelnetStream::CtrlC => {
                    payload.push(3);
                },
                TelnetStream::CtrlD => {
                    payload.push(4);
                },
                TelnetStream::Command(a, b) => {
                    commands.push(TelnetStream::Command(*a, *b));
                },
                TelnetStream::Suboption(a, d) => {
                    commands.push(TelnetStream::Suboption(*a, bytes_range(d.as_slice(), 0, d.len())));
                },
            }
            i += 1;
        }
        proof {
            assert(telnet_payload(ms.skip(parsed@.len() as int)) =~= Seq::<u8>::empty());
            assert(payload@ =~= telnet_payload(ms));
        }

        if commands.len() > 0 {
            let handled = self.handle_commands(commands.as_slice());
            match handled {
                Ok(ev) => {},
                Err(e) => {
                    return Err(e);
                },
            }
        }

        if payload.len() > 0 {
            return Ok(TelnetEvent::ReceivedData(payload));
        }
        Ok(TelnetEvent::NoEvent)
    }

    /// Take in the peer's commands.  No answer is owed yet; an empty
    /// server response stands for it.
    fn handle_commands(&mut self, commands: &[TelnetStream]) -> (r: Result<TelnetEvent, TelnetError>)
        ensures
            final(self).negotiating() == old(self).negotiating(),
            r matches Ok(ev) && ev matches TelnetEvent::ServerResponse(v) && v@.len() == 0,
    {
        Ok(TelnetEvent::ServerResponse(Vec::new()))
    }

    /// The opening negotiation, sent once: echo on both sides and
    /// go-ahead suppression.
    pub fn hello(&mut self) -> (r: Vec<TelnetStream>)
        ensures
            !final(self).negotiating(),
            old(self).negotiating() ==> telnet_models(r@) == seq![
                TelnetStreamModel::Command(TelnetCommand::Do, TelnetSubcommand::Echo),
                TelnetStreamModel::Command(TelnetCommand::Will, TelnetSubcommand::Echo),
                TelnetStreamModel::Command(TelnetCommand::Will, TelnetSubcommand::SuppressGoAhead),
            ],
            !old(self).negotiating() ==> r@.len() == 0,
    {
        let mut v: Vec<TelnetStream> = Vec::new();
        if matches!(self.state, State::Negotiation) {
            self.state = State::Main;
            v.push(TelnetStream::Command(TelnetCommand::Do, TelnetSubcommand::Echo));
            v.push(TelnetStream::Command(TelnetCommand::Will, TelnetSubcommand::Echo));
            v.push(TelnetStream::Command(TelnetCommand::Will, TelnetSubcommand::SuppressGoAhead));
            proof {
                assert(telnet_models(v@) =~= seq![
                    TelnetStreamModel::Command(TelnetCommand::Do, TelnetSubcommand::Echo),
                    TelnetStreamModel::Command(TelnetCommand::Will, TelnetSubcommand::Echo),
                    TelnetStreamModel::Command(
                        TelnetCommand::Will,
                        TelnetSubcommand::SuppressGoAhead,
                    ),
                ]);
            }
        }
        v
    }

    /// Decode one datagram, as `telnet_parse_spec` has it.
    pub fn parse(data: &[u8]) -> (ret: Vec<TelnetStream>)
        ensures
            telnet_models(ret@) == telnet_parse_spec(data@),
    {
        let mut ret: Vec<TelnetStream> = Vec::new();
        let mut i: usize = 0;
        proof {
            assert(telnet_models(ret@) =~= Seq::<TelnetStreamModel>::empty());
            assert(data@.skip(0) =~= data@);
        }
        while i < data.len()
            invariant
                i <= data@.len(),
                telnet_models(ret@) + telnet_parse_spec(data@.skip(i as int)) == telnet_parse_spec(
                    data@,
                ),
            decreases data@.len() - i,
        {
            let ghost rest = data@.skip(i as int);
            let ghost rvs = ret@;
            let ghost done = telnet_models(ret@);
            proof {
                assert(rest[0] == data@[i as int]);
                if i + 1 < data@.len() {
                    assert(rest[1] == data@[i as int + 1]);
                }
                if i + 2 < data@.len() {
                    assert(rest[2] == data@[i as int + 2]);
                }
                assert(rest.skip(1) =~= data@.skip(i as int + 1));
                if i + 2 <= data@.len() {
                    assert(rest.skip(2) =~= data@.skip(i as int + 2));
                }
                if i + 3 <= data@.len() {
                    assert(rest.skip(3) =~= data@.skip(i as int + 3));
                }
            }
            let b0 = data[i];
            if b0 != 255 {
                ret.push(TelnetStream::Data(b0));
                proof {
                    lemma_models_push(rvs, ret@, TelnetStreamModel::Data(b0));
                }
                i += 1;
            } else if i + 1 >= data.len() {
                proof {
                    assert(telnet_parse_spec(rest) =~= Seq::<TelnetStreamModel>::empty());
                }
                i = data.len();
            } else {
                let b1 = data[i + 1];
                if b1 == 255 {
                    ret.push(TelnetStream::Data(255));
                    proof {
                        lemma_models_push(rvs, ret@, TelnetStreamModel::Data(255u8));
                    }
                    i += 2;
                } else if b1 == 236 {
                    ret.push(TelnetStream::CtrlC);
                    proof {
                        lemma_models_push(rvs, ret@, TelnetStreamModel::CtrlC);
                    }
                    i += 2;
                } else if b1 == 248 {
                    ret.push(TelnetStream::CtrlD);
                    proof {
                        lemma_models_push(rvs, ret@, TelnetStreamModel::CtrlD);
                    }
                    i += 2;
                } else {
                    match TelnetCommand::parse(b1) {
                        None => {
                            i += 2;
                        },
                        Some(TelnetCommand::Suboption) => {
                            if i + 2 >= data.len() {
                                proof {
                                    assert(telnet_parse_spec(rest)
                                        =~= Seq::<TelnetStreamModel>::empty());
                                }
                                i = data.len();
                            } else {
                                match TelnetSubcommand::parse(data[i + 2]) {
                                    None => {
                                        i += 3;
                                    },
                                    Some(sub) => {
                                        let mut payload = bytes_range(data, i + 3, data.len());
                                        if payload.len() >= 2 {
                                            let l = payload.len();
                                            if payload[l - 2] == 255 && payload[l - 1] == 240 {
                                                let p1 = payload.pop();
                                                let p2 = payload.pop();
                                                proof {
                                                    assert(payload@ =~= data@.skip(
                                                        i as int + 3,
                                                    ).take(data@.skip(i as int + 3).len() - 2));
                                                }
                                            }
                                        }
                                        proof {
                                            assert(payload@ =~= strip_suboption_end(
                                                data@.skip(i as int + 3),
                                            ));
                                        }
                                        ret.push(TelnetStream::Suboption(sub, payload));
                                        proof {
                                            lemma_models_push(
                                                rvs,
                                                ret@,
                                                TelnetStreamModel::Suboption(
                                                    sub,
                                                    strip_suboption_end(data@.skip(i as int + 3)),
                                                ),
                                            );
                                            assert(telnet_parse_spec(rest) =~= seq![
                                                TelnetStreamModel::Suboption(
                                                    sub,
                                                    strip_suboption_end(rest.skip(3)),
                                                ),
                                            ]);
                                        }
                                        i = data.len();
                                    },
                                }
                            }
                        },
                        Some(cmd) => {
                            if i + 2 >= data.len() {
                                proof {
                                    assert(telnet_parse_spec(rest)
                                        =~= Seq::<TelnetStreamModel>::empty());
                                }
                                i = data.len();
                            } else {
                                match TelnetSubcommand::parse(data[i + 2]) {
                                    None => {
                                        i += 3;
                                    },
                                    Some(sub) => {
                                        ret.push(TelnetStream::Command(cmd, sub));
                                        proof {
                                            lemma_models_push(
                                                rvs,
                                                ret@,
                                                TelnetStreamModel::Command(cmd, sub),
                                            );
                                        }
                                        i += 3;
                                    },
                                }
                            }
                        },
                    }
                }
            }
        }
        proof {
            assert(telnet_parse_spec(data@.skip(data@.len() as int))
                =~= Seq::<TelnetStreamModel>::empty());
            assert(telnet_models(ret@) =~= telnet_models(ret@) + telnet_parse_spec(
                data@.skip(i as int),
            ));
        }
        ret
    }
}

proof fn lemma_models_push(prev: Seq<TelnetStream>, cur: Seq<TelnetStream>, m: TelnetStreamModel)
    requires
        cur.len() == prev.len() + 1,
        forall|k: int| 0 <= k < prev.len() ==> cur[k] == prev[k],
        cur.last()@ == m,
    ensures
        telnet_models(cur) =~= telnet_models(prev).push(m),
{
    assert forall|k: int|
        0 <= k < cur.len() implies telnet_models(cur)[k] == telnet_models(prev).push(m)[k] by {
        assert(telnet_models(cur)[k] == cur[k]@);
        if k < prev.len() {
            assert(telnet_models(prev)[k] == prev[k]@);
        }
    }
}

} // verus!
