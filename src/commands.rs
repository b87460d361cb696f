//! The fixed binary wire format: three-byte command frames from clients, and
//! the three reply frames that the server sends back.

use byteorder::{BigEndian, ByteOrder};
use vstd::prelude::*;
use vstd::string::StringSliceAdditionalSpecFns;

verus! {

/// Tag of a `Hello` command frame.
pub const HELLO: u8 = 0;

/// Tag of a `SetStation` command frame.
pub const SET_STATION: u8 = 1;

/// Tag of a `Welcome` reply frame.
pub const WELCOME: u8 = 0;

/// Tag of an `Announce` reply frame.
pub const ANNOUNCE: u8 = 1;

/// Tag of an `InvalidCommand` reply frame.
pub const INVALID_COMMAND: u8 = 2;

/// Marker stored in both fields of a decoded `Invalid` command.
pub const INVALID_MARKER: u8 = 99;

/// Length in bytes of every command frame.
pub const FRAME_LEN: usize = 3;

/// A command sent by a client, decoded from one three-byte frame.
#[derive(Clone, Copy, Debug, PartialEq, Eq, Structural)]
pub enum ServerCommand {
    Hello { command_type: u8, udp_port: u16 },
    SetStation { command_type: u8, station_number: u16 },
    Invalid { command_type: u8, unused: u16 },
}

/// The reply to a `Hello`: how many stations the server offers.
#[derive(Clone, Copy, Debug, PartialEq, Eq, Structural)]
pub struct Welcome {
    pub reply_type: u8,
    pub num_stations: u16,
}

/// The reply to an accepted `SetStation`: the name of what the station plays.
#[derive(Debug)]
pub struct Announce {
    pub reply_type: u8,
    pub song_name_size: u8,
    pub song_name: Vec<u8>,
}

/// The reply to a rejected command, sent before the server closes the connection.
#[derive(Debug)]
pub struct InvalidCommand {
    pub reply_type: u8,
    pub reply_string_size: u8,
    pub reply_string: Vec<u8>,
}

/// The big-endian value of two bytes.
pub open spec fn be_u16(hi: u8, lo: u8) -> u16 {
    (hi as int * 256 + lo as int) as u16
}

/// The two bytes of `n`, most significant first.
pub open spec fn be_bytes(n: u16) -> Seq<u8> {
    seq![(n / 256) as u8, (n % 256) as u8]
}

/// The command that a complete frame encodes.
pub open spec fn decoded(frame: Seq<u8>) -> ServerCommand {
    let value = be_u16(frame[1], frame[2]);
    if frame[0] == HELLO {
        ServerCommand::Hello { command_type: HELLO, udp_port: value }
    } else if frame[0] == SET_STATION {
        ServerCommand::SetStation { command_type: SET_STATION, station_number: value }
    } else {
        ServerCommand::Invalid {
            command_type: INVALID_MARKER,
            unused: INVALID_MARKER as u16,
        }
    }
}

/// The bytes of a `Welcome` reply.
pub open spec fn welcome_frame(num_stations: u16) -> Seq<u8> {
    seq![WELCOME] + be_bytes(num_stations)
}

/// The bytes of a reply that carries a text: its tag, its length in one byte, its bytes.
pub open spec fn text_frame(tag: u8, text: Seq<u8>) -> Seq<u8> {
    seq![tag, text.len() as u8] + text
}

/// Relies on byteorder's `BigEndian::read_u16`: the first two bytes of the
/// buffer as a big-endian integer.
#[verifier::external_body]
fn read_be_u16(buf: &[u8; 2]) -> (r: u16)
    ensures
        r == be_u16(buf@[0], buf@[1]),
{
    BigEndian::read_u16(buf)
}

/// Relies on byteorder's `BigEndian::write_u16`: `n` written big-endian into
/// the first two bytes of the buffer.
#[verifier::external_body]
fn write_be_u16(buf: &mut [u8; 2], n: u16)
    ensures
        final(buf)@ == be_bytes(n),
{
    BigEndian::write_u16(buf, n)
}

/// The frame that carries a `Hello` or a `SetStation` command.
pub open spec fn command_frame(tag: u8, value: u16) -> Seq<u8> {
    seq![tag] + be_bytes(value)
}

/// The frame a client sends for `cmd`. An `Invalid` command has no frame of
/// its own; it is sent with its marker as the tag, which no command uses.
pub fn encode_command(cmd: &ServerCommand) -> (r: [u8; 3])
    ensures
        r@ == match *cmd {
            ServerCommand::Hello { udp_port, .. } => command_frame(HELLO, udp_port),
            ServerCommand::SetStation { station_number, .. } => command_frame(SET_STATION, station_number),
            ServerCommand::Invalid { .. } => command_frame(INVALID_MARKER, INVALID_MARKER as u16),
        },
{
    let (tag, value) = match *cmd {
        ServerCommand::Hello { udp_port, .. } => (HELLO, udp_port),
        ServerCommand::SetStation { station_number, .. } => (SET_STATION, station_number),
        ServerCommand::Invalid { .. } => (INVALID_MARKER, INVALID_MARKER as u16),
    };
    let mut bytes = [0u8; 2];
    write_be_u16(&mut bytes, value);
    let r = [tag, bytes[0], bytes[1]];
    assert(r@ =~= seq![tag] + be_bytes(value));
    r
}

/// Decoding the frame of a command gives the command back, with its tag as
/// the command type.
pub proof fn command_round_trip(cmd: ServerCommand)
    ensures
        match cmd {
            ServerCommand::Hello { udp_port, .. } => decoded(command_frame(HELLO, udp_port))
                == ServerCommand::Hello { command_type: HELLO, udp_port },
            ServerCommand::SetStation { station_number, .. } => decoded(command_frame(SET_STATION, station_number))
                == ServerCommand::SetStation { command_type: SET_STATION, station_number },
            ServerCommand::Invalid { .. } => decoded(command_frame(INVALID_MARKER, INVALID_MARKER as u16))
                == ServerCommand::Invalid { command_type: INVALID_MARKER, unused: INVALID_MARKER as u16 },
        },
{
}

/// Decodes one complete command frame: byte 0 is the tag, bytes 1 and 2 a
/// big-endian value whose meaning depends on the tag.
pub fn decode_command(frame: &[u8; 3]) -> (r: ServerCommand)
    ensures
        r == decoded(frame@),
{
    let value = read_be_u16(&[frame[1], frame[2]]);
    if frame[0] == HELLO {
        ServerCommand::Hello { command_type: HELLO, udp_port: value }
    } else if frame[0] == SET_STATION {
        ServerCommand::SetStation { command_type: SET_STATION, station_number: value }
    } else {
        ServerCommand::Invalid { command_type: INVALID_MARKER, unused: INVALID_MARKER as u16 }
    }
}

/// Appends `text` to `out`, byte by byte.
fn append_bytes(out: &mut Vec<u8>, text: &[u8])
    ensures
        final(out)@ == old(out)@ + text@,
{
    let mut i: usize = 0;
    while i < text.len()
        invariant
            i <= text@.len(),
            out@ == old(out)@ + text@.subrange(0, i as int),
        decreases text@.len() - i,
    {
        out.push(text[i]);
        i = i + 1;
        assert(text@.subrange(0, i as int) == text@.subrange(0, i - 1) + seq![text@[i - 1]]);
    }
    assert(text@.subrange(0, i as int) == text@);
}

/// The bytes of a reply that carries a text.
fn encode_text(tag: u8, text: &[u8]) -> (r: Vec<u8>)
    requires
        text@.len() <= 255,
    ensures
        r@ == text_frame(tag, text@),
{
    let mut out: Vec<u8> = Vec::with_capacity(text.len() + 2);
    out.push(tag);
    out.push(text.len() as u8);
    append_bytes(&mut out, text);
    assert(out@ == text_frame(tag, text@));
    out
}

/// The bytes of a `Welcome` reply announcing `num_stations` stations.
pub fn encode_welcome(num_stations: u16) -> (r: Vec<u8>)
    ensures
        r@ == welcome_frame(num_stations),
{
    let mut value = [0u8; 2];
    write_be_u16(&mut value, num_stations);
    let mut out: Vec<u8> = Vec::with_capacity(3);
    out.push(WELCOME);
    out.push(value[0]);
    out.push(value[1]);
    assert(out@ == welcome_frame(num_stations));
    out
}

/// The bytes of an `Announce` reply naming `song_name`.
pub fn encode_announce(song_name: &str) -> (r: Vec<u8>)
    requires
        song_name.spec_bytes().len() <= 255,
    ensures
        r@ == text_frame(ANNOUNCE, song_name.spec_bytes()),
{
    encode_text(ANNOUNCE, song_name.as_bytes())
}

/// The bytes of an `InvalidCommand` reply carrying `reply_string`.
pub fn encode_invalid(reply_string: &str) -> (r: Vec<u8>)
    requires
        reply_string.spec_bytes().len() <= 255,
    ensures
        r@ == text_frame(INVALID_COMMAND, reply_string.spec_bytes()),
{
    encode_text(INVALID_COMMAND, reply_string.as_bytes())
}

impl Welcome {
    pub fn new(num_stations: u16) -> (r: Welcome)
        ensures
            r == (Welcome { reply_type: WELCOME, num_stations }),
    {
        Welcome { reply_type: WELCOME, num_stations }
    }

    /// Reads a `Welcome` from its three bytes; `None` when the tag is another.
    pub fn decode(frame: &[u8; 3]) -> (r: Option<Welcome>)
        ensures
            r == if frame@[0] == WELCOME {
                Some(Welcome { reply_type: WELCOME, num_stations: be_u16(frame@[1], frame@[2]) })
            } else {
                None
            },
    {
        if frame[0] == WELCOME {
            Some(Welcome { reply_type: WELCOME, num_stations: read_be_u16(&[frame[1], frame[2]]) })
        } else {
            None
        }
    }

    pub fn to_bytes(&self) -> (r: Vec<u8>)
        ensures
            r@ == welcome_frame(self.num_stations),
    {
        encode_welcome(self.num_stations)
    }
}

/// Copies the bytes of `text`.
fn bytes_of(text: &str) -> (r: Vec<u8>)
    ensures
        r@ == text.spec_bytes(),
{
    let mut out: Vec<u8> = Vec::new();
    append_bytes(&mut out, text.as_bytes());
    out
}

impl Announce {
    pub open spec fn wf(&self) -> bool {
        &&& self.reply_type == ANNOUNCE
        &&& self.song_name@.len() <= 255
        &&& self.song_name_size == self.song_name@.len()
    }

    pub fn new(song_name: &str) -> (r: Announce)
        requires
            song_name.spec_bytes().len() <= 255,
        ensures
            r.wf(),
            r.song_name@ == song_name.spec_bytes(),
    {
        let bytes = bytes_of(song_name);
        Announce { reply_type: ANNOUNCE, song_name_size: bytes.len() as u8, song_name: bytes }
    }

    pub fn to_bytes(&self) -> (r: Vec<u8>)
        requires
            self.wf(),
        ensures
            r@ == text_frame(ANNOUNCE, self.song_name@),
    {
        encode_text(ANNOUNCE, self.song_name.as_slice())
    }
}

impl InvalidCommand {
    pub open spec fn wf(&self) -> bool {
        &&& self.reply_type == INVALID_COMMAND
        &&& self.reply_string@.len() <= 255
        &&& self.reply_string_size == self.reply_string@.len()
    }

    pub fn new(reply_string: &str) -> (r: InvalidCommand)
        requires
            reply_string.spec_bytes().len() <= 255,
        ensures
            r.wf(),
            r.reply_string@ == reply_string.spec_bytes(),
    {
        let bytes = bytes_of(reply_string);
        InvalidCommand {
            reply_type: INVALID_COMMAND,
            reply_string_size: bytes.len() as u8,
            reply_string: bytes,
        }
    }

    pub fn to_bytes(&self) -> (r: Vec<u8>)
        requires
            self.wf(),
        ensures
            r@ == text_frame(INVALID_COMMAND, self.reply_string@),
    {
        encode_text(INVALID_COMMAND, self.reply_string.as_slice())
    }
}

} // verus!
