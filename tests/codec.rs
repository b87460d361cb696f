use snowcast::commands::{
    decode_command, encode_announce, encode_command, encode_invalid, encode_welcome, Announce,
    InvalidCommand, ServerCommand, Welcome,
};

#[test]
fn decode_hello_frame() {
    let cmd = decode_command(&[0, 0x40, 0x00]);
    assert_eq!(cmd, ServerCommand::Hello { command_type: 0, udp_port: 16384 });
}

#[test]
fn decode_set_station_frame() {
    let cmd = decode_command(&[1, 0x01, 0x02]);
    assert_eq!(cmd, ServerCommand::SetStation { command_type: 1, station_number: 258 });
}

#[test]
fn decode_unknown_tag_is_invalid() {
    let cmd = decode_command(&[7, 1, 2]);
    assert_eq!(cmd, ServerCommand::Invalid { command_type: 99, unused: 99 });
}

#[test]
fn welcome_bytes_are_big_endian() {
    assert_eq!(encode_welcome(3), vec![0, 0, 3]);
    assert_eq!(encode_welcome(0x1234), vec![0, 0x12, 0x34]);
    assert_eq!(encode_welcome(65535), vec![0, 0xff, 0xff]);
}

#[test]
fn announce_bytes_carry_the_name() {
    assert_eq!(encode_announce("abc"), vec![1, 3, b'a', b'b', b'c']);
    assert_eq!(encode_announce(""), vec![1, 0]);
}

#[test]
fn announce_counts_utf8_bytes() {
    let name = "h\u{e9}llo";
    let mut expected = vec![1, 6];
    expected.extend_from_slice(name.as_bytes());
    assert_eq!(encode_announce(name), expected);
}

#[test]
fn announce_of_longest_name() {
    let name = "x".repeat(255);
    let bytes = encode_announce(&name);
    assert_eq!(bytes.len(), 257);
    assert_eq!(bytes[1], 255);
}

#[test]
fn invalid_reply_bytes() {
    assert_eq!(encode_invalid("no"), vec![2, 2, b'n', b'o']);
}

#[test]
fn command_frames_round_trip() {
    let hello = ServerCommand::Hello { command_type: 0, udp_port: 16385 };
    assert_eq!(encode_command(&hello), [0, 0x40, 0x01]);
    assert_eq!(decode_command(&encode_command(&hello)), hello);
    let set = ServerCommand::SetStation { command_type: 1, station_number: 513 };
    assert_eq!(encode_command(&set), [1, 2, 1]);
    assert_eq!(decode_command(&encode_command(&set)), set);
}

#[test]
fn welcome_type_round_trips() {
    let w = Welcome::new(772);
    assert_eq!(w.to_bytes(), vec![0, 3, 4]);
    assert_eq!(Welcome::decode(&[0, 3, 4]), Some(w));
    assert_eq!(Welcome::decode(&[1, 3, 4]), None);
}

#[test]
fn reply_types_encode() {
    let a = Announce::new("song");
    assert_eq!(a.song_name_size, 4);
    assert_eq!(a.to_bytes(), vec![1, 4, b's', b'o', b'n', b'g']);
    let i = InvalidCommand::new("bad");
    assert_eq!(i.reply_string_size, 3);
    assert_eq!(i.to_bytes(), vec![2, 3, b'b', b'a', b'd']);
}
