use statusserver::packets::{PacketError, PlayerListEntry, ServerConfig, ServerInfo};
use statusserver::player::{ConnectionState, Player};
use statusserver::stream::ByteStream;
use statusserver::varint::{decode_stream, encode};

fn mk_info(
    version: &str,
    protocol: Option<u16>,
    online: i32,
    max: i32,
    list: Vec<PlayerListEntry>,
    motd: &str,
    kick: &str,
    icon: Option<&str>,
) -> ServerInfo {
    ServerInfo {
        config: ServerConfig {
            version: version.to_string(),
            protocol,
            online_players: online,
            max_players: max,
            player_list: list,
            motd: motd.to_string(),
            kick_message: kick.to_string(),
        },
        icon: icon.map(|s| s.to_string()),
    }
}

fn default_info() -> ServerInfo {
    mk_info("1.8", None, 3, 20, vec![], "hello", "bye", None)
}

/// Splits one length-prefixed frame off the front of `bytes`: packet id,
/// body, and how many bytes the frame occupied.
fn parse_frame(bytes: &[u8]) -> (i32, Vec<u8>, usize) {
    let mut s = ByteStream::new(bytes.to_vec());
    let len = decode_stream(&mut s).expect("frame length") as usize;
    let after_len = s.pos;
    let id = decode_stream(&mut s).expect("packet id");
    let id_len = s.pos - after_len;
    let body = bytes[s.pos..after_len + len].to_vec();
    let consumed = after_len + id_len + body.len();
    (id, body, consumed)
}

fn frame(id: i32, body: &[u8]) -> Vec<u8> {
    let id_enc = encode(id);
    let mut out = encode((id_enc.len() + body.len()) as i32);
    out.extend_from_slice(&id_enc);
    out.extend_from_slice(body);
    out
}

fn handshake_frame(protocol: i32, host: &str, port: u16, intent: i32) -> Vec<u8> {
    let mut body = encode(protocol);
    body.extend_from_slice(&encode(host.len() as i32));
    body.extend_from_slice(host.as_bytes());
    body.extend_from_slice(&port.to_be_bytes());
    body.extend_from_slice(&encode(intent));
    frame(0, &body)
}

fn receive(player: &mut Player, info: &ServerInfo, bytes: &[u8]) -> Result<(), PacketError> {
    let mut input = ByteStream::new(bytes.to_vec());
    player.receive_packet(&mut input, info)
}

fn utf16be(s: &str) -> Vec<u8> {
    s.encode_utf16().flat_map(|u| u.to_be_bytes()).collect()
}

fn status_json(player: &Player) -> json::JsonValue {
    let (id, body, _) = parse_frame(&player.out);
    assert_eq!(id, 0);
    let mut s = ByteStream::new(body.clone());
    let jlen = decode_stream(&mut s).expect("json length") as usize;
    let text = std::str::from_utf8(&body[s.pos..s.pos + jlen]).expect("utf8 json");
    json::parse(text).expect("valid json")
}

#[test]
fn handshake_intents_move_state() {
    let info = default_info();
    for (intent, state) in [
        (1, ConnectionState::STATUS),
        (2, ConnectionState::LOGIN),
        (3, ConnectionState::TRANSFER),
    ] {
        let mut player = Player::new();
        receive(&mut player, &info, &handshake_frame(759, "localhost", 25565, intent)).unwrap();
        assert_eq!(player.state, state);
        assert!(player.out.is_empty());
        let hs = player.handshake_info.as_ref().unwrap();
        assert_eq!(hs.protocol, 759);
        assert_eq!(hs.server_addr, "localhost");
        assert_eq!(hs.server_port, 25565);
    }
}

#[test]
fn handshake_bad_intent_is_data_error() {
    let info = default_info();
    let mut player = Player::new();
    let res = receive(&mut player, &info, &handshake_frame(759, "localhost", 25565, 4));
    assert!(matches!(res, Err(PacketError::DataError(v)) if v == vec![4]));
    assert_eq!(player.state, ConnectionState::HANDSHAKING);
}

#[test]
fn handshake_invalid_utf8_host() {
    let info = default_info();
    let mut player = Player::new();
    let mut body = encode(759);
    body.extend_from_slice(&encode(2));
    body.extend_from_slice(&[0xff, 0xfe]);
    body.extend_from_slice(&25565u16.to_be_bytes());
    body.extend_from_slice(&encode(1));
    let res = receive(&mut player, &info, &frame(0, &body));
    assert!(matches!(res, Err(PacketError::InvalidString)));
}

#[test]
fn frame_length_zero_closes() {
    let info = default_info();
    let mut player = Player::new();
    let res = receive(&mut player, &info, &[0x00]);
    assert!(matches!(res, Err(PacketError::ClosedError)));
}

#[test]
fn frame_length_over_256_closes() {
    let info = default_info();
    let mut player = Player::new();
    // varint 257 = 0x81 0x02
    let res = receive(&mut player, &info, &[0x81, 0x02]);
    assert!(matches!(res, Err(PacketError::ClosedError)));
}

#[test]
fn frame_length_254_outside_handshaking_is_normal() {
    let info = default_info();
    let mut player = Player::new();
    receive(&mut player, &info, &handshake_frame(759, "localhost", 25565, 1)).unwrap();
    player.out.clear();
    // a 254-byte frame: packet id 0 (status request) and 253 ignored bytes
    let mut bytes = vec![0xfe, 0x01, 0x00];
    bytes.extend_from_slice(&[0xaa; 253]);
    receive(&mut player, &info, &bytes).unwrap();
    let doc = status_json(&player);
    assert_eq!(doc["players"]["max"].as_i32().unwrap(), 20);
}

#[test]
fn status_scenario() {
    let info = default_info();
    let mut player = Player::new();
    let bytes: Vec<u8> = vec![
        0x10, 0x00, 0xf7, 0x05, 0x09, 0x6c, 0x6f, 0x63, 0x61, 0x6c, 0x68, 0x6f, 0x73, 0x74, 0x63,
        0xdd, 0x01,
    ];
    let mut input = ByteStream::new(bytes);
    player.receive_packet(&mut input, &info).unwrap();
    assert_eq!(player.state, ConnectionState::STATUS);
    receive(&mut player, &info, &[0x01, 0x00]).unwrap();
    let doc = status_json(&player);
    assert_eq!(doc["players"]["max"].as_i32().unwrap(), 20);
    assert_eq!(doc["players"]["online"].as_i32().unwrap(), 3);
    assert_eq!(doc["version"]["name"].as_str().unwrap(), "1.8");
    // no configured protocol: the handshake's 759 is echoed
    assert_eq!(doc["version"]["protocol"].as_u16().unwrap(), 759);
    assert_eq!(doc["description"].as_str().unwrap(), "hello");
    assert!(doc["favicon"].is_null());
    assert_eq!(doc["enforcesSecureChat"].as_bool().unwrap(), false);
}

#[test]
fn status_without_handshake_defaults_to_127() {
    let info = default_info();
    let mut player = Player::new();
    player.state = ConnectionState::STATUS;
    receive(&mut player, &info, &[0x01, 0x00]).unwrap();
    let doc = status_json(&player);
    assert_eq!(doc["version"]["protocol"].as_u16().unwrap(), 127);
}

#[test]
fn status_fields_motd_json_and_favicon() {
    let entry = PlayerListEntry {
        name: "Steve".to_string(),
        uuid: Some(0x123e4567e89b12d3a456426614174000u128),
    };
    let anon = PlayerListEntry { name: "Anon".to_string(), uuid: None };
    let info = mk_info(
        "custom",
        Some(760),
        -2,
        100,
        vec![entry, anon],
        "{\"text\":\"hi\"}",
        "bye",
        Some("AAA="),
    );
    let mut player = Player::new();
    player.state = ConnectionState::STATUS;
    receive(&mut player, &info, &[0x01, 0x00]).unwrap();
    let doc = status_json(&player);
    assert_eq!(doc["version"]["protocol"].as_u16().unwrap(), 760);
    assert_eq!(doc["players"]["online"].as_i32().unwrap(), -2);
    assert_eq!(doc["description"]["text"].as_str().unwrap(), "hi");
    assert_eq!(
        doc["favicon"].as_str().unwrap(),
        "data:image/png;base64,AAA="
    );
    let sample = &doc["players"]["sample"];
    assert_eq!(sample.len(), 2);
    assert_eq!(sample[0]["name"].as_str().unwrap(), "Steve");
    assert_eq!(
        sample[0]["id"].as_str().unwrap(),
        "123e4567-e89b-12d3-a456-426614174000"
    );
    assert_eq!(
        sample[1]["id"].as_str().unwrap(),
        "00000000-0000-0000-0000-000000000000"
    );
}

#[test]
fn status_motd_reserialized_compact() {
    let info = mk_info("v", None, 0, 0, vec![], "{ \"text\" : \"hi\" }", "k", None);
    let mut player = Player::new();
    player.state = ConnectionState::STATUS;
    receive(&mut player, &info, &[0x01, 0x00]).unwrap();
    let doc = status_json(&player);
    assert_eq!(doc["description"]["text"].as_str().unwrap(), "hi");
    // the parsed value is embedded in the crate's compact form
    let (_, body, _) = parse_frame(&player.out);
    let text = String::from_utf8_lossy(&body);
    assert!(text.contains("\"description\":{\"text\":\"hi\"}"));
}

#[test]
fn status_escapes_quotes_in_motd() {
    let info = mk_info("v", None, 0, 0, vec![], "say \"hi\"", "k", None);
    let mut player = Player::new();
    player.state = ConnectionState::STATUS;
    receive(&mut player, &info, &[0x01, 0x00]).unwrap();
    let doc = status_json(&player);
    assert_eq!(doc["description"].as_str().unwrap(), "say \"hi\"");
}

#[test]
fn ping_echo() {
    let info = default_info();
    let mut player = Player::new();
    player.state = ConnectionState::STATUS;
    let token = [0xde, 0xad, 0xbe, 0xef, 0x01, 0x02, 0x03, 0x04];
    let mut bytes = vec![0x09, 0x01];
    bytes.extend_from_slice(&token);
    receive(&mut player, &info, &bytes).unwrap();
    let mut expected = vec![0x09, 0x01];
    expected.extend_from_slice(&token);
    assert_eq!(player.out, expected);
}

#[test]
fn ping_scenario_after_status() {
    let info = default_info();
    let mut player = Player::new();
    receive(&mut player, &info, &handshake_frame(759, "localhost", 25565, 1)).unwrap();
    receive(&mut player, &info, &[0x01, 0x00]).unwrap();
    let (_, _, consumed) = parse_frame(&player.out);
    let before = player.out.len();
    assert_eq!(consumed, before);
    receive(
        &mut player,
        &info,
        &[0x09, 0x01, 0x00, 0x00, 0x00, 0x00, 0x00, 0x00, 0x00, 0x2a],
    )
    .unwrap();
    // the same eight bytes come back under packet id 1
    assert_eq!(
        &player.out[before..],
        &[0x09, 0x01, 0x00, 0x00, 0x00, 0x00, 0x00, 0x00, 0x00, 0x2a]
    );
}

#[test]
fn login_reject_bad_name_length() {
    let info = default_info();
    let mut player = Player::new();
    receive(&mut player, &info, &handshake_frame(759, "localhost", 25565, 2)).unwrap();
    assert_eq!(player.state, ConnectionState::LOGIN);
    // login start with name_len = 17
    let res = receive(&mut player, &info, &frame(0, &encode(17)));
    assert!(matches!(res, Err(PacketError::DataError(v)) if v == vec![0, 0, 0, 17]));
    assert!(player.closed);
    assert!(player.out.is_empty());
}

#[test]
fn login_kick_plain_text_is_quoted() {
    let info = mk_info("v", None, 0, 0, vec![], "m", "Get out", None);
    let mut player = Player::new();
    player.state = ConnectionState::LOGIN;
    let mut body = encode(3);
    body.extend_from_slice(b"Bob");
    body.extend_from_slice(&[0u8; 16]);
    receive(&mut player, &info, &frame(0, &body)).unwrap();
    let (id, rbody, _) = parse_frame(&player.out);
    assert_eq!(id, 0);
    let mut s = ByteStream::new(rbody.clone());
    let slen = decode_stream(&mut s).unwrap() as usize;
    assert_eq!(&rbody[s.pos..s.pos + slen], b"\"Get out\"");
}

#[test]
fn login_kick_json_passes_through() {
    let info = mk_info("v", None, 0, 0, vec![], "m", "{\"text\":\"bye\"}", None);
    let mut player = Player::new();
    receive(&mut player, &info, &handshake_frame(759, "localhost", 25565, 2)).unwrap();
    // name_len=2, "Hi", zero UUID
    let mut body = encode(2);
    body.extend_from_slice(b"Hi");
    body.extend_from_slice(&[0u8; 16]);
    receive(&mut player, &info, &frame(0, &body)).unwrap();
    let (id, rbody, _) = parse_frame(&player.out);
    assert_eq!(id, 0);
    let mut s = ByteStream::new(rbody.clone());
    let slen = decode_stream(&mut s).unwrap() as usize;
    assert_eq!(&rbody[s.pos..s.pos + slen], b"{\"text\":\"bye\"}");
}

fn legacy_request() -> Vec<u8> {
    let mut bytes = vec![0xfe, 0x01, 0xfa];
    bytes.extend_from_slice(&11u16.to_be_bytes());
    bytes.extend_from_slice(&utf16be("MC|PingHost"));
    bytes.extend_from_slice(&7u16.to_be_bytes()); // remaining payload length
    bytes.push(47); // client protocol
    bytes.extend_from_slice(&2u16.to_be_bytes());
    bytes.extend_from_slice(&utf16be("ab"));
    bytes.extend_from_slice(&25565u32.to_be_bytes());
    bytes
}

#[test]
fn legacy_ping_shape() {
    let info = mk_info("1.8", None, 0, 20, vec![], "Hi", "k", None);
    let mut player = Player::new();
    receive(&mut player, &info, &legacy_request()).unwrap();
    let out = &player.out;
    assert_eq!(out[0], 0xff);
    let count = u16::from_be_bytes([out[1], out[2]]) as usize;
    // the count is in UTF-16 code units, covering everything after it
    assert_eq!(out.len(), 3 + 2 * count);
    assert_eq!(&out[3..9], &[0x00, 0xa7, 0x00, 0x31, 0x00, 0x00]);
    let mut expected = vec![0xff];
    let body = format!("47\u{0}1.8\u{0}Hi\u{0}0\u{0}20\u{0}");
    expected.extend_from_slice(&((3 + body.len()) as u16).to_be_bytes());
    expected.extend_from_slice(&[0x00, 0xa7, 0x00, 0x31, 0x00, 0x00]);
    expected.extend_from_slice(&utf16be(&body));
    assert_eq!(out, &expected);
    // the connection state is never advanced by the legacy path
    assert_eq!(player.state, ConnectionState::HANDSHAKING);
}

#[test]
fn legacy_ping_prefers_configured_protocol() {
    let info = mk_info("1.8", Some(99), 0, 20, vec![], "Hi", "k", None);
    let mut player = Player::new();
    receive(&mut player, &info, &legacy_request()).unwrap();
    let body = format!("99\u{0}1.8\u{0}Hi\u{0}0\u{0}20\u{0}");
    assert_eq!(&player.out[9..], &utf16be(&body)[..]);
}

#[test]
fn legacy_ping_non_ascii_motd() {
    let info = mk_info("1.8", None, 0, 20, vec![], "caf\u{e9}", "k", None);
    let mut player = Player::new();
    receive(&mut player, &info, &legacy_request()).unwrap();
    let body = format!("47\u{0}1.8\u{0}caf\u{e9}\u{0}0\u{0}20\u{0}");
    assert_eq!(&player.out[9..], &utf16be(&body)[..]);
}

#[test]
fn legacy_string_too_long_is_data_error() {
    let info = default_info();
    let mut player = Player::new();
    let mut bytes = vec![0xfe, 0x01, 0xfa];
    bytes.extend_from_slice(&300u16.to_be_bytes());
    let res = receive(&mut player, &info, &bytes);
    assert!(matches!(res, Err(PacketError::DataError(v)) if v == 300u16.to_be_bytes().to_vec()));
}

#[test]
fn legacy_invalid_utf16_is_invalid_string() {
    let info = default_info();
    let mut player = Player::new();
    let mut bytes = vec![0xfe, 0x01, 0xfa];
    bytes.extend_from_slice(&1u16.to_be_bytes());
    bytes.extend_from_slice(&0xd800u16.to_be_bytes()); // unpaired surrogate
    let res = receive(&mut player, &info, &bytes);
    assert!(matches!(res, Err(PacketError::InvalidString)));
}

#[test]
fn hot_reload_does_not_affect_in_flight_snapshot() {
    let old_info = default_info();
    let mut player = Player::new();
    receive(&mut player, &old_info, &handshake_frame(759, "localhost", 25565, 1)).unwrap();
    // a reload publishes a new snapshot, but this connection keeps the one
    // it started with
    let _new_info = mk_info("2.0", Some(1000), 9, 999, vec![], "new", "new", None);
    receive(&mut player, &old_info, &[0x01, 0x00]).unwrap();
    let doc = status_json(&player);
    assert_eq!(doc["players"]["max"].as_i32().unwrap(), 20);
    assert_eq!(doc["version"]["name"].as_str().unwrap(), "1.8");
}

#[test]
fn unknown_packet_id_is_ignored() {
    let info = default_info();
    let mut player = Player::new();
    player.state = ConnectionState::STATUS;
    receive(&mut player, &info, &frame(7, &[1, 2, 3])).unwrap();
    assert!(player.out.is_empty());
}

#[test]
fn error_messages_and_state_names() {
    assert_eq!(PacketError::ClosedError.message(), "Connection closed");
    assert_eq!(PacketError::MalformedVarint.message(), "Malformed varint");
    assert_eq!(PacketError::InvalidString.message(), "Invalid string sent");
    assert_eq!(
        PacketError::DataError(vec![1]).message(),
        "Player sent invalid data"
    );
    assert_eq!(PacketError::IOError.message(), "Transport error");
    assert_eq!(ConnectionState::HANDSHAKING.name(), "Handshaking");
    assert_eq!(ConnectionState::STATUS.name(), "Status");
    assert_eq!(ConnectionState::LOGIN.name(), "Login");
    assert_eq!(ConnectionState::TRANSFER.name(), "Transfer");
}

#[test]
fn two_frames_from_one_stream() {
    let info = default_info();
    let mut player = Player::new();
    let mut bytes = handshake_frame(759, "localhost", 25565, 1);
    bytes.extend_from_slice(&[0x01, 0x00]);
    let total = bytes.len();
    let mut input = ByteStream::new(bytes);
    player.receive_packet(&mut input, &info).unwrap();
    assert_eq!(player.state, ConnectionState::STATUS);
    player.receive_packet(&mut input, &info).unwrap();
    assert_eq!(input.pos, total);
    let doc = status_json(&player);
    assert_eq!(doc["players"]["max"].as_i32().unwrap(), 20);
}

#[test]
fn player_list_entry_new() {
    let e = PlayerListEntry::new("Steve", Some(7));
    assert_eq!(e.name, "Steve");
    assert_eq!(e.uuid, Some(7));
    let a = PlayerListEntry::new("Anon", None);
    assert_eq!(a.uuid, None);
}

#[test]
fn try_from_maps_intents() {
    assert!(matches!(
        ConnectionState::try_from(1),
        Ok(ConnectionState::STATUS)
    ));
    assert!(matches!(
        ConnectionState::try_from(2),
        Ok(ConnectionState::LOGIN)
    ));
    assert!(matches!(
        ConnectionState::try_from(3),
        Ok(ConnectionState::TRANSFER)
    ));
    assert!(matches!(ConnectionState::try_from(0), Err(e) if e.0 == 0));
    assert!(matches!(ConnectionState::try_from(9), Err(e) if e.0 == 9));
}

#[test]
fn truncated_frame_is_transport_error() {
    let info = default_info();
    let mut player = Player::new();
    // declares ten bytes, carries two
    let res = receive(&mut player, &info, &[0x0a, 0x00, 0x01]);
    assert!(matches!(res, Err(PacketError::IOError)));
}
