use vstd::prelude::*;

use crate::player::{ConnectionState, HandshakeInfo, Player};
use crate::stream::{be_u16, ByteStream};
use crate::text::{
    ascii_bytes, dec_int, dec_rep, json_canonical, json_escaped, json_parses, json_reserialize,
    push_ascii, push_dec_i32, push_dec_u32, push_json_escaped, push_uuid, uuid_text,
};
use crate::varint::{
    as_unsigned_32, decode_stream, encode, sp_varint, spec_encode, varint_size, VarintRead,
};
use vstd::utf8::{decode_utf8, encode_utf8, valid_utf8};

verus! {

/// The ways a connection can fail, per the protocol's error taxonomy.
#[derive(Debug, Clone, PartialEq, Eq)]
pub enum PacketError {
    /// Transport read or write failure, including timeouts and streams that
    /// end in the middle of a value.
    IOError,
    /// A varint ran past five bytes without a terminating byte.
    MalformedVarint,
    /// Bytes that are not valid UTF-8, or UTF-16 units that are not a valid
    /// string, where the protocol calls for one.
    InvalidString,
    /// A semantic violation; carries the offending bytes for logging.
    DataError(Vec<u8>),
    /// The peer closed, or sent a frame length outside (0, 256]; a normal
    /// end of the connection, not a server fault.
    ClosedError,
}

impl PacketError {
    /// A short description, as a log line would print it.
    pub fn message(&self) -> (r: &'static str)
        ensures
            self is IOError ==> r@ == "Transport error"@,
            self is MalformedVarint ==> r@ == "Malformed varint"@,
            self is InvalidString ==> r@ == "Invalid string sent"@,
            self is DataError ==> r@ == "Player sent invalid data"@,
            self is ClosedError ==> r@ == "Connection closed"@,
    {
        match self {
            PacketError::IOError => "Transport error",
            PacketError::MalformedVarint => "Malformed varint",
            PacketError::InvalidString => "Invalid string sent",
            PacketError::DataError(_) => "Player sent invalid data",
            PacketError::ClosedError => "Connection closed",
        }
    }
}

/// One advertised player in the server listing.
#[derive(Debug, Clone)]
pub struct PlayerListEntry {
    pub name: String,
    pub uuid: Option<u128>,
}

impl PlayerListEntry {
    /// An entry from a name and an optional 128-bit UUID.
    pub fn new(name: &str, uuid: Option<u128>) -> (r: PlayerListEntry)
        ensures
            r.name@ == name@,
            r.uuid == uuid,
    {
        PlayerListEntry { name: name.to_owned(), uuid }
    }
}

/// The configurable part of the server listing.
#[derive(Debug)]
pub struct ServerConfig {
    pub version: String,
    pub protocol: Option<u16>,
    pub online_players: i32,
    pub max_players: i32,
    pub player_list: Vec<PlayerListEntry>,
    pub motd: String,
    pub kick_message: String,
}

/// An immutable snapshot of configuration and favicon; `icon` is the raw
/// base64 text of a PNG, without a data-URI prefix.
#[derive(Debug)]
pub struct ServerInfo {
    pub config: ServerConfig,
    pub icon: Option<String>,
}

// ---------------------------------------------------------------------------
// Frames
// ---------------------------------------------------------------------------
/// A packet on the wire: total length, then packet id, then body.
pub open spec fn spec_frame(id: int, body: Seq<u8>) -> Seq<u8> {
    spec_encode(spec_encode(id).len() + body.len() as int) + spec_encode(id) + body
}

/// Everything of a player but its output is the same.
pub open spec fn same_player_core(a: Player, b: Player) -> bool {
    &&& a.state == b.state
    &&& match (a.handshake_info, b.handshake_info) {
        (None, None) => true,
        (Some(x), Some(y)) => x.protocol == y.protocol && x.server_addr@ == y.server_addr@
            && x.server_port == y.server_port,
        _ => false,
    }
    &&& a.closed == b.closed
}

/// The player is entirely unchanged.
pub open spec fn player_unchanged(a: Player, b: Player) -> bool {
    same_player_core(a, b) && a.out@ == b.out@
}

/// Appends one packet to the player's output: the varint total length, the
/// varint packet id, then the body. Fails (leaving the player untouched)
/// only when the frame length cannot be represented as a 32-bit value.
fn send_packet(packet_id: i32, data: &[u8], client: &mut Player) -> (r: Result<(), PacketError>)
    ensures
        same_player_core(*old(client), *final(client)),
        if spec_encode(packet_id as int).len() + data@.len() <= 0x7fff_ffff {
            r matches Ok(()) && final(client).out@ == old(client).out@ + spec_frame(
                packet_id as int,
                data@,
            )
        } else {
            r matches Err(PacketError::IOError) && final(client).out@ == old(client).out@
        },
{
    let pid = encode(packet_id);
    if data.len() > 0x7fff_ffff - pid.len() {
        return Err(PacketError::IOError);
    }
    let total: usize = pid.len() + data.len();
    let total_enc = encode(total as i32);
    let ghost pre = client.out@;
    client.out.extend_from_slice(total_enc.as_slice());
    client.out.extend_from_slice(pid.as_slice());
    client.out.extend_from_slice(data);
    proof {
        assert(final(client).out@ =~= pre + spec_frame(packet_id as int, data@));
    }
    Ok(())
}

// ---------------------------------------------------------------------------
// The status response document
// ---------------------------------------------------------------------------
/// The UUID a sample entry advertises: its own, or all zeros.
pub open spec fn spec_entry_uuid(e: PlayerListEntry) -> nat {
    match e.uuid {
        Some(u) => u as nat,
        None => 0,
    }
}

/// One sample entry as JSON: its name escaped, its UUID hyphenated.
pub open spec fn spec_entry_json(e: PlayerListEntry) -> Seq<u8> {
    ascii_bytes("{\"name\":\""@) + json_escaped(encode_utf8(e.name@)) + ascii_bytes("\",\"id\":\""@)
        + uuid_text(spec_entry_uuid(e)) + ascii_bytes("\"}"@)
}

/// The sample entries after the first, each preceded by a comma.
pub open spec fn spec_sample_tail(entries: Seq<PlayerListEntry>) -> Seq<u8>
    decreases entries.len(),
{
    if entries.len() == 0 {
        Seq::empty()
    } else {
        ascii_bytes(","@) + spec_entry_json(entries[0]) + spec_sample_tail(entries.skip(1))
    }
}

/// The comma-separated sample entries, without the surrounding brackets.
pub open spec fn spec_sample_json(entries: Seq<PlayerListEntry>) -> Seq<u8> {
    if entries.len() == 0 {
        Seq::empty()
    } else {
        spec_entry_json(entries[0]) + spec_sample_tail(entries.skip(1))
    }
}

/// The description field: the motd's parsed value when it is JSON, else the
/// motd as an escaped JSON string.
pub open spec fn spec_description(motd: Seq<char>) -> Seq<u8> {
    if json_parses(motd) {
        encode_utf8(json_canonical(motd))
    } else {
        ascii_bytes("\""@) + json_escaped(encode_utf8(motd)) + ascii_bytes("\""@)
    }
}

/// The favicon field: a data URI around the stored base64 text, or null.
pub open spec fn spec_favicon(icon: Option<Seq<char>>) -> Seq<u8> {
    match icon {
        Some(i) => ascii_bytes("\"data:image/png;base64,"@) + json_escaped(encode_utf8(i))
            + ascii_bytes("\""@),
        None => ascii_bytes("null"@),
    }
}

/// The status response document, keys in wire order.
pub open spec fn spec_status_json(
    version: Seq<char>,
    protocol: u16,
    maxplr: int,
    players: int,
    playerlist: Seq<PlayerListEntry>,
    motd: Seq<char>,
    secure: bool,
    icon: Option<Seq<char>>,
) -> Seq<u8> {
    ascii_bytes("{\"version\":{\"name\":\""@) + json_escaped(encode_utf8(version)) + ascii_bytes(
        "\",\"protocol\":"@,
    ) + dec_rep(protocol as nat) + ascii_bytes("},\"players\":{\"max\":"@) + dec_int(maxplr)
        + ascii_bytes(",\"online\":"@) + dec_int(players) + ascii_bytes(",\"sample\":["@)
        + spec_sample_json(playerlist) + ascii_bytes("]},\"description\":"@) + spec_description(motd)
        + ascii_bytes(",\"favicon\":"@) + spec_favicon(icon) + ascii_bytes(
        ",\"enforcesSecureChat\":"@,
    ) + (if secure {
        ascii_bytes("true"@)
    } else {
        ascii_bytes("false"@)
    }) + ascii_bytes("}"@)
}

/// The view of an optional borrowed string.
pub open spec fn opt_str_view(s: Option<&str>) -> Option<Seq<char>> {
    match s {
        Some(i) => Some(i@),
        None => None,
    }
}

/// The tail distributes over concatenation.
proof fn lemma_sample_tail_concat(a: Seq<PlayerListEntry>, b: Seq<PlayerListEntry>)
    ensures
        spec_sample_tail(a + b) == spec_sample_tail(a) + spec_sample_tail(b),
    decreases a.len(),
{
    if a.len() == 0 {
        assert(a + b =~= b);
        assert(spec_sample_tail(a) + spec_sample_tail(b) =~= spec_sample_tail(b));
    } else {
        assert((a + b).skip(1) =~= a.skip(1) + b);
        lemma_sample_tail_concat(a.skip(1), b);
        assert(spec_sample_tail(a + b) =~= spec_sample_tail(a) + spec_sample_tail(b));
    }
}

/// The tail of one entry is a comma and that entry.
proof fn lemma_sample_tail_single(e: PlayerListEntry)
    ensures
        spec_sample_tail(seq![e]) == ascii_bytes(","@) + spec_entry_json(e),
{
    let s = seq![e];
    assert(s.skip(1) =~= Seq::<PlayerListEntry>::empty());
    assert(spec_sample_tail(s.skip(1)) =~= Seq::<u8>::empty());
    assert(spec_sample_tail(s) == ascii_bytes(","@) + spec_entry_json(e) + spec_sample_tail(
        s.skip(1),
    ));
    assert(ascii_bytes(","@) + spec_entry_json(e) + spec_sample_tail(s.skip(1)) =~= ascii_bytes(
        ","@,
    ) + spec_entry_json(e));
}

/// Appends one sample entry as JSON.
fn append_entry_json(out: &mut Vec<u8>, e: &PlayerListEntry)
    ensures
        final(out)@ == old(out)@ + spec_entry_json(*e),
{
    proof {
        reveal_strlit("{\"name\":\"");
        assert(vstd::string::is_ascii("{\"name\":\""));
        reveal_strlit("\",\"id\":\"");
        assert(vstd::string::is_ascii("\",\"id\":\""));
        reveal_strlit("\"}");
        assert(vstd::string::is_ascii("\"}"));
    }
    push_ascii(out, "{\"name\":\"");
    push_json_escaped(out, e.name.as_str().as_bytes());
    push_ascii(out, "\",\"id\":\"");
    let u: u128 = match e.uuid {
        Some(u) => u,
        None => 0,
    };
    push_uuid(out, u);
    push_ascii(out, "\"}");
    proof {
        assert(final(out)@ =~= old(out)@ + spec_entry_json(*e));
    }
}

/// Builds the status response document as UTF-8 bytes, per the wire shape.
#[verifier::rlimit(50)]
fn make_status_response(
    version: &str,
    protocol: u16,
    maxplr: i32,
    players: i32,
    playerlist: &Vec<PlayerListEntry>,
    motd: &str,
    secure: bool,
    icon: Option<&str>,
) -> (res: Vec<u8>)
    ensures
        res@ == spec_status_json(
            version@,
            protocol,
            maxplr as int,
            players as int,
            playerlist@,
            motd@,
            secure,
            opt_str_view(icon),
        ),
{
    proof {
        reveal_strlit("{\"version\":{\"name\":\"");
        assert(vstd::string::is_ascii("{\"version\":{\"name\":\""));
        reveal_strlit("\",\"protocol\":");
        assert(vstd::string::is_ascii("\",\"protocol\":"));
        reveal_strlit("},\"players\":{\"max\":");
        assert(vstd::string::is_ascii("},\"players\":{\"max\":"));
        reveal_strlit(",\"online\":");
        assert(vstd::string::is_ascii(",\"online\":"));
        reveal_strlit(",\"sample\":[");
        assert(vstd::string::is_ascii(",\"sample\":["));
        reveal_strlit("]},\"description\":");
        assert(vstd::string::is_ascii("]},\"description\":"));
        reveal_strlit(",\"favicon\":");
        assert(vstd::string::is_ascii(",\"favicon\":"));
        reveal_strlit(",\"enforcesSecureChat\":");
        assert(vstd::string::is_ascii(",\"enforcesSecureChat\":"));
        reveal_strlit("}");
        assert(vstd::string::is_ascii("}"));
        reveal_strlit(",");
        assert(vstd::string::is_ascii(","));
        reveal_strlit("\"");
        assert(vstd::string::is_ascii("\""));
        reveal_strlit("\"data:image/png;base64,");
        assert(vstd::string::is_ascii("\"data:image/png;base64,"));
        reveal_strlit("null");
        assert(vstd::string::is_ascii("null"));
        reveal_strlit("true");
        assert(vstd::string::is_ascii("true"));
        reveal_strlit("false");
        assert(vstd::string::is_ascii("false"));
    }
    let mut res = Vec::<u8>::new();
    push_ascii(&mut res, "{\"version\":{\"name\":\"");
    push_json_escaped(&mut res, version.as_bytes());
    push_ascii(&mut res, "\",\"protocol\":");
    push_dec_u32(&mut res, protocol as u32);
    push_ascii(&mut res, "},\"players\":{\"max\":");
    push_dec_i32(&mut res, maxplr);
    push_ascii(&mut res, ",\"online\":");
    push_dec_i32(&mut res, players);
    push_ascii(&mut res, ",\"sample\":[");
    let ghost before_sample = res@;
    let mut i: usize = 0;
    while i < playerlist.len()
        invariant
            i <= playerlist@.len(),
            i == 0 ==> res@ == before_sample,
            i >= 1 ==> res@ == before_sample + spec_entry_json(playerlist@[0]) + spec_sample_tail(
                playerlist@.skip(1).take(i - 1),
            ),
        decreases playerlist@.len() - i,
    {
        if i == 0 {
            append_entry_json(&mut res, &playerlist[0]);
            proof {
                assert(playerlist@.skip(1).take(0) =~= Seq::<PlayerListEntry>::empty());
                assert(spec_sample_tail(playerlist@.skip(1).take(0)) =~= Seq::<u8>::empty());
                assert(res@ =~= before_sample + spec_entry_json(playerlist@[0]) + spec_sample_tail(
                    playerlist@.skip(1).take(0),
                ));
            }
        } else {
            proof {
                reveal_strlit(",");
                assert(vstd::string::is_ascii(","));
            }
            push_ascii(&mut res, ",");
            append_entry_json(&mut res, &playerlist[i]);
            proof {
                let t = playerlist@.skip(1);
                assert(t.take(i as int) =~= t.take(i - 1) + seq![t[i - 1]]);
                lemma_sample_tail_concat(t.take(i - 1), seq![t[i - 1]]);
                lemma_sample_tail_single(t[i - 1]);
                assert(t[i - 1] == playerlist@[i as int]);
                assert(res@ =~= before_sample + spec_entry_json(playerlist@[0]) + spec_sample_tail(
                    t.take(i as int),
                ));
            }
        }
        i = i + 1;
    }
    proof {
        if playerlist@.len() >= 1 {
            assert(playerlist@.skip(1).take(playerlist@.len() - 1) =~= playerlist@.skip(1));
        }
        assert(res@ =~= before_sample + spec_sample_json(playerlist@));
    }
    push_ascii(&mut res, "]},\"description\":");
    match json_reserialize(motd) {
        Some(parsed) => {
            let b: &[u8] = parsed.as_str().as_bytes();
            res.extend_from_slice(b);
        },
        None => {
            push_ascii(&mut res, "\"");
            push_json_escaped(&mut res, motd.as_bytes());
            push_ascii(&mut res, "\"");
        },
    }
    push_ascii(&mut res, ",\"favicon\":");
    match icon {
        Some(i) => {
            push_ascii(&mut res, "\"data:image/png;base64,");
            push_json_escaped(&mut res, i.as_bytes());
            push_ascii(&mut res, "\"");
        },
        None => {
            push_ascii(&mut res, "null");
        },
    }
    push_ascii(&mut res, ",\"enforcesSecureChat\":");
    if secure {
        push_ascii(&mut res, "true");
    } else {
        push_ascii(&mut res, "false");
    }
    push_ascii(&mut res, "}");
    proof {
        assert(res@ =~= spec_status_json(
            version@,
            protocol,
            maxplr as int,
            players as int,
            playerlist@,
            motd@,
            secure,
            opt_str_view(icon),
        ));
    }
    res
}

// ---------------------------------------------------------------------------
// Handshake
// ---------------------------------------------------------------------------
/// What a handshake body parses to.
pub enum HandshakeOutcome {
    /// A varint field began on an empty stream.
    Closed,
    /// The body ended mid-field, or declared a string it does not hold.
    Incomplete,
    /// A varint field overran five bytes.
    Overlong,
    /// The address bytes are not UTF-8.
    BadString,
    /// The intent byte selects no state.
    BadIntent(u8),
    /// Protocol, address, port and the state the intent selects.
    Accepted(u16, Seq<char>, u16, ConnectionState),
}

/// The truncation of a signed 32-bit value to its low 16 bits.
pub open spec fn truncate_u16(v: int) -> u16 {
    (as_unsigned_32(v) % 0x10000) as u16
}

/// The truncation of a signed 32-bit value to its low 8 bits.
pub open spec fn truncate_u8(v: int) -> u8 {
    (as_unsigned_32(v) % 0x100) as u8
}

/// The state a valid intent byte selects.
pub open spec fn spec_intent_state(b: u8) -> ConnectionState {
    if b == 1 {
        ConnectionState::STATUS
    } else if b == 2 {
        ConnectionState::LOGIN
    } else {
        ConnectionState::TRANSFER
    }
}

/// Parses a handshake body: protocol varint, length-prefixed UTF-8 address,
/// big-endian port, intent varint.
pub open spec fn parse_handshake(s: Seq<u8>) -> HandshakeOutcome {
    match sp_varint(s) {
        VarintRead::Closed => HandshakeOutcome::Closed,
        VarintRead::Short => HandshakeOutcome::Incomplete,
        VarintRead::Overlong => HandshakeOutcome::Overlong,
        VarintRead::Value(pv, k1) => {
            let s1 = s.skip(k1);
            match sp_varint(s1) {
                VarintRead::Closed => HandshakeOutcome::Closed,
                VarintRead::Short => HandshakeOutcome::Incomplete,
                VarintRead::Overlong => HandshakeOutcome::Overlong,
                VarintRead::Value(slen, k2) => {
                    let s2 = s1.skip(k2);
                    if slen < 0 || s2.len() < slen {
                        HandshakeOutcome::Incomplete
                    } else {
                        let host = s2.take(slen);
                        if !valid_utf8(host) {
                            HandshakeOutcome::BadString
                        } else {
                            let s3 = s2.skip(slen);
                            if s3.len() < 2 {
                                HandshakeOutcome::Incomplete
                            } else {
                                let port = be_u16(s3[0], s3[1]);
                                let s4 = s3.skip(2);
                                match sp_varint(s4) {
                                    VarintRead::Closed => HandshakeOutcome::Closed,
                                    VarintRead::Short => HandshakeOutcome::Incomplete,
                                    VarintRead::Overlong => HandshakeOutcome::Overlong,
                                    VarintRead::Value(intent, _k3) => {
                                        let b = truncate_u8(intent);
                                        if 1 <= b && b <= 3 {
                                            HandshakeOutcome::Accepted(
                                                truncate_u16(pv),
                                                decode_utf8(host),
                                                port,
                                                spec_intent_state(b),
                                            )
                                        } else {
                                            HandshakeOutcome::BadIntent(b)
                                        }
                                    },
                                }
                            }
                        }
                    }
                },
            }
        },
    }
}

/// How a handshake leaves the player and what it returns.
pub open spec fn handshake_post(
    pre: Player,
    post: Player,
    s: Seq<u8>,
    r: Result<(), PacketError>,
) -> bool {
    match parse_handshake(s) {
        HandshakeOutcome::Closed => r matches Err(PacketError::ClosedError) && player_unchanged(
            pre,
            post,
        ),
        HandshakeOutcome::Incomplete => r matches Err(PacketError::IOError) && player_unchanged(
            pre,
            post,
        ),
        HandshakeOutcome::Overlong => r matches Err(PacketError::MalformedVarint)
            && player_unchanged(pre, post),
        HandshakeOutcome::BadString => r matches Err(PacketError::InvalidString)
            && player_unchanged(pre, post),
        HandshakeOutcome::BadIntent(b) => (r matches Err(PacketError::DataError(v)) && v@ == seq![b])
            && player_unchanged(pre, post),
        HandshakeOutcome::Accepted(p, host, port, st) => {
            &&& r matches Ok(())
            &&& post.state == st
            &&& (post.handshake_info matches Some(h) && h.protocol == p && h.server_addr@ == host
                && h.server_port == port)
            &&& post.out@ == pre.out@
            &&& post.closed == pre.closed
        },
    }
}

/// Reads the handshake fields, stores them on the connection, and moves the
/// state to the one the intent selects. Sends nothing.
fn handle_handshake(packet: &mut ByteStream, client: &mut Player) -> (r: Result<(), PacketError>)
    requires
        old(packet).wf(),
    ensures
        final(packet).wf(),
        final(packet).data@ == old(packet).data@,
        handshake_post(*old(client), *final(client), old(packet).remaining(), r),
{
    let ghost s0 = old(packet).remaining();
    let protocol_version = match decode_stream(packet) {
        Ok(v) => v,
        Err(e) => {
            return Err(e);
        },
    };
    let ghost s1 = packet.remaining();
    proof {
        assert(s1 =~= s0.skip(varint_size(s0)));
    }
    let strlen = match decode_stream(packet) {
        Ok(v) => v,
        Err(e) => {
            return Err(e);
        },
    };
    let ghost s2 = packet.remaining();
    proof {
        assert(s2 =~= s1.skip(varint_size(s1)));
    }
    if strlen < 0 {
        return Err(PacketError::IOError);
    }
    let strbuf = match packet.read_exact(strlen as usize) {
        Some(v) => v,
        None => {
            return Err(PacketError::IOError);
        },
    };
    let ghost s3 = packet.remaining();
    proof {
        assert(strbuf@ == s2.take(strlen as int));
        assert(s3 =~= s2.skip(strlen as int));
    }
    let host = match crate::text::string_from_utf8(strbuf) {
        Some(h) => h,
        None => {
            return Err(PacketError::InvalidString);
        },
    };
    let port = match packet.read_u16_be() {
        Some(p) => p,
        None => {
            return Err(PacketError::IOError);
        },
    };
    let ghost s4 = packet.remaining();
    proof {
        assert(s4 =~= s3.skip(2));
    }
    let intent = match decode_stream(packet) {
        Ok(v) => v,
        Err(e) => {
            return Err(e);
        },
    };
    let intent_pattern = crate::varint::unsigned_pattern(intent);
    let intent_byte: u8 = (intent_pattern % 0x100) as u8;
    let state = match ConnectionState::try_from(intent_byte) {
        Ok(s) => s,
        Err(_) => {
            let mut v = Vec::<u8>::new();
            v.push(intent_byte);
            proof {
                assert(v@ =~= seq![truncate_u8(intent as int)]);
            }
            return Err(PacketError::DataError(v));
        },
    };
    let pv_pattern = crate::varint::unsigned_pattern(protocol_version);
    let info = HandshakeInfo {
        protocol: (pv_pattern % 0x10000) as u16,
        server_addr: host,
        server_port: port,
    };
    client.handshake_info = Some(info);
    client.state = state;
    Ok(())
}

// ---------------------------------------------------------------------------
// Status request and ping
// ---------------------------------------------------------------------------
/// The protocol number the status response advertises: the configured one,
/// else the one the client sent in its handshake, else 127.
pub open spec fn spec_status_protocol(info: ServerInfo, pre: Player) -> u16 {
    match info.config.protocol {
        Some(p) => p,
        None => match pre.handshake_info {
            Some(h) => h.protocol,
            None => 127,
        },
    }
}

/// The status response document for a snapshot, as seen by a player.
pub open spec fn spec_status_doc(info: ServerInfo, pre: Player) -> Seq<u8> {
    spec_status_json(
        info.config.version@,
        spec_status_protocol(info, pre),
        info.config.max_players as int,
        info.config.online_players as int,
        info.config.player_list@,
        info.config.motd@,
        false,
        match info.icon {
            Some(i) => Some(i@),
            None => None,
        },
    )
}

/// How a status request leaves the player: the response frame is appended,
/// unless the document cannot fit a 32-bit frame length.
pub open spec fn status_post(
    pre: Player,
    post: Player,
    info: ServerInfo,
    r: Result<(), PacketError>,
) -> bool {
    let doc = spec_status_doc(info, pre);
    if doc.len() <= 0x7fff_ff00 {
        &&& r matches Ok(())
        &&& post.out@ == pre.out@ + spec_frame(0, spec_encode(doc.len() as int) + doc)
        &&& same_player_core(pre, post)
    } else {
        r matches Err(PacketError::IOError) && player_unchanged(pre, post)
    }
}

/// Answers a status request: the JSON document, varint-length-prefixed,
/// framed under packet id 0. The request body is ignored.
fn handle_status(_packet: &mut ByteStream, client: &mut Player, info: &ServerInfo) -> (r: Result<
    (),
    PacketError,
>)
    ensures
        final(_packet).data@ == old(_packet).data@,
        final(_packet).pos == old(_packet).pos,
        status_post(*old(client), *final(client), *info, r),
{
    let protocol: u16 = match info.config.protocol {
        Some(p) => p,
        None => {
            match &client.handshake_info {
                Some(h) => h.protocol,
                None => 127,
            }
        },
    };
    let response = make_status_response(
        info.config.version.as_str(),
        protocol,
        info.config.max_players,
        info.config.online_players,
        &info.config.player_list,
        info.config.motd.as_str(),
        false,
        match &info.icon {
            Some(i) => Some(i.as_str()),
            None => None,
        },
    );
    if response.len() > 0x7fff_ff00 {
        return Err(PacketError::IOError);
    }
    let mut full_data = encode(response.len() as i32);
    full_data.extend_from_slice(response.as_slice());
    let r = send_packet(0x00, full_data.as_slice(), client);
    proof {
        assert(full_data@ == spec_encode(spec_status_doc(*info, *old(client)).len() as int)
            + spec_status_doc(*info, *old(client)));
    }
    r
}

/// How a ping leaves the player: the same eight bytes echoed under packet
/// id 1, or an I/O failure when fewer than eight are there.
pub open spec fn ping_post(
    pre: Player,
    post: Player,
    s: Seq<u8>,
    r: Result<(), PacketError>,
) -> bool {
    if s.len() >= 8 {
        &&& r matches Ok(())
        &&& post.out@ == pre.out@ + spec_frame(1, s.take(8))
        &&& same_player_core(pre, post)
    } else {
        r matches Err(PacketError::IOError) && player_unchanged(pre, post)
    }
}

/// Echoes the eight-byte ping token back under packet id 1.
pub fn handle_ping(data: &mut ByteStream, client: &mut Player) -> (r: Result<(), PacketError>)
    requires
        old(data).wf(),
    ensures
        final(data).wf(),
        final(data).data@ == old(data).data@,
        ping_post(*old(client), *final(client), old(data).remaining(), r),
{
    let token = match data.read_exact(8) {
        Some(t) => t,
        None => {
            return Err(PacketError::IOError);
        },
    };
    send_packet(0x01, token.as_slice(), client)
}

// ---------------------------------------------------------------------------
// Login
// ---------------------------------------------------------------------------
/// The big-endian bytes of a signed 32-bit value.
pub open spec fn i32_be_bytes(v: int) -> Seq<u8> {
    let u = as_unsigned_32(v);
    seq![
        ((u / 0x1000000) % 0x100) as u8,
        ((u / 0x10000) % 0x100) as u8,
        ((u / 0x100) % 0x100) as u8,
        (u % 0x100) as u8,
    ]
}

/// What a login-start body parses to.
pub enum LoginOutcome {
    /// A varint field began on an empty stream.
    Closed,
    /// The body ended mid-field.
    Incomplete,
    /// A varint field overran five bytes.
    Overlong,
    /// The name length is outside 1..=16; carries its big-endian bytes.
    BadNameLen(Seq<u8>),
    /// The name bytes are not UTF-8.
    BadString,
    /// Name and UUID were read; the kick response is owed.
    Accepted,
}

/// Parses a login-start body: varint name length, name, 16-byte UUID.
pub open spec fn parse_login(s: Seq<u8>) -> LoginOutcome {
    match sp_varint(s) {
        VarintRead::Closed => LoginOutcome::Closed,
        VarintRead::Short => LoginOutcome::Incomplete,
        VarintRead::Overlong => LoginOutcome::Overlong,
        VarintRead::Value(nl, k1) => {
            if nl <= 0 || nl > 16 {
                LoginOutcome::BadNameLen(i32_be_bytes(nl))
            } else {
                let s1 = s.skip(k1);
                if s1.len() < nl {
                    LoginOutcome::Incomplete
                } else if !valid_utf8(s1.take(nl)) {
                    LoginOutcome::BadString
                } else if s1.skip(nl).len() < 16 {
                    LoginOutcome::Incomplete
                } else {
                    LoginOutcome::Accepted
                }
            }
        },
    }
}

/// The kick text on the wire: the configured message when it is JSON, else
/// that message inside plain quotes, unescaped.
pub open spec fn spec_kick_bytes(kick: Seq<char>) -> Seq<u8> {
    if json_parses(kick) {
        encode_utf8(kick)
    } else {
        ascii_bytes("\""@) + encode_utf8(kick) + ascii_bytes("\""@)
    }
}

/// How a login-start leaves the player: a rejected name length shuts the
/// transport down; otherwise the kick message is framed under packet id 0.
pub open spec fn login_post(
    pre: Player,
    post: Player,
    info: ServerInfo,
    s: Seq<u8>,
    r: Result<(), PacketError>,
) -> bool {
    match parse_login(s) {
        LoginOutcome::Closed => r matches Err(PacketError::ClosedError) && player_unchanged(
            pre,
            post,
        ),
        LoginOutcome::Incomplete => r matches Err(PacketError::IOError) && player_unchanged(
            pre,
            post,
        ),
        LoginOutcome::Overlong => r matches Err(PacketError::MalformedVarint) && player_unchanged(
            pre,
            post,
        ),
        LoginOutcome::BadNameLen(bs) => {
            &&& (r matches Err(PacketError::DataError(v)) && v@ == bs)
            &&& post.closed
            &&& post.state == pre.state
            &&& post.out@ == pre.out@
        },
        LoginOutcome::BadString => r matches Err(PacketError::InvalidString) && player_unchanged(
            pre,
            post,
        ),
        LoginOutcome::Accepted => {
            let kick = spec_kick_bytes(info.config.kick_message@);
            if kick.len() <= 0x7fff_ff00 {
                &&& r matches Ok(())
                &&& post.out@ == pre.out@ + spec_frame(0, spec_encode(kick.len() as int) + kick)
                &&& same_player_core(pre, post)
            } else {
                r matches Err(PacketError::IOError) && player_unchanged(pre, post)
            }
        },
    }
}

/// Reads a login start and answers it with the configured kick message,
/// framed as a disconnect packet; a bad name length shuts the player down.
fn handle_login(packet: &mut ByteStream, client: &mut Player, info: &ServerInfo) -> (r: Result<
    (),
    PacketError,
>)
    requires
        old(packet).wf(),
    ensures
        final(packet).wf(),
        final(packet).data@ == old(packet).data@,
        login_post(*old(client), *final(client), *info, old(packet).remaining(), r),
{
    let ghost s0 = old(packet).remaining();
    let name_len = match decode_stream(packet) {
        Ok(v) => v,
        Err(e) => {
            return Err(e);
        },
    };
    let ghost s1 = packet.remaining();
    proof {
        assert(s1 =~= s0.skip(varint_size(s0)));
    }
    if name_len <= 0 || name_len > 16 {
        client.closed = true;
        let pattern = crate::varint::unsigned_pattern(name_len);
        let mut v = Vec::<u8>::new();
        v.push(((pattern / 0x1000000) % 0x100) as u8);
        v.push(((pattern / 0x10000) % 0x100) as u8);
        v.push(((pattern / 0x100) % 0x100) as u8);
        v.push((pattern % 0x100) as u8);
        proof {
            assert(v@ =~= i32_be_bytes(name_len as int));
        }
        return Err(PacketError::DataError(v));
    }
    let namebuf = match packet.read_exact(name_len as usize) {
        Some(v) => v,
        None => {
            return Err(PacketError::IOError);
        },
    };
    let ghost s2 = packet.remaining();
    proof {
        assert(namebuf@ == s1.take(name_len as int));
        assert(s2 =~= s1.skip(name_len as int));
    }
    let _name = match crate::text::string_from_utf8(namebuf) {
        Some(n) => n,
        None => {
            return Err(PacketError::InvalidString);
        },
    };
    let _uuid = match packet.read_exact(16) {
        Some(v) => v,
        None => {
            return Err(PacketError::IOError);
        },
    };
    let kick = build_kick_bytes(info.config.kick_message.as_str());
    if kick.len() > 0x7fff_ff00 {
        return Err(PacketError::IOError);
    }
    let mut total_data = encode(kick.len() as i32);
    total_data.extend_from_slice(kick.as_slice());
    let r = send_packet(0x00, total_data.as_slice(), client);
    proof {
        assert(total_data@ == spec_encode(spec_kick_bytes(info.config.kick_message@).len() as int)
            + spec_kick_bytes(info.config.kick_message@));
    }
    r
}

/// The kick text: passed through when it already is JSON, else wrapped in
/// quotes without interior escaping.
fn build_kick_bytes(kick: &str) -> (res: Vec<u8>)
    ensures
        res@ == spec_kick_bytes(kick@),
{
    proof {
        reveal_strlit("\"");
        assert(vstd::string::is_ascii("\""));
    }
    let mut res = Vec::<u8>::new();
    match json_reserialize(kick) {
        Some(_) => {
            res.extend_from_slice(kick.as_bytes());
            proof {
                assert(res@ =~= spec_kick_bytes(kick@));
            }
        },
        None => {
            push_ascii(&mut res, "\"");
            res.extend_from_slice(kick.as_bytes());
            push_ascii(&mut res, "\"");
            proof {
                assert(res@ =~= spec_kick_bytes(kick@));
            }
        },
    }
    res
}

// ---------------------------------------------------------------------------
// Dispatch on the connection state
// ---------------------------------------------------------------------------
/// How a packet with id 0 leaves the player, by the state it arrived in.
pub open spec fn status_login_post(
    pre: Player,
    post: Player,
    info: ServerInfo,
    s: Seq<u8>,
    r: Result<(), PacketError>,
) -> bool {
    match pre.state {
        ConnectionState::HANDSHAKING => handshake_post(pre, post, s, r),
        ConnectionState::STATUS => status_post(pre, post, info, r),
        ConnectionState::LOGIN => login_post(pre, post, info, s, r),
        ConnectionState::TRANSFER => player_unchanged(pre, post) && r matches Ok(()),
    }
}

/// Routes a packet with id 0 to the handler its connection state owns: the
/// handshake, the status request, or the login start. In `Transfer` the
/// packet is invalid and ignored.
pub fn handle_status_login(packet: &mut ByteStream, client: &mut Player, info: &ServerInfo) -> (r:
    Result<(), PacketError>)
    requires
        old(packet).wf(),
    ensures
        final(packet).wf(),
        final(packet).data@ == old(packet).data@,
        status_login_post(*old(client), *final(client), *info, old(packet).remaining(), r),
{
    match client.state {
        ConnectionState::HANDSHAKING => handle_handshake(packet, client),
        ConnectionState::STATUS => handle_status(packet, client, info),
        ConnectionState::LOGIN => handle_login(packet, client, info),
        ConnectionState::TRANSFER => Ok(()),
    }
}

} // verus!
