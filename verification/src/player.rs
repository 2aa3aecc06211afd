use vstd::prelude::*;

use crate::packets::{
    handle_ping, handle_status_login, ping_post, player_unchanged, same_player_core,
    status_login_post, PacketError, ServerInfo,
};
use crate::stream::{be_u16, ByteStream};
use crate::text::{
    ascii_units, dec_int, dec_rep, lemma_units_be_bytes_concat, push_byte_units, push_dec_i32,
    push_dec_u32, push_units_be, units_be_bytes, utf16_encode, utf16_units,
};
use crate::varint::{decode_stream, sp_varint, VarintRead};

verus! {

/// What the handshake declared, kept for the life of the connection.
#[derive(Debug)]
pub struct HandshakeInfo {
    pub protocol: u16,
    pub server_addr: String,
    pub server_port: u16,
}

/// Error carrying the rejected intent byte of a handshake.
#[derive(Debug)]
pub struct ConnectionStateError(pub u8);

/// The four states a connection can be in, per the handshake intent.
#[derive(Debug, Clone, Copy, PartialEq, Eq, Structural)]
pub enum ConnectionState {
    HANDSHAKING,
    STATUS,
    LOGIN,
    TRANSFER,
}

impl ConnectionState {
    /// Maps a handshake intent byte to the state it selects; `1`, `2` and `3`
    /// select `STATUS`, `LOGIN` and `TRANSFER`, every other byte is rejected.
    pub fn try_from(value: u8) -> (r: Result<ConnectionState, ConnectionStateError>)
        ensures
            value == 1 ==> (r matches Ok(s) && s == ConnectionState::STATUS),
            value == 2 ==> (r matches Ok(s) && s == ConnectionState::LOGIN),
            value == 3 ==> (r matches Ok(s) && s == ConnectionState::TRANSFER),
            !(1 <= value <= 3) ==> (r matches Err(e) && e.0 == value),
    {
        match value {
            1 => Ok(ConnectionState::STATUS),
            2 => Ok(ConnectionState::LOGIN),
            3 => Ok(ConnectionState::TRANSFER),
            p => Err(ConnectionStateError(p)),
        }
    }

    /// The state's name, as a log line would print it.
    pub fn name(&self) -> (r: &'static str)
        ensures
            self is HANDSHAKING ==> r@ == "Handshaking"@,
            self is STATUS ==> r@ == "Status"@,
            self is LOGIN ==> r@ == "Login"@,
            self is TRANSFER ==> r@ == "Transfer"@,
    {
        match self {
            ConnectionState::HANDSHAKING => "Handshaking",
            ConnectionState::STATUS => "Status",
            ConnectionState::LOGIN => "Login",
            ConnectionState::TRANSFER => "Transfer",
        }
    }
}

// ---------------------------------------------------------------------------
// UTF-16 wire strings
// ---------------------------------------------------------------------------
/// Valid UTF-16: every high surrogate is followed by a low surrogate, and no
/// low surrogate stands alone.
pub open spec fn utf16_valid(units: Seq<u16>) -> bool
    decreases units.len(),
{
    if units.len() == 0 {
        true
    } else if units[0] < 0xd800 || units[0] >= 0xe000 {
        utf16_valid(units.skip(1))
    } else if units[0] < 0xdc00 {
        units.len() >= 2 && 0xdc00 <= units[1] < 0xe000 && utf16_valid(units.skip(2))
    } else {
        false
    }
}

/// Decides `utf16_valid` by a single scan.
fn utf16_check(units: &Vec<u16>) -> (r: bool)
    ensures
        r == utf16_valid(units@),
{
    let mut i: usize = 0;
    proof {
        assert(units@.skip(0) =~= units@);
    }
    while i < units.len()
        invariant
            i <= units@.len(),
            utf16_valid(units@) == utf16_valid(units@.skip(i as int)),
        decreases units@.len() - i,
    {
        let u = units[i];
        if u < 0xd800 || u >= 0xe000 {
            proof {
                assert(units@.skip(i as int).skip(1) =~= units@.skip(i + 1));
            }
            i = i + 1;
        } else if u < 0xdc00 {
            if i + 1 >= units.len() {
                return false;
            }
            let v = units[i + 1];
            if !(0xdc00 <= v && v < 0xe000) {
                return false;
            }
            proof {
                assert(units@.skip(i as int).skip(2) =~= units@.skip(i + 2));
            }
            i = i + 2;
        } else {
            return false;
        }
    }
    proof {
        assert(units@.skip(units@.len() as int) =~= Seq::<u16>::empty());
    }
    true
}

/// What a length-prefixed UTF-16 wire string parses to.
pub enum Utf16Read {
    /// The stream ends before the declared units.
    Incomplete,
    /// The declared length exceeds 255; carries its big-endian bytes.
    TooLong(Seq<u8>),
    /// The units are not valid UTF-16.
    Invalid,
    /// The units, and the total bytes the string occupies on the wire.
    Str(Seq<u16>, int),
}

/// The `n` big-endian code units that follow the two length bytes.
pub open spec fn spec_utf16_units(s: Seq<u8>, n: int) -> Seq<u16> {
    Seq::new(n as nat, |i: int| be_u16(s[2 + 2 * i], s[3 + 2 * i]))
}

/// Parses a UTF-16 wire string: a big-endian u16 count of code units, at
/// most 255, then that many big-endian units, which must decode as UTF-16.
pub open spec fn parse_utf16_string(s: Seq<u8>) -> Utf16Read {
    if s.len() < 2 {
        Utf16Read::Incomplete
    } else {
        let n = be_u16(s[0], s[1]) as int;
        if n > 255 {
            Utf16Read::TooLong(seq![s[0], s[1]])
        } else if s.len() < 2 + 2 * n {
            Utf16Read::Incomplete
        } else {
            let units = spec_utf16_units(s, n);
            if utf16_valid(units) {
                Utf16Read::Str(units, 2 + 2 * n)
            } else {
                Utf16Read::Invalid
            }
        }
    }
}

/// Reads one UTF-16 wire string: its length, its units, and a validity
/// check. A length over 255 is rejected with its own bytes; an invalid
/// sequence of units is an invalid string.
#[verifier::loop_isolation(false)]
fn read_utf16_string(input: &mut ByteStream) -> (r: Result<Vec<u16>, PacketError>)
    requires
        old(input).wf(),
    ensures
        final(input).wf(),
        final(input).data@ == old(input).data@,
        match parse_utf16_string(old(input).remaining()) {
            Utf16Read::Incomplete => r matches Err(PacketError::IOError),
            Utf16Read::TooLong(bs) => (r matches Err(PacketError::DataError(v)) && v@ == bs),
            Utf16Read::Invalid => r matches Err(PacketError::InvalidString),
            Utf16Read::Str(units, sz) => (r matches Ok(v) && v@ == units && final(input).pos == old(
                input,
            ).pos + sz),
        },
{
    let ghost s0 = old(input).remaining();
    let strlen = match input.read_u16_be() {
        Some(n) => n,
        None => {
            return Err(PacketError::IOError);
        },
    };
    if strlen > 255 {
        let mut v = Vec::<u8>::new();
        v.push((strlen / 256) as u8);
        v.push((strlen % 256) as u8);
        proof {
            assert(v@ =~= seq![s0[0], s0[1]]);
        }
        return Err(PacketError::DataError(v));
    }
    let mut units = Vec::<u16>::new();
    let mut i: usize = 0;
    while i < strlen as usize
        invariant
            input.wf(),
            input.data@ == old(input).data@,
            i <= strlen,
            strlen <= 255,
            s0.len() >= 2,
            2 + 2 * (i as int) <= s0.len(),
            strlen == be_u16(s0[0], s0[1]),
            input.pos == old(input).pos + 2 + 2 * (i as int),
            input.remaining() =~= s0.skip(2 + 2 * (i as int)),
            units@ =~= spec_utf16_units(s0, strlen as int).take(i as int),
        decreases strlen as int - i,
    {
        let u = match input.read_u16_be() {
            Some(u) => u,
            None => {
                proof {
                    assert(s0.len() < 2 + 2 * (strlen as int));
                }
                return Err(PacketError::IOError);
            },
        };
        proof {
            assert(2 + 2 * (i as int) + 2 <= s0.len());
            assert(s0.skip(2 + 2 * (i as int))[0] == s0[2 + 2 * (i as int)]);
            assert(s0.skip(2 + 2 * (i as int))[1] == s0[3 + 2 * (i as int)]);
        }
        units.push(u);
        proof {
            assert(input.remaining() =~= s0.skip(2 + 2 * (i + 1)));
            assert(units@ =~= spec_utf16_units(s0, strlen as int).take(i + 1));
        }
        i = i + 1;
    }
    proof {
        assert(units@ =~= spec_utf16_units(s0, strlen as int));
    }
    if !utf16_check(&units) {
        return Err(PacketError::InvalidString);
    }
    Ok(units)
}

// ---------------------------------------------------------------------------
// The player
// ---------------------------------------------------------------------------
/// One client's connection: its state, what its handshake declared, the
/// bytes owed to the transport, and whether the transport is to be shut
/// down. The transport itself lives outside: it feeds bytes in through a
/// `ByteStream` and drains `out`.
pub struct Player {
    pub state: ConnectionState,
    pub handshake_info: Option<HandshakeInfo>,
    pub out: Vec<u8>,
    pub closed: bool,
}

/// What a legacy ping parses to, after the `0xFE 0x01` sentinel.
pub enum LegacyOutcome {
    /// The stream ended mid-field.
    Incomplete,
    /// A wire string declared over 255 units; carries the length bytes.
    TooLong(Seq<u8>),
    /// A wire string held invalid UTF-16.
    Invalid,
    /// All fields were read; carries the protocol byte the client sent.
    Done(u8),
}

/// Parses the legacy ping tail: a packet identifier byte, a UTF-16 wire
/// string, a two-byte payload length, a protocol byte, a UTF-16 hostname
/// and a four-byte port.
pub open spec fn parse_legacy(s: Seq<u8>) -> LegacyOutcome {
    if s.len() < 1 {
        LegacyOutcome::Incomplete
    } else {
        match parse_utf16_string(s.skip(1)) {
            Utf16Read::Incomplete => LegacyOutcome::Incomplete,
            Utf16Read::TooLong(b) => LegacyOutcome::TooLong(b),
            Utf16Read::Invalid => LegacyOutcome::Invalid,
            Utf16Read::Str(_units, sz) => {
                let s2 = s.skip(1 + sz);
                if s2.len() < 3 {
                    LegacyOutcome::Incomplete
                } else {
                    match parse_utf16_string(s2.skip(3)) {
                        Utf16Read::Incomplete => LegacyOutcome::Incomplete,
                        Utf16Read::TooLong(b) => LegacyOutcome::TooLong(b),
                        Utf16Read::Invalid => LegacyOutcome::Invalid,
                        Utf16Read::Str(_h, sz2) => {
                            if s2.skip(3).skip(sz2).len() < 4 {
                                LegacyOutcome::Incomplete
                            } else {
                                LegacyOutcome::Done(s2[2])
                            }
                        },
                    }
                }
            },
        }
    }
}

/// The UTF-16 code units of the legacy response body: protocol, version,
/// motd, online and max player counts as text, each ended by a NUL.
pub open spec fn legacy_units(info: ServerInfo, client_protocol: u8) -> Seq<u16> {
    let proto: nat = match info.config.protocol {
        Some(p) => p as nat,
        None => client_protocol as nat,
    };
    ascii_units(dec_rep(proto)) + seq![0u16] + utf16_encode(info.config.version@) + seq![0u16]
        + utf16_encode(info.config.motd@) + seq![0u16] + ascii_units(
        dec_int(info.config.online_players as int),
    ) + seq![0u16] + ascii_units(dec_int(info.config.max_players as int)) + seq![0u16]
}

/// The legacy response on the wire: the 0xFF sentinel, the count of code
/// units that follow (truncated to 16 bits), and the section-sign header
/// and body laid out big-endian.
pub open spec fn legacy_response(info: ServerInfo, client_protocol: u8) -> Seq<u8> {
    let units = legacy_units(info, client_protocol);
    let count = (3 + units.len()) % 0x10000;
    seq![0xffu8, (count / 256) as u8, (count % 256) as u8] + units_be_bytes(
        seq![0x00a7u16, 0x0031u16, 0u16] + units,
    )
}

/// How many bytes a completed legacy ping occupies on the wire, after the
/// frame-length sentinel (meaningful when it parses to `Done`).
pub open spec fn legacy_size(s: Seq<u8>) -> int {
    match parse_utf16_string(s.skip(1)) {
        Utf16Read::Str(_u, sz1) => {
            let s2 = s.skip(1 + sz1);
            match parse_utf16_string(s2.skip(3)) {
                Utf16Read::Str(_h, sz2) => 1 + sz1 + 3 + sz2 + 4,
                _ => 0,
            }
        },
        _ => 0,
    }
}

/// How a legacy ping leaves the player and what it returns.
pub open spec fn legacy_post(
    pre: Player,
    post: Player,
    info: ServerInfo,
    s: Seq<u8>,
    r: Result<(), PacketError>,
) -> bool {
    match parse_legacy(s) {
        LegacyOutcome::Incomplete => r matches Err(PacketError::IOError) && player_unchanged(
            pre,
            post,
        ),
        LegacyOutcome::TooLong(b) => (r matches Err(PacketError::DataError(v)) && v@ == b)
            && player_unchanged(pre, post),
        LegacyOutcome::Invalid => r matches Err(PacketError::InvalidString) && player_unchanged(
            pre,
            post,
        ),
        LegacyOutcome::Done(pb) => {
            &&& r matches Ok(())
            &&& post.out@ == pre.out@ + legacy_response(info, pb)
            &&& same_player_core(pre, post)
        },
    }
}

/// How one frame body leaves the player: id 0 goes to the state's handler,
/// id 1 echoes a ping, anything else is ignored.
pub open spec fn packet_post(
    pre: Player,
    post: Player,
    info: ServerInfo,
    body: Seq<u8>,
    r: Result<(), PacketError>,
) -> bool {
    match sp_varint(body) {
        VarintRead::Closed => r matches Err(PacketError::ClosedError) && player_unchanged(
            pre,
            post,
        ),
        VarintRead::Short => r matches Err(PacketError::IOError) && player_unchanged(pre, post),
        VarintRead::Overlong => r matches Err(PacketError::MalformedVarint) && player_unchanged(
            pre,
            post,
        ),
        VarintRead::Value(id, k) => {
            if id == 0 {
                status_login_post(pre, post, info, body.skip(k), r)
            } else if id == 1 {
                ping_post(pre, post, body.skip(k), r)
            } else {
                player_unchanged(pre, post) && r matches Ok(())
            }
        },
    }
}

/// How one whole frame leaves the player: lengths outside (0, 256] end the
/// connection cleanly, length 254 in handshaking is the legacy path, and
/// anything else is a framed packet.
pub open spec fn receive_post(
    pre: Player,
    post: Player,
    info: ServerInfo,
    s: Seq<u8>,
    r: Result<(), PacketError>,
) -> bool {
    match sp_varint(s) {
        VarintRead::Closed => r matches Err(PacketError::ClosedError) && player_unchanged(
            pre,
            post,
        ),
        VarintRead::Short => r matches Err(PacketError::IOError) && player_unchanged(pre, post),
        VarintRead::Overlong => r matches Err(PacketError::MalformedVarint) && player_unchanged(
            pre,
            post,
        ),
        VarintRead::Value(len, k) => {
            if len <= 0 || len > 256 {
                r matches Err(PacketError::ClosedError) && player_unchanged(pre, post)
            } else if len == 254 && pre.state == ConnectionState::HANDSHAKING {
                legacy_post(pre, post, info, s.skip(k), r)
            } else if s.skip(k).len() < len {
                r matches Err(PacketError::IOError) && player_unchanged(pre, post)
            } else {
                packet_post(pre, post, info, s.skip(k).take(len), r)
            }
        },
    }
}

impl Player {
    /// A fresh connection: handshaking, nothing declared, nothing owed.
    pub fn new() -> (p: Player)
        ensures
            p.state == ConnectionState::HANDSHAKING,
            p.handshake_info is None,
            p.out@ == Seq::<u8>::empty(),
            !p.closed,
    {
        Player {
            state: ConnectionState::HANDSHAKING,
            handshake_info: None,
            out: Vec::new(),
            closed: false,
        }
    }

    /// Routes one frame body by its packet id.
    fn handle_packet(&mut self, packet: &mut ByteStream, info: &ServerInfo) -> (r: Result<
        (),
        PacketError,
    >)
        requires
            old(packet).wf(),
        ensures
            final(packet).wf(),
            final(packet).data@ == old(packet).data@,
            packet_post(*old(self), *final(self), *info, old(packet).remaining(), r),
    {
        let ghost s0 = old(packet).remaining();
        let packet_id = match decode_stream(packet) {
            Ok(v) => v,
            Err(e) => {
                return Err(e);
            },
        };
        proof {
            assert(packet.remaining() =~= s0.skip(crate::varint::varint_size(s0)));
        }
        match packet_id {
            0 => handle_status_login(packet, self, info),
            1 => handle_ping(packet, self),
            _ => Ok(()),
        }
    }

    /// Consumes and answers the legacy ping, whose framing predates the
    /// varint scheme: the response is UTF-16 text under a 0xFF sentinel.
    #[verifier::rlimit(100)]
    fn handle_legacy_ping(&mut self, input: &mut ByteStream, info: &ServerInfo) -> (r: Result<
        (),
        PacketError,
    >)
        requires
            old(input).wf(),
        ensures
            final(input).wf(),
            final(input).data@ == old(input).data@,
            legacy_post(*old(self), *final(self), *info, old(input).remaining(), r),
            parse_legacy(old(input).remaining()) is Done ==> final(input).pos == old(input).pos
                + legacy_size(old(input).remaining()),
    {
        let ghost s0 = old(input).remaining();
        let _packet_identifier = match input.read_u8() {
            Some(b) => b,
            None => {
                return Err(PacketError::IOError);
            },
        };
        proof {
            assert(input.remaining() =~= s0.skip(1));
        }
        let _pinghost = match read_utf16_string(input) {
            Ok(v) => v,
            Err(e) => {
                return Err(e);
            },
        };
        let ghost sz1 = match parse_utf16_string(s0.skip(1)) {
            Utf16Read::Str(_u, sz) => sz,
            _ => 0,
        };
        let ghost s2 = s0.skip(1 + sz1);
        proof {
            assert(input.remaining() =~= s2);
        }
        let _payload_len = match input.read_u16_be() {
            Some(v) => v,
            None => {
                return Err(PacketError::IOError);
            },
        };
        let protocol = match input.read_u8() {
            Some(b) => b,
            None => {
                return Err(PacketError::IOError);
            },
        };
        proof {
            assert(input.remaining() =~= s2.skip(3));
            assert(protocol == s2[2]);
        }
        let _hostname = match read_utf16_string(input) {
            Ok(v) => v,
            Err(e) => {
                return Err(e);
            },
        };
        let ghost sz2 = match parse_utf16_string(s2.skip(3)) {
            Utf16Read::Str(_u, sz) => sz,
            _ => 0,
        };
        proof {
            assert(input.remaining() =~= s2.skip(3).skip(sz2));
        }
        let _port = match input.read_exact(4) {
            Some(v) => v,
            None => {
                return Err(PacketError::IOError);
            },
        };
        // Assemble the response body as UTF-16 code units.
        let effective: u32 = match info.config.protocol {
            Some(p) => p as u32,
            None => protocol as u32,
        };
        let mut units = Vec::<u16>::new();
        let mut digits = Vec::<u8>::new();
        push_dec_u32(&mut digits, effective);
        push_byte_units(&mut units, &digits);
        units.push(0);
        let mut version_units = utf16_units(info.config.version.as_str());
        units.append(&mut version_units);
        units.push(0);
        let mut motd_units = utf16_units(info.config.motd.as_str());
        units.append(&mut motd_units);
        units.push(0);
        let mut online_digits = Vec::<u8>::new();
        push_dec_i32(&mut online_digits, info.config.online_players);
        push_byte_units(&mut units, &online_digits);
        units.push(0);
        let mut max_digits = Vec::<u8>::new();
        push_dec_i32(&mut max_digits, info.config.max_players);
        push_byte_units(&mut units, &max_digits);
        units.push(0);
        proof {
            assert(units@ =~= legacy_units(*info, protocol));
        }
        // Emit the sentinel, the unit count, the header and the body.
        let ghost pre_out = self.out@;
        self.out.push(0xff);
        let len_mod: usize = units.len() % 0x10000;
        let count: usize = (len_mod + 3) % 0x10000;
        proof {
            vstd::arithmetic::div_mod::lemma_add_mod_noop(3, units@.len() as int, 0x10000);
            vstd::arithmetic::div_mod::lemma_mod_mod(3 + units@.len() as int, 0x10000, 0x10000);
            assert(count == (3 + units@.len()) % 0x10000);
        }
        self.out.push((count / 256) as u8);
        self.out.push((count % 256) as u8);
        self.out.push(0x00);
        self.out.push(0xa7);
        self.out.push(0x00);
        self.out.push(0x31);
        self.out.push(0x00);
        self.out.push(0x00);
        push_units_be(&mut self.out, &units);
        proof {
            let hdr = seq![0x00a7u16, 0x0031u16, 0u16];
            assert(units_be_bytes(hdr) =~= seq![0u8, 0xa7u8, 0u8, 0x31u8, 0u8, 0u8]) by {
                reveal_with_fuel(units_be_bytes, 4);
            }
            lemma_units_be_bytes_concat(hdr, units@);
            assert(self.out@ =~= pre_out + legacy_response(*info, protocol));
        }
        Ok(())
    }

    /// Reads one frame from the stream and dispatches it: lengths outside
    /// (0, 256] end the connection, length 254 in handshaking takes the
    /// legacy path, and anything else is read whole and handled by id.
    pub fn receive_packet(&mut self, input: &mut ByteStream, info: &ServerInfo) -> (r: Result<
        (),
        PacketError,
    >)
        requires
            old(input).wf(),
        ensures
            final(input).wf(),
            final(input).data@ == old(input).data@,
            receive_post(*old(self), *final(self), *info, old(input).remaining(), r),
            sp_varint(old(input).remaining()) matches VarintRead::Value(len, k) ==> {
                let rest = old(input).remaining().skip(k);
                &&& !(0 < len <= 256) ==> final(input).pos == old(input).pos + k
                &&& (0 < len <= 256 && !(len == 254 && old(self).state
                    == ConnectionState::HANDSHAKING) && rest.len() >= len) ==> final(input).pos
                    == old(input).pos + k + len
                &&& (len == 254 && old(self).state == ConnectionState::HANDSHAKING && parse_legacy(
                    rest,
                ) is Done) ==> final(input).pos == old(input).pos + k + legacy_size(rest)
            },
    {
        let ghost s0 = old(input).remaining();
        let packet_size = match decode_stream(input) {
            Ok(v) => v,
            Err(e) => {
                return Err(e);
            },
        };
        proof {
            assert(input.remaining() =~= s0.skip(crate::varint::varint_size(s0)));
        }
        if packet_size <= 0 {
            return Err(PacketError::ClosedError);
        }
        if packet_size > 256 {
            return Err(PacketError::ClosedError);
        }
        if packet_size == 254 && matches!(self.state, ConnectionState::HANDSHAKING) {
            return self.handle_legacy_ping(input, info);
        }
        let buf = match input.read_exact(packet_size as usize) {
            Some(v) => v,
            None => {
                return Err(PacketError::IOError);
            },
        };
        let mut body = ByteStream::new(buf);
        self.handle_packet(&mut body, info)
    }
}

} // verus!
