use vstd::prelude::*;

verus! {

// ---------------------------------------------------------------------------
// ASCII literals
// ---------------------------------------------------------------------------
/// The bytes of an ASCII character sequence, one byte per character.
pub open spec fn ascii_bytes(s: Seq<char>) -> Seq<u8> {
    Seq::new(s.len(), |i: int| s[i] as u8)
}

/// Appends the bytes of an ASCII string.
pub fn push_ascii(out: &mut Vec<u8>, s: &str)
    requires
        vstd::string::is_ascii(s),
    ensures
        final(out)@ == old(out)@ + ascii_bytes(s@),
{
    let b: &[u8] = s.as_bytes();
    proof {
        broadcast use vstd::string::is_ascii_spec_bytes;

        assert(b@ =~= ascii_bytes(s@));
    }
    out.extend_from_slice(b);
}

// ---------------------------------------------------------------------------
// Hexadecimal and decimal digits
// ---------------------------------------------------------------------------
/// The lower-case hex digit for a value below sixteen.
pub open spec fn hex_digit(v: nat) -> u8 {
    if v < 10 {
        (0x30 + v) as u8
    } else {
        (0x57 + v) as u8
    }
}

/// `k` lower-case hex digits of `v`, most significant first; digits above the
/// `k`-th are dropped.
pub open spec fn hex_fixed(v: nat, k: nat) -> Seq<u8>
    decreases k,
{
    if k == 0 {
        Seq::empty()
    } else {
        hex_fixed(v / 16, (k - 1) as nat) + seq![hex_digit(v % 16)]
    }
}

/// Appends `k` fixed-width lower-case hex digits of `v`.
pub fn push_hex(out: &mut Vec<u8>, v: u128, k: usize)
    ensures
        final(out)@ == old(out)@ + hex_fixed(v as nat, k as nat),
    decreases k,
{
    if k == 0 {
        proof {
            assert(old(out)@ + hex_fixed(v as nat, 0) =~= old(out)@);
        }
        return ;
    }
    push_hex(out, v / 16, k - 1);
    let d: u8 = (v % 16) as u8;
    let c: u8 = if d < 10 {
        0x30 + d
    } else {
        0x57 + d
    };
    out.push(c);
    proof {
        assert(final(out)@ =~= old(out)@ + hex_fixed(v as nat, k as nat));
    }
}

/// The decimal digits of `n`, most significant first, no sign and no padding.
pub open spec fn dec_rep(n: nat) -> Seq<u8>
    decreases n via dec_rep_decreases
{
    if n < 10 {
        seq![(0x30 + n) as u8]
    } else {
        dec_rep(n / 10) + seq![(0x30 + n % 10) as u8]
    }
}

#[via_fn]
proof fn dec_rep_decreases(n: nat) {
    if n >= 10 {
        vstd::arithmetic::div_mod::lemma_div_decreases(n as int, 10);
    }
}

/// The decimal digits of `n`, preceded by a minus sign when negative.
pub open spec fn dec_int(n: int) -> Seq<u8> {
    if n < 0 {
        seq![0x2du8] + dec_rep((-n) as nat)
    } else {
        dec_rep(n as nat)
    }
}

/// Appends the decimal digits of `n`.
pub fn push_dec_u32(out: &mut Vec<u8>, n: u32)
    ensures
        final(out)@ == old(out)@ + dec_rep(n as nat),
    decreases n,
{
    if n < 10 {
        out.push(0x30 + n as u8);
        proof {
            assert(final(out)@ =~= old(out)@ + dec_rep(n as nat));
        }
        return ;
    }
    proof {
        vstd::arithmetic::div_mod::lemma_div_decreases(n as int, 10);
    }
    push_dec_u32(out, n / 10);
    out.push(0x30 + (n % 10) as u8);
    proof {
        assert(final(out)@ =~= old(out)@ + dec_rep(n as nat));
    }
}

/// Appends the decimal digits of `n`, minus sign first when negative.
pub fn push_dec_i32(out: &mut Vec<u8>, n: i32)
    ensures
        final(out)@ == old(out)@ + dec_int(n as int),
{
    if n < 0 {
        out.push(0x2d);
        let m: u32 = (-(n as i64)) as u32;
        push_dec_u32(out, m);
        proof {
            assert(final(out)@ =~= old(out)@ + dec_int(n as int));
        }
    } else {
        push_dec_u32(out, n as u32);
    }
}

// ---------------------------------------------------------------------------
// Hyphenated UUID text
// ---------------------------------------------------------------------------
/// The textual form of a 128-bit UUID: five lower-case hex groups of 8, 4, 4,
/// 4 and 12 digits, joined by hyphens.
pub open spec fn uuid_text(u: nat) -> Seq<u8> {
    hex_fixed(u / 0x1000000000000000000000000, 8) + seq![0x2du8] + hex_fixed(
        (u / 0x100000000000000000000) % 0x10000,
        4,
    ) + seq![0x2du8] + hex_fixed((u / 0x10000000000000000) % 0x10000, 4) + seq![0x2du8]
        + hex_fixed((u / 0x1000000000000) % 0x10000, 4) + seq![0x2du8] + hex_fixed(
        u % 0x1000000000000,
        12,
    )
}

/// Appends the hyphenated text of a 128-bit UUID.
pub fn push_uuid(out: &mut Vec<u8>, u: u128)
    ensures
        final(out)@ == old(out)@ + uuid_text(u as nat),
{
    push_hex(out, u / 0x1000000000000000000000000, 8);
    out.push(0x2d);
    push_hex(out, (u / 0x100000000000000000000) % 0x10000, 4);
    out.push(0x2d);
    push_hex(out, (u / 0x10000000000000000) % 0x10000, 4);
    out.push(0x2d);
    push_hex(out, (u / 0x1000000000000) % 0x10000, 4);
    out.push(0x2d);
    push_hex(out, u % 0x1000000000000, 12);
    proof {
        assert(final(out)@ =~= old(out)@ + uuid_text(u as nat));
    }
}

// ---------------------------------------------------------------------------
// JSON string escaping
// ---------------------------------------------------------------------------
/// How one byte of a UTF-8 string appears inside a JSON string literal:
/// quote and backslash are escaped, control bytes become `\u00XX`, and
/// everything else (continuation bytes included) passes through.
pub open spec fn esc_byte(b: u8) -> Seq<u8> {
    if b == 0x22 {
        seq![0x5cu8, 0x22u8]
    } else if b == 0x5c {
        seq![0x5cu8, 0x5cu8]
    } else if b < 0x20 {
        seq![0x5cu8, 0x75u8, 0x30u8, 0x30u8, hex_digit((b / 16) as nat), hex_digit((b % 16) as nat)]
    } else {
        seq![b]
    }
}

/// A UTF-8 byte sequence escaped for inclusion in a JSON string literal.
pub open spec fn json_escaped(s: Seq<u8>) -> Seq<u8>
    decreases s.len(),
{
    if s.len() == 0 {
        Seq::empty()
    } else {
        esc_byte(s[0]) + json_escaped(s.skip(1))
    }
}

/// Escaping distributes over concatenation.
pub proof fn lemma_json_escaped_concat(a: Seq<u8>, b: Seq<u8>)
    ensures
        json_escaped(a + b) == json_escaped(a) + json_escaped(b),
    decreases a.len(),
{
    if a.len() == 0 {
        assert(a + b =~= b);
        assert(json_escaped(a) + json_escaped(b) =~= json_escaped(b));
    } else {
        assert((a + b).skip(1) =~= a.skip(1) + b);
        lemma_json_escaped_concat(a.skip(1), b);
        assert(json_escaped(a + b) =~= json_escaped(a) + json_escaped(b));
    }
}

/// Escaping a single byte is that byte's escape.
pub proof fn lemma_json_escaped_single(b: u8)
    ensures
        json_escaped(seq![b]) == esc_byte(b),
{
    let s = seq![b];
    assert(s.skip(1) =~= Seq::<u8>::empty());
    assert(json_escaped(s.skip(1)) =~= Seq::<u8>::empty());
    assert(json_escaped(s) == esc_byte(b) + json_escaped(s.skip(1)));
    assert(esc_byte(b) + json_escaped(s.skip(1)) =~= esc_byte(b));
}

/// Appends the JSON-escaped form of the bytes.
pub fn push_json_escaped(out: &mut Vec<u8>, s: &[u8])
    ensures
        final(out)@ == old(out)@ + json_escaped(s@),
{
    let ghost orig = old(out)@;
    let mut i: usize = 0;
    proof {
        assert(s@.take(0) =~= Seq::<u8>::empty());
        assert(out@ =~= orig + json_escaped(s@.take(0)));
    }
    while i < s.len()
        invariant
            i <= s@.len(),
            out@ == orig + json_escaped(s@.take(i as int)),
        decreases s@.len() - i,
    {
        let b = s[i];
        if b == 0x22 {
            out.push(0x5c);
            out.push(0x22);
        } else if b == 0x5c {
            out.push(0x5c);
            out.push(0x5c);
        } else if b < 0x20 {
            out.push(0x5c);
            out.push(0x75);
            out.push(0x30);
            out.push(0x30);
            let hi: u8 = b / 16;
            let lo: u8 = b % 16;
            out.push(if hi < 10 { 0x30 + hi } else { 0x57 + hi });
            out.push(if lo < 10 { 0x30 + lo } else { 0x57 + lo });
        } else {
            out.push(b);
        }
        proof {
            assert(s@.take(i + 1) =~= s@.take(i as int) + seq![s@[i as int]]);
            lemma_json_escaped_concat(s@.take(i as int), seq![s@[i as int]]);
            lemma_json_escaped_single(s@[i as int]);
            assert(out@ =~= orig + json_escaped(s@.take(i + 1)));
        }
        i = i + 1;
    }
    proof {
        assert(s@.take(s@.len() as int) =~= s@);
    }
}

// ---------------------------------------------------------------------------
// UTF-16
// ---------------------------------------------------------------------------
/// The UTF-16 code units of one character: a single unit below 0x10000, a
/// surrogate pair above.
pub open spec fn utf16_encode_char(c: char) -> Seq<u16> {
    if (c as u32) < 0x10000 {
        seq![(c as u32) as u16]
    } else {
        seq![
            (0xd800 + ((c as u32) - 0x10000) / 0x400) as u16,
            (0xdc00 + ((c as u32) - 0x10000) % 0x400) as u16,
        ]
    }
}

/// The UTF-16 code units of a character sequence.
pub open spec fn utf16_encode(s: Seq<char>) -> Seq<u16>
    decreases s.len(),
{
    if s.len() == 0 {
        Seq::empty()
    } else {
        utf16_encode_char(s[0]) + utf16_encode(s.skip(1))
    }
}

/// ASCII bytes reinterpreted as UTF-16 code units, one unit per byte.
pub open spec fn ascii_units(s: Seq<u8>) -> Seq<u16> {
    Seq::new(s.len(), |i: int| s[i] as u16)
}

/// Appends one code unit per byte.
pub fn push_byte_units(units: &mut Vec<u16>, bytes: &Vec<u8>)
    ensures
        final(units)@ == old(units)@ + ascii_units(bytes@),
{
    let ghost orig = old(units)@;
    let mut i: usize = 0;
    while i < bytes.len()
        invariant
            i <= bytes@.len(),
            units@ == orig + ascii_units(bytes@).take(i as int),
        decreases bytes@.len() - i,
    {
        units.push(bytes[i] as u16);
        proof {
            assert(units@ =~= orig + ascii_units(bytes@).take(i + 1));
        }
        i = i + 1;
    }
    proof {
        assert(ascii_units(bytes@).take(bytes@.len() as int) =~= ascii_units(bytes@));
    }
}

/// Code units laid out big-endian, two bytes each.
pub open spec fn units_be_bytes(us: Seq<u16>) -> Seq<u8>
    decreases us.len(),
{
    if us.len() == 0 {
        Seq::empty()
    } else {
        seq![(us[0] / 256) as u8, (us[0] % 256) as u8] + units_be_bytes(us.skip(1))
    }
}

/// Big-endian layout distributes over concatenation.
pub proof fn lemma_units_be_bytes_concat(a: Seq<u16>, b: Seq<u16>)
    ensures
        units_be_bytes(a + b) == units_be_bytes(a) + units_be_bytes(b),
    decreases a.len(),
{
    if a.len() == 0 {
        assert(a + b =~= b);
        assert(units_be_bytes(a) + units_be_bytes(b) =~= units_be_bytes(b));
    } else {
        assert((a + b).skip(1) =~= a.skip(1) + b);
        lemma_units_be_bytes_concat(a.skip(1), b);
        assert(units_be_bytes(a + b) =~= units_be_bytes(a) + units_be_bytes(b));
    }
}

/// Laying out a single code unit is its two bytes.
pub proof fn lemma_units_be_bytes_single(u: u16)
    ensures
        units_be_bytes(seq![u]) == seq![(u / 256) as u8, (u % 256) as u8],
{
    let s = seq![u];
    assert(s.skip(1) =~= Seq::<u16>::empty());
    assert(units_be_bytes(s.skip(1)) =~= Seq::<u8>::empty());
    assert(units_be_bytes(s) == seq![(u / 256) as u8, (u % 256) as u8] + units_be_bytes(s.skip(1)));
    assert(seq![(u / 256) as u8, (u % 256) as u8] + units_be_bytes(s.skip(1)) =~= seq![
        (u / 256) as u8,
        (u % 256) as u8,
    ]);
}

/// Appends each code unit as two big-endian bytes.
pub fn push_units_be(out: &mut Vec<u8>, units: &Vec<u16>)
    ensures
        final(out)@ == old(out)@ + units_be_bytes(units@),
{
    let ghost orig = old(out)@;
    let mut i: usize = 0;
    proof {
        assert(units@.take(0) =~= Seq::<u16>::empty());
        assert(out@ =~= orig + units_be_bytes(units@.take(0)));
    }
    while i < units.len()
        invariant
            i <= units@.len(),
            out@ == orig + units_be_bytes(units@.take(i as int)),
        decreases units@.len() - i,
    {
        let u = units[i];
        out.push((u / 256) as u8);
        out.push((u % 256) as u8);
        proof {
            assert(units@.take(i + 1) =~= units@.take(i as int) + seq![units@[i as int]]);
            lemma_units_be_bytes_concat(units@.take(i as int), seq![units@[i as int]]);
            lemma_units_be_bytes_single(units@[i as int]);
            assert(out@ =~= orig + units_be_bytes(units@.take(i + 1)));
        }
        i = i + 1;
    }
    proof {
        assert(units@.take(units@.len() as int) =~= units@);
    }
}

// ---------------------------------------------------------------------------
// Trusted bridges to the standard library and the json crate
// ---------------------------------------------------------------------------
/// Relies on String::from_utf8: yields the decoded string exactly when the
/// bytes are valid UTF-8, per vstd's model of the encoding.
#[verifier::external_body]
pub fn string_from_utf8(b: Vec<u8>) -> (r: Option<String>)
    ensures
        r is Some <==> vstd::utf8::valid_utf8(b@),
        (r matches Some(s) ==> s@ == vstd::utf8::decode_utf8(b@)),
{
    String::from_utf8(b).ok()
}

/// Relies on str::encode_utf16: the string's characters as UTF-16 code
/// units, single units below 0x10000 and surrogate pairs above.
#[verifier::external_body]
pub fn utf16_units(s: &str) -> (r: Vec<u16>)
    ensures
        r@ == utf16_encode(s@),
{
    s.encode_utf16().collect()
}

/// Whether a text is valid JSON, as the json crate's parser accepts it.
pub uninterp spec fn json_parses(s: Seq<char>) -> bool;

/// The json crate's compact serialization of the value a text parses to.
pub uninterp spec fn json_canonical(s: Seq<char>) -> Seq<char>;

/// Relies on json::parse and json::JsonValue::dump: whether a text parses,
/// and the compact form of the parsed value, depend on the characters alone.
#[verifier::external_body]
pub fn json_reserialize(s: &str) -> (r: Option<String>)
    ensures
        r is Some <==> json_parses(s@),
        (r matches Some(t) ==> t@ == json_canonical(s@)),
{
    match json::parse(s) {
        Ok(v) => Some(v.dump()),
        Err(_) => None,
    }
}

} // verus!
