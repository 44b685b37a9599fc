//! bao1x-uf2 flash protocol: the UF2 container, the base64 the boot1
//! bootloader's `uf2` command takes, the validation of its `Wrote …` acks,
//! and the per-block retry policy of a transfer. Talking to the serial
//! daemon is the application's part.
use vstd::prelude::*;
use crate::numbers::{hex_parse, parse_hex_u32, parse_unsigned, unsigned_parse};
use crate::serial::ExpectResponse;
use crate::text::{
    cat, cat3, decimal, join, join_strings, owned, push_char, push_decimal, push_str, strip_prefix,
    trim, trimmed, views,
};

verus! {

/// UF2 container magics (little-endian words at offsets 0, 4, 508).
pub const UF2_MAGIC_START0: u32 = 0x0A32_4655;
pub const UF2_MAGIC_START1: u32 = 0x9E5D_5157;
pub const UF2_MAGIC_END: u32 = 0x0AB1_6F30;
pub const UF2_BLOCK_SIZE: usize = 512;
/// A UF2 block's payload lives in a 476-byte field.
pub const UF2_MAX_PAYLOAD: u32 = 476;
/// How long to wait for a block's ack after the command is sent.
pub const ACK_TIMEOUT_MS: u64 = 500;
/// Attempts per block, total.
pub const BLOCK_ATTEMPTS: u32 = 3;
/// Abort the transfer once this many blocks have failed all their attempts.
pub const MAX_FAILED_BLOCKS: usize = 5;
/// Per-byte pacing for `localecho` commands.
pub const LOCALECHO_PACE_MS: u32 = 5;
/// Settle after switching localecho.
pub const SETTLE_MS: u64 = 100;
/// Everything a block exchange can answer; the `\s` anchor keeps a partial
/// hex address from matching early.
pub const ACK_PATTERN: &'static str =
    "Wrote (\\d+) to (0x[0-9a-fA-F]+)\\s|Invalid write address|Corrupt base64|CRC error|Command not recognized";

// ── base64 (standard alphabet, padded) ──────────────────────────────────────

/// The base64 digit for a six-bit value.
pub open spec fn b64_digit(i: nat) -> char {
    if i < 26 {
        (65 + i) as char
    } else if i < 52 {
        (97 + (i - 26)) as char
    } else if i < 62 {
        (48 + (i - 52)) as char
    } else if i == 62 {
        '+'
    } else {
        '/'
    }
}

/// The four digits of a three-byte group (missing bytes read as zero).
pub open spec fn b64_quad(a: u8, b: u8, c: u8) -> Seq<char> {
    seq![
        b64_digit((a / 4) as nat),
        b64_digit(((a % 4) * 16 + b / 16) as nat),
        b64_digit(((b % 16) * 4 + c / 64) as nat),
        b64_digit((c % 64) as nat),
    ]
}

/// Standard padded base64 of `d` (RFC 4648).
pub open spec fn base64(d: Seq<u8>) -> Seq<char>
    decreases d.len(),
{
    if d.len() == 0 {
        Seq::empty()
    } else if d.len() == 1 {
        b64_quad(d[0], 0, 0).take(2) + seq!['=', '=']
    } else if d.len() == 2 {
        b64_quad(d[0], d[1], 0).take(3) + seq!['=']
    } else {
        b64_quad(d[0], d[1], d[2]) + base64(d.skip(3))
    }
}

/// Base64 spends four characters on every started group of three bytes, so
/// a full 512-byte UF2 block travels as 684 characters.
pub proof fn law_base64_length(d: Seq<u8>)
    ensures
        base64(d).len() == 4 * ((d.len() + 2) / 3),
    decreases d.len(),
{
    if d.len() >= 3 {
        law_base64_length(d.skip(3));
    }
}

/// The number a base64 digit stands for (RFC 4648's alphabet).
pub open spec fn b64_value(c: char) -> int {
    if 'A' <= c && c <= 'Z' {
        c as int - 65
    } else if 'a' <= c && c <= 'z' {
        c as int - 97 + 26
    } else if '0' <= c && c <= '9' {
        c as int - 48 + 52
    } else if c == '+' {
        62
    } else {
        63
    }
}

/// The three bytes four digits stand for.
pub open spec fn b64_bytes(q: Seq<char>) -> Seq<u8> {
    let v0 = b64_value(q[0]);
    let v1 = b64_value(q[1]);
    let v2 = b64_value(q[2]);
    let v3 = b64_value(q[3]);
    seq![(v0 * 4 + v1 / 16) as u8, ((v1 % 16) * 16 + v2 / 4) as u8, ((v2 % 4) * 64 + v3) as u8]
}

/// RFC 4648 base64 decoding of padded text: each group of four digits gives
/// three bytes, one `=` of padding drops the last, two drop the last two.
pub open spec fn unbase64(s: Seq<char>) -> Seq<u8>
    decreases s.len(),
{
    if s.len() < 4 {
        Seq::empty()
    } else if s[2] == '=' {
        b64_bytes(s).take(1)
    } else if s[3] == '=' {
        b64_bytes(s).take(2)
    } else {
        b64_bytes(s) + unbase64(s.skip(4))
    }
}

proof fn lemma_b64_digit(i: nat)
    requires
        i < 64,
    ensures
        b64_value(b64_digit(i)) == i,
        b64_digit(i) != '=',
{
    if i < 26 {
        assert(((65 + i) as char) as int == 65 + i);
    } else if i < 52 {
        assert(((97 + (i - 26)) as char) as int == 97 + (i - 26));
    } else if i < 62 {
        assert(((48 + (i - 52)) as char) as int == 48 + (i - 52));
    }
}

#[verifier::spinoff_prover]
proof fn lemma_b64_quad(a: u8, b: u8, c: u8)
    ensures
        b64_bytes(b64_quad(a, b, c)) == seq![a, b, c],
        b64_quad(a, b, c)[2] != '=',
        b64_quad(a, b, c)[3] != '=',
        b64_bytes(b64_quad(a, 0, 0)).take(1) == seq![a],
        b64_bytes(b64_quad(a, b, 0)).take(2) == seq![a, b],
{
    lemma_b64_digit((a / 4) as nat);
    lemma_b64_digit(((a % 4) * 16 + b / 16) as nat);
    lemma_b64_digit(((b % 16) * 4 + c / 64) as nat);
    lemma_b64_digit((c % 64) as nat);
    lemma_b64_digit(((a % 4) * 16) as nat);
    lemma_b64_digit(((b % 16) * 4) as nat);
    lemma_b64_digit(0);
    assert((a / 4) * 4 + ((a % 4) * 16 + b / 16) / 16 == a) by (nonlinear_arith);
    assert((((a % 4) * 16 + b / 16) % 16) * 16 + ((b % 16) * 4 + c / 64) / 4 == b) by (nonlinear_arith);
    assert((((b % 16) * 4 + c / 64) % 4) * 64 + c % 64 == c) by (nonlinear_arith);
    assert((a / 4) * 4 + ((a % 4) * 16) / 16 == a) by (nonlinear_arith);
    assert((((a % 4) * 16 + b / 16) % 16) * 16 + ((b % 16) * 4) / 4 == b) by (nonlinear_arith);
    assert(b64_bytes(b64_quad(a, b, c)) =~= seq![a, b, c]);
    assert(b64_bytes(b64_quad(a, 0, 0)).take(1) =~= seq![a]);
    assert(b64_bytes(b64_quad(a, b, 0)).take(2) =~= seq![a, b]);
}

/// Base64 is undone by decoding: decoding the text of any bytes gives those
/// bytes back.
#[verifier::spinoff_prover]
#[verifier::rlimit(50)]
pub proof fn law_base64_decodes_to_its_bytes(d: Seq<u8>)
    ensures
        unbase64(base64(d)) == d,
    decreases d.len(),
{
    if d.len() == 0 {
    } else if d.len() == 1 {
        lemma_b64_quad(d[0], 0, 0);
        let s = base64(d);
        assert(s[2] == '=');
        let q = b64_quad(d[0], 0, 0);
        assert(s[0] == q[0] && s[1] == q[1]);
        assert(b64_bytes(s).take(1) =~= b64_bytes(q).take(1));
        assert(seq![d[0]] =~= d);
    } else if d.len() == 2 {
        lemma_b64_quad(d[0], d[1], 0);
        let s = base64(d);
        assert(s[2] == b64_quad(d[0], d[1], 0)[2]);
        assert(s[3] == '=');
        let q = b64_quad(d[0], d[1], 0);
        assert(s[0] == q[0] && s[1] == q[1] && s[2] == q[2]);
        assert(b64_bytes(s).take(2) =~= b64_bytes(q).take(2));
        assert(seq![d[0], d[1]] =~= d);
    } else {
        lemma_b64_quad(d[0], d[1], d[2]);
        law_base64_decodes_to_its_bytes(d.skip(3));
        let s = base64(d);
        let q = b64_quad(d[0], d[1], d[2]);
        assert(s[2] == q[2] && s[3] == q[3]);
        assert(s.skip(4) =~= base64(d.skip(3)));
        assert(b64_bytes(s) == b64_bytes(q));
        assert(seq![d[0], d[1], d[2]] + d.skip(3) =~= d);
    }
}

/// A character of base64's alphabet: `A`-`Z`, `a`-`z`, `0`-`9`, `+`, `/`.
pub open spec fn b64_alphabet(c: char) -> bool {
    ('A' <= c && c <= 'Z') || ('a' <= c && c <= 'z') || ('0' <= c && c <= '9') || c == '+' || c == '/'
}

/// How many `=` pad the base64 of `n` bytes.
pub open spec fn b64_padding(n: nat) -> int {
    (3 - n % 3) % 3
}

proof fn lemma_b64_digit_alphabet(i: nat)
    requires
        i < 64,
    ensures
        b64_alphabet(b64_digit(i)),
{
    if i < 26 {
        assert(((65 + i) as char) as int == 65 + i);
    } else if i < 52 {
        assert(((97 + (i - 26)) as char) as int == 97 + (i - 26));
    } else if i < 62 {
        assert(((48 + (i - 52)) as char) as int == 48 + (i - 52));
    }
}

proof fn lemma_b64_quad_alphabet(a: u8, b: u8, c: u8)
    ensures
        forall|i: int| 0 <= i < 4 ==> b64_alphabet(#[trigger] b64_quad(a, b, c)[i]),
{
    lemma_b64_digit_alphabet((a / 4) as nat);
    lemma_b64_digit_alphabet(((a % 4) * 16 + b / 16) as nat);
    lemma_b64_digit_alphabet(((b % 16) * 4 + c / 64) as nat);
    lemma_b64_digit_alphabet((c % 64) as nat);
}

/// Base64 text is alphabet characters followed by exactly the padding its
/// length calls for: one `=` when two bytes are left over, two when one is,
/// none otherwise.
#[verifier::spinoff_prover]
pub proof fn law_base64_is_alphabet_then_padding(d: Seq<u8>)
    ensures
        ({
            let t = base64(d);
            let p = b64_padding(d.len());
            &&& forall|i: int| 0 <= i < t.len() - p ==> b64_alphabet(#[trigger] t[i])
            &&& forall|i: int| t.len() - p <= i < t.len() ==> #[trigger] t[i] == '='
        }),
    decreases d.len(),
{
    law_base64_length(d);
    let t = base64(d);
    if d.len() == 0 {
    } else if d.len() == 1 {
        lemma_b64_quad_alphabet(d[0], 0, 0);
        assert forall|i: int| 0 <= i < 2 implies b64_alphabet(#[trigger] t[i]) by {
            assert(t[i] == b64_quad(d[0], 0, 0)[i]);
        }
    } else if d.len() == 2 {
        lemma_b64_quad_alphabet(d[0], d[1], 0);
        assert forall|i: int| 0 <= i < 3 implies b64_alphabet(#[trigger] t[i]) by {
            assert(t[i] == b64_quad(d[0], d[1], 0)[i]);
        }
    } else {
        let q = b64_quad(d[0], d[1], d[2]);
        let r = base64(d.skip(3));
        lemma_b64_quad_alphabet(d[0], d[1], d[2]);
        law_base64_is_alphabet_then_padding(d.skip(3));
        assert(t == q + r);
        assert(b64_padding(d.len()) == b64_padding(d.skip(3).len()));
        let p = b64_padding(d.len());
        assert forall|i: int| 0 <= i < t.len() - p implies b64_alphabet(#[trigger] t[i]) by {
            if i < 4 {
                assert(t[i] == q[i]);
            } else {
                assert(t[i] == r[i - 4]);
            }
        }
        assert forall|i: int| t.len() - p <= i < t.len() implies #[trigger] t[i] == '=' by {
            assert(t[i] == r[i - 4]);
        }
    }
}

fn digit(i: u8) -> (r: char)
    requires
        i < 64,
    ensures
        r == b64_digit(i as nat),
{
    if i < 26 {
        (65u8 + i) as char
    } else if i < 52 {
        (97u8 + (i - 26)) as char
    } else if i < 62 {
        (48u8 + (i - 52)) as char
    } else if i == 62 {
        '+'
    } else {
        '/'
    }
}

/// Standard padded base64, the form boot1's decoder expects.
pub fn base64_encode(data: &[u8]) -> (r: String)
    ensures
        r@ == base64(data@),
{
    let mut out = String::new();
    let mut i: usize = 0;
    proof {
        assert(data@.skip(0) =~= data@);
    }
    while i < data.len()
        invariant
            i <= data.len(),
            base64(data@) == out@ + base64(data@.skip(i as int)),
        decreases data.len() - i,
    {
        let rest = data.len() - i;
        let a = data[i];
        let b = if rest > 1 { data[i + 1] } else { 0u8 };
        let c = if rest > 2 { data[i + 2] } else { 0u8 };
        let ghost s = data@.skip(i as int);
        let ghost before = out@;
        push_char(&mut out, digit(a / 4));
        push_char(&mut out, digit((a % 4) * 16 + b / 16));
        if rest > 1 {
            push_char(&mut out, digit((b % 16) * 4 + c / 64));
        } else {
            push_char(&mut out, '=');
        }
        if rest > 2 {
            push_char(&mut out, digit(c % 64));
        } else {
            push_char(&mut out, '=');
        }
        proof {
            assert(s[0] == a);
            if rest > 2 {
                assert(s[1] == b && s[2] == c);
                assert(s.skip(3) =~= data@.skip(i + 3));
                assert(out@ =~= before + b64_quad(a, b, c));
            } else if rest == 2 {
                assert(s[1] == b);
                assert(out@ =~= before + (b64_quad(a, b, 0).take(3) + seq!['=']));
                assert(data@.skip(data.len() as int) =~= Seq::<u8>::empty());
            } else {
                assert(out@ =~= before + (b64_quad(a, 0, 0).take(2) + seq!['=', '=']));
                assert(data@.skip(data.len() as int) =~= Seq::<u8>::empty());
            }
        }
        if rest > 2 {
            i += 3;
        } else {
            i = data.len();
        }
    }
    assert(data@.skip(i as int) =~= Seq::<u8>::empty());
    assert(out@ + Seq::<char>::empty() =~= out@);
    out
}

// ── UF2 container ───────────────────────────────────────────────────────────

/// One 512-byte UF2 block, with the fields an ack is validated against.
#[derive(Debug)]
pub struct Uf2Block {
    pub raw: Vec<u8>,
    pub target_addr: u32,
    pub payload_size: u32,
}

/// The little-endian word at `off`.
pub open spec fn le32(b: Seq<u8>, off: int) -> nat {
    (b[off] + b[off + 1] * 0x100 + b[off + 2] * 0x1_0000 + b[off + 3] * 0x100_0000) as nat
}

fn read_le32(b: &[u8], off: usize) -> (r: u32)
    requires
        off + 4 <= b@.len(),
    ensures
        r as nat == le32(b@, off as int),
{
    let v: u64 = b[off] as u64 + (b[off + 1] as u64) * 0x100 + (b[off + 2] as u64) * 0x1_0000 + (
    b[off + 3] as u64) * 0x100_0000;
    v as u32
}

/// The `i`th 512-byte block of `bytes`.
pub open spec fn block_at(bytes: Seq<u8>, i: int) -> Seq<u8> {
    bytes.subrange(i * 512, i * 512 + 512)
}

pub open spec fn magics_ok(blk: Seq<u8>) -> bool {
    le32(blk, 0) == UF2_MAGIC_START0 && le32(blk, 4) == UF2_MAGIC_START1 && le32(blk, 508)
        == UF2_MAGIC_END
}

pub open spec fn payload_ok(blk: Seq<u8>) -> bool {
    0 < le32(blk, 16) <= UF2_MAX_PAYLOAD
}

/// Why a UF2 image is refused, or `None` when it is accepted: empty, a size
/// that is not a whole number of blocks, or the first block with bad magics
/// or an implausible payload size.
pub open spec fn uf2_error(name: Seq<char>, bytes: Seq<u8>) -> Option<Seq<char>> {
    if bytes.len() == 0 {
        Some(name + ": empty file"@)
    } else if bytes.len() % 512 != 0 {
        Some(
            name + ": "@ + decimal(bytes.len()) + " bytes is not a multiple of "@ + decimal(512)
                + " — not a UF2 image"@,
        )
    } else {
        first_bad_block(name, bytes, 0)
    }
}

/// The refusal for the first bad block at or after block `i`.
pub open spec fn first_bad_block(name: Seq<char>, bytes: Seq<u8>, i: int) -> Option<Seq<char>>
    decreases bytes.len() / 512 - i,
{
    if i < 0 || i >= bytes.len() / 512 {
        None
    } else if !magics_ok(block_at(bytes, i)) {
        Some(name + ": block "@ + decimal(i as nat) + " has bad UF2 magics — not a UF2 image"@)
    } else if !payload_ok(block_at(bytes, i)) {
        Some(
            name + ": block "@ + decimal(i as nat) + " has implausible payload size "@ + decimal(
                le32(block_at(bytes, i), 16),
            ),
        )
    } else {
        first_bad_block(name, bytes, i + 1)
    }
}

/// The blocks of `bytes` are exactly `blocks`: each one's bytes, address
/// (word 12) and payload size (word 16).
pub open spec fn blocks_of(bytes: Seq<u8>, blocks: Seq<Uf2Block>) -> bool {
    blocks.len() == bytes.len() / 512 && forall|i: int|
        0 <= i < blocks.len() ==> {
            &&& (#[trigger] blocks[i]).raw@ == block_at(bytes, i)
            &&& blocks[i].target_addr as nat == le32(block_at(bytes, i), 12)
            &&& blocks[i].payload_size as nat == le32(block_at(bytes, i), 16)
        }
}

fn block_error(name: &str, i: usize, what: &str) -> (r: String)
    ensures
        r@ == name@ + ": block "@ + decimal(i as nat) + what@,
{
    let mut m = cat(name, ": block ");
    push_decimal(&mut m, i as u64);
    push_str(&mut m, what);
    m
}

/// Validate a UF2 image (size a multiple of 512, per-block magics, sane
/// payload size) and split it into blocks.
pub fn parse_uf2(name: &str, bytes: &[u8]) -> (r: Result<Vec<Uf2Block>, String>)
    ensures
        match uf2_error(name@, bytes@) {
            Some(e) => r matches Err(m) && m@ == e,
            None => r matches Ok(v) && blocks_of(bytes@, v@),
        },
{
    if bytes.len() == 0 {
        return Err(cat(name, ": empty file"));
    }
    if bytes.len() % 512 != 0 {
        let mut m = cat(name, ": ");
        push_decimal(&mut m, bytes.len() as u64);
        push_str(&mut m, " bytes is not a multiple of ");
        push_decimal(&mut m, 512);
        push_str(&mut m, " — not a UF2 image");
        return Err(m);
    }
    let n = bytes.len() / 512;
    let mut blocks: Vec<Uf2Block> = Vec::new();
    let mut i: usize = 0;
    while i < n
        invariant
            n == bytes.len() / 512,
            bytes@.len() % 512 == 0,
            bytes@.len() > 0,
            i <= n,
            first_bad_block(name@, bytes@, 0) == first_bad_block(name@, bytes@, i as int),
            blocks@.len() == i,
            forall|k: int|
                0 <= k < i ==> {
                    &&& (#[trigger] blocks@[k]).raw@ == block_at(bytes@, k)
                    &&& blocks@[k].target_addr as nat == le32(block_at(bytes@, k), 12)
                    &&& blocks@[k].payload_size as nat == le32(block_at(bytes@, k), 16)
                },
        decreases n - i,
    {
        assert(i * 512 + 512 <= bytes.len()) by (nonlinear_arith)
            requires
                i < n,
                n == bytes.len() / 512,
        ;
        let off = i * 512;
        let mut raw: Vec<u8> = Vec::new();
        let mut k: usize = 0;
        while k < 512
            invariant
                off + 512 <= bytes.len(),
                off == i * 512,
                k <= 512,
                raw@ == bytes@.subrange(off as int, off + k),
            decreases 512 - k,
        {
            raw.push(bytes[off + k]);
            assert(bytes@.subrange(off as int, off + k + 1) =~= bytes@.subrange(off as int, off + k).push(
                bytes@[off + k],
            ));
            k += 1;
        }
        let ghost blk = block_at(bytes@, i as int);
        assert(raw@ == blk);
        let m0 = read_le32(raw.as_slice(), 0);
        let m1 = read_le32(raw.as_slice(), 4);
        let m2 = read_le32(raw.as_slice(), 508);
        if m0 != UF2_MAGIC_START0 || m1 != UF2_MAGIC_START1 || m2 != UF2_MAGIC_END {
            return Err(block_error(name, i, " has bad UF2 magics — not a UF2 image"));
        }
        let payload_size = read_le32(raw.as_slice(), 16);
        if payload_size == 0 || payload_size > UF2_MAX_PAYLOAD {
            let mut m = block_error(name, i, " has implausible payload size ");
            push_decimal(&mut m, payload_size as u64);
            return Err(m);
        }
        let target_addr = read_le32(raw.as_slice(), 12);
        blocks.push(Uf2Block { raw, target_addr, payload_size });
        i += 1;
    }
    Ok(blocks)
}

// ── ack validation ──────────────────────────────────────────────────────────

/// What a capture says, as a number: the size capture in decimal, the
/// address capture as `0x` then hexadecimal.
pub open spec fn capture_at(c: Seq<Option<String>>, i: int) -> Option<Seq<char>> {
    if 0 <= i < c.len() {
        match c[i] {
            Some(s) => Some(s@),
            None => None,
        }
    } else {
        None
    }
}

pub open spec fn ack_size(c: Seq<Option<String>>) -> Option<nat> {
    match capture_at(c, 0) {
        Some(s) => unsigned_parse(s, u32::MAX as nat),
        None => None,
    }
}

pub open spec fn ack_addr(c: Seq<Option<String>>) -> Option<nat> {
    match capture_at(c, 1) {
        Some(s) => if crate::text::starts_with(s, "0x"@) {
            hex_parse(s.subrange(2, s.len() as int))
        } else {
            None
        },
        None => None,
    }
}

/// Is this ack the one for `block`? Both the size and the address captures
/// must match the block, so a late ack for the previous block landing in
/// this block's window does not count.
pub fn ack_matches(resp: &ExpectResponse, block: &Uf2Block) -> (r: bool)
    ensures
        r == (ack_size(resp.captures@) == Some(block.payload_size as nat) && ack_addr(
            resp.captures@,
        ) == Some(block.target_addr as nat)),
{
    proof {
        reveal_strlit("0x");
    }
    let size = if resp.captures.len() > 0 {
        match &resp.captures[0] {
            Some(s) => parse_unsigned(s.as_str(), 0xffff_ffff),
            None => None,
        }
    } else {
        None
    };
    let addr = if resp.captures.len() > 1 {
        match &resp.captures[1] {
            Some(s) => match strip_prefix(s.as_str(), "0x") {
                Some(h) => parse_hex_u32(h.as_str()),
                None => None,
            },
            None => None,
        }
    } else {
        None
    };
    let size_ok = match size {
        Some(v) => v == block.payload_size as u64,
        None => false,
    };
    let addr_ok = match addr {
        Some(v) => v == block.target_addr,
        None => false,
    };
    size_ok && addr_ok
}

// ── the transfer ────────────────────────────────────────────────────────────

/// The REPL command that writes one block.
pub fn block_command(block: &Uf2Block) -> (r: String)
    ensures
        r@ == "uf2 "@ + base64(block.raw@) + "\r"@,
{
    let mut c = owned("uf2 ");
    push_str(&mut c, base64_encode(block.raw.as_slice()).as_str());
    push_str(&mut c, "\r");
    c
}

/// What an answer to a block command says of the block: whether it is the
/// right ack, and what to quote if the block ends up failing.
pub open spec fn reply_text(matched: bool, match_text: Option<String>) -> Seq<char> {
    match (match_text, matched) {
        (Some(m), true) => trim(m@),
        _ => "no ack within "@ + decimal(ACK_TIMEOUT_MS as nat) + " ms"@,
    }
}

pub fn block_outcome(resp: &ExpectResponse, block: &Uf2Block) -> (r: (bool, String))
    ensures
        r.0 == (resp.matched && ack_size(resp.captures@) == Some(block.payload_size as nat) && ack_addr(
            resp.captures@,
        ) == Some(block.target_addr as nat)),
        r.1@ == reply_text(resp.matched, resp.match_text),
{
    let acked = resp.matched && ack_matches(resp, block);
    let reply = match (&resp.match_text, resp.matched) {
        (Some(m), true) => trimmed(m.as_str()),
        _ => {
            let mut t = owned("no ack within ");
            push_decimal(&mut t, ACK_TIMEOUT_MS);
            push_str(&mut t, " ms");
            t
        },
    };
    (acked, reply)
}

/// Where the streaming of one image stands.
pub struct StreamState {
    /// The block being sent.
    pub block: usize,
    /// Which attempt at it, counting from 1.
    pub attempt: u32,
    /// Attempts beyond a block's first, over the whole image.
    pub retries: u64,
    /// The blocks that failed every attempt, in order.
    pub failed: Vec<usize>,
}

/// What the transfer does next.
pub enum StreamAction {
    /// Send block `i`'s command and report its answer.
    Send(usize),
    /// Every block was acknowledged.
    Finished { blocks: usize, retries: u64 },
    /// The image did not go through.
    Abort(String),
}

/// A streaming state, in spec terms.
pub struct StreamView {
    pub block: nat,
    pub attempt: nat,
    pub retries: nat,
    pub failed: Seq<usize>,
}

pub enum ActionView {
    Send(nat),
    Finished(nat, nat),
    Abort(Seq<char>),
}

impl StreamState {
    pub open spec fn view(self) -> StreamView {
        StreamView {
            block: self.block as nat,
            attempt: self.attempt as nat,
            retries: self.retries as nat,
            failed: self.failed@,
        }
    }
}

impl StreamAction {
    pub open spec fn view(self) -> ActionView {
        match self {
            StreamAction::Send(i) => ActionView::Send(i as nat),
            StreamAction::Finished { blocks, retries } => ActionView::Finished(blocks as nat, retries as nat),
            StreamAction::Abort(m) => ActionView::Abort(m@),
        }
    }
}

/// A list of block numbers as Rust debug-prints it: `[3, 7]`.
pub open spec fn block_list(v: Seq<usize>) -> Seq<char> {
    "["@ + join(v.map_values(|i: usize| decimal(i as nat)), ", "@) + "]"@
}

/// How often progress is shown: about every tenth of the image.
pub open spec fn progress_step(total: nat) -> nat {
    if total / 10 >= 1 {
        total / 10
    } else {
        1
    }
}

pub open spec fn failure_note(i: nat, total: nat, last: Seq<char>) -> Seq<char> {
    "  block "@ + decimal(i) + "/"@ + decimal(total) + " failed "@ + decimal(BLOCK_ATTEMPTS as nat)
        + " attempts (last: "@ + last + ")"@
}

pub open spec fn progress_note(name: Seq<char>, done: nat, total: nat) -> Seq<char> {
    "  "@ + name + ": "@ + decimal(done) + "/"@ + decimal(total) + " blocks ("@ + decimal(
        done * 100 / total,
    ) + "%)"@
}

pub open spec fn too_many_text(name: Seq<char>, failed: Seq<usize>) -> Seq<char> {
    name + ": aborting after "@ + decimal(MAX_FAILED_BLOCKS as nat) + " failed blocks (first failures: "@
        + block_list(failed) + ")"@
}

pub open spec fn some_failed_text(name: Seq<char>, failed: Seq<usize>) -> Seq<char> {
    name + ": "@ + decimal(failed.len()) + " block(s) failed all "@ + decimal(BLOCK_ATTEMPTS as nat)
        + " attempts: "@ + block_list(failed)
}

/// One answer's effect: the next state, the next action, and the lines to
/// show. A block that is not acknowledged is sent again until it has had
/// `BLOCK_ATTEMPTS` attempts, then counted as failed; the transfer aborts
/// once `MAX_FAILED_BLOCKS` have failed, and at the end if any did. It
/// finishes only when every block was acknowledged.
pub open spec fn stream_spec(
    s: StreamView,
    name: Seq<char>,
    total: nat,
    acked: bool,
    last: Seq<char>,
) -> (StreamView, ActionView, Seq<Seq<char>>) {
    if !acked && s.attempt < BLOCK_ATTEMPTS {
        (
            StreamView { block: s.block, attempt: s.attempt + 1, retries: s.retries + 1, failed: s.failed },
            ActionView::Send(s.block),
            Seq::empty(),
        )
    } else {
        let failed = if acked {
            s.failed
        } else {
            s.failed.push(s.block as usize)
        };
        let fail_notes = if acked {
            Seq::empty()
        } else {
            seq![failure_note(s.block, total, last)]
        };
        if !acked && failed.len() >= MAX_FAILED_BLOCKS {
            (
                StreamView { block: s.block, attempt: s.attempt, retries: s.retries, failed },
                ActionView::Abort(too_many_text(name, failed)),
                fail_notes,
            )
        } else {
            let done = s.block + 1;
            let notes = fail_notes + if done % progress_step(total) == 0 || done == total {
                seq![progress_note(name, done, total)]
            } else {
                Seq::empty()
            };
            if done < total {
                (
                    StreamView { block: done, attempt: 1, retries: s.retries, failed },
                    ActionView::Send(done),
                    notes,
                )
            } else if failed.len() > 0 {
                (
                    StreamView { block: s.block, attempt: s.attempt, retries: s.retries, failed },
                    ActionView::Abort(some_failed_text(name, failed)),
                    notes,
                )
            } else {
                (
                    StreamView { block: s.block, attempt: s.attempt, retries: s.retries, failed },
                    ActionView::Finished(total, s.retries),
                    notes,
                )
            }
        }
    }
}

/// The state a transfer is in while it runs: on a real block, on one of
/// its allowed attempts, with the failed blocks all before it, in order,
/// fewer than the abort threshold.
pub open spec fn stream_ok(s: StreamView, total: nat) -> bool {
    &&& total <= usize::MAX
    &&& s.block < total
    &&& 1 <= s.attempt <= BLOCK_ATTEMPTS
    &&& s.failed.len() < MAX_FAILED_BLOCKS
    &&& forall|k: int| 0 <= k < s.failed.len() ==> (#[trigger] s.failed[k]) < s.block
    &&& forall|j: int, k: int| 0 <= j < k < s.failed.len() ==> (#[trigger] s.failed[j]) < (#[trigger] s.failed[k])
}

/// Streaming keeps its state sound, never sends a block more than
/// `BLOCK_ATTEMPTS` times, moves only forward, and never reports success for
/// an image with a failed block: `Finished` means every block was written.
pub proof fn law_streaming_finishes_only_when_every_block_was_written(
    s: StreamView,
    name: Seq<char>,
    total: nat,
    acked: bool,
    last: Seq<char>,
)
    requires
        stream_ok(s, total),
    ensures
        ({
            let (n, a, notes) = stream_spec(s, name, total, acked, last);
            &&& (a matches ActionView::Send(i) ==> stream_ok(n, total) && i == n.block && (n.block
                == s.block + 1 || (n.block == s.block && n.attempt == s.attempt + 1)))
            &&& (a matches ActionView::Finished(b, r) ==> n.failed.len() == 0 && b == total && r
                == s.retries && acked && s.block + 1 == total)
            &&& (n.retries == s.retries || n.retries == s.retries + 1)
        }),
{
    let (n, a, notes) = stream_spec(s, name, total, acked, last);
    if acked || s.attempt >= BLOCK_ATTEMPTS {
        let failed = if acked { s.failed } else { s.failed.push(s.block as usize) };
        assert forall|k: int| 0 <= k < failed.len() implies (#[trigger] failed[k]) < s.block + 1 by {
            if k < s.failed.len() {
                assert(failed[k] == s.failed[k]);
            }
        }
        assert forall|j: int, k: int| 0 <= j < k < failed.len() implies (#[trigger] failed[j]) < (#[trigger] failed[k]) by {
            if k < s.failed.len() {
                assert(failed[j] == s.failed[j] && failed[k] == s.failed[k]);
            } else {
                assert(failed[j] == s.failed[j]);
                assert(failed[k] == s.block as usize);
                assert(s.failed[j] < s.block);
            }
        }
    }
}

/// Start streaming an image of `total` blocks.
pub fn stream_start(total: usize) -> (r: (StreamState, StreamAction))
    ensures
        total > 0 ==> r.0.view() == (StreamView { block: 0, attempt: 1, retries: 0, failed: Seq::empty() })
            && r.1.view() == ActionView::Send(0),
        total > 0 ==> stream_ok(r.0.view(), total as nat),
        total == 0 ==> r.1.view() == ActionView::Finished(0, 0),
{
    let st = StreamState { block: 0, attempt: 1, retries: 0, failed: Vec::new() };
    if total == 0 {
        return (st, StreamAction::Finished { blocks: 0, retries: 0 });
    }
    assert(st.view() =~= (StreamView { block: 0, attempt: 1, retries: 0, failed: Seq::empty() }));
    (st, StreamAction::Send(0))
}

fn block_list_text(v: &Vec<usize>) -> (r: String)
    ensures
        r@ == block_list(v@),
{
    let mut parts: Vec<String> = Vec::new();
    let mut i: usize = 0;
    while i < v.len()
        invariant
            i <= v.len(),
            views(parts@) == v@.take(i as int).map_values(|k: usize| decimal(k as nat)),
        decreases v.len() - i,
    {
        let mut d = String::new();
        push_decimal(&mut d, v[i] as u64);
        crate::text::push_line(&mut parts, d);
        assert(v@.take(i + 1) =~= v@.take(i as int).push(v@[i as int]));
        assert(views(parts@) =~= v@.take(i + 1).map_values(|k: usize| decimal(k as nat)));
        i += 1;
    }
    assert(v@.take(v.len() as int) =~= v@);
    let mut r = owned("[");
    push_str(&mut r, join_strings(&parts, ", ").as_str());
    push_str(&mut r, "]");
    r
}

/// Take the answer to the current block's command (`acked`, and `last`, the
/// reply to quote should the block fail) and say what comes next.
pub fn stream_step(state: &mut StreamState, name: &str, total: usize, acked: bool, last: &str) -> (r: (
    StreamAction,
    Vec<String>,
))
    requires
        stream_ok(old(state).view(), total as nat),
        old(state).retries < u64::MAX,
    ensures
        ({
            let (n, a, notes) = stream_spec(old(state).view(), name@, total as nat, acked, last@);
            final(state).view() == n && r.0.view() == a && views(r.1@) == notes
        }),
{
    let ghost s0 = state.view();
    let mut notes: Vec<String> = Vec::new();
    if !acked && state.attempt < BLOCK_ATTEMPTS {
        state.attempt = state.attempt + 1;
        state.retries = state.retries + 1;
        proof {
            assert(views(notes@) =~= Seq::<Seq<char>>::empty());
        }
        return (StreamAction::Send(state.block), notes);
    }
    let i = state.block;
    if !acked {
        state.failed.push(i);
        let mut m = owned("  block ");
        push_decimal(&mut m, i as u64);
        push_str(&mut m, "/");
        push_decimal(&mut m, total as u64);
        push_str(&mut m, " failed ");
        push_decimal(&mut m, BLOCK_ATTEMPTS as u64);
        push_str(&mut m, " attempts (last: ");
        push_str(&mut m, last);
        push_str(&mut m, ")");
        crate::text::push_line(&mut notes, m);
        if state.failed.len() >= MAX_FAILED_BLOCKS {
            let mut e = owned(name);
            push_str(&mut e, ": aborting after ");
            push_decimal(&mut e, MAX_FAILED_BLOCKS as u64);
            push_str(&mut e, " failed blocks (first failures: ");
            push_str(&mut e, block_list_text(&state.failed).as_str());
            push_str(&mut e, ")");
            return (StreamAction::Abort(e), notes);
        }
    }
    let done = i + 1;
    let step = if total / 10 >= 1 { total / 10 } else { 1 };
    if done % step == 0 || done == total {
        let mut p = owned("  ");
        push_str(&mut p, name);
        push_str(&mut p, ": ");
        push_decimal(&mut p, done as u64);
        push_str(&mut p, "/");
        push_decimal(&mut p, total as u64);
        push_str(&mut p, " blocks (");
        let pct128: u128 = ((done as u128) * 100) / (total as u128);
        assert(pct128 <= 100) by (nonlinear_arith)
            requires
                pct128 == (done * 100) / (total as int),
                done <= total,
                total > 0,
        ;
        let pct: u64 = pct128 as u64;
        push_decimal(&mut p, pct);
        push_str(&mut p, "%)");
        crate::text::push_line(&mut notes, p);
    }
    if done < total {
        state.block = done;
        state.attempt = 1;
        return (StreamAction::Send(done), notes);
    }
    if state.failed.len() > 0 {
        let mut e = owned(name);
        push_str(&mut e, ": ");
        push_decimal(&mut e, state.failed.len() as u64);
        push_str(&mut e, " block(s) failed all ");
        push_decimal(&mut e, BLOCK_ATTEMPTS as u64);
        push_str(&mut e, " attempts: ");
        push_str(&mut e, block_list_text(&state.failed).as_str());
        return (StreamAction::Abort(e), notes);
    }
    (StreamAction::Finished { blocks: total, retries: state.retries }, notes)
}

// ── the flashing session ────────────────────────────────────────────────────

/// The pattern of the echo probe's answer: the token and a space, so an
/// echo of the command line itself (local echo still on) does not count.
pub const PROBE_TIMEOUT_MS: u64 = 2_000;
/// The `has-crc` answer: only the uf2-spim variant prints `true`.
pub const VARIANT_PATTERN: &'static str = "\\b(true|false)\\b|not recognized";
pub const VARIANT_TIMEOUT_MS: u64 = 1_500;

/// Where a flashing session stands. Local echo is switched off (two
/// commands) before anything is sent and switched back on (two commands)
/// however the transfer ended.
#[derive(Debug, Clone, Copy, PartialEq, Eq, Structural)]
pub enum FlashPhase {
    /// Switching local echo off; this many of its commands went out.
    EchoOff(u8),
    /// Waiting for the echo probe's answer.
    Probe,
    /// Waiting for the answer to `has-crc`.
    Variant,
    /// Streaming image `i`.
    Image(usize),
    /// Switching local echo back on; this many of its commands went out.
    EchoOn(u8),
    /// The session is over.
    Done,
}

/// A flashing session: its phase, and the error the transfer ended with,
/// if it has failed.
pub struct FlashSession {
    pub phase: FlashPhase,
    pub error: Option<String>,
}

/// What came of the last action.
pub enum FlashEvent {
    /// The command went out.
    Sent,
    /// The request failed, with this error.
    Failed(String),
    /// The daemon's answer to an expect: whether it matched, the match, and
    /// the tail of what was received.
    Answer { matched: bool, match_text: Option<String>, tail: Option<String> },
    /// The image streamed: its blocks, the retries, and how long it took in
    /// tenths of a second.
    Streamed { blocks: usize, retries: u64, tenths: u64 },
}

/// What the caller does next. After a `SendInput` it waits `settle_ms`.
pub enum FlashAction {
    SendInput { text: &'static str, pace_ms: u32, settle_ms: u64 },
    Expect { send: String, pattern: String, timeout_ms: u64 },
    /// Stream image `i` (see [`stream_start`]).
    Stream(usize),
    /// The session is over: `None` when every image was written.
    Finish(Option<String>),
}

pub enum FlashEventView {
    Sent,
    Failed(Seq<char>),
    Answer(bool, Option<Seq<char>>, Option<Seq<char>>),
    Streamed(nat, nat, nat),
}

pub enum FlashActionView {
    SendInput(Seq<char>, nat, nat),
    Expect(Seq<char>, Seq<char>, nat),
    Stream(nat),
    Finish(Option<Seq<char>>),
}

pub open spec fn opt_text(o: Option<String>) -> Option<Seq<char>> {
    match o {
        Some(s) => Some(s@),
        None => None,
    }
}

impl FlashEvent {
    pub open spec fn view(self) -> FlashEventView {
        match self {
            FlashEvent::Sent => FlashEventView::Sent,
            FlashEvent::Failed(e) => FlashEventView::Failed(e@),
            FlashEvent::Answer { matched, match_text, tail } => FlashEventView::Answer(
                matched,
                opt_text(match_text),
                opt_text(tail),
            ),
            FlashEvent::Streamed { blocks, retries, tenths } => FlashEventView::Streamed(
                blocks as nat,
                retries as nat,
                tenths as nat,
            ),
        }
    }
}

impl FlashAction {
    pub open spec fn view(self) -> FlashActionView {
        match self {
            FlashAction::SendInput { text, pace_ms, settle_ms } => FlashActionView::SendInput(
                text@,
                pace_ms as nat,
                settle_ms as nat,
            ),
            FlashAction::Expect { send, pattern, timeout_ms } => FlashActionView::Expect(
                send@,
                pattern@,
                timeout_ms as nat,
            ),
            FlashAction::Stream(i) => FlashActionView::Stream(i as nat),
            FlashAction::Finish(e) => FlashActionView::Finish(opt_text(e)),
        }
    }
}

/// The command that switches boot1's local echo.
pub open spec fn echo_command(on: bool) -> Seq<char> {
    if on {
        "localecho on\r"@
    } else {
        "localecho off\r"@
    }
}

pub open spec fn echo_action(on: bool) -> FlashActionView {
    FlashActionView::SendInput(echo_command(on), LOCALECHO_PACE_MS as nat, SETTLE_MS as nat)
}

/// The echo probe: `echo <token>`, answered by the token and a space.
pub open spec fn probe_action(token: Seq<char>) -> FlashActionView {
    FlashActionView::Expect("echo "@ + token + "\r"@, token + " "@, PROBE_TIMEOUT_MS as nat)
}

pub open spec fn variant_action() -> FlashActionView {
    FlashActionView::Expect("has-crc\r"@, VARIANT_PATTERN@, VARIANT_TIMEOUT_MS as nat)
}

pub open spec fn kib(blocks: nat) -> nat {
    blocks * 512 / 1024
}

pub open spec fn start_mark(name: Seq<char>, blocks: nat) -> Seq<char> {
    "flash "@ + name + " start ("@ + decimal(kib(blocks)) + " KiB)"@
}

pub open spec fn start_note(name: Seq<char>, blocks: nat) -> Seq<char> {
    "Flashing "@ + name + ": "@ + decimal(blocks) + " blocks ("@ + decimal(kib(blocks)) + " KiB)…"@
}

pub open spec fn done_mark(name: Seq<char>, blocks: nat, retries: nat, tenths: nat) -> Seq<char> {
    "flash "@ + name + " done ("@ + decimal(blocks) + " blocks, "@ + decimal(retries) + " retries, "@
        + decimal(tenths / 10) + "."@ + decimal(tenths % 10) + "s)"@
}

pub open spec fn failed_mark(name: Seq<char>) -> Seq<char> {
    "flash "@ + name + " FAILED"@
}

pub open spec fn probe_failure(rendered_tail: Seq<char>) -> Seq<char> {
    "boot1 REPL stopped answering after localecho off (echo probe timed out); tail: "@ + rendered_tail
}

pub open spec fn variant_unknown() -> Seq<char> {
    "couldn't determine which uf2 protocol variant boot1 runs (`has-crc` gave no answer); refusing to stream blocks blind"@
}

pub open spec fn variant_spim() -> Seq<char> {
    "this boot1 runs the uf2-spim CRC variant (2-arg `uf2` + `uf2_flush`), which paniolo doesn't speak yet — flash with xous-core's uf2send.py after `paniolo serial stop` frees the port"@
}

pub open spec fn restore_note(e: Seq<char>) -> Seq<char> {
    "note: failed to restore localecho on: "@ + e
}

/// The images as (name, block count).
pub open spec fn image_views(images: Seq<(String, usize)>) -> Seq<(Seq<char>, nat)> {
    images.map_values(|p: (String, usize)| (p.0@, p.1 as nat))
}

/// A state the session can be in, for images of `n` entries.
pub open spec fn session_ok(phase: FlashPhase, n: nat) -> bool {
    match phase {
        FlashPhase::EchoOff(k) => k < 2,
        FlashPhase::EchoOn(k) => k < 2,
        FlashPhase::Image(i) => i < n,
        FlashPhase::Probe | FlashPhase::Variant => true,
        FlashPhase::Done => false,
    }
}

/// The event answers the phase's action: a send is `Sent` or `Failed`, an
/// expect is an `Answer` or `Failed`, a stream is `Streamed` or `Failed`.
pub open spec fn event_fits(phase: FlashPhase, ev: FlashEventView) -> bool {
    match phase {
        FlashPhase::EchoOff(_) | FlashPhase::EchoOn(_) => ev is Sent || ev is Failed,
        FlashPhase::Probe | FlashPhase::Variant => ev is Answer || ev is Failed,
        FlashPhase::Image(_) => ev is Streamed || ev is Failed,
        FlashPhase::Done => false,
    }
}

/// Switch echo back on, with the transfer's outcome `error`.
pub open spec fn restore(error: Option<Seq<char>>, marks: Seq<Seq<char>>) -> (
    FlashPhase,
    Option<Seq<char>>,
    FlashActionView,
    Seq<Seq<char>>,
    Seq<Seq<char>>,
) {
    (FlashPhase::EchoOn(0), error, echo_action(true), marks, Seq::empty())
}

/// Start streaming image `i`: its start marker on the console log, its
/// note on the terminal.
pub open spec fn begin_image(i: nat, images: Seq<(Seq<char>, nat)>, marks: Seq<Seq<char>>) -> (
    FlashPhase,
    Option<Seq<char>>,
    FlashActionView,
    Seq<Seq<char>>,
    Seq<Seq<char>>,
) {
    (
        FlashPhase::Image(i as usize),
        None,
        FlashActionView::Stream(i),
        marks.push(start_mark(images[i as int].0, images[i as int].1)),
        seq![start_note(images[i as int].0, images[i as int].1)],
    )
}

/// One step of a flashing session: the next phase, the outcome so far, the
/// next action, the markers to write to the console log first (best
/// effort), and the lines to show. `token` is a fresh token for the echo
/// probe; `rendered_tail` is the debug rendering of an unmatched probe's
/// tail.
pub open spec fn flash_spec(
    phase: FlashPhase,
    error: Option<Seq<char>>,
    images: Seq<(Seq<char>, nat)>,
    ev: FlashEventView,
    token: Seq<char>,
    rendered_tail: Seq<char>,
) -> (FlashPhase, Option<Seq<char>>, FlashActionView, Seq<Seq<char>>, Seq<Seq<char>>) {
    match (phase, ev) {
        (FlashPhase::EchoOff(_), FlashEventView::Failed(e)) => (
            FlashPhase::Done,
            Some(e),
            FlashActionView::Finish(Some(e)),
            Seq::empty(),
            Seq::empty(),
        ),
        (FlashPhase::EchoOff(k), _) => if k == 0 {
            (FlashPhase::EchoOff(1), error, echo_action(false), Seq::empty(), Seq::empty())
        } else {
            (FlashPhase::Probe, error, probe_action(token), Seq::empty(), Seq::empty())
        },
        (FlashPhase::Probe, FlashEventView::Answer(matched, _, _)) => if matched {
            (FlashPhase::Variant, error, variant_action(), Seq::empty(), Seq::empty())
        } else {
            restore(Some(probe_failure(rendered_tail)), Seq::empty())
        },
        (FlashPhase::Variant, FlashEventView::Answer(matched, m, _)) => if !matched {
            restore(Some(variant_unknown()), Seq::empty())
        } else if m == Some("true"@) {
            restore(Some(variant_spim()), Seq::empty())
        } else if images.len() == 0 {
            restore(None, Seq::empty())
        } else {
            begin_image(0, images, Seq::empty())
        },
        (FlashPhase::Probe, FlashEventView::Failed(e)) => restore(Some(e), Seq::empty()),
        (FlashPhase::Variant, FlashEventView::Failed(e)) => restore(Some(e), Seq::empty()),
        (FlashPhase::Image(i), FlashEventView::Failed(e)) => restore(
            Some(e),
            seq![failed_mark(images[i as int].0)],
        ),
        (FlashPhase::Image(i), FlashEventView::Streamed(b, r, t)) => {
            let done = seq![done_mark(images[i as int].0, b, r, t)];
            if i + 1 < images.len() {
                begin_image((i + 1) as nat, images, done)
            } else {
                restore(None, done)
            }
        },
        (FlashPhase::EchoOn(_), FlashEventView::Failed(e)) => (
            FlashPhase::Done,
            error,
            FlashActionView::Finish(error),
            Seq::empty(),
            seq![restore_note(e)],
        ),
        (FlashPhase::EchoOn(k), _) => if k == 0 {
            (FlashPhase::EchoOn(1), error, echo_action(true), Seq::empty(), Seq::empty())
        } else {
            (FlashPhase::Done, error, FlashActionView::Finish(error), Seq::empty(), Seq::empty())
        },
        _ => (phase, error, FlashActionView::Finish(error), Seq::empty(), Seq::empty()),
    }
}

/// Local echo is restored however the transfer ends: once it is off and the
/// transfer is under way, no answer ends the session directly — a failure
/// leads to the command that switches echo back on, keeping the error —
/// and a session that has switched echo off only finishes from the restore.
pub proof fn law_local_echo_is_restored_however_the_transfer_ends(
    phase: FlashPhase,
    error: Option<Seq<char>>,
    images: Seq<(Seq<char>, nat)>,
    ev: FlashEventView,
    token: Seq<char>,
    rendered_tail: Seq<char>,
)
    requires
        session_ok(phase, images.len()),
        event_fits(phase, ev),
    ensures
        ({
            let (p, e, a, marks, notes) = flash_spec(phase, error, images, ev, token, rendered_tail);
            &&& (phase is Probe || phase is Variant || phase is Image) ==> !(a is Finish)
            &&& (phase is Probe || phase is Variant || phase is Image) && ev is Failed ==> p
                == FlashPhase::EchoOn(0) && a == echo_action(true) && e == Some(ev->Failed_0)
            &&& a is Finish ==> (phase is EchoOn || (phase is EchoOff && ev is Failed))
            &&& a is Finish ==> p == FlashPhase::Done
            &&& p != FlashPhase::Done ==> session_ok(p, images.len())
        }),
{
}

/// The error an unanswered echo probe ends the transfer with, quoting the
/// debug rendering of what was received.
pub fn probe_failure_text(rendered_tail: &str) -> (r: String)
    ensures
        r@ == probe_failure(rendered_tail@),
{
    cat("boot1 REPL stopped answering after localecho off (echo probe timed out); tail: ", rendered_tail)
}

/// The debug rendering of a string, as Rust's `{:?}` prints it.
pub uninterp spec fn debug_quoted(s: Seq<char>) -> Seq<char>;

/// std's `Debug` for `str` (`format!("{:?}", s)`): the string quoted, with
/// escapes chosen by Unicode tables. What it returns is named, not stated.
#[verifier::external_body]
fn debug_text(s: &str) -> (r: String)
    ensures
        r@ == debug_quoted(s@),
{
    format!("{:?}", s)
}

fn echo_send(on: bool) -> (r: FlashAction)
    ensures
        r.view() == echo_action(on),
{
    FlashAction::SendInput {
        text: if on { "localecho on\r" } else { "localecho off\r" },
        pace_ms: LOCALECHO_PACE_MS,
        settle_ms: SETTLE_MS,
    }
}

fn image_marks(name: &str, blocks: usize) -> (r: (String, String))
    ensures
        r.0@ == start_mark(name@, blocks as nat),
        r.1@ == start_note(name@, blocks as nat),
{
    let k = blocks / 2;
    assert(k == kib(blocks as nat));
    let mut m = cat3("flash ", name, " start (");
    push_decimal(&mut m, k as u64);
    push_str(&mut m, " KiB)");
    let mut n = cat3("Flashing ", name, ": ");
    push_decimal(&mut n, blocks as u64);
    push_str(&mut n, " blocks (");
    push_decimal(&mut n, k as u64);
    push_str(&mut n, " KiB)…");
    (m, n)
}

/// Begin a session: switch local echo off.
pub fn flash_start() -> (r: (FlashSession, FlashAction))
    ensures
        r.0.phase == FlashPhase::EchoOff(0),
        r.0.error is None,
        r.1.view() == echo_action(false),
{
    (FlashSession { phase: FlashPhase::EchoOff(0), error: None }, echo_send(false))
}

/// Take what came of the last action and say what comes next (see
/// [`flash_spec`]); also the markers for the console log and the lines to
/// show. `token` must be fresh for every call: it names the echo probe.
pub fn flash_step(s: &mut FlashSession, images: &Vec<(String, usize)>, ev: FlashEvent, token: &str) -> (r: (
    FlashAction,
    Vec<String>,
    Vec<String>,
))
    requires
        session_ok(old(s).phase, images@.len() as nat),
        event_fits(old(s).phase, ev.view()),
    ensures
        ({
            let rendered = match ev.view() {
                FlashEventView::Answer(_, _, t) => debug_quoted(
                    match t {
                        Some(x) => x,
                        None => Seq::empty(),
                    },
                ),
                _ => Seq::empty(),
            };
            let (p, e, a, marks, notes) = flash_spec(
                old(s).phase,
                opt_text(old(s).error),
                image_views(images@),
                ev.view(),
                token@,
                rendered,
            );
            &&& final(s).phase == p
            &&& opt_text(final(s).error) == e
            &&& r.0.view() == a
            &&& views(r.1@) == marks
            &&& views(r.2@) == notes
        }),
{
    let ghost iv = image_views(images@);
    let mut marks: Vec<String> = Vec::new();
    let mut notes: Vec<String> = Vec::new();
    match (s.phase, ev) {
        (FlashPhase::EchoOff(_), FlashEvent::Failed(e)) => {
            s.phase = FlashPhase::Done;
            let e2 = e.clone();
            s.error = Some(e);
            (FlashAction::Finish(Some(e2)), marks, notes)
        },
        (FlashPhase::EchoOff(k), _) => {
            if k == 0 {
                s.phase = FlashPhase::EchoOff(1);
                (echo_send(false), marks, notes)
            } else {
                s.phase = FlashPhase::Probe;
                let send = cat3("echo ", token, "\r");
                let pattern = cat(token, " ");
                (FlashAction::Expect { send, pattern, timeout_ms: PROBE_TIMEOUT_MS }, marks, notes)
            }
        },
        (FlashPhase::Probe, FlashEvent::Answer { matched, match_text, tail }) => {
            if matched {
                s.phase = FlashPhase::Variant;
                (
                    FlashAction::Expect {
                        send: owned("has-crc\r"),
                        pattern: owned(VARIANT_PATTERN),
                        timeout_ms: VARIANT_TIMEOUT_MS,
                    },
                    marks,
                    notes,
                )
            } else {
                let t = match tail {
                    Some(x) => x,
                    None => String::new(),
                };
                let rendered = debug_text(t.as_str());
                s.phase = FlashPhase::EchoOn(0);
                s.error = Some(probe_failure_text(rendered.as_str()));
                (echo_send(true), marks, notes)
            }
        },
        (FlashPhase::Variant, FlashEvent::Answer { matched, match_text, tail }) => {
            let spim = match &match_text {
                Some(m) => crate::text::same(m.as_str(), "true"),
                None => false,
            };
            if !matched {
                s.phase = FlashPhase::EchoOn(0);
                s.error = Some(owned(
                    "couldn't determine which uf2 protocol variant boot1 runs (`has-crc` gave no answer); refusing to stream blocks blind",
                ));
                (echo_send(true), marks, notes)
            } else if spim {
                s.phase = FlashPhase::EchoOn(0);
                s.error = Some(owned(
                    "this boot1 runs the uf2-spim CRC variant (2-arg `uf2` + `uf2_flush`), which paniolo doesn't speak yet — flash with xous-core's uf2send.py after `paniolo serial stop` frees the port",
                ));
                (echo_send(true), marks, notes)
            } else if images.len() == 0 {
                s.phase = FlashPhase::EchoOn(0);
                s.error = None;
                (echo_send(true), marks, notes)
            } else {
                let (m, n) = image_marks(images[0].0.as_str(), images[0].1);
                crate::text::push_line(&mut marks, m);
                crate::text::push_line(&mut notes, n);
                s.phase = FlashPhase::Image(0);
                s.error = None;
                (FlashAction::Stream(0), marks, notes)
            }
        },
        (FlashPhase::Image(i), FlashEvent::Failed(e)) => {
            crate::text::push_line(&mut marks, cat3("flash ", images[i].0.as_str(), " FAILED"));
            s.phase = FlashPhase::EchoOn(0);
            s.error = Some(e);
            (echo_send(true), marks, notes)
        },
        (FlashPhase::Image(i), FlashEvent::Streamed { blocks, retries, tenths }) => {
            let mut d = cat3("flash ", images[i].0.as_str(), " done (");
            push_decimal(&mut d, blocks as u64);
            push_str(&mut d, " blocks, ");
            push_decimal(&mut d, retries);
            push_str(&mut d, " retries, ");
            push_decimal(&mut d, tenths / 10);
            push_str(&mut d, ".");
            push_decimal(&mut d, tenths % 10);
            push_str(&mut d, "s)");
            crate::text::push_line(&mut marks, d);
            if i < images.len() - 1 {
                let (m, n) = image_marks(images[i + 1].0.as_str(), images[i + 1].1);
                crate::text::push_line(&mut marks, m);
                crate::text::push_line(&mut notes, n);
                s.phase = FlashPhase::Image(i + 1);
                s.error = None;
                (FlashAction::Stream(i + 1), marks, notes)
            } else {
                s.phase = FlashPhase::EchoOn(0);
                s.error = None;
                (echo_send(true), marks, notes)
            }
        },
        (FlashPhase::Probe, FlashEvent::Failed(e)) | (FlashPhase::Variant, FlashEvent::Failed(e)) => {
            s.phase = FlashPhase::EchoOn(0);
            s.error = Some(e);
            (echo_send(true), marks, notes)
        },
        (FlashPhase::EchoOn(_), FlashEvent::Failed(e)) => {
            crate::text::push_line(&mut notes, cat("note: failed to restore localecho on: ", e.as_str()));
            s.phase = FlashPhase::Done;
            (FlashAction::Finish(copy_error(&s.error)), marks, notes)
        },
        (FlashPhase::EchoOn(k), _) => {
            if k == 0 {
                s.phase = FlashPhase::EchoOn(1);
                (echo_send(true), marks, notes)
            } else {
                s.phase = FlashPhase::Done;
                (FlashAction::Finish(copy_error(&s.error)), marks, notes)
            }
        },
        (_, _) => (FlashAction::Finish(copy_error(&s.error)), marks, notes),
    }
}

fn copy_error(e: &Option<String>) -> (r: Option<String>)
    ensures
        opt_text(r) == opt_text(*e),
{
    match e {
        Some(x) => Some(x.clone()),
        None => None,
    }
}

/// Stats of one flashed file.
pub struct TransferReport {
    pub blocks: usize,
    pub retries: u64,
    pub elapsed: std::time::Duration,
}

} // verus!
