//! CH9329 serial-to-HID keyboard frames (the Openterface Mini-KVM's HID
//! backend). Every frame is `[0x57 0xAB 0x00, CMD, LEN, ..data.., CHECKSUM]`
//! where the checksum is the 8-bit sum of all preceding bytes; a keyboard
//! report is CMD `0x02`, LEN `0x08`, data = an 8-byte HID report
//! `[modifier, 0, k1..k6]`. Opening the serial device and writing the frames
//! is the application's part.
use vstd::prelude::*;

verus! {

pub const DEFAULT_BAUD: u32 = 115200;

pub const MOD_SHIFT: u8 = 0x02;

/// Sum of the bytes of `s`.
pub open spec fn byte_sum(s: Seq<u8>) -> nat
    decreases s.len(),
{
    if s.len() == 0 {
        0
    } else {
        byte_sum(s.drop_last()) + s.last() as nat
    }
}

/// The frame body before its checksum.
pub open spec fn frame_body(modifier: u8, keys: Seq<u8>) -> Seq<u8> {
    seq![0x57u8, 0xABu8, 0x00u8, 0x02u8, 0x08u8, modifier, 0x00u8] + keys
}

/// The complete keyboard frame: body then the 8-bit sum of the body.
pub open spec fn frame(modifier: u8, keys: Seq<u8>) -> Seq<u8> {
    let body = frame_body(modifier, keys);
    body.push((byte_sum(body) % 256) as u8)
}

/// Build one CH9329 keyboard frame from a HID report (modifier + up to 6 keys).
pub fn keyboard_frame(modifier: u8, keys: [u8; 6]) -> (f: Vec<u8>)
    ensures
        f@ == frame(modifier, keys@),
        f@.len() == 14,
        f@[13] as nat == byte_sum(f@.take(13)) % 256,
{
    let mut f: Vec<u8> = Vec::with_capacity(14);
    f.push(0x57);
    f.push(0xAB);
    f.push(0x00);
    f.push(0x02);
    f.push(0x08);
    f.push(modifier);
    f.push(0x00);
    let mut i: usize = 0;
    while i < 6
        invariant
            i <= 6,
            f@ == frame_body(modifier, keys@).take(7 + i),
        decreases 6 - i,
    {
        f.push(keys[i]);
        assert(frame_body(modifier, keys@).take(7 + i + 1) =~= frame_body(modifier, keys@).take(
            7 + i,
        ).push(keys@[i as int]));
        i += 1;
    }
    assert(f@ =~= frame_body(modifier, keys@));
    let mut sum: u32 = 0;
    let mut j: usize = 0;
    while j < f.len()
        invariant
            f@ == frame_body(modifier, keys@),
            f@.len() == 13,
            j <= 13,
            sum as nat == byte_sum(f@.take(j as int)),
            sum <= 255 * j,
        decreases 13 - j,
    {
        assert(f@.take(j + 1).drop_last() =~= f@.take(j as int));
        sum = sum + f[j] as u32;
        j += 1;
    }
    assert(f@.take(13) =~= f@);
    let checksum = (sum % 256) as u8;
    f.push(checksum);
    assert(f@.take(13) =~= frame_body(modifier, keys@));
    f
}

/// The press frame for one key, then the all-keys-up frame.
pub open spec fn tap_frames(modifier: u8, usage: u8) -> Seq<Seq<u8>> {
    seq![frame(modifier, seq![usage, 0u8, 0u8, 0u8, 0u8, 0u8]), frame(0u8, seq![0u8, 0u8, 0u8, 0u8, 0u8, 0u8])]
}

/// A single-key press frame followed by an all-keys-up frame.
pub fn tap(modifier: u8, usage: u8) -> (r: (Vec<u8>, Vec<u8>))
    ensures
        seq![r.0@, r.1@] == tap_frames(modifier, usage),
{
    let k1: [u8; 6] = [usage, 0, 0, 0, 0, 0];
    let k0: [u8; 6] = [0, 0, 0, 0, 0, 0];
    assert(k1@ =~= seq![usage, 0u8, 0u8, 0u8, 0u8, 0u8]);
    assert(k0@ =~= seq![0u8, 0u8, 0u8, 0u8, 0u8, 0u8]);
    let a = keyboard_frame(modifier, k1);
    let b = keyboard_frame(0, k0);
    assert(seq![a@, b@] =~= tap_frames(modifier, usage));
    (a, b)
}

/// The US-layout (modifier, HID usage id) of a character, or `None` when the
/// keyboard cannot type it.
pub open spec fn hid_of(c: char) -> Option<(u8, u8)> {
    let s = MOD_SHIFT;
    if 'a' <= c && c <= 'z' {
        Some((0u8, (0x04 + (c as u32 - 'a' as u32)) as u8))
    } else if 'A' <= c && c <= 'Z' {
        Some((s, (0x04 + (c as u32 - 'A' as u32)) as u8))
    } else if '1' <= c && c <= '9' {
        Some((0u8, (0x1e + (c as u32 - '1' as u32)) as u8))
    } else if c == '0' {
        Some((0u8, 0x27u8))
    } else if c == '\n' {
        Some((0u8, 0x28u8))
    } else if c == '\t' {
        Some((0u8, 0x2bu8))
    } else if c == ' ' {
        Some((0u8, 0x2cu8))
    } else if c == '!' {
        Some((s, 0x1eu8))
    } else if c == '@' {
        Some((s, 0x1fu8))
    } else if c == '#' {
        Some((s, 0x20u8))
    } else if c == '$' {
        Some((s, 0x21u8))
    } else if c == '%' {
        Some((s, 0x22u8))
    } else if c == '^' {
        Some((s, 0x23u8))
    } else if c == '&' {
        Some((s, 0x24u8))
    } else if c == '*' {
        Some((s, 0x25u8))
    } else if c == '(' {
        Some((s, 0x26u8))
    } else if c == ')' {
        Some((s, 0x27u8))
    } else if c == '-' {
        Some((0u8, 0x2du8))
    } else if c == '_' {
        Some((s, 0x2du8))
    } else if c == '=' {
        Some((0u8, 0x2eu8))
    } else if c == '+' {
        Some((s, 0x2eu8))
    } else if c == '[' {
        Some((0u8, 0x2fu8))
    } else if c == '{' {
        Some((s, 0x2fu8))
    } else if c == ']' {
        Some((0u8, 0x30u8))
    } else if c == '}' {
        Some((s, 0x30u8))
    } else if c == '\\' {
        Some((0u8, 0x31u8))
    } else if c == '|' {
        Some((s, 0x31u8))
    } else if c == ';' {
        Some((0u8, 0x33u8))
    } else if c == ':' {
        Some((s, 0x33u8))
    } else if c == '\'' {
        Some((0u8, 0x34u8))
    } else if c == '"' {
        Some((s, 0x34u8))
    } else if c == '`' {
        Some((0u8, 0x35u8))
    } else if c == '~' {
        Some((s, 0x35u8))
    } else if c == ',' {
        Some((0u8, 0x36u8))
    } else if c == '<' {
        Some((s, 0x36u8))
    } else if c == '.' {
        Some((0u8, 0x37u8))
    } else if c == '>' {
        Some((s, 0x37u8))
    } else if c == '/' {
        Some((0u8, 0x38u8))
    } else if c == '?' {
        Some((s, 0x38u8))
    } else {
        None
    }
}

/// Map a US-layout ASCII char to (modifier, HID usage id), or None if unsupported.
pub fn ascii_to_hid(c: char) -> (r: Option<(u8, u8)>)
    ensures
        r == hid_of(c),
{
    let s = MOD_SHIFT;
    if 'a' <= c && c <= 'z' {
        Some((0, (0x04 + (c as u32 - 'a' as u32)) as u8))
    } else if 'A' <= c && c <= 'Z' {
        Some((s, (0x04 + (c as u32 - 'A' as u32)) as u8))
    } else if '1' <= c && c <= '9' {
        Some((0, (0x1e + (c as u32 - '1' as u32)) as u8))
    } else if c == '0' {
        Some((0, 0x27))
    } else if c == '\n' {
        Some((0, 0x28))
    } else if c == '\t' {
        Some((0, 0x2b))
    } else if c == ' ' {
        Some((0, 0x2c))
    } else if c == '!' {
        Some((s, 0x1e))
    } else if c == '@' {
        Some((s, 0x1f))
    } else if c == '#' {
        Some((s, 0x20))
    } else if c == '$' {
        Some((s, 0x21))
    } else if c == '%' {
        Some((s, 0x22))
    } else if c == '^' {
        Some((s, 0x23))
    } else if c == '&' {
        Some((s, 0x24))
    } else if c == '*' {
        Some((s, 0x25))
    } else if c == '(' {
        Some((s, 0x26))
    } else if c == ')' {
        Some((s, 0x27))
    } else if c == '-' {
        Some((0, 0x2d))
    } else if c == '_' {
        Some((s, 0x2d))
    } else if c == '=' {
        Some((0, 0x2e))
    } else if c == '+' {
        Some((s, 0x2e))
    } else if c == '[' {
        Some((0, 0x2f))
    } else if c == '{' {
        Some((s, 0x2f))
    } else if c == ']' {
        Some((0, 0x30))
    } else if c == '}' {
        Some((s, 0x30))
    } else if c == '\\' {
        Some((0, 0x31))
    } else if c == '|' {
        Some((s, 0x31))
    } else if c == ';' {
        Some((0, 0x33))
    } else if c == ':' {
        Some((s, 0x33))
    } else if c == '\'' {
        Some((0, 0x34))
    } else if c == '"' {
        Some((s, 0x34))
    } else if c == '`' {
        Some((0, 0x35))
    } else if c == '~' {
        Some((s, 0x35))
    } else if c == ',' {
        Some((0, 0x36))
    } else if c == '<' {
        Some((s, 0x36))
    } else if c == '.' {
        Some((0, 0x37))
    } else if c == '>' {
        Some((s, 0x37))
    } else if c == '/' {
        Some((0, 0x38))
    } else if c == '?' {
        Some((s, 0x38))
    } else {
        None
    }
}

/// Every character of `text` can be typed.
pub open spec fn typeable(text: Seq<char>) -> bool {
    forall|i: int| 0 <= i < text.len() ==> hid_of(#[trigger] text[i]) is Some
}

/// The press and release frames for every character of `text`, in order.
pub open spec fn frames_for(text: Seq<char>) -> Seq<Seq<u8>>
    decreases text.len(),
{
    if text.len() == 0 {
        Seq::empty()
    } else {
        let (m, u) = hid_of(text.last()).unwrap();
        frames_for(text.drop_last()) + tap_frames(m, u)
    }
}

/// The ordered frames to type `text`: press+release per character. Returns the
/// first unsupported character as an error.
pub fn type_frames(text: &str) -> (r: Result<Vec<Vec<u8>>, char>)
    ensures
        match r {
            Ok(frames) => typeable(text@) && frames@.map_values(|f: Vec<u8>| f@) == frames_for(
                text@,
            ),
            Err(c) => exists|i: int|
                0 <= i < text@.len() && text@[i] == c && hid_of(c) is None && typeable(
                    text@.take(i),
                ),
        },
{
    let chars = crate::text::chars_of(text);
    let mut frames: Vec<Vec<u8>> = Vec::new();
    let mut i: usize = 0;
    while i < chars.len()
        invariant
            chars@ == text@,
            i <= chars.len(),
            typeable(text@.take(i as int)),
            frames@.map_values(|f: Vec<u8>| f@) == frames_for(text@.take(i as int)),
        decreases chars.len() - i,
    {
        let c = chars[i];
        match ascii_to_hid(c) {
            None => {
                return Err(c);
            },
            Some((modifier, usage)) => {
                let (a, b) = tap(modifier, usage);
                let ghost before = frames@.map_values(|f: Vec<u8>| f@);
                frames.push(a);
                frames.push(b);
                assert(text@.take(i + 1).drop_last() =~= text@.take(i as int));
                assert(frames@.map_values(|f: Vec<u8>| f@) =~= before + tap_frames(
                    modifier,
                    usage,
                ));
                assert(typeable(text@.take(i + 1))) by {
                    assert forall|k: int| 0 <= k < i + 1 implies hid_of(
                        #[trigger] text@.take(i + 1)[k],
                    ) is Some by {
                        if k < i {
                            assert(text@.take(i + 1)[k] == text@.take(i as int)[k]);
                        }
                    }
                }
            },
        }
        i += 1;
    }
    assert(text@.take(chars.len() as int) =~= text@);
    Ok(frames)
}

/// Typing produces exactly two frames per character, the press carrying the
/// character's modifier and the release all zeros.
pub proof fn law_typing_sends_a_press_and_release_per_char(text: Seq<char>)
    requires
        typeable(text),
    ensures
        frames_for(text).len() == 2 * text.len(),
        forall|i: int|
            0 <= i < text.len() ==> frames_for(text)[2 * i] == frame(
                hid_of(#[trigger] text[i]).unwrap().0,
                seq![hid_of(text[i]).unwrap().1, 0u8, 0u8, 0u8, 0u8, 0u8],
            ) && frames_for(text)[2 * i + 1] == frame(0u8, seq![0u8, 0u8, 0u8, 0u8, 0u8, 0u8]),
    decreases text.len(),
{
    if text.len() > 0 {
        let p = text.drop_last();
        assert(typeable(p)) by {
            assert forall|k: int| 0 <= k < p.len() implies hid_of(#[trigger] p[k]) is Some by {
                assert(p[k] == text[k]);
            }
        }
        law_typing_sends_a_press_and_release_per_char(p);
        assert forall|i: int| 0 <= i < text.len() implies frames_for(text)[2 * i] == frame(
            hid_of(#[trigger] text[i]).unwrap().0,
            seq![hid_of(text[i]).unwrap().1, 0u8, 0u8, 0u8, 0u8, 0u8],
        ) && frames_for(text)[2 * i + 1] == frame(0u8, seq![0u8, 0u8, 0u8, 0u8, 0u8, 0u8]) by {
            if i < p.len() {
                assert(p[i] == text[i]);
            } else {
                assert(hid_of(text[text.len() - 1]) is Some);
            }
        }
    }
}

/// `b` is the shifted partner of `a` on a US keyboard: `a` is typed with no
/// modifier and `b` with shift on the same key.
pub open spec fn shift_partners(a: char, b: char) -> bool {
    hid_of(a) matches Some((m, u)) && m == 0 && hid_of(b) == Some((MOD_SHIFT, u))
}

/// Every character with a key of its own on the US layout is typed without
/// a modifier, and its shifted partner with shift on the same key: each
/// lower-case letter and its capital, each digit and the symbol above it,
/// and `-_ =+ [{ ]} \| ;: '" `~ ,< .> /?`; space has a key of its own.
pub proof fn law_unshifted_keys_take_no_modifier(c: char)
    ensures
        'a' <= c <= 'z' ==> shift_partners(c, ((c as u32) - 32) as char),
        shift_partners('1', '!') && shift_partners('2', '@') && shift_partners('3', '#') && shift_partners('4', '$')
            && shift_partners('5', '%') && shift_partners('6', '^') && shift_partners('7', '&')
            && shift_partners('8', '*') && shift_partners('9', '(') && shift_partners('0', ')'),
        shift_partners('-', '_') && shift_partners('=', '+') && shift_partners('[', '{') && shift_partners(']', '}')
            && shift_partners('\\', '|') && shift_partners(';', ':') && shift_partners('\'', '"')
            && shift_partners('`', '~') && shift_partners(',', '<') && shift_partners('.', '>')
            && shift_partners('/', '?'),
        hid_of(' ') matches Some((m, _)) && m == 0,
{
}

} // verus!
