//! Whether a buffer holds one complete HTTP/1.1 request: the header block
//! and the whole `Content-Length` body. The loopback test server that reads
//! until this holds is the application's part.
use vstd::prelude::*;
use crate::numbers::{unsigned_parse};

verus! {

pub open spec fn is_crlfcrlf(b: Seq<u8>, i: int) -> bool {
    0 <= i && i + 4 <= b.len() && b[i] == 13 && b[i + 1] == 10 && b[i + 2] == 13 && b[i + 3] == 10
}

/// The first position at or after `i` where `\r\n\r\n` starts.
pub open spec fn header_end_from(b: Seq<u8>, i: int) -> Option<int>
    decreases b.len() - i,
{
    if i < 0 || i + 4 > b.len() {
        None
    } else if is_crlfcrlf(b, i) {
        Some(i)
    } else {
        header_end_from(b, i + 1)
    }
}

/// The first position of `c` in `s` at or after `i`.
pub open spec fn byte_index(s: Seq<u8>, c: u8, i: int) -> Option<int>
    decreases s.len() - i,
{
    if i < 0 || i >= s.len() {
        None
    } else if s[i] == c {
        Some(i)
    } else {
        byte_index(s, c, i + 1)
    }
}

/// ASCII whitespace (the header block is ASCII).
pub open spec fn blank(c: u8) -> bool {
    c == 32 || c == 9 || c == 10 || c == 13 || c == 11 || c == 12
}

pub open spec fn ascii_lower(c: u8) -> u8 {
    if 65 <= c <= 90 {
        (c + 32) as u8
    } else {
        c
    }
}

/// The first index of `s[a..b]` that is not blank (`b` if none).
pub open spec fn skip_blank_fwd(s: Seq<u8>, a: int, b: int) -> int
    decreases b - a,
{
    if a < b && blank(s[a]) {
        skip_blank_fwd(s, a + 1, b)
    } else {
        a
    }
}

/// One past the last index of `s[a..b]` that is not blank (`a` if none).
pub open spec fn skip_blank_back(s: Seq<u8>, a: int, b: int) -> int
    decreases b - a,
{
    if a < b && blank(s[b - 1]) {
        skip_blank_back(s, a, b - 1)
    } else {
        b
    }
}

/// `s[a..b]` trimmed of blanks at both ends.
pub open spec fn trimmed_range(s: Seq<u8>, a: int, b: int) -> Seq<u8> {
    let x = skip_blank_fwd(s, a, b);
    s.subrange(x, skip_blank_back(s, x, b))
}

pub open spec fn content_length_key() -> Seq<u8> {
    seq![99u8, 111, 110, 116, 101, 110, 116, 45, 108, 101, 110, 103, 116, 104]
}

/// What the header line `s[a..b]` declares as `Content-Length` (key matched
/// ignoring ASCII case, both sides trimmed), if its value reads as a `usize`.
pub open spec fn line_length(s: Seq<u8>, a: int, b: int) -> Option<nat> {
    match byte_index(s.subrange(0, b), 58, a) {
        None => None,
        Some(k) => {
            let key = trimmed_range(s, a, k);
            let v = trimmed_range(s, k + 1, b);
            if key.map_values(|c: u8| ascii_lower(c)) == content_length_key() {
                unsigned_parse(v.map_values(|c: u8| c as char), usize::MAX as nat)
            } else {
                None
            }
        },
    }
}

/// The length declared by the first header line (lines split at `\n`) at or
/// after position `a` of the header block `s[..end]` that declares one, else 0.
pub open spec fn declared_from(s: Seq<u8>, end: int, a: int) -> nat
    decreases end - a,
{
    if a < 0 || a > end || end > s.len() {
        0
    } else {
        let b = match byte_index(s.subrange(0, end), 10, a) {
            Some(k) => k,
            None => end,
        };
        match line_length(s, a, b) {
            Some(n) => n,
            None => if b >= end || b < a {
                0
            } else {
                declared_from(s, end, b + 1)
            },
        }
    }
}

/// A complete request: a header block ended by `\r\n\r\n` and at least the
/// body length it declares after it.
pub open spec fn complete(b: Seq<u8>) -> bool {
    match header_end_from(b, 0) {
        None => false,
        Some(end) => b.len() >= end + 4 + declared_from(b, end, 0),
    }
}

proof fn lemma_header_end(b: Seq<u8>, i: int)
    ensures
        header_end_from(b, i) matches Some(e) ==> i <= e && e + 4 <= b.len(),
    decreases b.len() - i,
{
    if 0 <= i && i + 4 <= b.len() && !is_crlfcrlf(b, i) {
        lemma_header_end(b, i + 1);
    }
}

proof fn lemma_byte_index(s: Seq<u8>, c: u8, i: int)
    ensures
        byte_index(s, c, i) matches Some(k) ==> i <= k < s.len(),
    decreases s.len() - i,
{
    if 0 <= i < s.len() && s[i] != c {
        lemma_byte_index(s, c, i + 1);
    }
}

fn find_header_end(b: &[u8]) -> (r: Option<usize>)
    ensures
        match r {
            Some(x) => header_end_from(b@, 0) == Some(x as int),
            None => header_end_from(b@, 0) is None,
        },
{
    let mut i: usize = 0;
    while i < b.len() && b.len() - i >= 4
        invariant
            header_end_from(b@, 0) == header_end_from(b@, i as int),
        decreases b.len() - i,
    {
        if b[i] == 13 && b[i + 1] == 10 && b[i + 2] == 13 && b[i + 3] == 10 {
            return Some(i);
        }
        i += 1;
    }
    None
}

fn find_byte(b: &[u8], c: u8, from: usize, to: usize) -> (r: usize)
    requires
        from <= to <= b@.len(),
    ensures
        from <= r <= to,
        match byte_index(b@.subrange(0, to as int), c, from as int) {
            Some(k) => r == k,
            None => r == to,
        },
{
    let mut i = from;
    while i < to
        invariant
            from <= i <= to <= b@.len(),
            byte_index(b@.subrange(0, to as int), c, from as int) == byte_index(b@.subrange(0, to as int), c, i as int),
        decreases to - i,
    {
        if b[i] == c {
            return i;
        }
        i += 1;
    }
    to
}

fn is_blank(c: u8) -> (r: bool)
    ensures
        r == blank(c),
{
    c == 32 || c == 9 || c == 10 || c == 13 || c == 11 || c == 12
}

fn trim_range(b: &[u8], a: usize, e: usize) -> (r: (usize, usize))
    requires
        a <= e <= b@.len(),
    ensures
        a <= r.0 <= r.1 <= e,
        b@.subrange(r.0 as int, r.1 as int) == trimmed_range(b@, a as int, e as int),
{
    let mut x = a;
    while x < e && is_blank(b[x])
        invariant
            a <= x <= e <= b@.len(),
            skip_blank_fwd(b@, a as int, e as int) == skip_blank_fwd(b@, x as int, e as int),
        decreases e - x,
    {
        x += 1;
    }
    let mut y = e;
    while y > x && is_blank(b[y - 1])
        invariant
            a <= x <= y <= e <= b@.len(),
            skip_blank_back(b@, x as int, e as int) == skip_blank_back(b@, x as int, y as int),
        decreases y,
    {
        y -= 1;
    }
    (x, y)
}

fn key_matches(b: &[u8], x: usize, y: usize) -> (r: bool)
    requires
        x <= y <= b@.len(),
    ensures
        r == (b@.subrange(x as int, y as int).map_values(|c: u8| ascii_lower(c)) == content_length_key()),
{
    let key: [u8; 14] = [99, 111, 110, 116, 101, 110, 116, 45, 108, 101, 110, 103, 116, 104];
    assert(key@ =~= content_length_key());
    if y - x != 14 {
        return false;
    }
    let mut i: usize = 0;
    while i < 14
        invariant
            i <= 14,
            y - x == 14,
            x <= y <= b@.len(),
            key@ == content_length_key(),
            forall|j: int| 0 <= j < i ==> ascii_lower(#[trigger] b@[x + j]) == key@[j],
        decreases 14 - i,
    {
        let c = b[x + i];
        let l = if 65 <= c && c <= 90 { c + 32 } else { c };
        if l != key[i] {
            assert(b@.subrange(x as int, y as int).map_values(|c: u8| ascii_lower(c))[i as int] != content_length_key()[i as int]);
            return false;
        }
        i += 1;
    }
    assert forall|j: int| 0 <= j < 14 implies b@.subrange(x as int, y as int).map_values(
        |c: u8| ascii_lower(c),
    )[j] == content_length_key()[j] by {
        assert(b@.subrange(x as int, y as int)[j] == b@[x + j]);
    }
    assert(b@.subrange(x as int, y as int).map_values(|c: u8| ascii_lower(c)) =~= content_length_key());
    true
}

fn parse_usize_bytes(b: &[u8], x: usize, y: usize) -> (r: Option<usize>)
    requires
        x <= y <= b@.len(),
    ensures
        match unsigned_parse(b@.subrange(x as int, y as int).map_values(|c: u8| c as char), usize::MAX as nat) {
            Some(v) => r == Some(v as usize),
            None => r is None,
        },
{
    let mut s = String::new();
    let mut i = x;
    while i < y
        invariant
            x <= i <= y <= b@.len(),
            s@ == b@.subrange(x as int, i as int).map_values(|c: u8| c as char),
        decreases y - i,
    {
        crate::text::push_char(&mut s, b[i] as char);
        assert(b@.subrange(x as int, i + 1).map_values(|c: u8| c as char) =~= b@.subrange(x as int, i as int).map_values(|c: u8| c as char).push(b@[i as int] as char));
        i += 1;
    }
    match crate::numbers::parse_unsigned(s.as_str(), usize::MAX as u64) {
        Some(v) => Some(v as usize),
        None => None,
    }
}

/// True once `buf` holds the header block and the whole `Content-Length` body.
pub fn request_complete(buf: &[u8]) -> (r: bool)
    ensures
        r == complete(buf@),
{
    proof {
        lemma_header_end(buf@, 0);
    }
    let end = match find_header_end(buf) {
        Some(e) => e,
        None => return false,
    };
    let mut a: usize = 0;
    let mut len: usize = 0;
    loop
        invariant_except_break
            a <= end,
            len == 0,
            declared_from(buf@, end as int, 0) == declared_from(buf@, end as int, a as int),
        invariant
            end + 4 <= buf@.len(),
            header_end_from(buf@, 0) == Some(end as int),
        ensures
            len == declared_from(buf@, end as int, 0),
        decreases end - a,
    {
        let b = find_byte(buf, 10, a, end);
        let k = find_byte(buf, 58, a, b);
        proof {
            assert(buf@.subrange(0, end as int).subrange(0, b as int) =~= buf@.subrange(0, b as int));
        }
        proof {
            lemma_byte_index(buf@.subrange(0, end as int), 10, a as int);
        }
        let mut found: Option<usize> = None;
        if k < b {
            let (kx, ky) = trim_range(buf, a, k);
            if key_matches(buf, kx, ky) {
                let (vx, vy) = trim_range(buf, k + 1, b);
                found = parse_usize_bytes(buf, vx, vy);
            }
        }
        proof {
            assert(b as int == match byte_index(buf@.subrange(0, end as int), 10, a as int) {
                Some(k) => k,
                None => end as int,
            });
            lemma_byte_index(buf@.subrange(0, b as int), 58, a as int);
            if k < b {
                assert(byte_index(buf@.subrange(0, b as int), 58, a as int) == Some(k as int));
            } else {
                assert(byte_index(buf@.subrange(0, b as int), 58, a as int) is None);
            }
            assert(found matches Some(n) ==> line_length(buf@, a as int, b as int) == Some(n as nat));
            assert(found is None ==> line_length(buf@, a as int, b as int) is None);
        }
        match found {
            Some(n) => {
                len = n;
                break;
            },
            None => {},
        }
        if b >= end {
            break;
        }
        a = b + 1;
    }
    buf.len() - end - 4 >= len
}

} // verus!
