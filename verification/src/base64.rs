//! Minimal standard-alphabet base64 encoder (OSC 52 wants base64 payloads).
use vstd::prelude::*;

verus! {

/// The character of the standard base64 alphabet for `k` (0..64).
pub open spec fn b64_char(k: int) -> char {
    if k < 26 {
        (65 + k) as char
    } else if k < 52 {
        (71 + k) as char
    } else if k < 62 {
        (k - 4) as char
    } else if k == 62 {
        '+'
    } else {
        '/'
    }
}

/// The four characters for a group of one to three bytes, padded with `=`.
pub open spec fn b64_group(g: Seq<u8>) -> Seq<char> {
    let b0 = g[0] as int;
    let b1 = if g.len() > 1 {
        g[1] as int
    } else {
        0
    };
    let b2 = if g.len() > 2 {
        g[2] as int
    } else {
        0
    };
    seq![
        b64_char(b0 / 4),
        b64_char((b0 % 4) * 16 + b1 / 16),
        if g.len() > 1 {
            b64_char((b1 % 16) * 4 + b2 / 64)
        } else {
            '='
        },
        if g.len() > 2 {
            b64_char(b2 % 64)
        } else {
            '='
        },
    ]
}

/// The encoding of the first `k` three-byte groups of `s` (the last may be short).
pub open spec fn b64_groups(s: Seq<u8>, k: int) -> Seq<char>
    decreases k,
{
    if k <= 0 {
        Seq::empty()
    } else {
        b64_groups(s, k - 1) + b64_group(
            s.subrange(3 * (k - 1), if 3 * k < s.len() {
                3 * k
            } else {
                s.len() as int
            }),
        )
    }
}

/// The base64 encoding of `s`.
pub open spec fn base64_text(s: Seq<u8>) -> Seq<char> {
    b64_groups(s, ((s.len() + 2) / 3) as int)
}

/// The base64 alphabet character for `k`.
fn alphabet(k: u32) -> (c: char)
    requires
        k < 64,
    ensures
        c == b64_char(k as int),
{
    if k < 26 {
        ((k + 65) as u8) as char
    } else if k < 52 {
        ((k + 71) as u8) as char
    } else if k < 62 {
        ((k - 4) as u8) as char
    } else if k == 62 {
        '+'
    } else {
        '/'
    }
}

/// Encode `input` in standard base64 with `=` padding.
pub fn base64(input: &[u8]) -> (out: String)
    ensures
        out@ == base64_text(input@),
{
    let len = input.len();
    let mut out = String::new();
    let mut i: usize = 0;
    let groups = (len / 3) + if len % 3 == 0 { 0 } else { 1 };
    assert(groups == (len + 2) / 3);
    while i < groups
        invariant
            len == input@.len(),
            groups == (len + 2) / 3,
            i <= groups,
            out@ == b64_groups(input@, i as int),
        decreases groups - i,
    {
        let start = 3 * i;
        let end = if start + 3 < len { start + 3 } else { len };
        let ghost chunk = input@.subrange(start as int, end as int);
        let b0 = input[start] as u32;
        let b1 = if start + 1 < len { input[start + 1] as u32 } else { 0 };
        let b2 = if start + 2 < len { input[start + 2] as u32 } else { 0 };
        let n = b0 << 16 | b1 << 8 | b2;
        assert((n >> 18) & 63 == b0 / 4 && (n >> 12) & 63 == (b0 % 4) * 16 + b1 / 16 && (n
            >> 6) & 63 == (b1 % 16) * 4 + b2 / 64 && n & 63 == b2 % 64) by (bit_vector)
            requires
                b0 < 256,
                b1 < 256,
                b2 < 256,
                n == b0 << 16 | b1 << 8 | b2,
        ;
        out.push(alphabet(n >> 18 & 63));
        out.push(alphabet(n >> 12 & 63));
        out.push(
            if end - start > 1 {
                alphabet(n >> 6 & 63)
            } else {
                '='
            },
        );
        out.push(
            if end - start > 2 {
                alphabet(n & 63)
            } else {
                '='
            },
        );
        assert(out@ =~= b64_groups(input@, i + 1));
        i = i + 1;
    }
    out
}

} // verus!
