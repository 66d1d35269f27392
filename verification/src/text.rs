//! Byte-level text utilities: whitespace tokenization, line splitting and
//! numeric parsing, used by the connection-resolver backends to pick apart
//! the tabular output of system tools.

use vstd::prelude::*;

verus! {

// ---------------------------------------------------------------------------
// Whitespace tokenization
// ---------------------------------------------------------------------------

/// Horizontal whitespace as it appears inside a line of command output.
pub open spec fn is_ws(b: u8) -> bool {
    b == 0x20 || b == 0x09 || b == 0x0d
}

/// The input without its leading whitespace.
pub open spec fn drop_ws(s: Seq<u8>) -> Seq<u8>
    decreases s.len(),
{
    if s.len() == 0 {
        s
    } else if is_ws(s[0]) {
        drop_ws(s.drop_first())
    } else {
        s
    }
}

/// The maximal non-whitespace prefix of the input.
pub open spec fn lead_tok(s: Seq<u8>) -> Seq<u8>
    decreases s.len(),
{
    if s.len() == 0 || is_ws(s[0]) {
        Seq::empty()
    } else {
        seq![s[0]] + lead_tok(s.drop_first())
    }
}

pub proof fn lemma_drop_ws_len(s: Seq<u8>)
    ensures
        drop_ws(s).len() <= s.len(),
        drop_ws(s).len() > 0 ==> !is_ws(drop_ws(s)[0]),
    decreases s.len(),
{
    if s.len() > 0 && is_ws(s[0]) {
        lemma_drop_ws_len(s.drop_first());
    }
}

pub proof fn lemma_lead_tok_len(s: Seq<u8>)
    ensures
        lead_tok(s).len() <= s.len(),
        s.len() > 0 && !is_ws(s[0]) ==> lead_tok(s).len() >= 1,
    decreases s.len(),
{
    if s.len() > 0 && !is_ws(s[0]) {
        lemma_lead_tok_len(s.drop_first());
    }
}

/// The whitespace-separated tokens of the input, in order.
pub open spec fn split_ws(s: Seq<u8>) -> Seq<Seq<u8>>
    decreases s.len(),
    via split_ws_decreases
{
    let t = drop_ws(s);
    if t.len() == 0 {
        Seq::empty()
    } else {
        seq![lead_tok(t)] + split_ws(t.skip(lead_tok(t).len() as int))
    }
}

#[via_fn]
proof fn split_ws_decreases(s: Seq<u8>) {
    lemma_drop_ws_len(s);
    let t = drop_ws(s);
    if t.len() > 0 {
        lemma_lead_tok_len(t);
    }
}

/// Skipping one leading whitespace byte does not change the token list.
proof fn lemma_split_ws_skip_ws(s: Seq<u8>)
    requires
        s.len() > 0,
        is_ws(s[0]),
    ensures
        split_ws(s) == split_ws(s.drop_first()),
{
    assert(drop_ws(s) == drop_ws(s.drop_first()));
}

/// If the first `k` bytes are non-whitespace and byte `k` (if any) is
/// whitespace, the leading token is exactly those `k` bytes.
proof fn lemma_lead_tok_exact(s: Seq<u8>, k: int)
    requires
        0 < k <= s.len(),
        forall|m: int| 0 <= m < k ==> !is_ws(s[m]),
        k == s.len() || is_ws(s[k]),
    ensures
        lead_tok(s) =~= s.take(k),
    decreases k,
{
    if k == 1 {
        let d = s.drop_first();
        if s.len() > 1 {
            assert(d[0] == s[1]);
            assert(is_ws(d[0]));
            assert(lead_tok(d) =~= Seq::<u8>::empty());
        } else {
            assert(d.len() == 0);
            assert(lead_tok(d) =~= Seq::<u8>::empty());
        }
        assert(lead_tok(s) == seq![s[0]] + lead_tok(d));
        assert(lead_tok(s) =~= s.take(1));
    } else {
        let d = s.drop_first();
        assert(forall|m: int| 0 <= m < k - 1 ==> !is_ws(d[m]));
        lemma_lead_tok_exact(d, k - 1);
        assert(lead_tok(s) =~= seq![s[0]] + d.take(k - 1));
        assert(seq![s[0]] + d.take(k - 1) =~= s.take(k));
    }
}

/// Unfolds `split_ws` at a position that starts a token of length `k - i`.
proof fn lemma_split_ws_chunk(s: Seq<u8>, k: int)
    requires
        0 < k <= s.len(),
        forall|m: int| 0 <= m < k ==> !is_ws(s[m]),
        k == s.len() || is_ws(s[k]),
    ensures
        split_ws(s) == seq![s.take(k)] + split_ws(s.skip(k)),
{
    assert(drop_ws(s) == s);
    lemma_lead_tok_exact(s, k);
    assert(s.skip(lead_tok(s).len() as int) =~= s.skip(k));
}

/// Splits a line into its whitespace-separated fields.
pub fn split_ws_fields(s: &[u8]) -> (r: Vec<Vec<u8>>)
    ensures
        r@.map_values(|t: Vec<u8>| t@) == split_ws(s@),
{
    let mut r: Vec<Vec<u8>> = Vec::new();
    let mut i: usize = 0;
    proof {
        assert(s@.skip(0) =~= s@);
    }
    while i < s.len()
        invariant
            i <= s.len(),
            r@.map_values(|t: Vec<u8>| t@) + split_ws(s@.skip(i as int)) =~= split_ws(s@),
        decreases s.len() - i,
    {
        if is_ws_byte(s[i]) {
            proof {
                lemma_split_ws_skip_ws(s@.skip(i as int));
                assert(s@.skip(i as int).drop_first() =~= s@.skip(i + 1));
            }
            i = i + 1;
        } else {
            let start: usize = i;
            let mut tok: Vec<u8> = Vec::new();
            while i < s.len() && !is_ws_byte(s[i])
                invariant
                    start <= i <= s.len(),
                    forall|m: int| start <= m < i ==> !is_ws(s@[m]),
                    tok@ =~= s@.subrange(start as int, i as int),
                decreases s.len() - i,
            {
                tok.push(s[i]);
                proof {
                    assert(tok@ =~= s@.subrange(start as int, i + 1));
                }
                i = i + 1;
            }
            proof {
                let rest = s@.skip(start as int);
                let k = i - start;
                assert(forall|m: int| 0 <= m < k ==> !is_ws(rest[m]));
                lemma_split_ws_chunk(rest, k as int);
                assert(rest.take(k as int) =~= s@.subrange(start as int, i as int));
                assert(rest.skip(k as int) =~= s@.skip(i as int));
                let f = |t: Vec<u8>| t@;
                assert(r@.push(tok).map_values(f) =~= r@.map_values(f).push(tok@));
            }
            r.push(tok);
        }
    }
    proof {
        assert(s@.skip(s@.len() as int) =~= Seq::<u8>::empty());
        assert(split_ws(Seq::<u8>::empty()) =~= Seq::<Seq<u8>>::empty());
    }
    r
}

/// Executable counterpart of `is_ws`.
pub fn is_ws_byte(b: u8) -> (r: bool)
    ensures
        r == is_ws(b),
{
    b == 0x20 || b == 0x09 || b == 0x0d
}

// ---------------------------------------------------------------------------
// Line splitting
// ---------------------------------------------------------------------------

/// Length of the first line (bytes before the first newline, or all of them).
pub open spec fn line_len(s: Seq<u8>) -> int
    decreases s.len(),
{
    if s.len() == 0 {
        0
    } else if s[0] == 0x0a {
        0
    } else {
        1 + line_len(s.drop_first())
    }
}

pub proof fn lemma_line_len(s: Seq<u8>)
    ensures
        0 <= line_len(s) <= s.len(),
        forall|m: int| 0 <= m < line_len(s) ==> s[m] != 0x0a,
        line_len(s) < s.len() ==> s[line_len(s)] == 0x0a,
    decreases s.len(),
{
    if s.len() > 0 && s[0] != 0x0a {
        let d = s.drop_first();
        lemma_line_len(d);
        assert(forall|m: int| 1 <= m < line_len(s) ==> s[m] == d[m - 1]);
        if line_len(s) < s.len() {
            assert(s[line_len(s)] == d[line_len(d)]);
        }
    }
}

/// The lines of the input, split at newline bytes.  A trailing newline does
/// not contribute an empty final line.
pub open spec fn split_lines(s: Seq<u8>) -> Seq<Seq<u8>>
    decreases s.len(),
    via split_lines_decreases
{
    if s.len() == 0 {
        Seq::empty()
    } else {
        let k = line_len(s);
        if k == s.len() {
            seq![s]
        } else {
            seq![s.take(k)] + split_lines(s.skip(k + 1))
        }
    }
}

#[via_fn]
proof fn split_lines_decreases(s: Seq<u8>) {
    lemma_line_len(s);
}

/// Unfolds `line_len` across a scanned prefix without newlines.
proof fn lemma_line_len_exact(s: Seq<u8>, k: int)
    requires
        0 <= k <= s.len(),
        forall|m: int| 0 <= m < k ==> s[m] != 0x0a,
        k == s.len() || s[k] == 0x0a,
    ensures
        line_len(s) == k,
    decreases k,
{
    if k > 0 {
        let d = s.drop_first();
        assert(forall|m: int| 0 <= m < k - 1 ==> d[m] != 0x0a);
        lemma_line_len_exact(d, k - 1);
    }
}

/// Splits command output into its lines.
pub fn split_into_lines(s: &[u8]) -> (r: Vec<Vec<u8>>)
    ensures
        r@.map_values(|t: Vec<u8>| t@) == split_lines(s@),
{
    let mut r: Vec<Vec<u8>> = Vec::new();
    let mut i: usize = 0;
    proof {
        assert(s@.skip(0) =~= s@);
    }
    while i < s.len()
        invariant
            i <= s.len(),
            r@.map_values(|t: Vec<u8>| t@) + split_lines(s@.skip(i as int)) =~= split_lines(s@),
        decreases s.len() - i,
    {
        let start: usize = i;
        let mut line: Vec<u8> = Vec::new();
        while i < s.len() && s[i] != 0x0a
            invariant
                start <= i <= s.len(),
                forall|m: int| start <= m < i ==> s@[m] != 0x0a,
                line@ =~= s@.subrange(start as int, i as int),
            decreases s.len() - i,
        {
            line.push(s[i]);
            proof {
                assert(line@ =~= s@.subrange(start as int, i + 1));
            }
            i = i + 1;
        }
        proof {
            let rest = s@.skip(start as int);
            let k = i - start;
            assert(forall|m: int| 0 <= m < k ==> rest[m] != 0x0a);
            lemma_line_len_exact(rest, k as int);
            let f = |t: Vec<u8>| t@;
            if k == rest.len() {
                assert(rest.take(k as int) =~= rest);
            }
            assert(rest.take(k as int) =~= s@.subrange(start as int, i as int));
            if (i as int) < s@.len() {
                assert(rest.skip(k + 1) =~= s@.skip(i + 1));
            }
            assert(r@.push(line).map_values(f) =~= r@.map_values(f).push(line@));
        }
        r.push(line);
        if i < s.len() {
            i = i + 1;
        } else {
            proof {
                assert(s@.skip(i as int).len() == 0);
            }
        }
    }
    proof {
        if s@.len() == 0 {
            assert(split_lines(s@) =~= Seq::<Seq<u8>>::empty());
        }
        assert(s@.skip(s@.len() as int).len() == 0);
        assert(split_lines(s@.skip(s@.len() as int)) =~= Seq::<Seq<u8>>::empty());
    }
    r
}

// ---------------------------------------------------------------------------
// Decimal and hexadecimal numbers
// ---------------------------------------------------------------------------

pub open spec fn is_digit(b: u8) -> bool {
    0x30 <= b <= 0x39
}

pub open spec fn digit_of(b: u8) -> nat {
    if is_digit(b) {
        (b - 0x30) as nat
    } else {
        0
    }
}

pub open spec fn all_digits(s: Seq<u8>) -> bool {
    forall|i: int| 0 <= i < s.len() ==> is_digit(#[trigger] s[i])
}

/// The value of a string of decimal digits, most significant first.
pub open spec fn dec_val(s: Seq<u8>) -> nat
    decreases s.len(),
{
    if s.len() == 0 {
        0
    } else {
        dec_val(s.drop_last()) * 10 + digit_of(s.last())
    }
}

proof fn lemma_dec_val_step(s: Seq<u8>, i: int)
    requires
        0 <= i < s.len(),
    ensures
        dec_val(s.take(i + 1)) == dec_val(s.take(i)) * 10 + digit_of(s[i]),
{
    assert(s.take(i + 1).drop_last() =~= s.take(i));
    assert(s.take(i + 1).last() == s[i]);
}

proof fn lemma_dec_val_mono(s: Seq<u8>, i: int)
    requires
        0 <= i <= s.len(),
    ensures
        dec_val(s.take(i)) <= dec_val(s),
    decreases s.len() - i,
{
    if i < s.len() {
        lemma_dec_val_step(s, i);
        lemma_dec_val_mono(s, i + 1);
    } else {
        assert(s.take(i) =~= s);
    }
}

/// Parses a token of decimal digits.  Returns `None` on an empty token, a
/// non-digit byte, or a value that does not fit in a `u64`.
pub fn parse_u64_dec(tok: &[u8]) -> (r: Option<u64>)
    ensures
        r is Some <==> tok@.len() > 0 && all_digits(tok@) && dec_val(tok@) <= u64::MAX,
        r matches Some(v) ==> v == dec_val(tok@),
{
    if tok.len() == 0 {
        return None;
    }
    let mut acc: u64 = 0;
    let mut i: usize = 0;
    proof {
        assert(tok@.take(0) =~= Seq::<u8>::empty());
    }
    while i < tok.len()
        invariant
            0 <= i <= tok@.len(),
            all_digits(tok@.take(i as int)),
            acc == dec_val(tok@.take(i as int)),
        decreases tok@.len() - i,
    {
        let b = tok[i];
        if b < 0x30 || b > 0x39 {
            assert(!is_digit(tok@[i as int]));
            return None;
        }
        let d: u64 = (b - 0x30) as u64;
        proof {
            lemma_dec_val_step(tok@, i as int);
        }
        match acc.checked_mul(10) {
            Some(m) => {
                match m.checked_add(d) {
                    Some(n) => {
                        acc = n;
                    },
                    None => {
                        proof {
                            lemma_dec_val_mono(tok@, i + 1);
                        }
                        return None;
                    },
                }
            },
            None => {
                proof {
                    lemma_dec_val_mono(tok@, i + 1);
                }
                return None;
            },
        }
        i = i + 1;
        proof {
            assert(forall|m: int|
                0 <= m < i ==> is_digit(#[trigger] tok@.take(i as int)[m]));
        }
    }
    proof {
        assert(tok@.take(tok@.len() as int) =~= tok@);
    }
    Some(acc)
}

/// Parses a token of decimal digits as a `u32`.
pub fn parse_u32_dec(tok: &[u8]) -> (r: Option<u32>)
    ensures
        r is Some <==> tok@.len() > 0 && all_digits(tok@) && dec_val(tok@) <= u32::MAX,
        r matches Some(v) ==> v == dec_val(tok@),
{
    match parse_u64_dec(tok) {
        Some(v) => {
            if v <= 0xffff_ffff {
                Some(v as u32)
            } else {
                None
            }
        },
        None => {
            proof {
                if tok@.len() > 0 && all_digits(tok@) {
                    assert(dec_val(tok@) > u64::MAX);
                }
            }
            None
        },
    }
}

/// Parses a token of decimal digits as a `u16`.
pub fn parse_u16_dec(tok: &[u8]) -> (r: Option<u16>)
    ensures
        r is Some <==> tok@.len() > 0 && all_digits(tok@) && dec_val(tok@) <= u16::MAX,
        r matches Some(v) ==> v == dec_val(tok@),
{
    match parse_u64_dec(tok) {
        Some(v) => {
            if v <= 0xffff {
                Some(v as u16)
            } else {
                None
            }
        },
        None => {
            proof {
                if tok@.len() > 0 && all_digits(tok@) {
                    assert(dec_val(tok@) > u64::MAX);
                }
            }
            None
        },
    }
}

pub open spec fn is_hex_digit(b: u8) -> bool {
    (0x30 <= b <= 0x39) || (0x41 <= b <= 0x46) || (0x61 <= b <= 0x66)
}

pub open spec fn hex_digit_of(b: u8) -> nat {
    if 0x30 <= b <= 0x39 {
        (b - 0x30) as nat
    } else if 0x41 <= b <= 0x46 {
        (b - 0x41 + 10) as nat
    } else if 0x61 <= b <= 0x66 {
        (b - 0x61 + 10) as nat
    } else {
        0
    }
}

pub open spec fn all_hex_digits(s: Seq<u8>) -> bool {
    forall|i: int| 0 <= i < s.len() ==> is_hex_digit(#[trigger] s[i])
}

/// The value of a string of hexadecimal digits, most significant first.
pub open spec fn hex_val(s: Seq<u8>) -> nat
    decreases s.len(),
{
    if s.len() == 0 {
        0
    } else {
        hex_val(s.drop_last()) * 16 + hex_digit_of(s.last())
    }
}

proof fn lemma_hex_val_step(s: Seq<u8>, i: int)
    requires
        0 <= i < s.len(),
    ensures
        hex_val(s.take(i + 1)) == hex_val(s.take(i)) * 16 + hex_digit_of(s[i]),
{
    assert(s.take(i + 1).drop_last() =~= s.take(i));
    assert(s.take(i + 1).last() == s[i]);
}

proof fn lemma_hex_val_mono(s: Seq<u8>, i: int)
    requires
        0 <= i <= s.len(),
    ensures
        hex_val(s.take(i)) <= hex_val(s),
    decreases s.len() - i,
{
    if i < s.len() {
        lemma_hex_val_step(s, i);
        lemma_hex_val_mono(s, i + 1);
    } else {
        assert(s.take(i) =~= s);
    }
}

/// Parses a token of hexadecimal digits as a `u16`, as the local-port field
/// of a kernel connection-table row is encoded.
pub fn parse_u16_hex(tok: &[u8]) -> (r: Option<u16>)
    ensures
        r is Some <==> tok@.len() > 0 && all_hex_digits(tok@) && hex_val(tok@) <= u16::MAX,
        r matches Some(v) ==> v == hex_val(tok@),
{
    if tok.len() == 0 {
        return None;
    }
    let mut acc: u64 = 0;
    let mut i: usize = 0;
    proof {
        assert(tok@.take(0) =~= Seq::<u8>::empty());
    }
    while i < tok.len()
        invariant
            0 <= i <= tok@.len(),
            all_hex_digits(tok@.take(i as int)),
            acc == hex_val(tok@.take(i as int)),
            acc <= u16::MAX,
        decreases tok@.len() - i,
    {
        let b = tok[i];
        let d: u64 = if b >= 0x30 && b <= 0x39 {
            (b - 0x30) as u64
        } else if b >= 0x41 && b <= 0x46 {
            (b - 0x41 + 10) as u64
        } else if b >= 0x61 && b <= 0x66 {
            (b - 0x61 + 10) as u64
        } else {
            assert(!is_hex_digit(tok@[i as int]));
            return None;
        };
        proof {
            lemma_hex_val_step(tok@, i as int);
        }
        let next: u64 = acc * 16 + d;
        if next > 0xffff {
            proof {
                lemma_hex_val_mono(tok@, i + 1);
            }
            return None;
        }
        acc = next;
        i = i + 1;
        proof {
            assert(forall|m: int|
                0 <= m < i ==> is_hex_digit(#[trigger] tok@.take(i as int)[m]));
        }
    }
    proof {
        assert(tok@.take(tok@.len() as int) =~= tok@);
    }
    Some(acc as u16)
}

// ---------------------------------------------------------------------------
// Finding separators
// ---------------------------------------------------------------------------

/// What follows the last occurrence of `c`, or the whole input when `c` does
/// not occur (the behaviour of taking the first piece of a reverse split).
pub open spec fn after_last(s: Seq<u8>, c: u8) -> Seq<u8>
    decreases s.len(),
{
    if s.len() == 0 {
        s
    } else if s.last() == c {
        Seq::empty()
    } else {
        after_last(s.drop_last(), c).push(s.last())
    }
}

proof fn lemma_after_last_none(s: Seq<u8>, c: u8)
    requires
        forall|m: int| 0 <= m < s.len() ==> s[m] != c,
    ensures
        after_last(s, c) == s,
    decreases s.len(),
{
    if s.len() > 0 {
        lemma_after_last_none(s.drop_last(), c);
        assert(after_last(s, c) =~= s);
    }
}

proof fn lemma_after_last_at(s: Seq<u8>, c: u8, k: int)
    requires
        0 <= k < s.len(),
        s[k] == c,
        forall|m: int| k < m < s.len() ==> s[m] != c,
    ensures
        after_last(s, c) == s.skip(k + 1),
    decreases s.len(),
{
    if k == s.len() - 1 {
        assert(after_last(s, c) =~= s.skip(k + 1));
    } else {
        lemma_after_last_at(s.drop_last(), c, k);
        assert(after_last(s, c) =~= s.skip(k + 1));
    }
}

/// Returns the bytes after the last occurrence of `c` (the whole input when
/// `c` is absent), as when taking the port after the last colon of an
/// address token.
pub fn suffix_after_last(s: &[u8], c: u8) -> (r: Vec<u8>)
    ensures
        r@ == after_last(s@, c),
{
    let mut k: usize = s.len();
    while k > 0 && s[k - 1] != c
        invariant
            0 <= k <= s@.len(),
            forall|m: int| k <= m < s@.len() ==> s@[m] != c,
        decreases k,
    {
        k = k - 1;
    }
    let start: usize = k;
    let mut r: Vec<u8> = Vec::new();
    let mut i: usize = start;
    while i < s.len()
        invariant
            start <= i <= s@.len(),
            r@ =~= s@.subrange(start as int, i as int),
        decreases s@.len() - i,
    {
        r.push(s[i]);
        proof {
            assert(r@ =~= s@.subrange(start as int, i + 1));
        }
        i = i + 1;
    }
    proof {
        if start == 0 {
            lemma_after_last_none(s@, c);
            assert(r@ =~= s@);
        } else {
            lemma_after_last_at(s@, c, start - 1);
            assert(r@ =~= s@.skip(start as int));
        }
    }
    r
}

/// The bytes before the first occurrence of `c`, or the whole input.
pub open spec fn before_first(s: Seq<u8>, c: u8) -> Seq<u8>
    decreases s.len(),
{
    if s.len() == 0 {
        s
    } else if s[0] == c {
        Seq::empty()
    } else {
        seq![s[0]] + before_first(s.drop_first(), c)
    }
}

proof fn lemma_before_first_exact(s: Seq<u8>, c: u8, k: int)
    requires
        0 <= k <= s.len(),
        forall|m: int| 0 <= m < k ==> s[m] != c,
        k == s.len() || s[k] == c,
    ensures
        before_first(s, c) == s.take(k),
    decreases k,
{
    if k == 0 {
        assert(before_first(s, c) =~= s.take(0));
    } else {
        let d = s.drop_first();
        assert(forall|m: int| 0 <= m < k - 1 ==> d[m] != c);
        lemma_before_first_exact(d, c, k - 1);
        assert(before_first(s, c) =~= s.take(k));
    }
}

/// Returns the bytes before the first occurrence of `c` (the whole input
/// when `c` is absent), as when stripping a trailing state annotation.
pub fn prefix_before_first(s: &[u8], c: u8) -> (r: Vec<u8>)
    ensures
        r@ == before_first(s@, c),
{
    let mut r: Vec<u8> = Vec::new();
    let mut i: usize = 0;
    while i < s.len() && s[i] != c
        invariant
            0 <= i <= s@.len(),
            forall|m: int| 0 <= m < i ==> s@[m] != c,
            r@ =~= s@.subrange(0, i as int),
        decreases s@.len() - i,
    {
        r.push(s[i]);
        proof {
            assert(r@ =~= s@.subrange(0, i + 1));
        }
        i = i + 1;
    }
    proof {
        lemma_before_first_exact(s@, c, i as int);
    }
    r
}

/// Copies the bytes from position `k` on.
pub fn suffix_of(s: &[u8], k: usize) -> (r: Vec<u8>)
    requires
        k <= s@.len(),
    ensures
        r@ == s@.skip(k as int),
{
    let mut r: Vec<u8> = Vec::new();
    let mut i: usize = k;
    while i < s.len()
        invariant
            k <= i <= s@.len(),
            r@ =~= s@.subrange(k as int, i as int),
        decreases s@.len() - i,
    {
        r.push(s[i]);
        proof {
            assert(r@ =~= s@.subrange(k as int, i + 1));
        }
        i = i + 1;
    }
    proof {
        assert(r@ =~= s@.skip(k as int));
    }
    r
}

// ---------------------------------------------------------------------------
// Substring search
// ---------------------------------------------------------------------------

/// Whether `needle` occurs as a contiguous run inside `hay`.
pub open spec fn contains_seq(hay: Seq<u8>, needle: Seq<u8>) -> bool {
    exists|k: int|
        0 <= k && k + needle.len() <= hay.len() && #[trigger] hay.subrange(k, k + needle.len())
            == needle
}

/// Naive substring search over bytes.
pub fn contains_bytes(hay: &[u8], needle: &[u8]) -> (r: bool)
    ensures
        r == contains_seq(hay@, needle@),
{
    if needle.len() > hay.len() {
        proof {
            assert(!contains_seq(hay@, needle@));
        }
        return false;
    }
    let mut k: usize = 0;
    while k <= hay.len() - needle.len()
        invariant
            0 <= k,
            k + needle@.len() <= hay@.len() + 1,
            needle@.len() <= hay@.len(),
            forall|m: int|
                0 <= m < k ==> #[trigger] hay@.subrange(m, m + needle@.len()) != needle@,
        decreases hay@.len() + 1 - k,
    {
        proof {
            assert(k + needle@.len() <= hay@.len());
        }
        let mut j: usize = 0;
        let mut ok: bool = true;
        while j < needle.len()
            invariant
                0 <= j <= needle@.len(),
                k + needle@.len() <= hay@.len(),
                hay@.len() <= usize::MAX,
                ok <==> (forall|m: int|
                    0 <= m < j ==> hay@[k + m] == needle@[m]),
            decreases needle@.len() - j,
        {
            if hay[k + j] != needle[j] {
                ok = false;
                proof {
                    assert(hay@[k + j] != needle@[j as int]);
                }
                j = needle.len();
            } else {
                j = j + 1;
            }
        }
        if ok {
            proof {
                assert(hay@.subrange(k as int, k + needle@.len()) =~= needle@);
            }
            return true;
        }
        proof {
            assert(hay@.subrange(k as int, k + needle@.len()) != needle@) by {
                if hay@.subrange(k as int, k + needle@.len()) == needle@ {
                    assert(forall|m: int|
                        0 <= m < needle@.len() ==> hay@[k + m] == #[trigger] needle@[m]) by {
                        assert(forall|m: int|
                            0 <= m < needle@.len() ==> #[trigger] needle@[m] == hay@.subrange(
                                k as int,
                                k + needle@.len(),
                            )[m]);
                    }
                }
            }
        }
        k = k + 1;
    }
    proof {
        assert(!contains_seq(hay@, needle@));
    }
    false
}

/// Whether the byte `c` occurs in `hay`.
pub fn contains_byte(hay: &[u8], c: u8) -> (r: bool)
    ensures
        r == exists|m: int| 0 <= m < hay@.len() && hay@[m] == c,
{
    let mut i: usize = 0;
    while i < hay.len()
        invariant
            0 <= i <= hay@.len(),
            forall|m: int| 0 <= m < i ==> hay@[m] != c,
        decreases hay@.len() - i,
    {
        if hay[i] == c {
            return true;
        }
        i = i + 1;
    }
    false
}

// ---------------------------------------------------------------------------
// Rendering numbers as text
// ---------------------------------------------------------------------------

pub open spec fn digit_char(d: nat) -> char {
    if d == 0 {
        '0'
    } else if d == 1 {
        '1'
    } else if d == 2 {
        '2'
    } else if d == 3 {
        '3'
    } else if d == 4 {
        '4'
    } else if d == 5 {
        '5'
    } else if d == 6 {
        '6'
    } else if d == 7 {
        '7'
    } else if d == 8 {
        '8'
    } else {
        '9'
    }
}

/// The decimal rendering of a number, most significant digit first.
pub open spec fn dec_chars(n: nat) -> Seq<char>
    decreases n,
{
    if n < 10 {
        seq![digit_char(n)]
    } else {
        dec_chars(n / 10).push(digit_char(n % 10))
    }
}

/// One decimal digit as a string slice.
fn digit_str(d: u64) -> (r: &'static str)
    requires
        d < 10,
    ensures
        r@ == seq![digit_char(d as nat)],
{
    proof {
        reveal_strlit("0");
        reveal_strlit("1");
        reveal_strlit("2");
        reveal_strlit("3");
        reveal_strlit("4");
        reveal_strlit("5");
        reveal_strlit("6");
        reveal_strlit("7");
        reveal_strlit("8");
        reveal_strlit("9");
    }
    if d == 0 {
        "0"
    } else if d == 1 {
        "1"
    } else if d == 2 {
        "2"
    } else if d == 3 {
        "3"
    } else if d == 4 {
        "4"
    } else if d == 5 {
        "5"
    } else if d == 6 {
        "6"
    } else if d == 7 {
        "7"
    } else if d == 8 {
        "8"
    } else {
        "9"
    }
}

/// Renders a number in decimal.
pub fn u64_to_dec(n: u64) -> (s: String)
    ensures
        s@ == dec_chars(n as nat),
    decreases n,
{
    if n < 10 {
        String::from_str(digit_str(n))
    } else {
        let mut s = u64_to_dec(n / 10);
        s.append(digit_str(n % 10));
        proof {
            assert(s@ =~= dec_chars(n as nat));
        }
        s
    }
}

} // verus!
