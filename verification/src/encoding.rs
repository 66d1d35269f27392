//! Tolerant decoding of command output.  The tabular tools whose output
//! the resolver parses do not promise UTF-8: primary decoding is tried
//! first, then the locale-specific fallback detectors, and lossy decoding
//! is the last resort — with a diagnostic notice, never a hard failure.

use crate::text::{dec_chars, u64_to_dec};
use vstd::prelude::*;

verus! {

/// Relies on str::from_utf8: it succeeds exactly on valid UTF-8 and
/// decodes it.
#[verifier::external_body]
fn utf8_to_string(bytes: &[u8]) -> (r: Option<String>)
    ensures
        r is Some <==> vstd::utf8::valid_utf8(bytes@),
        r matches Some(s) ==> s@ == vstd::utf8::decode_utf8(bytes@),
{
    match std::str::from_utf8(bytes) {
        Ok(s) => Some(s.to_string()),
        Err(_) => None,
    }
}

/// What lossy decoding yields: invalid sequences replaced, byte for byte
/// a function of the input alone.
pub uninterp spec fn utf8_lossy(bytes: Seq<u8>) -> Seq<char>;

/// Relies on String::from_utf8_lossy: invalid sequences are replaced with
/// U+FFFD, and valid UTF-8 comes back unchanged (documented behaviour).
#[verifier::external_body]
fn utf8_lossy_to_string(bytes: &[u8]) -> (r: String)
    ensures
        r@ == utf8_lossy(bytes@),
        vstd::utf8::valid_utf8(bytes@) ==> r@ == vstd::utf8::decode_utf8(bytes@),
{
    String::from_utf8_lossy(bytes).to_string()
}

/// Whether the replacement character appears in the decoded text.
fn contains_replacement(s: &String) -> (r: bool)
    ensures
        r == s@.contains('\u{FFFD}'),
{
    let n = s.as_str().unicode_len();
    let mut i: usize = 0;
    while i < n
        invariant
            0 <= i <= n,
            n == s@.len(),
            forall|m: int| 0 <= m < i ==> s@[m] != '\u{FFFD}',
        decreases n - i,
    {
        if s.as_str().get_char(i) == '\u{FFFD}' {
            proof {
                assert(s@[i as int] == '\u{FFFD}');
            }
            return true;
        }
        i = i + 1;
    }
    proof {
        assert(!s@.contains('\u{FFFD}')) by {
            if s@.contains('\u{FFFD}') {
                let m = choose|m: int| 0 <= m < s@.len() && s@[m] == '\u{FFFD}';
            }
        }
    }
    false
}

// ---------------------------------------------------------------------------
// Locale-specific fallback detectors
// ---------------------------------------------------------------------------

/// The double-byte scan: from position `i`, every byte pair is either a
/// plausible double-byte character (lead 0x81–0xFE, trail 0x40–0xFE) or a
/// single ASCII byte; scanning may run out at the last byte.
pub open spec fn gbk_scan(d: Seq<u8>, i: int) -> bool
    decreases d.len() - i when 0 <= i
{
    if i >= d.len() - 1 {
        true
    } else if 0x81 <= d[i] <= 0xFE && 0x40 <= d[i + 1] <= 0xFE {
        gbk_scan(d, i + 2)
    } else if d[i] <= 0x7F {
        gbk_scan(d, i + 1)
    } else {
        false
    }
}

/// The notice standing in for text in the double-byte code page.
pub open spec fn gbk_notice(len: nat) -> Seq<char> {
    "[GBK data, length "@ + dec_chars(len) + "]"@
}

/// Detects output that is plausibly in the double-byte code page and
/// stands a placeholder notice in for it.
pub fn try_decode_as_gbk(data: &[u8]) -> (r: Option<String>)
    ensures
        r is Some <==> (data@.len() >= 2 && gbk_scan(data@, 0)),
        r matches Some(s) ==> s@ == gbk_notice(data@.len()),
{
    if data.len() < 2 {
        return None;
    }
    let mut i: usize = 0;
    let mut valid: bool = true;
    while valid && i < data.len() - 1
        invariant
            0 <= i <= data@.len(),
            data@.len() >= 2,
            valid ==> gbk_scan(data@, 0) == gbk_scan(data@, i as int),
            !valid ==> !gbk_scan(data@, 0),
        decreases data@.len() - i,
    {
        let b = data[i];
        if b >= 0x81 && b <= 0xFE && data[i + 1] >= 0x40 && data[i + 1] <= 0xFE {
            proof {
                assert(gbk_scan(data@, i as int) == gbk_scan(data@, i + 2));
            }
            if i + 2 <= data.len() {
                i = i + 2;
            } else {
                i = data.len();
            }
        } else if b <= 0x7F {
            proof {
                assert(gbk_scan(data@, i as int) == gbk_scan(data@, i + 1));
            }
            i = i + 1;
        } else {
            proof {
                assert(!gbk_scan(data@, i as int));
            }
            valid = false;
            i = data.len();
        }
    }
    if valid {
        proof {
            assert(i >= data@.len() - 1);
            assert(gbk_scan(data@, i as int));
        }
        let mut s = String::from_str("[GBK data, length ");
        let t = u64_to_dec(data.len() as u64);
        s.append(t.as_str());
        s.append("]");
        proof {
            assert(s@ =~= gbk_notice(data@.len()));
        }
        Some(s)
    } else {
        None
    }
}

/// Whether the data carries one of the control bytes that are meaningful
/// in the single-byte Western code page but invalid in UTF-8.
pub open spec fn has_w1252_marker(d: Seq<u8>) -> bool {
    exists|m: int|
        0 <= m < d.len() && (#[trigger] d[m] == 0x81 || d[m] == 0x8D || d[m] == 0x8F || d[m]
            == 0x90 || d[m] == 0x9D)
}

/// The notice standing in for text in the single-byte Western code page.
pub open spec fn w1252_notice(len: nat) -> Seq<char> {
    "[Windows-1252 data, length "@ + dec_chars(len) + "]"@
}

/// Detects output carrying the Western code page's marker bytes and
/// stands a placeholder notice in for it.
pub fn try_decode_as_windows_1252(data: &[u8]) -> (r: Option<String>)
    ensures
        r is Some <==> has_w1252_marker(data@),
        r matches Some(s) ==> s@ == w1252_notice(data@.len()),
{
    let mut i: usize = 0;
    let mut found: bool = false;
    while i < data.len() && !found
        invariant
            0 <= i <= data@.len(),
            found ==> has_w1252_marker(data@),
            !found ==> (forall|m: int|
                0 <= m < i ==> !(#[trigger] data@[m] == 0x81 || data@[m] == 0x8D || data@[m]
                    == 0x8F || data@[m] == 0x90 || data@[m] == 0x9D)),
        decreases data@.len() - i,
    {
        let b = data[i];
        if b == 0x81 || b == 0x8D || b == 0x8F || b == 0x90 || b == 0x9D {
            proof {
                assert(data@[i as int] == b);
            }
            found = true;
            i = data.len();
        } else {
            i = i + 1;
        }
    }
    if found {
        let mut s = String::from_str("[Windows-1252 data, length ");
        let t = u64_to_dec(data.len() as u64);
        s.append(t.as_str());
        s.append("]");
        proof {
            assert(s@ =~= w1252_notice(data@.len()));
        }
        Some(s)
    } else {
        None
    }
}

// ---------------------------------------------------------------------------
// The decode chain
// ---------------------------------------------------------------------------

/// Decoded command output; `notice` asks the caller to emit the
/// replacement-character diagnostic.
pub struct DecodedOutput {
    pub text: String,
    pub notice: bool,
}

/// Decodes command output: UTF-8 first, then the locale-specific
/// detectors, then lossy decoding.  Only the lossy fallback can raise the
/// diagnostic notice, and only when replacement characters appear.
pub fn safe_command_output_to_string(stdout: &[u8]) -> (r: DecodedOutput)
    ensures
        vstd::utf8::valid_utf8(stdout@) ==> r.text@ == vstd::utf8::decode_utf8(stdout@)
            && !r.notice,
        !vstd::utf8::valid_utf8(stdout@) && stdout@.len() >= 2 && gbk_scan(stdout@, 0) ==> r.text@
            == gbk_notice(stdout@.len()) && !r.notice,
        !vstd::utf8::valid_utf8(stdout@) && !(stdout@.len() >= 2 && gbk_scan(stdout@, 0))
            && has_w1252_marker(stdout@) ==> r.text@ == w1252_notice(stdout@.len()) && !r.notice,
        !vstd::utf8::valid_utf8(stdout@) && !(stdout@.len() >= 2 && gbk_scan(stdout@, 0))
            && !has_w1252_marker(stdout@) ==> r.text@ == utf8_lossy(stdout@) && (r.notice
            <==> utf8_lossy(stdout@).contains('\u{FFFD}')),
{
    match utf8_to_string(stdout) {
        Some(text) => DecodedOutput { text, notice: false },
        None => {
            match try_decode_as_gbk(stdout) {
                Some(text) => DecodedOutput { text, notice: false },
                None => {
                    match try_decode_as_windows_1252(stdout) {
                        Some(text) => DecodedOutput { text, notice: false },
                        None => {
                            let text = utf8_lossy_to_string(stdout);
                            let notice = contains_replacement(&text);
                            DecodedOutput { text, notice }
                        },
                    }
                },
            }
        },
    }
}

} // verus!
