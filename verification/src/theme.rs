//! The colour-and-icon theme's decision core.  Painting itself (colour
//! escape sequences) is presentation and stays with the caller; what is
//! decided here is whether colour is on and which glyph each icon shows.

use crate::icons::Icons;
use vstd::string::StringSliceAdditionalSpecFns;
use vstd::prelude::*;

verus! {

/// The theme: whether colour is enabled, and the selected icon tier.
pub struct Theme {
    pub use_color: bool,
    pub icons: Icons,
}

impl Theme {
    /// The default theme: colour on, Unicode icons — what an environment
    /// without any degradation request selects.
    pub fn new() -> (r: Theme)
        ensures
            r.use_color,
            r.icons.mode is Unicode,
    {
        Theme { use_color: true, icons: Icons::new() }
    }

    /// A theme with explicit settings, as the probed environment dictates.
    pub fn with_settings(use_color: bool, icons: Icons) -> (r: Theme)
        ensures
            r.use_color == use_color,
            r.icons.mode == icons.mode,
    {
        Theme { use_color, icons }
    }

    /// Whether a configuration value, already lowercased by the caller,
    /// switches a setting on.
    pub fn is_truthy(value: &str) -> (r: bool)
        ensures
            r == (value@ == "1"@ || value@ == "true"@ || value@ == "yes"@ || value@ == "on"@),
    {
        str_eq(value, "1") || str_eq(value, "true") || str_eq(value, "yes") || str_eq(value, "on")
    }

    /// The folder glyph, in the selected tier.
    pub fn icon_folder(&self) -> (r: String)
        ensures
            self.icons.mode is Unicode ==> r@ == "\u{1F4C2}"@,
            self.icons.mode is Narrow ==> r@ == "[D]"@,
            self.icons.mode is Ascii ==> r@ == "[D]"@,
    {
        let e = self.icons.folder();
        String::from_str(e.as_str())
    }

    /// The file glyph, in the selected tier.
    pub fn icon_file(&self) -> (r: String)
        ensures
            self.icons.mode is Unicode ==> r@ == "\u{1F4C4}"@,
            self.icons.mode is Narrow ==> r@ == "[F]"@,
            self.icons.mode is Ascii ==> r@ == "[F]"@,
    {
        let e = self.icons.file();
        String::from_str(e.as_str())
    }

    /// The symlink glyph, in the selected tier.
    pub fn icon_link(&self) -> (r: String)
        ensures
            self.icons.mode is Unicode ==> r@ == "\u{1F517}"@,
            self.icons.mode is Narrow ==> r@ == "->"@,
            self.icons.mode is Ascii ==> r@ == "->"@,
    {
        let e = self.icons.link();
        String::from_str(e.as_str())
    }
}

/// Whether two string slices hold the same text, compared byte by byte.
fn str_eq(a: &str, b: &str) -> (r: bool)
    ensures
        r == (a@ == b@),
{
    let ab = a.as_bytes();
    let bb = b.as_bytes();
    if ab.len() != bb.len() {
        proof {
            assert(a@ != b@) by {
                if a@ == b@ {
                    assert(a.spec_bytes() == b.spec_bytes());
                }
            }
        }
        return false;
    }
    let mut i: usize = 0;
    while i < ab.len()
        invariant
            0 <= i <= ab@.len(),
            ab@.len() == bb@.len(),
            ab@ == a.spec_bytes(),
            bb@ == b.spec_bytes(),
            forall|m: int| 0 <= m < i ==> ab@[m] == bb@[m],
        decreases ab@.len() - i,
    {
        if ab[i] != bb[i] {
            proof {
                assert(a@ != b@) by {
                    if a@ == b@ {
                        assert(a.spec_bytes() == b.spec_bytes());
                    }
                }
            }
            return false;
        }
        i = i + 1;
    }
    proof {
        assert(a.spec_bytes() =~= b.spec_bytes());
        vstd::utf8::encode_utf8_decode_utf8(a@);
        vstd::utf8::encode_utf8_decode_utf8(b@);
        assert(vstd::utf8::decode_utf8(a.spec_bytes()) == vstd::utf8::decode_utf8(b.spec_bytes()));
    }
    true
}

} // verus!
