//! Icon selection: each glyph exists in three tiers — Unicode emoji, a
//! narrow single-width symbol, and an ASCII fallback — and one tier is
//! picked per invocation from the terminal's capabilities.

use vstd::prelude::*;

verus! {

/// Which glyph tier the terminal gets.
#[derive(PartialEq, Eq, Structural, Clone, Copy, Debug)]
pub enum IconMode {
    Unicode,
    Narrow,
    Ascii,
}

/// One icon in its three tiers.
pub struct IconGlyph {
    pub unicode: &'static str,
    pub narrow: &'static str,
    pub ascii: &'static str,
}

/// The fixed icon table.
pub struct SafeIcons;

impl SafeIcons {
    /// Success / completion.
    pub fn check() -> (r: IconGlyph)
        ensures
            r.unicode@ == "\u{2714}"@ && r.narrow@ == "\u{2713}"@ && r.ascii@ == "+"@,
    {
        IconGlyph { unicode: "\u{2714}", narrow: "\u{2713}", ascii: "+" }
    }

    /// Error / failure.
    pub fn cross() -> (r: IconGlyph)
        ensures
            r.unicode@ == "\u{2716}"@ && r.narrow@ == "\u{00D7}"@ && r.ascii@ == "x"@,
    {
        IconGlyph { unicode: "\u{2716}", narrow: "\u{00D7}", ascii: "x" }
    }

    /// Ports and speed.
    pub fn lightning() -> (r: IconGlyph)
        ensures
            r.unicode@ == "\u{26A1}"@ && r.narrow@ == "*"@ && r.ascii@ == "*"@,
    {
        IconGlyph { unicode: "\u{26A1}", narrow: "*", ascii: "*" }
    }

    /// Searching.
    pub fn search() -> (r: IconGlyph)
        ensures
            r.unicode@ == "\u{1F50D}"@ && r.narrow@ == "?"@ && r.ascii@ == "?"@,
    {
        IconGlyph { unicode: "\u{1F50D}", narrow: "?", ascii: "?" }
    }

    /// Warnings.
    pub fn warning() -> (r: IconGlyph)
        ensures
            r.unicode@ == "\u{26A0}"@ && r.narrow@ == "!"@ && r.ascii@ == "!"@,
    {
        IconGlyph { unicode: "\u{26A0}", narrow: "!", ascii: "!" }
    }

    /// Forced termination.
    pub fn fire() -> (r: IconGlyph)
        ensures
            r.unicode@ == "\u{1F525}"@ && r.narrow@ == "!"@ && r.ascii@ == "!"@,
    {
        IconGlyph { unicode: "\u{1F525}", narrow: "!", ascii: "!" }
    }

    pub fn folder() -> (r: IconGlyph)
        ensures
            r.unicode@ == "\u{1F4C2}"@ && r.narrow@ == "[D]"@ && r.ascii@ == "[D]"@,
    {
        IconGlyph { unicode: "\u{1F4C2}", narrow: "[D]", ascii: "[D]" }
    }

    pub fn file() -> (r: IconGlyph)
        ensures
            r.unicode@ == "\u{1F4C4}"@ && r.narrow@ == "[F]"@ && r.ascii@ == "[F]"@,
    {
        IconGlyph { unicode: "\u{1F4C4}", narrow: "[F]", ascii: "[F]" }
    }

    pub fn link() -> (r: IconGlyph)
        ensures
            r.unicode@ == "\u{1F517}"@ && r.narrow@ == "->"@ && r.ascii@ == "->"@,
    {
        IconGlyph { unicode: "\u{1F517}", narrow: "->", ascii: "->" }
    }
}

/// The capability signs the icon choice rests on, gathered by the caller.
#[derive(PartialEq, Eq, Structural, Clone, Copy)]
pub struct IconEnv {
    /// Plain-text mode was requested.
    pub plain: bool,
    /// ASCII icons were requested.
    pub ascii: bool,
    /// Unicode icons were forced.
    pub unicode: bool,
    /// Narrow single-width symbols were requested.
    pub narrow: bool,
    /// The output encoding is probably not UTF-8.
    pub likely_non_utf8: bool,
    /// The terminal is judged able to show Unicode emoji.
    pub unicode_support: bool,
}

/// The icon manager: one selected tier.
pub struct Icons {
    pub mode: IconMode,
}

impl Icons {
    /// Picks the glyph tier: explicit requests first (plain and ASCII
    /// before forced Unicode before narrow), then ASCII whenever the
    /// encoding looks unsafe, and otherwise whatever the terminal can show.
    pub fn detect_mode(env: &IconEnv) -> (r: IconMode)
        ensures
            env.plain ==> r is Ascii,
            !env.plain && env.ascii ==> r is Ascii,
            !env.plain && !env.ascii && env.unicode ==> r is Unicode,
            !env.plain && !env.ascii && !env.unicode && env.narrow ==> r is Narrow,
            !env.plain && !env.ascii && !env.unicode && !env.narrow && env.likely_non_utf8
                ==> r is Ascii,
            !env.plain && !env.ascii && !env.unicode && !env.narrow && !env.likely_non_utf8 ==> r
                == (if env.unicode_support {
                IconMode::Unicode
            } else {
                IconMode::Ascii
            }),
    {
        if env.plain {
            IconMode::Ascii
        } else if env.ascii {
            IconMode::Ascii
        } else if env.unicode {
            IconMode::Unicode
        } else if env.narrow {
            IconMode::Narrow
        } else if env.likely_non_utf8 {
            IconMode::Ascii
        } else if env.unicode_support {
            IconMode::Unicode
        } else {
            IconMode::Ascii
        }
    }

    /// An icon manager for the given capability signs.
    pub fn with_env(env: &IconEnv) -> (r: Icons)
        ensures
            env.plain || env.ascii ==> r.mode is Ascii,
            !env.plain && !env.ascii && env.unicode ==> r.mode is Unicode,
    {
        Icons { mode: Icons::detect_mode(env) }
    }

    /// The default manager: nothing degraded, Unicode glyphs.
    pub fn new() -> (r: Icons)
        ensures
            r.mode is Unicode,
    {
        Icons { mode: IconMode::Unicode }
    }

    pub fn check(&self) -> (r: StyledEmoji)
        ensures
            r.mode == self.mode,
            r.glyph.unicode@ == "\u{2714}"@ && r.glyph.narrow@ == "\u{2713}"@ && r.glyph.ascii@
                == "+"@,
    {
        StyledEmoji::new(SafeIcons::check(), self.mode)
    }

    pub fn cross(&self) -> (r: StyledEmoji)
        ensures
            r.mode == self.mode,
            r.glyph.unicode@ == "\u{2716}"@ && r.glyph.narrow@ == "\u{00D7}"@ && r.glyph.ascii@
                == "x"@,
    {
        StyledEmoji::new(SafeIcons::cross(), self.mode)
    }

    pub fn lightning(&self) -> (r: StyledEmoji)
        ensures
            r.mode == self.mode,
            r.glyph.unicode@ == "\u{26A1}"@ && r.glyph.narrow@ == "*"@ && r.glyph.ascii@ == "*"@,
    {
        StyledEmoji::new(SafeIcons::lightning(), self.mode)
    }

    pub fn search(&self) -> (r: StyledEmoji)
        ensures
            r.mode == self.mode,
            r.glyph.unicode@ == "\u{1F50D}"@ && r.glyph.narrow@ == "?"@ && r.glyph.ascii@ == "?"@,
    {
        StyledEmoji::new(SafeIcons::search(), self.mode)
    }

    pub fn warning(&self) -> (r: StyledEmoji)
        ensures
            r.mode == self.mode,
            r.glyph.unicode@ == "\u{26A0}"@ && r.glyph.narrow@ == "!"@ && r.glyph.ascii@ == "!"@,
    {
        StyledEmoji::new(SafeIcons::warning(), self.mode)
    }

    pub fn fire(&self) -> (r: StyledEmoji)
        ensures
            r.mode == self.mode,
            r.glyph.unicode@ == "\u{1F525}"@ && r.glyph.narrow@ == "!"@ && r.glyph.ascii@ == "!"@,
    {
        StyledEmoji::new(SafeIcons::fire(), self.mode)
    }

    pub fn folder(&self) -> (r: StyledEmoji)
        ensures
            r.mode == self.mode,
            r.glyph.unicode@ == "\u{1F4C2}"@ && r.glyph.narrow@ == "[D]"@ && r.glyph.ascii@
                == "[D]"@,
    {
        StyledEmoji::new(SafeIcons::folder(), self.mode)
    }

    pub fn file(&self) -> (r: StyledEmoji)
        ensures
            r.mode == self.mode,
            r.glyph.unicode@ == "\u{1F4C4}"@ && r.glyph.narrow@ == "[F]"@ && r.glyph.ascii@
                == "[F]"@,
    {
        StyledEmoji::new(SafeIcons::file(), self.mode)
    }

    pub fn link(&self) -> (r: StyledEmoji)
        ensures
            r.mode == self.mode,
            r.glyph.unicode@ == "\u{1F517}"@ && r.glyph.narrow@ == "->"@ && r.glyph.ascii@ == "->"@,
    {
        StyledEmoji::new(SafeIcons::link(), self.mode)
    }
}

/// One glyph bound to the selected tier.
pub struct StyledEmoji {
    pub glyph: IconGlyph,
    pub mode: IconMode,
}

impl StyledEmoji {
    fn new(glyph: IconGlyph, mode: IconMode) -> (r: StyledEmoji)
        ensures
            r.glyph.unicode@ == glyph.unicode@,
            r.glyph.narrow@ == glyph.narrow@,
            r.glyph.ascii@ == glyph.ascii@,
            r.mode == mode,
    {
        StyledEmoji { glyph, mode }
    }

    /// The glyph text of the selected tier.
    pub fn as_str(&self) -> (r: &str)
        ensures
            self.mode is Unicode ==> r@ == self.glyph.unicode@,
            self.mode is Narrow ==> r@ == self.glyph.narrow@,
            self.mode is Ascii ==> r@ == self.glyph.ascii@,
    {
        match self.mode {
            IconMode::Unicode => self.glyph.unicode,
            IconMode::Narrow => self.glyph.narrow,
            IconMode::Ascii => self.glyph.ascii,
        }
    }
}

/// A fresh icon manager with the default tier.
pub fn icons() -> (r: Icons)
    ensures
        r.mode is Unicode,
{
    Icons::new()
}

} // verus!
