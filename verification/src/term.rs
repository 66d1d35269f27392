//! Terminal capability profile: the degradation decisions that pick plain
//! output, ASCII icons and full repaints on consoles that cannot take more.
//!
//! Reading the environment is the caller's business; the signs it gathered
//! arrive here as plain booleans, and the decisions on them are exact.

use vstd::prelude::*;

verus! {

/// The capability profile threaded through the monitor and the removal
/// engine's verbose output: set once per invocation, never ambient state.
#[derive(PartialEq, Eq, Structural, Clone, Copy)]
pub struct TerminalProfile {
    pub plain: bool,
    pub ascii_icons: bool,
    pub no_color: bool,
    pub narrow: bool,
    pub alt_screen: bool,
    pub incremental: bool,
}

impl Default for TerminalProfile {
    /// The optimistic default: a capable terminal.
    fn default() -> (r: Self)
        ensures
            r == (TerminalProfile {
                plain: false,
                ascii_icons: false,
                no_color: false,
                narrow: false,
                alt_screen: true,
                incremental: true,
            }),
    {
        TerminalProfile {
            plain: false,
            ascii_icons: false,
            no_color: false,
            narrow: false,
            alt_screen: true,
            incremental: true,
        }
    }
}

/// The user's explicit degradation requests, from flags or environment.
#[derive(PartialEq, Eq, Structural, Clone, Copy)]
pub struct ProfileFlags {
    pub plain: bool,
    pub ascii: bool,
    pub no_color: bool,
    pub narrow: bool,
}

/// What probing the environment found out about the terminal.
#[derive(PartialEq, Eq, Structural, Clone, Copy)]
pub struct TermSigns {
    /// Running on the platform whose consoles need the extra checks below.
    pub windows: bool,
    /// Session variables of a modern terminal were seen.
    pub looks_modern: bool,
    /// The locale or code page indicates UTF-8 output is safe.
    pub utf8_ok: bool,
    /// The legacy shell, rather than its modern successor.
    pub powershell_legacy: bool,
    /// A terminal known to handle ANSI sequences hosts the session.
    pub in_ansi_terminal: bool,
    /// None of the modern markers are present: a traditional console.
    pub traditional_console: bool,
    /// A terminal modern enough to risk ANSI output even without UTF-8.
    pub very_modern: bool,
}

/// The degradation rule for the platform with unreliable consoles: degrade
/// on a console that is neither UTF-8 nor modern, in the legacy shell
/// outside an ANSI-capable host, on a traditional console, and without
/// UTF-8 unless the terminal is modern enough to risk it.
pub open spec fn spec_degrade_on_windows(s: TermSigns) -> bool {
    ||| (!s.utf8_ok && !s.looks_modern)
    ||| (s.powershell_legacy && !s.in_ansi_terminal)
    ||| s.traditional_console
    ||| (!s.utf8_ok && !s.very_modern)
}

pub fn should_degrade_on_windows(signs: &TermSigns) -> (r: bool)
    ensures
        r == spec_degrade_on_windows(*signs),
{
    if !signs.utf8_ok && !signs.looks_modern {
        return true;
    }
    if signs.powershell_legacy && !signs.in_ansi_terminal {
        return true;
    }
    if signs.traditional_console {
        return true;
    }
    if !signs.utf8_ok && !signs.very_modern {
        return true;
    }
    false
}

/// Whether the whole profile falls back to plain output.
pub open spec fn spec_should_degrade(flags: ProfileFlags, signs: TermSigns) -> bool {
    ||| flags.plain
    ||| (!signs.windows && !signs.utf8_ok)
    ||| (signs.windows && spec_degrade_on_windows(signs))
}

/// Builds the capability profile from the explicit flags and the probed
/// signs.  Explicit requests win; a degraded profile turns everything off
/// at once, so nothing half-renders on an incapable console.
pub fn detect_profile(flags: &ProfileFlags, signs: &TermSigns) -> (r: TerminalProfile)
    ensures
        spec_should_degrade(*flags, *signs) ==> r == (TerminalProfile {
            plain: true,
            ascii_icons: true,
            no_color: true,
            narrow: true,
            alt_screen: false,
            incremental: false,
        }),
        !spec_should_degrade(*flags, *signs) ==> r == (TerminalProfile {
            plain: false,
            ascii_icons: flags.ascii,
            no_color: flags.no_color,
            narrow: flags.narrow,
            alt_screen: true,
            incremental: true,
        }),
{
    let degrade = flags.plain || (!signs.windows && !signs.utf8_ok) || (signs.windows
        && should_degrade_on_windows(signs));
    if degrade {
        TerminalProfile {
            plain: true,
            ascii_icons: true,
            no_color: true,
            narrow: true,
            alt_screen: false,
            incremental: false,
        }
    } else {
        TerminalProfile {
            plain: false,
            ascii_icons: flags.ascii,
            no_color: flags.no_color,
            narrow: flags.narrow,
            alt_screen: true,
            incremental: true,
        }
    }
}

/// Whether a monitor run may enter the alternate screen buffer: never
/// against the profile, and on the cautious platform only inside a host
/// that is positively known to handle it.
pub fn should_use_alt_screen(profile: &TerminalProfile, signs: &TermSigns) -> (r: bool)
    ensures
        !profile.alt_screen ==> !r,
        profile.alt_screen && !signs.windows ==> r,
        profile.alt_screen && signs.windows ==> r == (signs.in_ansi_terminal || signs.very_modern
            || (signs.powershell_legacy == false && signs.looks_modern)),
{
    if !profile.alt_screen {
        return false;
    }
    if !signs.windows {
        return true;
    }
    signs.in_ansi_terminal || signs.very_modern || (!signs.powershell_legacy && signs.looks_modern)
}

/// The flag value written back into the environment for child output
/// layers.
pub fn bool_to_flag(v: bool) -> (r: &'static str)
    ensures
        v ==> r@ == "1"@,
        !v ==> r@ == "0"@,
{
    if v {
        "1"
    } else {
        "0"
    }
}

} // verus!
