//! The fixed dialect constants of the translation.

use vstd::prelude::*;

verus! {

/// The Mach3 probe-data register reference, renamed on every line.
pub open spec fn probe_mach3() -> Seq<char> {
    "#2002"@
}

/// The UCNC probe-data register reference, the rename's replacement.
pub open spec fn probe_ucnc() -> Seq<char> {
    "#5063"@
}

/// The pause directive that the target dialect lacks; such lines are dropped.
pub open spec fn pause_text() -> Seq<char> {
    "M0 (PAUSE PROGRAM)"@
}

/// The spindle-on command prefix that triggers dwell injection.
pub open spec fn spindle_on_prefix() -> Seq<char> {
    "M3 "@
}

/// The dwell instruction inserted after each spindle-on command.
pub open spec fn dwell_text() -> Seq<char> {
    "G4 P8000 (m3tu: added sleep after M3)"@
}

/// The assignment form of the reserved temporary register; a source line
/// beginning with it collides with the extraction pass.
pub open spec fn temp_assign_prefix() -> Seq<char> {
    "#103 = "@
}

/// The reference to the reserved temporary register, substituted for an
/// extracted bracketed expression.
pub open spec fn temp_ref_text() -> Seq<char> {
    "#103"@
}

/// The position reference rendered for lines with no source position.
pub open spec fn generated_marker() -> Seq<char> {
    "<generated code>"@
}

} // verus!
