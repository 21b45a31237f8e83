//! Translator for CNC programs from the Mach3 dialect to the UCNC dialect.
//!
//! The library is a pipeline of order-preserving passes over the lines of a
//! program: probe-register renaming, pause-directive removal, dwell injection
//! after spindle-on commands, and extraction of bracketed subexpressions from
//! axis arguments into a temporary register.  Every line carries provenance
//! (its 1-based position in the source file, or a marker for lines that a pass
//! synthesized) so that diagnostics can point at the right place even after
//! earlier passes have inserted or removed lines.

pub mod dialect;
pub mod extract;
pub mod line;
pub mod pipeline;
pub mod props;
pub mod splitter;
pub mod stages;
pub mod text;
