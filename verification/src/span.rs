//! Report output as a sequence of styled text spans.
//!
//! The engine decides *what* to emphasise; how emphasis is drawn (colors,
//! escape codes) is left to the caller. Concatenating the span texts yields
//! the plain report exactly as specified.

use vstd::prelude::*;

verus! {

/// How a span should be presented.
#[derive(Clone, Copy, Debug, PartialEq, Eq, Structural)]
pub enum Style {
    /// Ordinary report text.
    Plain,
    /// An account label.
    Account,
    /// A negative amount, to be highlighted.
    Negative,
}

/// One run of report text under a single style.
pub struct Span {
    pub text: String,
    pub style: Style,
}

/// The view of a span list: each text as its character sequence.
pub open spec fn span_views(v: Seq<Span>) -> Seq<(Seq<char>, Style)> {
    v.map_values(|s: Span| (s.text@, s.style))
}

/// The plain text of a rendered report: the span texts, concatenated.
pub open spec fn spans_text(v: Seq<(Seq<char>, Style)>) -> Seq<char>
    decreases v.len(),
{
    if v.len() == 0 {
        Seq::empty()
    } else {
        spans_text(v.drop_last()) + v.last().0
    }
}

} // verus!
