//! Text tables.
use vstd::prelude::*;

verus! {

/// `tabwriter::TabWriter` with a padding of two: text whose tabs are widened to
/// columns.
pub uninterp spec fn tab_aligned(s: Seq<char>) -> Seq<char>;

/// `tabwriter::TabWriter`, with a padding of two, on a whole text: its tabs become the
/// spaces that align its columns. The result depends on the text alone.
#[verifier::external_body]
pub(crate) fn align_tabs(s: &str) -> (r: String)
    ensures
        r@ == tab_aligned(s@),
{
    let mut tw = tabwriter::TabWriter::new(Vec::new()).padding(2);
    let _ = std::io::Write::write_all(&mut tw, s.as_bytes());
    String::from_utf8(tw.into_inner().unwrap_or_default()).unwrap_or_default()
}

} // verus!
