//! The diff-computation capability: a unified line-based diff of two byte
//! buffers under two header labels, provided by the `similar` crate.

use vstd::prelude::*;

verus! {

/// The unified diff text that the diff library produces for the byte
/// buffers `a` and `b` under the header labels `aname` and `bname`.
///
/// The text is a deterministic function of these four arguments alone; its
/// exact shape (hunk headers, context lines) is the diff library's.
pub uninterp spec fn diff_of(aname: Seq<char>, a: Seq<u8>, bname: Seq<char>, b: Seq<u8>) -> Seq<u8>;

/// Relies on similar's `TextDiff::from_lines` together with
/// `UnifiedDiff::header` and `UnifiedDiff::to_writer`: the unified diff
/// bytes are a deterministic function of the two buffers and the two
/// labels, and identical buffers yield no hunks, so nothing at all is
/// written (the header lines only precede the first hunk).  Writing into a
/// `Vec<u8>` cannot fail.
#[verifier::external_body]
pub(crate) fn unified_diff_bytes(aname: &String, a: &Vec<u8>, bname: &String, b: &Vec<u8>) -> (r:
    Vec<u8>)
    ensures
        r@ == diff_of(aname@, a@, bname@, b@),
        a@ == b@ ==> r@ == Seq::<u8>::empty(),
{
    let text_diff = similar::TextDiff::from_lines(a.as_slice(), b.as_slice());
    let mut out: Vec<u8> = Vec::new();
    let mut udiff = text_diff.unified_diff();
    let _ = udiff.header(aname.as_str(), bname.as_str()).to_writer(&mut out);
    out
}

/// Computes the unified line-based diff of `a` (labeled `aname`) against
/// `b` (labeled `bname`) and appends it to the sink `w`.
pub fn diff(w: &mut Vec<u8>, aname: &String, a: &Vec<u8>, bname: &String, b: &Vec<u8>)
    ensures
        final(w)@ == old(w)@ + diff_of(aname@, a@, bname@, b@),
{
    let mut payload = unified_diff_bytes(aname, a, bname, b);
    w.append(&mut payload);
}

} // verus!
