use vstd::prelude::*;
use compact_str::CompactString;

verus! {

/// An owned piece of label text, backed by `compact_str::CompactString`
/// (inline storage for short strings). Verus sees it only through
/// `label_chars` and the trusted accessors below.
#[verifier::external_body]
pub struct Label {
    inner: CompactString,
}

/// The characters a `Label` holds.
pub uninterp spec fn label_chars(l: Label) -> Seq<char>;

/// Relies on `CompactString::new`: it stores exactly the text it is given.
#[verifier::external_body]
pub fn label_from(s: &str) -> (r: Label)
    ensures
        label_chars(r) == s@,
{
    Label { inner: CompactString::new(s) }
}

/// Relies on `CompactString::as_str`: it yields the entire stored text.
#[verifier::external_body]
pub fn label_str(l: &Label) -> (r: &str)
    ensures
        r@ == label_chars(*l),
{
    l.inner.as_str()
}

} // verus!
