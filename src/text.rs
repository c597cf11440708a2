use vstd::prelude::*;
use vstd::std_specs::iter::IteratorSpec;

verus! {

/// What `quick_xml::escape::unescape` makes of an attribute value: the text
/// with its character and entity references replaced, or `None` where one of
/// them is unknown or unterminated.
pub uninterp spec fn unescaped_of(raw: Seq<char>) -> Option<Seq<char>>;

/// Relies on `quick_xml::escape::unescape`, which replaces the references of
/// an attribute value and hands the text back as it is when it holds no `&`.
#[verifier::external_body]
pub(crate) fn unescape_value(raw: &str) -> (r: Option<String>)
    ensures
        match r {
            Some(v) => unescaped_of(raw@) == Some(v@),
            None => unescaped_of(raw@).is_none(),
        },
        (forall|i: int| 0 <= i < raw@.len() ==> raw@[i] != '&') ==> (r.is_some() && r.unwrap()@
            == raw@),
{
    quick_xml::escape::unescape(raw).ok().map(|v| v.into_owned())
}

/// Relies on `String`'s `FromIterator<char>`: the characters in order.
#[verifier::external_body]
pub(crate) fn string_of(cs: &[char]) -> (r: String)
    ensures
        r@ == cs@,
{
    cs.iter().collect()
}

/// The characters of a text, in order.
pub(crate) fn chars_of(s: &str) -> (r: Vec<char>)
    ensures
        r@ == s@,
{
    broadcast use vstd::string::next_postcondition, vstd::string::axiom_spec_iter;

    let mut it = s.chars();
    let mut v: Vec<char> = Vec::new();
    assert(v@ + it.remaining() =~= s@);
    loop
        invariant
            v@ + it.remaining() == s@,
            it.decrease() is Some,
        ensures
            v@ == s@,
        decreases it.decrease()->0,
    {
        match it.next() {
            Some(c) => {
                v.push(c);
            },
            None => {
                assert(v@ =~= s@);
                break;
            },
        }
    }
    v
}

} // verus!
