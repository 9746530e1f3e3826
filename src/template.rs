//! Substitution of the stream name into the upstream URL templates.
use vstd::prelude::*;

verus! {

#[verifier::external_type_specification]
#[verifier::external_body]
pub struct ExFailureError(failure::Error);

/// The placeholder of the URL templates: `${stream}`.
pub open spec fn stream_placeholder() -> Seq<char> {
    seq!['$', '{', 's', 't', 'r', 'e', 'a', 'm', '}']
}

/// `s` with every match of `pat`, leftmost first and without overlap,
/// replaced by `rep`.
pub open spec fn replace_all(s: Seq<char>, pat: Seq<char>, rep: Seq<char>) -> Seq<char>
    decreases s.len(),
{
    if pat.len() == 0 || s.len() < pat.len() {
        s
    } else if s.subrange(0, pat.len() as int) == pat {
        rep + replace_all(s.subrange(pat.len() as int, s.len() as int), pat, rep)
    } else {
        seq![s[0]] + replace_all(s.drop_first(), pat, rep)
    }
}

/// `s` holds a character that cannot be substituted into a template.
pub open spec fn has_forbidden(s: Seq<char>) -> bool {
    exists|i: int| 0 <= i < s.len() && (s[i] == '$' || s[i] == '{' || s[i] == '}')
}

/// Relies on envsubst::substitute with the single variable `stream`: it fails
/// when the value holds `$`, `{` or `}`, and otherwise replaces each
/// `${stream}` of the template with the value.
#[verifier::external_body]
pub(crate) fn substitute_stream(template: &str, stream: &str) -> (r: Result<String, failure::Error>)
    ensures
        r is Ok <==> !has_forbidden(stream@),
        r matches Ok(s) ==> s@ == replace_all(template@, stream_placeholder(), stream@),
{
    let mut vars = std::collections::HashMap::new();
    vars.insert("stream".to_string(), stream.to_string());
    envsubst::substitute(template, &vars)
}

} // verus!
