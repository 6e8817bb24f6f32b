use vstd::prelude::*;

verus! {

/// The grapheme clusters of a string, in order: the result of Unicode
/// extended grapheme-cluster segmentation.
pub uninterp spec fn graphemes_of(s: Seq<char>) -> Seq<Seq<char>>;

/// Relies on unicode_segmentation's `UnicodeSegmentation::graphemes`: it
/// splits a string at extended grapheme-cluster boundaries, so the clusters
/// concatenate back to the original text.
#[verifier::external_body]
pub(crate) fn split_graphemes(s: &str) -> (r: Vec<String>)
    ensures
        r.deep_view() == graphemes_of(s@),
        r.deep_view().flatten() == s@,
{
    let mut out: Vec<String> = Vec::new();
    for g in unicode_segmentation::UnicodeSegmentation::graphemes(s, true) {
        out.push(g.to_string());
    }
    out
}

/// The text produced by interpolating the arguments, in order, at the `{}`
/// slots of the format string.
pub uninterp spec fn formatted_of(fmt: Seq<char>, args: Seq<Seq<char>>) -> Seq<char>;

/// Relies on dyn_fmt's `AsStrFormatExt::format`: it replaces each `{}` in
/// the format string with the next argument's text, in order; the result
/// depends on the format string and the arguments alone.
#[verifier::external_body]
pub(crate) fn format_args_str(fmt: &str, args: &Vec<String>) -> (r: String)
    ensures
        r@ == formatted_of(fmt@, args.deep_view()),
{
    dyn_fmt::AsStrFormatExt::format(&fmt, args)
}

/// Relies on std's `String::push`: it appends the character to the end of
/// the string.
#[verifier::external_body]
pub(crate) fn push_char(s: &mut String, c: char)
    ensures
        final(s)@ == old(s)@.push(c),
{
    s.push(c);
}

} // verus!
