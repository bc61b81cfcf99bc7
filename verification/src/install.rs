//! Patching of boot-loader files with the identifier of the root partition.

use vstd::prelude::*;
use crate::text::{chars_of, push_text, replace_all, replaced, text_of};

verus! {

/// What `regex` gives when the first match of a pattern in a text is
/// replaced: `None` where the pattern is no regular expression.
pub uninterp spec fn first_match_replaced(
    pattern: Seq<char>,
    text: Seq<char>,
    replacement: Seq<char>,
) -> Option<Seq<char>>;

/// `regex::Regex::new` and `regex::Regex::replace`: the text with the first
/// match of the pattern replaced, the replacement being expanded as `regex`
/// does; nothing where the pattern does not compile.
#[verifier::external_body]
fn replace_first_match(pattern: &str, text: &str, replacement: &str) -> (r: Option<String>)
    ensures
        match r {
            Some(s) => first_match_replaced(pattern@, text@, replacement@) == Some(s@),
            None => first_match_replaced(pattern@, text@, replacement@) is None,
        },
{
    match regex::Regex::new(pattern) {
        Ok(expression) => Some(expression.replace(text, replacement).into_owned()),
        Err(_) => None,
    }
}

/// The pattern of the root partition in a boot entry.
pub open spec fn root_pattern() -> Seq<char> {
    "root=PARTUUID=[a-zA-Z0-9-]+"@
}

/// A boot entry with the root partition it names replaced by `partuuid`,
/// where it names one.
pub fn patch_boot_entry(entry: &str, partuuid: &str) -> (r: Option<String>)
    ensures
        match r {
            Some(s) => first_match_replaced(root_pattern(), entry@, "root=PARTUUID="@ + partuuid@)
                == Some(s@),
            None => first_match_replaced(root_pattern(), entry@, "root=PARTUUID="@ + partuuid@)
                is None,
        },
{
    let mut replacement: Vec<char> = Vec::new();
    push_text(&mut replacement, "root=PARTUUID=");
    push_text(&mut replacement, partuuid);
    let replacement = text_of(&replacement);
    replace_first_match("root=PARTUUID=[a-zA-Z0-9-]+", entry, replacement.as_str())
}

/// A boot-loader template with every `{{ROOT_PARTUUID}}` replaced by
/// `partuuid`.
pub fn fill_boot_template(template: &str, partuuid: &str) -> (r: String)
    ensures
        r@ == replaced(template@, "{{ROOT_PARTUUID}}"@, partuuid@),
{
    let t = chars_of(template);
    let from = chars_of("{{ROOT_PARTUUID}}");
    let to = chars_of(partuuid);
    text_of(&replace_all(&t, &from, &to))
}

} // verus!
