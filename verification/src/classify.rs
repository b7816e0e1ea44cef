//! Classification of a raw link destination.
//!
//! A destination splits on its first `#` into a target and an optional
//! fragment.  A target that carries a URL scheme (`http://`, `https://`,
//! `ftp://`) or matches the e-mail address pattern is external and never
//! checked.  Anything else is a local path: empty means the containing file
//! itself, otherwise the target resolves against the containing file's
//! directory.  The resolved path is paired with its display form, which is
//! what error messages and the filesystem probe use.

use vstd::prelude::*;
use vstd::string::StrSliceExecFns;

use crate::paths::{simplify_path, resolve_target, spec_resolve, spec_simplify};
use crate::strutil::{find_char, lemma_find_char_props, spec_find_char, spec_starts_with, str_starts_with};

verus! {

/// What a regex match test returns for a pattern and a text: `None` where the
/// pattern does not compile, else whether the text contains a match.
pub uninterp spec fn regex_match_of(pattern: Seq<char>, text: Seq<char>) -> Option<bool>;

/// Relies on regex's `Regex::new` and `Regex::is_match`: whether the text
/// contains a match of the pattern, a function of the two strings alone;
/// `None` where the pattern is rejected.
#[verifier::external_body]
fn regex_is_match(pattern: &str, text: &str) -> (r: Option<bool>)
    ensures
        r == regex_match_of(pattern@, text@),
{
    match regex::Regex::new(pattern) {
        Ok(re) => Some(re.is_match(text)),
        Err(_) => None,
    }
}

/// The RFC 5322 style address pattern a target is held against.
pub open spec fn spec_email_pattern() -> Seq<char> {
    r#"(?:[a-z0-9!#$%&'*+/=?^_`{|}~-]+(?:\.[a-z0-9!#$%&'*+/=?^_`{|}~-]+)*|"(?:[\x01-\x08\x0b\x0c\x0e-\x1f\x21\x23-\x5b\x5d-\x7f]|\\[\x01-\x09\x0b\x0c\x0e-\x7f])*")@(?:(?:[a-z0-9](?:[a-z0-9-]*[a-z0-9])?\.)+[a-z0-9](?:[a-z0-9-]*[a-z0-9])?|\[(?:(?:(2(5[0-5]|[0-4][0-9])|1[0-9][0-9]|[1-9]?[0-9]))\.){3}(?:(2(5[0-5]|[0-4][0-9])|1[0-9][0-9]|[1-9]?[0-9])|[a-z0-9-]*[a-z0-9]:(?:[\x01-\x08\x0b\x0c\x0e-\x1f\x21-\x5a\x53-\x7f]|\\[\x01-\x09\x0b\x0c\x0e-\x7f])+)\])"#@
}

fn email_pattern() -> (p: &'static str)
    ensures
        p@ == spec_email_pattern(),
{
    r#"(?:[a-z0-9!#$%&'*+/=?^_`{|}~-]+(?:\.[a-z0-9!#$%&'*+/=?^_`{|}~-]+)*|"(?:[\x01-\x08\x0b\x0c\x0e-\x1f\x21\x23-\x5b\x5d-\x7f]|\\[\x01-\x09\x0b\x0c\x0e-\x7f])*")@(?:(?:[a-z0-9](?:[a-z0-9-]*[a-z0-9])?\.)+[a-z0-9](?:[a-z0-9-]*[a-z0-9])?|\[(?:(?:(2(5[0-5]|[0-4][0-9])|1[0-9][0-9]|[1-9]?[0-9]))\.){3}(?:(2(5[0-5]|[0-4][0-9])|1[0-9][0-9]|[1-9]?[0-9])|[a-z0-9-]*[a-z0-9]:(?:[\x01-\x08\x0b\x0c\x0e-\x1f\x21-\x5a\x53-\x7f]|\\[\x01-\x09\x0b\x0c\x0e-\x7f])+)\])"#
}

/// Whether a target is an e-mail address: the text contains a match of the
/// address pattern.
pub open spec fn spec_is_email(s: Seq<char>) -> bool {
    regex_match_of(spec_email_pattern(), s) == Some(true)
}

pub fn is_email(s: &str) -> (r: bool)
    ensures
        r == spec_is_email(s@),
{
    match regex_is_match(email_pattern(), s) {
        Some(b) => b,
        None => false,
    }
}

/// A destination split on its first `#`: the target and the fragment after it.
pub open spec fn spec_split_fragment(dest: Seq<char>) -> (Seq<char>, Option<Seq<char>>) {
    match spec_find_char(dest, '#') {
        Some(i) => (dest.take(i), Some(dest.skip(i + 1))),
        None => (dest, None),
    }
}

/// Whether a target is external: a URL scheme or an e-mail address.
pub open spec fn spec_is_external(target: Seq<char>) -> bool {
    spec_starts_with(target, "http://"@) || spec_starts_with(target, "https://"@)
        || spec_starts_with(target, "ftp://"@) || spec_is_email(target)
}

/// The specification-level shape of a classified local link target.
pub struct LinkTargetView {
    pub resolved: Seq<char>,
    pub display: Seq<char>,
    pub fragment: Option<Seq<char>>,
}

/// A classified local link target: the resolved path handed to the
/// filesystem, its display form used in messages, and the fragment, if any.
pub struct LinkTarget {
    pub resolved: String,
    pub display: String,
    pub fragment: Option<String>,
}

impl View for LinkTarget {
    type V = LinkTargetView;

    open spec fn view(&self) -> LinkTargetView {
        LinkTargetView {
            resolved: self.resolved@,
            display: self.display@,
            fragment: match self.fragment {
                Some(f) => Some(f@),
                None => None,
            },
        }
    }
}

impl DeepView for LinkTarget {
    type V = LinkTargetView;

    open spec fn deep_view(&self) -> LinkTargetView {
        self.view()
    }
}

/// The classification of a destination against its containing file: `None`
/// for an external target, else the resolved local target, its display form,
/// and the fragment.  An empty target names the containing file itself.
pub open spec fn spec_classify(file: Seq<char>, dest: Seq<char>) -> Option<LinkTargetView> {
    let (target, fragment) = spec_split_fragment(dest);
    if spec_is_external(target) {
        None
    } else {
        let resolved = if target.len() == 0 {
            file
        } else {
            spec_resolve(file, target)
        };
        Some(
            LinkTargetView {
                resolved,
                display: spec_simplify(resolved),
                fragment,
            },
        )
    }
}

pub fn classify_link(file: &str, dest: &str) -> (r: Option<LinkTarget>)
    ensures
        r.deep_view() == spec_classify(file@, dest@),
{
    let n: usize = dest.unicode_len();
    let (target, fragment): (String, Option<String>) = match find_char(dest, '#') {
        Some(i) => {
            proof {
                lemma_find_char_props(dest@, '#');
                assert(dest@.subrange(0, i as int) =~= dest@.take(i as int));
                assert(dest@.subrange(i + 1, n as int) =~= dest@.skip(i + 1));
            }
            (
                dest.substring_char(0, i).to_owned(),
                Some(dest.substring_char(i + 1, n).to_owned()),
            )
        },
        None => (dest.to_owned(), None),
    };
    if str_starts_with(target.as_str(), "http://") || str_starts_with(target.as_str(), "https://")
        || str_starts_with(target.as_str(), "ftp://") || is_email(target.as_str()) {
        return None;
    }
    let resolved: String = if target.unicode_len() == 0 {
        file.to_owned()
    } else {
        resolve_target(file, target.as_str())
    };
    let display: String = simplify_path(resolved.as_str());
    Some(LinkTarget { resolved, display, fragment })
}

} // verus!
