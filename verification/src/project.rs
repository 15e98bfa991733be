//! The project that a report belongs to, by its slug.

use vstd::prelude::*;

verus! {

/// The slug of the project of a report that names none.
pub const DEFAULT_PROJECT: &'static str = "default";

/// The slug that `slug::slugify` makes of a text.
pub uninterp spec fn slug_of(text: Seq<char>) -> Seq<char>;

/// Whether `c` can stand in a slug: a small letter, a digit or a hyphen.
pub open spec fn is_slug_char(c: char) -> bool {
    ('a' <= c <= 'z') || ('0' <= c <= '9') || c == '-'
}

/// Whether `s` has the form of a slug: small letters, digits and hyphens,
/// no two hyphens in a row, and no hyphen first or last.
pub open spec fn is_slug(s: Seq<char>) -> bool {
    &&& forall|i: int| 0 <= i < s.len() ==> is_slug_char(#[trigger] s[i])
    &&& forall|i: int| #![trigger s[i]] 0 <= i < s.len() - 1 ==> !(s[i] == '-' && s[i + 1] == '-')
    &&& s.len() > 0 ==> s[0] != '-' && s[s.len() - 1] != '-'
}

/// `slug::slugify` turns a text into its slug. The slug depends on the text
/// alone, and has the form that the crate documents: small letters, digits
/// and hyphens, no two hyphens in a row, no hyphen first or last.
#[verifier::external_body]
fn slugify(text: &str) -> (slug: String)
    ensures
        slug@ == slug_of(text@),
        is_slug(slug@),
{
    slug::slugify(text)
}

/// The slug of the project of a report, `named` being the slug of the
/// project that it names: that slug, and `DEFAULT_PROJECT` where it names
/// none.
pub fn slug_or_default(named: Option<String>) -> (slug: String)
    ensures
        match named {
            Some(given) => slug == given,
            None => slug@ == DEFAULT_PROJECT@,
        },
{
    match named {
        Some(given) => given,
        None => DEFAULT_PROJECT.to_owned(),
    }
}

/// The slug of the project of a report: that of the project it names, and
/// `DEFAULT_PROJECT` where it names none.
pub fn unwrap_project(project: Option<&str>) -> (slug: String)
    ensures
        match project {
            Some(name) => slug@ == slug_of(name@) && is_slug(slug@),
            None => slug@ == DEFAULT_PROJECT@,
        },
{
    let named = match project {
        Some(name) => Some(slugify(name)),
        None => None,
    };
    slug_or_default(named)
}

} // verus!
