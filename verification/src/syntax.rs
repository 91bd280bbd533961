//! What the library asks of `syn`: whether a text is a name, and which
//! types a list holds.

use syn::parse::Parser;
use syn::punctuated::Punctuated;
use vstd::prelude::*;

verus! {

/// Whether a text is one identifier that is no keyword, as `syn` reads an
/// identifier.
pub uninterp spec fn is_name(text: Seq<char>) -> bool;

/// The types of a text that is a list of types separated by commas, as
/// `syn` reads such a list; `None` where the text is no such list. The list
/// may be empty, and a comma may follow its last type. Each type is given by
/// its identifier where it is a path of one identifier, and by `None` where
/// it is any other type.
pub uninterp spec fn type_list(text: Seq<char>) -> Option<Seq<Option<Seq<char>>>>;

/// The characters of each identifier of a list.
pub open spec fn idents(list: Seq<Option<String>>) -> Seq<Option<Seq<char>>> {
    list.map_values(
        |ident: Option<String>|
            match ident {
                Some(name) => Some(name@),
                None => None,
            },
    )
}

/// Calls `syn::parse_str` for a `syn::Ident`, which reads the text as
/// tokens and accepts one identifier that is no keyword. Whether it succeeds
/// depends on the text alone; the result is named, not described.
#[verifier::external_body]
pub(crate) fn reads_as_name(text: &str) -> (r: bool)
    ensures
        r == is_name(text@),
{
    syn::parse_str::<syn::Ident>(text).is_ok()
}

/// Calls `syn::punctuated::Punctuated::parse_terminated` on the text, for
/// types separated by commas, and gives of each type its identifier, which
/// `syn::Path::get_ident` has for a path of one identifier and for no other
/// type. What is read depends on the text alone; the result is named, not
/// described.
#[verifier::external_body]
pub(crate) fn read_type_list(text: &str) -> (r: Option<Vec<Option<String>>>)
    ensures
        match r {
            Some(types) => type_list(text@) == Some(idents(types@)),
            None => type_list(text@) is None,
        },
{
    let parser = Punctuated::<syn::Type, syn::token::Comma>::parse_terminated;
    let ident = |ty: &syn::Type| match ty {
        syn::Type::Path(path) => path.path.get_ident().map(|ident| ident.to_string()),
        _ => None,
    };
    match parser.parse_str(text) {
        Ok(list) => Some(list.iter().map(ident).collect()),
        Err(_) => None,
    }
}

} // verus!
