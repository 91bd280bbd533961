//! The options a definition's attribute carries: extra derives and the two
//! optional hooks.

use crate::decl::MetaArg;
use crate::error::DefinitionError;
use crate::text::{same_text, texts};
use vstd::prelude::*;

verus! {

/// What the attribute asks for beyond the unit itself.
pub struct UnitOptions {
    /// The traits to derive on the unit, in the order written.
    pub extra_derives: Vec<String>,
    /// The path of the function to call from `allocate`, if one was given.
    pub allocate_fn: Option<String>,
    /// The path of the function to call from `resize_buffers`, if one was
    /// given.
    pub resize_buffers_fn: Option<String>,
}

/// The characters of an optional string.
pub open spec fn opt_text(s: Option<String>) -> Option<Seq<char>> {
    match s {
        Some(t) => Some(t@),
        None => None,
    }
}

/// The error of one argument, if it has one. `i` is the argument's position.
pub open spec fn arg_error(arg: MetaArg, i: usize) -> Option<DefinitionError> {
    match arg {
        MetaArg::Path { .. } => Some(DefinitionError::UnknownWordAttribute { argument: i }),
        MetaArg::List { name, items } => {
            if name@ != "derive"@ {
                Some(DefinitionError::UnknownListAttribute { argument: i })
            } else if exists|k: int| 0 <= k < items.len() && items[k] is None {
                Some(DefinitionError::MalformedDerive { argument: i })
            } else {
                None
            }
        },
        MetaArg::NameValue { name, value } => {
            if name@ == "allocate"@ {
                if value is None {
                    Some(DefinitionError::AllocateNotPath { argument: i })
                } else {
                    None
                }
            } else if name@ == "resize_buffers"@ {
                if value is None {
                    Some(DefinitionError::ResizeBuffersNotPath { argument: i })
                } else {
                    None
                }
            } else {
                Some(DefinitionError::UnknownNamedAttribute { argument: i })
            }
        },
    }
}

/// The derives one argument adds.
pub open spec fn arg_derives(arg: MetaArg) -> Seq<Seq<char>> {
    match arg {
        MetaArg::List { name, items } => {
            if name@ == "derive"@ {
                items@.map_values(|item: Option<String>| item->0@)
            } else {
                Seq::empty()
            }
        },
        _ => Seq::empty(),
    }
}

/// All derives of the arguments, in the order written.
pub open spec fn derives_of(args: Seq<MetaArg>) -> Seq<Seq<char>>
    decreases args.len(),
{
    if args.len() == 0 {
        Seq::empty()
    } else {
        derives_of(args.drop_last()) + arg_derives(args.last())
    }
}

/// The value of the last argument `key = path`, if there is one.
pub open spec fn last_value(args: Seq<MetaArg>, key: Seq<char>) -> Option<Seq<char>>
    decreases args.len(),
{
    if args.len() == 0 {
        None
    } else {
        match args.last() {
            MetaArg::NameValue { name, value: Some(path) } if name@ == key => Some(path@),
            _ => last_value(args.drop_last(), key),
        }
    }
}

impl UnitOptions {
    /// No derives and no hooks.
    pub fn none() -> (options: UnitOptions)
        ensures
            options.extra_derives@.len() == 0,
            options.allocate_fn is None,
            options.resize_buffers_fn is None,
    {
        UnitOptions { extra_derives: Vec::new(), allocate_fn: None, resize_buffers_fn: None }
    }
}

/// No argument is in error.
pub open spec fn args_clean(args: Seq<MetaArg>) -> bool {
    forall|i: int| 0 <= i < args.len() ==> arg_error(#[trigger] args[i], i as usize) is None
}

/// What reading a list of arguments gives: the options, or the error of the
/// first argument that has one.
pub open spec fn options_read(args: Seq<MetaArg>, r: Result<UnitOptions, DefinitionError>) -> bool {
    match r {
        Ok(o) => {
            &&& args_clean(args)
            &&& texts(o.extra_derives@) == derives_of(args)
            &&& opt_text(o.allocate_fn) == last_value(args, "allocate"@)
            &&& opt_text(o.resize_buffers_fn) == last_value(args, "resize_buffers"@)
        },
        Err(e) => exists|i: int|
            {
                &&& 0 <= i < args.len()
                &&& arg_error(#[trigger] args[i], i as usize) == Some(e)
                &&& forall|j: int| 0 <= j < i ==> arg_error(#[trigger] args[j], j as usize) is None
            },
    }
}

/// What reading the attribute gives. Arguments that could not be read as a
/// list (`None`) are an error of their own; an attribute without arguments
/// is the empty list.
pub open spec fn attribute_read(
    attr: Option<Vec<MetaArg>>,
    r: Result<UnitOptions, DefinitionError>,
) -> bool {
    match attr {
        None => r matches Err(e) && e == DefinitionError::UnreadableAttribute,
        Some(args) => options_read(args@, r),
    }
}

/// Reads the attribute's arguments. Arguments that could not be read as a
/// list (`None`) are refused. Otherwise the first argument in error decides:
/// a bare word, a list other than `derive`, a `derive` item that is no
/// identifier, a name other than `allocate` and `resize_buffers`, or a value
/// that is no path. Without one, the derives of all `derive(..)` lists are
/// collected in order and the last `allocate` and `resize_buffers` win.
pub fn parse_options(attr: &Option<Vec<MetaArg>>) -> (r: Result<UnitOptions, DefinitionError>)
    ensures
        attribute_read(*attr, r),
{
    match attr {
        None => Err(DefinitionError::UnreadableAttribute),
        Some(args) => parse_option_args(args),
    }
}

/// Appends the identifiers of one `derive(..)` list, or reports the position
/// of the first item that is no identifier.
fn push_derives(derives: &mut Vec<String>, items: &Vec<Option<String>>) -> (ok: bool)
    ensures
        ok == (forall|k: int| 0 <= k < items.len() ==> items[k] is Some),
        ok ==> texts(final(derives)@) == texts(old(derives)@) + items@.map_values(
            |item: Option<String>| item->0@,
        ),
{
    let ghost before = texts(derives@);
    let ghost added = items@.map_values(|item: Option<String>| item->0@);
    let mut k: usize = 0;
    assert(texts(derives@) =~= before + added.take(0));
    while k < items.len()
        invariant
            0 <= k <= items.len(),
            forall|m: int| 0 <= m < k ==> items[m] is Some,
            texts(derives@) == before + added.take(k as int),
            added == items@.map_values(|item: Option<String>| item->0@),
        decreases items.len() - k,
    {
        match &items[k] {
            Some(ident) => {
                let ghost earlier = derives@;
                derives.push(ident.clone());
                assert(texts(earlier) == before + added.take(k as int));
                assert(added[k as int] == ident@);
                assert(texts(derives@) =~= texts(earlier).push(ident@));
                assert(added.take(k + 1) =~= added.take(k as int).push(added[k as int]));
                assert(texts(derives@) =~= before + added.take(k + 1));
            },
            None => {
                return false;
            },
        }
        k += 1;
    }
    assert(added.take(k as int) =~= added);
    true
}

fn parse_option_args(args: &Vec<MetaArg>) -> (r: Result<UnitOptions, DefinitionError>)
    ensures
        options_read(args@, r),
{
    let mut options = UnitOptions::none();
    let mut i: usize = 0;
    assert(texts(options.extra_derives@) =~= derives_of(args@.take(0)));
    while i < args.len()
        invariant
            0 <= i <= args.len(),
            forall|j: int| 0 <= j < i ==> arg_error(#[trigger] args[j], j as usize) is None,
            texts(options.extra_derives@) == derives_of(args@.take(i as int)),
            opt_text(options.allocate_fn) == last_value(args@.take(i as int), "allocate"@),
            opt_text(options.resize_buffers_fn) == last_value(
                args@.take(i as int),
                "resize_buffers"@,
            ),
        decreases args.len() - i,
    {
        proof {
            assert(args@.take(i + 1).drop_last() =~= args@.take(i as int));
            assert(args@.take(i + 1).last() == args[i as int]);
            lemma_keys_differ();
        }
        match &args[i] {
            MetaArg::Path { .. } => {
                return Err(DefinitionError::UnknownWordAttribute { argument: i });
            },
            MetaArg::List { name, items } => {
                if !same_text(name.as_str(), "derive") {
                    return Err(DefinitionError::UnknownListAttribute { argument: i });
                }
                if !push_derives(&mut options.extra_derives, items) {
                    return Err(DefinitionError::MalformedDerive { argument: i });
                }
            },
            MetaArg::NameValue { name, value } => {
                if same_text(name.as_str(), "allocate") {
                    match value {
                        Some(path) => {
                            options.allocate_fn = Some(path.clone());
                        },
                        None => {
                            return Err(DefinitionError::AllocateNotPath { argument: i });
                        },
                    }
                } else if same_text(name.as_str(), "resize_buffers") {
                    match value {
                        Some(path) => {
                            options.resize_buffers_fn = Some(path.clone());
                        },
                        None => {
                            return Err(DefinitionError::ResizeBuffersNotPath { argument: i });
                        },
                    }
                } else {
                    return Err(DefinitionError::UnknownNamedAttribute { argument: i });
                }
            },
        }
        assert(texts(options.extra_derives@) =~= derives_of(args@.take(i + 1)));
        i += 1;
    }
    assert(args@.take(i as int) =~= args@);
    Ok(options)
}

/// The two hook names are different words.
proof fn lemma_keys_differ()
    ensures
        "allocate"@ != "resize_buffers"@,
{
    reveal_strlit("allocate");
    reveal_strlit("resize_buffers");
    assert("allocate"@.len() == 8);
    assert("resize_buffers"@.len() == 14);
}

} // verus!
