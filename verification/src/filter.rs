//! The inclusion filter that the process arguments carry.
//!
//! An argument `trycmd=<text>` with a non-empty `<text>` asks that only
//! cases whose name contains `<text>` be executed. All other arguments
//! belong to somebody else and are passed over.

use crate::text::strip_prefix;
use vstd::prelude::*;

verus! {

/// The marker in front of a filter argument.
pub const INCLUDE_PREFIX: &'static str = "trycmd=";

/// The characters of [`INCLUDE_PREFIX`].
pub open spec fn include_prefix() -> Seq<char> {
    "trycmd="@
}

/// The filter text that one argument contributes: what follows the marker,
/// unless nothing follows it.
pub open spec fn filter_of(arg: Seq<char>) -> Option<Seq<char>> {
    if include_prefix().is_prefix_of(arg) && arg.len() > include_prefix().len() {
        Some(arg.skip(include_prefix().len() as int))
    } else {
        None
    }
}

/// The filter texts of an argument list, in the order of the arguments.
pub open spec fn filters_of(args: Seq<Seq<char>>) -> Seq<Seq<char>> {
    args.filter_map(|arg: Seq<char>| filter_of(arg))
}

/// The inclusion filter of an argument list: absent where no argument
/// contributes a text, so that everything runs.
pub open spec fn include_of(args: Seq<Seq<char>>) -> Option<Seq<Seq<char>>> {
    if filters_of(args).len() == 0 {
        None
    } else {
        Some(filters_of(args))
    }
}

/// Collects the inclusion filter from the process arguments.
pub fn parse_include(args: &Vec<String>) -> (filter: Option<Vec<String>>)
    ensures
        filter.deep_view() == include_of(args.deep_view()),
{
    let ghost all = args.deep_view();
    let mut filters: Vec<String> = Vec::new();
    let mut i: usize = 0;
    while i < args.len()
        invariant
            i <= args.len(),
            all == args.deep_view(),
            filters.deep_view() == filters_of(all.take(i as int)),
        decreases args.len() - i,
    {
        proof {
            all.lemma_filter_map_take_succ(|arg: Seq<char>| filter_of(arg), i as int);
        }
        let ghost before = filters.deep_view();
        match strip_prefix(args[i].as_str(), INCLUDE_PREFIX) {
            Some(remainder) => {
                if !remainder.is_empty() {
                    filters.push(remainder.to_owned());
                    assert(filters.deep_view() =~= before.push(remainder@));
                }
            },
            None => {},
        }
        i += 1;
    }
    assert(all.take(i as int) =~= all);
    if filters.is_empty() {
        None
    } else {
        Some(filters)
    }
}

/// An argument list without a marked argument yields no filter.
pub proof fn lemma_unmarked_arguments_yield_no_filter(args: Seq<Seq<char>>)
    requires
        forall|i: int| 0 <= i < args.len() ==> !include_prefix().is_prefix_of(#[trigger] args[i]),
    ensures
        include_of(args) is None,
    decreases args.len(),
{
    if args.len() > 0 {
        lemma_unmarked_arguments_yield_no_filter(args.drop_last());
    }
}

/// The filter is absent exactly when no argument contributes a text: a
/// filter that is present is never empty.
pub proof fn lemma_filter_absent_iff_nothing_contributed(args: Seq<Seq<char>>)
    ensures
        include_of(args) is None <==> forall|i: int|
            0 <= i < args.len() ==> filter_of(#[trigger] args[i]) is None,
        include_of(args) matches Some(texts) ==> texts.len() > 0,
    decreases args.len(),
{
    if args.len() > 0 {
        let rest = args.drop_last();
        lemma_filter_absent_iff_nothing_contributed(rest);
        if forall|i: int| 0 <= i < args.len() ==> filter_of(#[trigger] args[i]) is None {
            assert forall|i: int| 0 <= i < rest.len() implies filter_of(#[trigger] rest[i])
                is None by {
                assert(rest[i] == args[i]);
            }
            assert(filter_of(args[args.len() - 1]) is None);
        }
        if include_of(args) is None {
            assert forall|i: int| 0 <= i < args.len() implies filter_of(#[trigger] args[i])
                is None by {
                if i < rest.len() {
                    assert(rest[i] == args[i]);
                }
            }
        }
    }
}

/// A text is among the filters exactly when some argument contributes it,
/// wherever that argument stands: the order of the arguments decides nothing
/// about which texts the filter holds.
pub proof fn lemma_filter_membership(args: Seq<Seq<char>>, text: Seq<char>)
    ensures
        filters_of(args).contains(text) <==> exists|i: int|
            0 <= i < args.len() && filter_of(#[trigger] args[i]) == Some(text),
    decreases args.len(),
{
    if args.len() > 0 {
        let rest = args.drop_last();
        let earlier = filters_of(rest);
        let all = filters_of(args);
        lemma_filter_membership(rest, text);
        assert(all == match filter_of(args.last()) {
            Some(last) => earlier.push(last),
            None => earlier,
        });
        if all.contains(text) {
            let j = choose|j: int| 0 <= j < all.len() && all[j] == text;
            if j < earlier.len() {
                assert(earlier[j] == text);
                let i = choose|i: int|
                    0 <= i < rest.len() && filter_of(#[trigger] rest[i]) == Some(text);
                assert(filter_of(args[i]) == Some(text));
            } else {
                assert(filter_of(args[args.len() - 1]) == Some(text));
            }
        }
        if exists|i: int| 0 <= i < args.len() && filter_of(#[trigger] args[i]) == Some(text) {
            let i = choose|i: int|
                0 <= i < args.len() && filter_of(#[trigger] args[i]) == Some(text);
            if i < rest.len() {
                assert(filter_of(rest[i]) == Some(text));
                let j = choose|j: int| 0 <= j < earlier.len() && earlier[j] == text;
                assert(all[j] == text);
            } else {
                assert(all[all.len() - 1] == text);
            }
        }
    }
}

/// No filter text is empty: an argument that holds the marker alone
/// contributes nothing.
pub proof fn lemma_filter_texts_are_not_empty(args: Seq<Seq<char>>, j: int)
    requires
        0 <= j < filters_of(args).len(),
    ensures
        filters_of(args)[j].len() > 0,
{
    let text = filters_of(args)[j];
    assert(filters_of(args).contains(text));
    lemma_filter_membership(args, text);
    let i = choose|i: int| 0 <= i < args.len() && filter_of(#[trigger] args[i]) == Some(text);
    assert(filter_of(args[i]) == Some(text));
}

} // verus!
