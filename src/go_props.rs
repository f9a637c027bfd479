//! What holds of Go import collection and file assembly for every input.
use vstd::prelude::*;

use crate::go::{file_text, imports_of, item_modules, items_modules, Config, Item};
use crate::order::lemma_union_of_same_elements;

verus! {

/// The modules imported depend only on which tokens a stream holds, not on
/// their order or repetition.
pub proof fn lemma_go_order_independent(a: Seq<Item>, b: Seq<Item>)
    requires
        a.to_set() == b.to_set(),
    ensures
        items_modules(a) == items_modules(b),
        imports_of(a) == imports_of(b),
{
    lemma_union_of_same_elements(a, b, |i: Item| item_modules(i));
}

/// Rendering a token stream gives the same text under any two
/// configurations with the same package.
pub proof fn lemma_go_render_repeatable(items: Seq<Item>, c1: Config, c2: Config)
    requires
        c1.package_view() == c2.package_view(),
    ensures
        file_text(items, c1.package_view()) == file_text(items, c2.package_view()),
{
}

} // verus!
