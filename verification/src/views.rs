//! Views of values inside sequences, options and results.

use vstd::prelude::*;

verus! {

/// The view of each item.
pub open spec fn views<T: View>(items: Seq<T>) -> Seq<T::V> {
    items.map_values(|item: T| item@)
}

/// The view of what an option holds.
pub open spec fn option_view<T: View>(option: Option<T>) -> Option<T::V> {
    match option {
        Some(value) => Some(value@),
        None => None,
    }
}

/// The view of what a result holds.
pub open spec fn result_view<T: View, E: View>(result: Result<T, E>) -> Result<T::V, E::V> {
    match result {
        Ok(value) => Ok(value@),
        Err(error) => Err(error@),
    }
}

/// One more item, filtered.
pub proof fn lemma_filter_next<T>(items: Seq<T>, i: int, keep: spec_fn(T) -> bool)
    requires
        0 <= i < items.len(),
    ensures
        items.take(i + 1).filter(keep) == (if keep(items[i]) {
            items.take(i).filter(keep).push(items[i])
        } else {
            items.take(i).filter(keep)
        }),
{
    reveal(Seq::filter);
    assert(items.take(i + 1).drop_last() =~= items.take(i));
}

/// No item, filtered.
pub proof fn lemma_filter_none<T>(items: Seq<T>, keep: spec_fn(T) -> bool)
    requires
        items.len() == 0,
    ensures
        items.filter(keep) == Seq::<T>::empty(),
{
    reveal(Seq::filter);
    assert(items =~= Seq::<T>::empty());
}

/// Whether a copy of an item has the view of the item.
pub open spec fn clone_keeps_view<T: View + Clone>() -> bool {
    forall|item: T, copy: T| #[trigger] call_ensures(T::clone, (&item,), copy) ==> copy@ == item@
}

/// Copies what an option holds.
pub fn clone_option<T: View + Clone>(option: &Option<T>) -> (r: Option<T>)
    requires
        clone_keeps_view::<T>(),
    ensures
        option_view(r) == option_view(*option),
{
    match option {
        Some(value) => Some(value.clone()),
        None => None,
    }
}

/// Copies each item.
pub fn clone_all<T: View + Clone>(items: &Vec<T>) -> (r: Vec<T>)
    requires
        clone_keeps_view::<T>(),
    ensures
        views(r@) == views(items@),
{
    let mut copies: Vec<T> = Vec::new();
    let mut i: usize = 0;
    while i < items.len()
        invariant
            clone_keeps_view::<T>(),
            i <= items@.len(),
            copies@.len() == i,
            forall|k: int| 0 <= k < i ==> views(copies@)[k] == views(items@)[k],
        decreases items@.len() - i,
    {
        copies.push(items[i].clone());
        i += 1;
    }
    assert(views(copies@) =~= views(items@));
    copies
}

} // verus!
