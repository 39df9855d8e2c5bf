use vstd::prelude::*;

verus! {

/// Each item paired with a clone of the item after it, the last one with nothing.
pub fn with_optional_next<T: Clone>(items: &[T]) -> (r: Vec<(T, Option<T>)>)
    ensures
        r@.len() == items@.len(),
        forall|i: int| 0 <= i < r@.len() ==> cloned::<T>(items@[i], (#[trigger] r@[i]).0),
        forall|i: int|
            0 <= i < r@.len() - 1 ==> ((#[trigger] r@[i]).1 matches Some(next) && cloned::<T>(
                items@[i + 1],
                next,
            )),
        r@.len() > 0 ==> r@[r@.len() - 1].1 is None,
{
    let mut result: Vec<(T, Option<T>)> = Vec::new();
    let mut i: usize = 0;
    while i < items.len()
        invariant
            i <= items.len(),
            result@.len() == i,
            forall|k: int| 0 <= k < i ==> cloned::<T>(items@[k], (#[trigger] result@[k]).0),
            forall|k: int|
                0 <= k < i ==> ((#[trigger] result@[k]).1 matches Some(next) && k + 1 < items@.len()
                    && cloned::<T>(items@[k + 1], next)) || (result@[k].1 is None && k + 1
                    == items@.len()),
        decreases items.len() - i,
    {
        let item = items[i].clone();
        let next = if i + 1 < items.len() {
            Some(items[i + 1].clone())
        } else {
            None
        };
        result.push((item, next));
        i = i + 1;
    }
    result
}

} // verus!
