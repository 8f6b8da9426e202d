use vstd::prelude::*;

verus! {

/// The items of `v` in reverse order, so that popping the result hands them
/// out front to back.
pub(crate) fn reversed<T>(v: Vec<T>) -> (r: Vec<T>)
    ensures
        r@.len() == v@.len(),
        forall|j: int| 0 <= j < v@.len() ==> #[trigger] r@[j] == v@[v@.len() - 1 - j],
{
    let ghost items = v@;
    let mut src = v;
    let mut out: Vec<T> = Vec::new();
    while src.len() > 0
        invariant
            src@ == items.take(src@.len() as int),
            out@.len() + src@.len() == items.len(),
            forall|j: int| 0 <= j < out@.len() ==> #[trigger] out@[j] == items[items.len() - 1 - j],
        decreases src.len(),
    {
        match src.pop() {
            Some(x) => out.push(x),
            None => {},
        }
        assert(src@ =~= items.take(src@.len() as int));
    }
    out
}

} // verus!
