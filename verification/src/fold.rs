//! Folding outputs into an accumulator with an executable closure.
//!
//! An executable closure is known to ghost code only through the relation
//! between its arguments and its results, so "the fold of `outputs`" is a
//! relation as well: [`folded`] holds of every accumulator that calling
//! the closure once per output, in order, can leave behind.

use vstd::prelude::*;

verus! {

/// `trace` lists the accumulator before the first output and after each
/// output was folded in, so it is one longer than `outputs`.
pub open spec fn fold_trace<Acc, O, R: Fn(Acc, O) -> Acc>(
    reduce: R,
    initial: Acc,
    outputs: Seq<O>,
    trace: Seq<Acc>,
) -> bool {
    &&& trace.len() == outputs.len() + 1
    &&& trace[0] == initial
    &&& forall|i: int|
        0 <= i < outputs.len() ==> reduce.ensures((#[trigger] trace[i], outputs[i]), trace[i + 1])
}

/// Folding `outputs` into `initial`, first to last, can give `acc`.
pub open spec fn folded<Acc, O, R: Fn(Acc, O) -> Acc>(
    reduce: R,
    initial: Acc,
    outputs: Seq<O>,
    acc: Acc,
) -> bool {
    exists|trace: Seq<Acc>| #[trigger]
        fold_trace(reduce, initial, outputs, trace) && trace.last() == acc
}

/// `reduce` computes the function `g`: whatever it returns is `g` of its arguments.
pub open spec fn computes<Acc, O, R: Fn(Acc, O) -> Acc>(reduce: R, g: spec_fn(Acc, O) -> Acc) -> bool {
    forall|acc: Acc, out: O, next: Acc| #[trigger]
        reduce.ensures((acc, out), next) ==> next == g(acc, out)
}

/// Folding nothing leaves the initial accumulator, and only that.
pub proof fn lemma_folded_empty<Acc, O, R: Fn(Acc, O) -> Acc>(reduce: R, initial: Acc, acc: Acc)
    ensures
        folded(reduce, initial, Seq::<O>::empty(), acc) <==> acc == initial,
{
    if acc == initial {
        assert(fold_trace(reduce, initial, Seq::<O>::empty(), seq![initial]));
    }
}

/// One more call of the closure extends a fold by one output.
pub proof fn lemma_folded_push<Acc, O, R: Fn(Acc, O) -> Acc>(
    reduce: R,
    initial: Acc,
    outputs: Seq<O>,
    acc: Acc,
    out: O,
    next: Acc,
)
    requires
        folded(reduce, initial, outputs, acc),
        reduce.ensures((acc, out), next),
    ensures
        folded(reduce, initial, outputs.push(out), next),
{
    let trace = choose|trace: Seq<Acc>| #[trigger]
        fold_trace(reduce, initial, outputs, trace) && trace.last() == acc;
    assert(fold_trace(reduce, initial, outputs.push(out), trace.push(next)));
}

/// A fold can be cut anywhere: folding `first` and then folding `second`
/// into what that gave is a fold of `first + second`. This is why the
/// result of a chunked fold does not depend on where the chunks end.
pub proof fn lemma_folded_concat<Acc, O, R: Fn(Acc, O) -> Acc>(
    reduce: R,
    initial: Acc,
    first: Seq<O>,
    mid: Acc,
    second: Seq<O>,
    acc: Acc,
)
    requires
        folded(reduce, initial, first, mid),
        folded(reduce, mid, second, acc),
    ensures
        folded(reduce, initial, first + second, acc),
{
    let head = choose|trace: Seq<Acc>| #[trigger]
        fold_trace(reduce, initial, first, trace) && trace.last() == mid;
    let tail = choose|trace: Seq<Acc>| #[trigger]
        fold_trace(reduce, mid, second, trace) && trace.last() == acc;
    let whole = head + tail.drop_first();
    assert forall|i: int| 0 <= i < (first + second).len() implies reduce.ensures(
        (#[trigger] whole[i], (first + second)[i]),
        whole[i + 1],
    ) by {
        if i < first.len() {
            assert(whole[i] == head[i]);
            assert(whole[i + 1] == head[i + 1]);
            assert(reduce.ensures((head[i], first[i]), head[i + 1]));
        } else {
            let j = i - first.len();
            assert(whole[i] == tail[j]);
            assert(whole[i + 1] == tail[j + 1]);
            assert(reduce.ensures((tail[j], second[j]), tail[j + 1]));
        }
    }
    assert(fold_trace(reduce, initial, first + second, whole));
    assert(whole.last() == acc);
}

/// Where the closure computes a function `g`, the fold relation has one
/// result only: `fold_left` of `g` over the outputs.
pub proof fn lemma_folded_is_fold_left<Acc, O, R: Fn(Acc, O) -> Acc>(
    reduce: R,
    g: spec_fn(Acc, O) -> Acc,
    initial: Acc,
    outputs: Seq<O>,
    acc: Acc,
)
    requires
        computes(reduce, g),
        folded(reduce, initial, outputs, acc),
    ensures
        acc == outputs.fold_left(initial, g),
    decreases outputs.len(),
{
    let trace = choose|trace: Seq<Acc>| #[trigger]
        fold_trace(reduce, initial, outputs, trace) && trace.last() == acc;
    if outputs.len() == 0 {
    } else {
        let n = outputs.len() - 1;
        let before = trace[n];
        assert(reduce.ensures((trace[n], outputs[n]), trace[n + 1]));
        assert(fold_trace(reduce, initial, outputs.drop_last(), trace.drop_last()));
        assert(trace.drop_last().last() == before);
        lemma_folded_is_fold_left(reduce, g, initial, outputs.drop_last(), before);
    }
}

} // verus!
