//! Printable runs in an image.
//!
//! The dump covers the whole file rather than one section, because a format
//! string is the only anchor an instruction refers to and the anchors are
//! scattered. Runs from `.text` are noise in the same table, which is the price
//! of not deciding in advance where a string may live.

use vstd::prelude::*;

use crate::kfc::is_printable;
use crate::text::{first_from, lemma_first_from_at, lemma_first_from_none};

verus! {

/// Shortest run the dump records.
pub const MIN_RUN: usize = 5;

/// One printable run.
pub struct Run<'a> {
    /// File offset of the first byte.
    pub offset: usize,
    /// The bytes, all of them printable ASCII.
    pub text: &'a [u8],
}

/// A byte that ends a run.
pub open spec fn not_printable() -> spec_fn(u8) -> bool {
    |b: u8| !is_printable(b)
}

/// The first position past the printable run that includes `p`.
pub open spec fn run_end(bytes: Seq<u8>, p: int) -> int {
    match first_from(bytes, not_printable(), p) {
        Some(e) => e,
        None => bytes.len() as int,
    }
}

/// Whether a printable run begins at `p`: the byte there is printable and the
/// one before it, if any, is not.
pub open spec fn is_run_start(bytes: Seq<u8>, p: int) -> bool {
    &&& 0 <= p < bytes.len()
    &&& is_printable(bytes[p])
    &&& (p == 0 || !is_printable(bytes[p - 1]))
}

/// Whether the run beginning at `p` is one the dump records.
pub open spec fn is_recorded(bytes: Seq<u8>, p: int) -> bool {
    is_run_start(bytes, p) && run_end(bytes, p) - p >= MIN_RUN
}

/// Whether `runs` is exactly the recorded runs of `bytes`, in ascending order.
pub open spec fn lists_runs(bytes: Seq<u8>, runs: Seq<(int, Seq<u8>)>) -> bool {
    &&& forall|k: int|
        0 <= k < runs.len() ==> is_recorded(bytes, #[trigger] runs[k].0) && runs[k].1 == bytes.subrange(
            runs[k].0,
            run_end(bytes, runs[k].0),
        )
    &&& forall|k: int, l: int| 0 <= k < l < runs.len() ==> #[trigger] runs[k].0 < #[trigger] runs[l].0
    &&& forall|p: int| #[trigger] is_recorded(bytes, p) ==> exists|k: int| 0 <= k < runs.len() && #[trigger] runs[k].0 == p
}

/// The runs as plain values.
pub open spec fn runs_view(runs: Seq<Run>) -> Seq<(int, Seq<u8>)> {
    Seq::new(runs.len(), |k: int| (runs[k].offset as int, runs[k].text@))
}

/// Every maximal run of printable ASCII at least [`MIN_RUN`] bytes long, in
/// ascending order.
pub fn scan(bytes: &[u8]) -> (out: Vec<Run<'_>>)
    ensures
        lists_runs(bytes@, runs_view(out@)),
{
    let mut out: Vec<Run> = Vec::new();
    let mut start: Option<usize> = None;
    let mut index: usize = 0;
    while index < bytes.len()
        invariant
            index <= bytes@.len(),
            start matches Some(from) ==> from < index && is_run_start(bytes@, from as int) && forall|j: int|
                from <= j < index ==> is_printable(#[trigger] bytes@[j]),
            start is None ==> index == 0 || !is_printable(bytes@[index - 1]),
            forall|k: int|
                0 <= k < out@.len() ==> is_recorded(bytes@, #[trigger] runs_view(out@)[k].0) && runs_view(out@)[k].1
                    == bytes@.subrange(runs_view(out@)[k].0, run_end(bytes@, runs_view(out@)[k].0)),
            forall|k: int, l: int|
                0 <= k < l < out@.len() ==> #[trigger] runs_view(out@)[k].0 < #[trigger] runs_view(out@)[l].0,
            forall|k: int|
                0 <= k < out@.len() ==> #[trigger] runs_view(out@)[k].0 < match start {
                    Some(from) => from as int,
                    None => index as int,
                },
            forall|p: int|
                0 <= p < index && #[trigger] is_recorded(bytes@, p) && start != Some(p as usize) ==> exists|k: int|
                    0 <= k < out@.len() && #[trigger] runs_view(out@)[k].0 == p,
        decreases bytes@.len() - index,
    {
        let ghost old_out = runs_view(out@);
        let ghost old_start = start;
        let byte = bytes[index];
        let printable = 0x20 <= byte && byte <= 0x7e;
        if printable {
            if start.is_none() {
                start = Some(index);
            }
        } else {
            if let Some(from) = start {
                proof {
                    lemma_first_from_at(bytes@, not_printable(), from as int, index as int);
                }
                if index - from >= MIN_RUN {
                    out.push(Run { offset: from, text: &bytes[from..index] });
                    proof {
                        assert(runs_view(out@) =~= old_out.push((from as int, bytes@.subrange(from as int, index as int))));
                    }
                }
                start = None;
            }
        }
        proof {
            assert(forall|k: int| 0 <= k < old_out.len() ==> #[trigger] runs_view(out@)[k] == old_out[k]);
            assert forall|p: int|
                0 <= p < index + 1 && #[trigger] is_recorded(bytes@, p) && start != Some(p as usize) implies exists|k: int|
                    0 <= k < out@.len() && #[trigger] runs_view(out@)[k].0 == p by {
                if p == index {
                    assert(start == Some(index));
                } else if old_start == Some(p as usize) {
                    assert(runs_view(out@)[old_out.len() as int].0 == p);
                } else {
                    let k = choose|k: int| 0 <= k < old_out.len() && #[trigger] old_out[k].0 == p;
                    assert(runs_view(out@)[k].0 == p);
                }
            }
        }
        index = index + 1;
    }
    let ghost old_out = runs_view(out@);
    if let Some(from) = start {
        proof {
            lemma_first_from_none(bytes@, not_printable(), from as int);
        }
        if bytes.len() - from >= MIN_RUN {
            out.push(Run { offset: from, text: &bytes[from..bytes.len()] });
            proof {
                assert(runs_view(out@) =~= old_out.push((from as int, bytes@.subrange(from as int, bytes@.len() as int))));
            }
        }
    }
    proof {
        assert(forall|k: int| 0 <= k < old_out.len() ==> #[trigger] runs_view(out@)[k] == old_out[k]);
        assert forall|p: int| #[trigger] is_recorded(bytes@, p) implies exists|k: int|
            0 <= k < runs_view(out@).len() && #[trigger] runs_view(out@)[k].0 == p by {
            if start == Some(p as usize) {
                assert(runs_view(out@)[old_out.len() as int].0 == p);
            } else {
                let k = choose|k: int| 0 <= k < old_out.len() && #[trigger] old_out[k].0 == p;
                assert(runs_view(out@)[k].0 == p);
            }
        }
    }
    out
}

} // verus!
