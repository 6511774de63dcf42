//! The segment assembler.
//!
//! Output is the kept slices of the original, unrectified stream,
//! concatenated in order: no resampling and no gain change, every kept
//! sample bit for bit as it came in.

use vstd::prelude::*;

use crate::interval::{total_len, Interval};

verus! {

/// The assembled output: the slices of `s` named by `keeps`, in order.
pub open spec fn assembled(s: Seq<i64>, keeps: Seq<Interval>) -> Seq<i64>
    decreases keeps.len(),
{
    if keeps.len() == 0 {
        Seq::empty()
    } else {
        s.subrange(keeps[0].start as int, keeps[0].stop as int) + assembled(s, keeps.drop_first())
    }
}

/// Within-bounds keep intervals for a stream of `len` samples.
pub open spec fn keeps_in_bounds(keeps: Seq<Interval>, len: nat) -> bool {
    forall|k: int|
        0 <= k < keeps.len() ==> (#[trigger] keeps[k]).start <= keeps[k].stop <= len
}

/// The assembled output is exactly as long as the kept ranges together.
pub proof fn lemma_assembled_len(s: Seq<i64>, keeps: Seq<Interval>)
    requires
        keeps_in_bounds(keeps, s.len()),
    ensures
        assembled(s, keeps).len() == total_len(keeps),
    decreases keeps.len(),
{
    if keeps.len() > 0 {
        assert(keeps.drop_first().len() == keeps.len() - 1);
        assert forall|k: int| 0 <= k < keeps.drop_first().len() implies (#[trigger] keeps.drop_first()[k]).start
            <= keeps.drop_first()[k].stop <= s.len() by {
            assert(keeps.drop_first()[k] == keeps[k + 1]);
        }
        lemma_assembled_len(s, keeps.drop_first());
    }
}

/// Concatenates the kept slices of `samples` into the output stream.
pub fn assemble(samples: &Vec<i64>, keeps: &Vec<Interval>) -> (out: Vec<i64>)
    requires
        keeps_in_bounds(keeps@, samples@.len()),
    ensures
        out@ == assembled(samples@, keeps@),
{
    let mut out: Vec<i64> = Vec::new();
    let mut k: usize = 0;
    proof {
        assert(keeps@.skip(0) =~= keeps@);
        assert(Seq::<i64>::empty() + assembled(samples@, keeps@) =~= assembled(
            samples@,
            keeps@,
        ));
    }
    while k < keeps.len()
        invariant
            k <= keeps@.len(),
            keeps_in_bounds(keeps@, samples@.len()),
            assembled(samples@, keeps@) == out@ + assembled(samples@, keeps@.skip(k as int)),
        decreases keeps@.len() - k,
    {
        let ghost rem = keeps@.skip(k as int);
        let ghost out_pre = out@;
        let iv = keeps[k];
        proof {
            assert(rem[0] == iv);
            assert(rem.drop_first() =~= keeps@.skip(k as int + 1));
        }
        proof {
            assert(out@ =~= out_pre + samples@.subrange(iv.start as int, iv.start as int));
        }
        let mut j: usize = iv.start;
        while j < iv.stop
            invariant
                iv.start <= j <= iv.stop <= samples@.len(),
                out@ == out_pre + samples@.subrange(iv.start as int, j as int),
            decreases iv.stop - j,
        {
            out.push(samples[j]);
            proof {
                assert(out@ =~= out_pre + samples@.subrange(iv.start as int, j as int + 1));
            }
            j = j + 1;
        }
        proof {
            assert(out_pre + (samples@.subrange(iv.start as int, iv.stop as int) + assembled(
                samples@,
                rem.drop_first(),
            )) =~= out@ + assembled(samples@, rem.drop_first()));
        }
        k = k + 1;
    }
    proof {
        assert(keeps@.skip(keeps@.len() as int) =~= Seq::<Interval>::empty());
        assert(out@ + Seq::<i64>::empty() =~= out@);
    }
    out
}

} // verus!
