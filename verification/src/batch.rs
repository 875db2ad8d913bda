//! Cutting a sequence of addresses into batches.

use vstd::prelude::*;
use crate::address::Address;
use crate::error::ConfigurationError;

verus! {

/// The batches of a sequence: consecutive chunks of `size` items, in the
/// order of the sequence, the last one shorter where the length is no
/// multiple of `size`. No batches where `size` is zero.
pub open spec fn batches_of(seq: Seq<Address>, size: nat) -> Seq<Seq<Address>>
    decreases seq.len(),
{
    if size == 0 || seq.len() == 0 {
        Seq::empty()
    } else if seq.len() <= size {
        seq![seq]
    } else {
        seq![seq.take(size as int)] + batches_of(seq.skip(size as int), size)
    }
}

/// The batches held in vectors, as sequences.
pub open spec fn batch_views(batches: Seq<Vec<Address>>) -> Seq<Seq<Address>> {
    Seq::new(batches.len(), |k: int| batches[k]@)
}

/// Cuts `seq` into batches of `size` addresses. A size of zero is refused
/// with `InvalidBatchSize`.
pub fn batch(seq: &Vec<Address>, size: usize) -> (r: Result<Vec<Vec<Address>>, ConfigurationError>)
    ensures
        r is Ok <==> size >= 1,
        r matches Ok(batches) ==> batch_views(batches@) == batches_of(seq@, size as nat),
        r matches Err(e) ==> e == ConfigurationError::InvalidBatchSize,
{
    if size == 0 {
        return Err(ConfigurationError::InvalidBatchSize);
    }
    let n = seq.len();
    let mut out: Vec<Vec<Address>> = Vec::new();
    let mut start: usize = 0;
    proof {
        assert(seq@.skip(0) =~= seq@);
        assert(batch_views(out@) + batches_of(seq@, size as nat) =~= batches_of(
            seq@,
            size as nat,
        ));
    }
    while start < n
        invariant
            n == seq.len(),
            size >= 1,
            start <= n,
            batch_views(out@) + batches_of(seq@.skip(start as int), size as nat) == batches_of(
                seq@,
                size as nat,
            ),
        decreases n - start,
    {
        let end: usize = if n - start <= size {
            n
        } else {
            start + size
        };
        let mut chunk: Vec<Address> = Vec::new();
        let mut i: usize = start;
        while i < end
            invariant
                n == seq.len(),
                start <= i <= end <= n,
                chunk@ == seq@.subrange(start as int, i as int),
            decreases end - i,
        {
            chunk.push(seq[i]);
            i = i + 1;
        }
        proof {
            let rest = seq@.skip(start as int);
            let before = batch_views(out@);
            if n - start <= size {
                assert(chunk@ =~= rest);
                assert(seq@.skip(end as int).len() == 0);
                assert(batches_of(rest, size as nat) == seq![rest]);
                assert(batches_of(seq@.skip(end as int), size as nat) == Seq::<
                    Seq<Address>,
                >::empty());
            } else {
                assert(chunk@ =~= rest.take(size as int));
                assert(seq@.skip(end as int) =~= rest.skip(size as int));
            }
            assert(batch_views(out@.push(chunk)) =~= before + seq![chunk@]);
            assert(before + seq![chunk@] + batches_of(seq@.skip(end as int), size as nat)
                =~= before + batches_of(rest, size as nat));
        }
        out.push(chunk);
        start = end;
    }
    proof {
        assert(batches_of(seq@.skip(start as int), size as nat) == Seq::<Seq<Address>>::empty());
        assert(batch_views(out@) =~= batches_of(seq@, size as nat));
    }
    Ok(out)
}

/// Batches part the sequence: put together in order they give the sequence
/// back, none is empty, none is longer than `size`, and only the last may be
/// shorter.
pub proof fn lemma_batches_partition(seq: Seq<Address>, size: nat)
    requires
        size >= 1,
    ensures
        batches_of(seq, size).flatten() == seq,
        forall|k: int|
            0 <= k < batches_of(seq, size).len() ==> 1 <= (#[trigger] batches_of(seq, size)[k]).len()
                <= size,
        forall|k: int|
            0 <= k < batches_of(seq, size).len() - 1 ==> (#[trigger] batches_of(seq, size)[k]).len()
                == size,
    decreases seq.len(),
{
    let bs = batches_of(seq, size);
    if seq.len() == 0 {
        assert(bs.flatten() =~= seq);
    } else if seq.len() <= size {
        bs.lemma_flatten_one_element();
    } else {
        let head = seq.take(size as int);
        let tail = seq.skip(size as int);
        lemma_batches_partition(tail, size);
        let rest = batches_of(tail, size);
        assert(bs == seq![head] + rest);
        assert(bs.drop_first() =~= rest);
        assert(bs.first() == head);
        assert(bs.flatten() == head + rest.flatten());
        assert(head + tail =~= seq);
        assert(rest.len() >= 1);
        assert forall|k: int| 0 <= k < bs.len() implies 1 <= (#[trigger] bs[k]).len() <= size by {
            if k > 0 {
                assert(bs[k] == rest[k - 1]);
            }
        }
        assert forall|k: int| 0 <= k < bs.len() - 1 implies (#[trigger] bs[k]).len() == size by {
            if k > 0 {
                assert(bs[k] == rest[k - 1]);
            }
        }
    }
}

/// The position in the sequence at which the batch at position `k` starts.
pub open spec fn batch_start(size: nat, k: int) -> int {
    k * size
}

/// The items of the sequence from the start of the batch at position `k` up
/// to the start of the next batch, or to the end of the sequence where that
/// comes first.
pub open spec fn batch_at(seq: Seq<Address>, size: nat, k: int) -> Seq<Address> {
    seq.subrange(
        batch_start(size, k),
        if batch_start(size, k + 1) <= seq.len() {
            batch_start(size, k + 1)
        } else {
            seq.len() as int
        },
    )
}

/// Where a batch lies in the sequence. There are as many batches as it
/// takes to hold every item, `size` to a batch, and the batch at position
/// `k` starts at position `k * size` of the sequence and ends before the
/// start of the next batch, or at the end of the sequence.
pub proof fn lemma_batch_layout(seq: Seq<Address>, size: nat)
    requires
        size >= 1,
    ensures
        batches_of(seq, size).len() == (seq.len() + size - 1) / (size as int),
        forall|k: int|
            0 <= k < batches_of(seq, size).len() ==> #[trigger] batch_start(size, k) < seq.len(),
        forall|k: int|
            0 <= k < batches_of(seq, size).len() ==> #[trigger] batches_of(seq, size)[k]
                == batch_at(seq, size, k),
    decreases seq.len(),
{
    let bs = batches_of(seq, size);
    let n = seq.len() as int;
    let d = size as int;
    if n == 0 {
        assert((n + d - 1) / d == 0) by (nonlinear_arith)
            requires
                n == 0,
                d >= 1,
        ;
    } else if n <= d {
        assert((n + d - 1) / d == 1) by (nonlinear_arith)
            requires
                1 <= n <= d,
        ;
        assert(0 * size == 0 && (0 + 1) * size == size) by (nonlinear_arith);
        assert(bs[0] =~= batch_at(seq, size, 0));
    } else {
        let head = seq.take(d);
        let tail = seq.skip(d);
        let rest = batches_of(tail, size);
        lemma_batch_layout(tail, size);
        assert(bs == seq![head] + rest);
        assert((n + d - 1) / d == (n - d + d - 1) / d + 1) by (nonlinear_arith)
            requires
                d >= 1,
                n > d,
        ;
        assert forall|k: int| 0 <= k < bs.len() implies #[trigger] batch_start(size, k) < seq.len()
            && bs[k] == batch_at(seq, size, k) by {
            if k == 0 {
                assert(0 * size == 0 && (0 + 1) * size == size) by (nonlinear_arith);
                assert(bs[0] =~= batch_at(seq, size, 0));
            } else {
                assert(bs[k] == rest[k - 1]);
                assert((k - 1) * size == k * size - size && (k - 1 + 1) * size == (k + 1) * size
                    - size) by (nonlinear_arith);
                assert(batch_start(size, k - 1) < tail.len());
                assert(batch_at(tail, size, k - 1) =~= batch_at(seq, size, k));
            }
        }
    }
}

} // verus!
