//! Cutting data into chunks and putting chunks together.
use vstd::prelude::*;
use vstd::slice::slice_subrange;

verus! {

/// The views of a list of byte vectors.
pub open spec fn parts(items: Seq<Vec<u8>>) -> Seq<Seq<u8>> {
    items.map_values(|c: Vec<u8>| c@)
}

/// The parts put together.
pub open spec fn joined(items: Seq<Seq<u8>>) -> Seq<u8>
    decreases items.len(),
{
    if items.len() == 0 {
        Seq::<u8>::empty()
    } else {
        joined(items.drop_last()) + items.last()
    }
}

/// How many chunks of `size` bytes it takes for `len` bytes.
pub open spec fn chunk_count(len: nat, size: nat) -> nat {
    if size == 0 {
        0
    } else {
        (len + size - 1) as nat / size
    }
}

/// The chunk number `k`: `size` bytes, or what is left at the end.
pub open spec fn chunk_at(data: Seq<u8>, size: nat, k: int) -> Seq<u8> {
    data.subrange(
        k * size,
        if k * size + size <= data.len() {
            k * size + size
        } else {
            data.len() as int
        },
    )
}

/// `data` in chunks of `size` bytes; only the last may be shorter.
pub open spec fn chunks_of(data: Seq<u8>, size: nat) -> Seq<Seq<u8>> {
    Seq::new(chunk_count(data.len(), size), |k: int| chunk_at(data, size, k))
}

proof fn count_bounds(len: nat, size: nat, k: int)
    requires
        size > 0,
    ensures
        0 <= k < chunk_count(len, size) ==> k * size < len,
        k >= chunk_count(len, size) ==> k * size >= len,
        chunk_count(len, size) == 0 <==> len == 0,
{
    let n = chunk_count(len, size) as int;
    vstd::arithmetic::div_mod::lemma_fundamental_div_mod((len + size - 1) as int, size as int);
    let rest = (len + size - 1) % (size as int);
    assert(0 <= rest < size) by {
        vstd::arithmetic::div_mod::lemma_mod_bound((len + size - 1) as int, size as int);
    }
    assert(n * size + rest == len + size - 1) by {
        assert(n == (len + size - 1) / (size as int));
        vstd::arithmetic::mul::lemma_mul_is_commutative(n, size as int);
    }
    if 0 <= k < n {
        assert(k * size + size <= n * size) by (nonlinear_arith)
            requires
                k + 1 <= n,
                size > 0,
        ;
    }
    if k >= n {
        assert(k * size >= n * size) by (nonlinear_arith)
            requires
                k >= n,
                size > 0,
        ;
    }
    if n == 0 {
        assert(n * size == 0) by (nonlinear_arith)
            requires
                n == 0,
        ;
    } else {
        assert(n * size >= size) by (nonlinear_arith)
            requires
                n >= 1,
                size > 0,
        ;
    }
}

/// Cutting and putting together gives the data back; no chunk is empty or
/// longer than allowed, and all but the last are full.
pub proof fn chunks_join_to_the_data(data: Seq<u8>, size: nat)
    requires
        size > 0,
    ensures
        joined(chunks_of(data, size)) == data,
        forall|k: int|
            0 <= k < chunks_of(data, size).len() ==> 0 < (#[trigger] chunks_of(
                data,
                size,
            )[k]).len() <= size,
        forall|k: int|
            0 <= k < chunks_of(data, size).len() - 1 ==> (#[trigger] chunks_of(data, size)[k]).len()
                == size,
{
    let n = chunk_count(data.len(), size) as int;
    chunks_join_upto(data, size, n);
    count_bounds(data.len(), size, n);
    let chunks = chunks_of(data, size);
    assert(chunks.take(n) =~= chunks);
    assert forall|k: int| 0 <= k < n implies 0 < (#[trigger] chunks[k]).len() <= size && (k < n - 1
        ==> chunks[k].len() == size) by {
        count_bounds(data.len(), size, k);
        count_bounds(data.len(), size, k + 1);
        assert((k + 1) * size == k * size + size) by (nonlinear_arith);
        assert(k * size >= 0) by (nonlinear_arith)
            requires
                k >= 0,
        ;
    }
    assert(data.take(data.len() as int) =~= data);
}

proof fn chunks_join_upto(data: Seq<u8>, size: nat, k: int)
    requires
        size > 0,
        0 <= k <= chunk_count(data.len(), size),
    ensures
        joined(chunks_of(data, size).take(k)) == data.take(
            if k * size <= data.len() {
                k * size
            } else {
                data.len() as int
            },
        ),
    decreases k,
{
    let chunks = chunks_of(data, size);
    if k == 0 {
        assert(joined(chunks.take(0)) =~= data.take(0));
        assert(k * size == 0) by (nonlinear_arith)
            requires
                k == 0,
        ;
    } else {
        chunks_join_upto(data, size, k - 1);
        count_bounds(data.len(), size, k - 1);
        assert(chunks.take(k).drop_last() =~= chunks.take(k - 1));
        assert(chunks.take(k).last() == chunk_at(data, size, k - 1));
        assert(k * size == (k - 1) * size + size) by (nonlinear_arith);
        assert((k - 1) * size >= 0) by (nonlinear_arith)
            requires
                k >= 1,
        ;
        let upto = if k * size <= data.len() {
            k * size
        } else {
            data.len() as int
        };
        assert(joined(chunks.take(k)) =~= data.take(upto));
    }
}

/// Putting parts together goes on from what is there.
pub proof fn joined_concat(a: Seq<Seq<u8>>, b: Seq<Seq<u8>>)
    ensures
        joined(a + b) == joined(a) + joined(b),
    decreases b.len(),
{
    if b.len() == 0 {
        assert(a + b =~= a);
        assert(joined(a) + joined(b) =~= joined(a));
    } else {
        joined_concat(a, b.drop_last());
        assert((a + b).drop_last() =~= a + b.drop_last());
        assert(joined(a + b) =~= joined(a) + joined(b));
    }
}

/// Parts of `size` bytes, the last of which may be shorter, are the chunks of
/// the data they make up.
pub proof fn full_parts_are_chunks(items: Seq<Seq<u8>>, size: nat)
    requires
        size > 0,
        forall|k: int| 0 <= k < items.len() ==> 0 < (#[trigger] items[k]).len() <= size,
        forall|k: int| 0 <= k < items.len() - 1 ==> (#[trigger] items[k]).len() == size,
    ensures
        items == chunks_of(joined(items), size),
{
    let data = joined(items);
    let n = items.len() as int;
    joined_take_len(items, size, n);
    assert(items.take(n) =~= items);
    count_bounds(data.len(), size, n);
    if n > 0 {
        joined_take_len(items, size, n - 1);
        count_bounds(data.len(), size, n - 1);
        assert(items.take(n).drop_last() =~= items.take(n - 1));
        assert(data.len() == (n - 1) * size + items.last().len());
        assert(n * size == (n - 1) * size + size) by (nonlinear_arith);
        if chunk_count(data.len(), size) < n {
            assert(n - 1 >= chunk_count(data.len(), size));
        }
    } else {
        assert(n * size == 0) by (nonlinear_arith)
            requires
                n == 0,
        ;
    }
    if n < chunk_count(data.len(), size) {
        assert(n * size < data.len());
    }
    assert(chunk_count(data.len(), size) == n);
    assert forall|k: int| 0 <= k < n implies #[trigger] items[k] == chunk_at(data, size, k) by {
        joined_take_len(items, size, k);
        joined_take_len(items, size, k + 1);
        let head = items.take(k + 1);
        let tail = items.skip(k + 1);
        joined_concat(head, tail);
        assert(items =~= head + tail);
        assert(head.drop_last() =~= items.take(k));
        assert(head.last() == items[k]);
        assert((k + 1) * size == k * size + size) by (nonlinear_arith);
        if k < n - 1 {
            assert(joined(head).len() == k * size + size);
        } else {
            assert(tail =~= Seq::<Seq<u8>>::empty());
        }
        assert(items[k] =~= chunk_at(data, size, k));
    }
    assert(items =~= chunks_of(data, size));
}

proof fn joined_take_len(items: Seq<Seq<u8>>, size: nat, k: int)
    requires
        0 <= k <= items.len(),
        forall|i: int| 0 <= i < items.len() ==> (#[trigger] items[i]).len() <= size,
        forall|i: int| 0 <= i < items.len() - 1 ==> (#[trigger] items[i]).len() == size,
    ensures
        k < items.len() || k == 0 ==> joined(items.take(k)).len() == k * size,
        joined(items.take(k)).len() <= k * size,
    decreases k,
{
    if k > 0 {
        joined_take_len(items, size, k - 1);
        assert(items.take(k).drop_last() =~= items.take(k - 1));
        assert(k * size == (k - 1) * size + size) by (nonlinear_arith);
    } else {
        assert(k * size == 0) by (nonlinear_arith)
            requires
                k == 0,
        ;
    }
}

/// The bytes `data[from..to]`.
pub fn copy_range(data: &Vec<u8>, from: usize, to: usize) -> (r: Vec<u8>)
    requires
        from <= to <= data@.len(),
    ensures
        r@ == data@.subrange(from as int, to as int),
{
    let mut r: Vec<u8> = Vec::new();
    r.extend_from_slice(slice_subrange(data.as_slice(), from, to));
    assert(r@ =~= data@.subrange(from as int, to as int));
    r
}

/// `data` in chunks of `chunk_size` bytes; only the last may be shorter.
pub fn split_into_chunks(data: &Vec<u8>, chunk_size: usize) -> (r: Vec<Vec<u8>>)
    requires
        chunk_size > 0,
    ensures
        parts(r@) == chunks_of(data@, chunk_size as nat),
{
    let mut r: Vec<Vec<u8>> = Vec::new();
    let len: usize = data.len();
    let ghost size = chunk_size as nat;
    let mut pos: usize = 0;
    let ghost mut k: int = 0;
    while pos < len
        invariant
            chunk_size > 0,
            size == chunk_size,
            len == data@.len(),
            pos <= len,
            k >= 0,
            k == r@.len(),
            k <= chunk_count(data@.len(), size),
            pos == if k * size <= len {
                k * size
            } else {
                len as int
            },
            parts(r@) == chunks_of(data@, size).take(k),
        decreases len - pos,
    {
        let end: usize = if len - pos > chunk_size {
            pos + chunk_size
        } else {
            len
        };
        proof {
            count_bounds(data@.len(), size, k);
            assert((k + 1) * size == k * size + size) by (nonlinear_arith);
        }
        let ghost before = parts(r@);
        let piece: Vec<u8> = copy_range(data, pos, end);
        assert(piece@ =~= chunk_at(data@, size, k));
        r.push(piece);
        proof {
            k = k + 1;
            assert(parts(r@) =~= before.push(piece@));
            assert(parts(r@) =~= chunks_of(data@, size).take(k));
        }
        pos = end;
    }
    proof {
        count_bounds(data@.len(), size, k);
        assert(chunks_of(data@, size).take(k) =~= chunks_of(data@, size));
    }
    r
}

/// The parts put together.
pub fn join_chunks(items: &Vec<Vec<u8>>) -> (r: Vec<u8>)
    ensures
        r@ == joined(parts(items@)),
{
    let ghost all = parts(items@);
    let mut r: Vec<u8> = Vec::new();
    let mut i: usize = 0;
    assert(r@ =~= joined(all.take(0)));
    while i < items.len()
        invariant
            i <= items@.len(),
            all == parts(items@),
            r@ == joined(all.take(i as int)),
        decreases items@.len() - i,
    {
        let ghost before = r@;
        r.extend_from_slice(items[i].as_slice());
        assert(all.take(i + 1).drop_last() =~= all.take(i as int));
        assert(r@ =~= before + items@[i as int]@);
        i = i + 1;
    }
    assert(all.take(all.len() as int) =~= all);
    r
}

} // verus!
