use vstd::prelude::*;

verus! {

/// A raw client transaction.
pub type Transaction = Vec<u8>;

/// The little-endian unsigned integer in the eight bytes at `pos`.
pub open spec fn le_u64_at(b: Seq<u8>, pos: int) -> int {
    b[pos] + b[pos + 1] * 0x100 + b[pos + 2] * 0x1_0000 + b[pos + 3] * 0x100_0000 + b[pos + 4]
        * 0x1_0000_0000 + b[pos + 5] * 0x100_0000_0000 + b[pos + 6] * 0x1_0000_0000_0000 + b[pos
        + 7] * 0x100_0000_0000_0000
}

/// `k` length-prefixed byte strings read from `pos` on: each is an eight-byte
/// little-endian length followed by that many bytes. `None` where the bytes run out.
pub open spec fn items_from(b: Seq<u8>, pos: int, k: nat) -> Option<Seq<Seq<u8>>>
    decreases k,
{
    if k == 0 {
        Some(Seq::empty())
    } else if pos + 8 > b.len() {
        None
    } else {
        let end = pos + 8 + le_u64_at(b, pos);
        if end > b.len() {
            None
        } else {
            match items_from(b, end, (k - 1) as nat) {
                Some(rest) => Some(seq![b.subrange(pos + 8, end)] + rest),
                None => None,
            }
        }
    }
}

/// The transactions of a stored worker message whose variant is `Batch`: a
/// four-byte little-endian variant tag of zero, an eight-byte little-endian
/// count, then the transactions, each length-prefixed. Bytes after the last
/// transaction are ignored. `None` for any other variant or a truncated message.
pub open spec fn batch_of(b: Seq<u8>) -> Option<Seq<Seq<u8>>> {
    if b.len() < 12 || b[0] != 0 || b[1] != 0 || b[2] != 0 || b[3] != 0 {
        None
    } else {
        items_from(b, 12, le_u64_at(b, 4) as nat)
    }
}

/// Reads the eight-byte little-endian integer at `pos`.
fn read_u64_le(b: &[u8], pos: usize) -> (r: u64)
    requires
        pos + 8 <= b@.len(),
    ensures
        r == le_u64_at(b@, pos as int),
{
    (b[pos] as u64) + (b[pos + 1] as u64) * 0x100 + (b[pos + 2] as u64) * 0x1_0000 + (b[pos
        + 3] as u64) * 0x100_0000 + (b[pos + 4] as u64) * 0x1_0000_0000 + (b[pos + 5] as u64)
        * 0x100_0000_0000 + (b[pos + 6] as u64) * 0x1_0000_0000_0000 + (b[pos + 7] as u64)
        * 0x100_0000_0000_0000
}

/// Copies `b[start..end]` into a new vector.
fn copy_range(b: &[u8], start: usize, end: usize) -> (r: Vec<u8>)
    requires
        start <= end <= b@.len(),
    ensures
        r@ == b@.subrange(start as int, end as int),
{
    let mut r: Vec<u8> = Vec::new();
    let mut i: usize = start;
    while i < end
        invariant
            start <= i <= end <= b@.len(),
            r@ == b@.subrange(start as int, i as int),
        decreases end - i,
    {
        r.push(b[i]);
        i = i + 1;
    }
    r
}

/// Decodes a stored worker message; `Some` with its transactions exactly when
/// the message is a well-formed `Batch`.
pub fn decode_batch(b: &[u8]) -> (r: Option<Vec<Transaction>>)
    ensures
        match r {
            Some(txs) => batch_of(b@) == Some(txs.deep_view()),
            None => batch_of(b@) is None,
        },
{
    if b.len() < 12 || b[0] != 0 || b[1] != 0 || b[2] != 0 || b[3] != 0 {
        return None;
    }
    let count = read_u64_le(b, 4);
    let ghost whole = batch_of(b@);
    let mut txs: Vec<Transaction> = Vec::new();
    let mut pos: usize = 12;
    let mut k: u64 = count;
    while k > 0
        invariant
            12 <= pos <= b@.len(),
            whole == batch_of(b@),
            whole == (match items_from(b@, pos as int, k as nat) {
                Some(rest) => Some(txs.deep_view() + rest),
                None => None::<Seq<Seq<u8>>>,
            }),
        decreases k,
    {
        if b.len() - pos < 8 {
            return None;
        }
        let len = read_u64_le(b, pos);
        if len > (b.len() - pos - 8) as u64 {
            return None;
        }
        let end = pos + 8 + len as usize;
        let tx = copy_range(b, pos + 8, end);
        proof {
            let item = b@.subrange(pos + 8, end as int);
            let old_txs = txs.deep_view();
            match items_from(b@, end as int, (k - 1) as nat) {
                Some(rest) => {
                    assert(old_txs + (seq![item] + rest) =~= old_txs.push(item) + rest);
                },
                None => {},
            }
        }
        let ghost before = txs.deep_view();
        assert(tx.deep_view() =~= tx@);
        txs.push(tx);
        proof {
            assert(txs.deep_view() =~= before.push(b@.subrange(pos + 8, end as int)));
        }
        pos = end;
        k = k - 1;
    }
    assert(txs.deep_view() + Seq::<Seq<u8>>::empty() =~= txs.deep_view());
    Some(txs)
}

} // verus!
