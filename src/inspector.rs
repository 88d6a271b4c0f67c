use vstd::prelude::*;
use crate::encoding::{base64_decoded, from_base64, from_hex, hex_decoded, hex_of, to_hex};
use crate::envelope::{batch_of, decode_batch};
use crate::pipeline::{bytes_of, contents_of, hex_all, ContentsView};
use crate::store::Value;

verus! {

/// The digest that a command-line argument names: its hexadecimal reading
/// when it is hexadecimal, else its base64 reading.
pub open spec fn key_of_input(s: Seq<char>) -> Option<Seq<u8>> {
    match hex_decoded(s) {
        Some(b) => Some(b),
        None => base64_decoded(s),
    }
}

/// Reads a digest given as hexadecimal or as base64; the first reading that
/// succeeds wins.
pub fn decode_key_input(key_input: &str) -> (r: Option<Vec<u8>>)
    ensures
        bytes_of(r) == key_of_input(key_input@),
{
    match from_hex(key_input) {
        Some(b) => Some(b),
        None => from_base64(key_input),
    }
}

/// The digests listed for store entries `entries` (key, value), taken in order:
/// the hexadecimal key of each entry whose value is a batch, each digest once,
/// where it first occurs.
pub open spec fn listed(entries: Seq<(Seq<u8>, Seq<u8>)>) -> Seq<Seq<char>>
    decreases entries.len(),
{
    if entries.len() == 0 {
        Seq::empty()
    } else {
        let before = listed(entries.drop_last());
        let (key, value) = entries.last();
        if batch_of(value) is Some && !before.contains(hex_of(key)) {
            before.push(hex_of(key))
        } else {
            before
        }
    }
}

/// The digests listed so far while scanning the stores one entry at a time.
pub struct DigestListing {
    seen: Vec<String>,
}

impl View for DigestListing {
    type V = Seq<Seq<char>>;

    closed spec fn view(&self) -> Seq<Seq<char>> {
        self.seen.deep_view()
    }
}

impl DigestListing {
    /// Nothing listed yet.
    pub fn new() -> (r: Self)
        ensures
            r@ == Seq::<Seq<char>>::empty(),
    {
        let r = DigestListing { seen: Vec::new() };
        assert(r@ =~= Seq::<Seq<char>>::empty());
        r
    }

    /// Whether `digest` has been listed already.
    fn contains(&self, digest: &String) -> (r: bool)
        ensures
            r == self@.contains(digest@),
    {
        let mut i: usize = 0;
        while i < self.seen.len()
            invariant
                i <= self.seen@.len(),
                forall|j: int| 0 <= j < i ==> self.seen@[j]@ != digest@,
            decreases self.seen.len() - i,
        {
            if self.seen[i] == *digest {
                assert(self@[i as int] == digest@);
                return true;
            }
            i = i + 1;
        }
        proof {
            if self@.contains(digest@) {
                let j = choose|j: int| 0 <= j < self@.len() && self@[j] == digest@;
                assert(self.seen@[j]@ == digest@);
            }
        }
        false
    }

    /// Takes the next store entry: returns its hexadecimal digest when the value
    /// is a batch whose digest was not listed before, and lists it.
    pub fn offer(&mut self, key: &[u8], value: &[u8]) -> (r: Option<String>)
        ensures
            ({
                let d = hex_of(key@);
                if batch_of(value@) is Some && !old(self)@.contains(d) {
                    &&& r matches Some(s) && s@ == d
                    &&& final(self)@ == old(self)@.push(d)
                } else {
                    &&& r is None
                    &&& final(self)@ == old(self)@
                }
            }),
    {
        match decode_batch(value) {
            None => None,
            Some(_) => {
                let digest = to_hex(key);
                if self.contains(&digest) {
                    None
                } else {
                    self.seen.push(digest.clone());
                    assert(self@ =~= old(self)@.push(digest@));
                    Some(digest)
                }
            },
        }
    }
}

/// Listing never repeats a digest, and lists exactly the digests of the
/// entries, over all stores, whose value is a batch.
pub proof fn lemma_listing_dedups(entries: Seq<(Seq<u8>, Seq<u8>)>)
    ensures
        listed(entries).no_duplicates(),
        forall|d: Seq<char>|
            #[trigger] listed(entries).contains(d) <==> exists|i: int|
                0 <= i < entries.len() && batch_of(entries[i].1) is Some && hex_of(entries[i].0)
                    == d,
    decreases entries.len(),
{
    if entries.len() > 0 {
        let init = entries.drop_last();
        lemma_listing_dedups(init);
        let before = listed(init);
        let (key, value) = entries.last();
        assert forall|d: Seq<char>|
            #[trigger] listed(entries).contains(d) <==> exists|i: int|
                0 <= i < entries.len() && batch_of(entries[i].1) is Some && hex_of(entries[i].0)
                    == d by {
            if listed(entries).contains(d) {
                if before.contains(d) {
                    let i = choose|i: int|
                        0 <= i < init.len() && batch_of(init[i].1) is Some && hex_of(init[i].0) == d;
                    assert(entries[i] == init[i]);
                } else {
                    assert(entries[entries.len() - 1] == entries.last());
                }
            }
            if exists|i: int|
                0 <= i < entries.len() && batch_of(entries[i].1) is Some && hex_of(entries[i].0)
                    == d {
                let i = choose|i: int|
                    0 <= i < entries.len() && batch_of(entries[i].1) is Some && hex_of(entries[i].0)
                        == d;
                if i < init.len() {
                    assert(init[i] == entries[i]);
                    assert(before.contains(d));
                    if batch_of(value) is Some && !before.contains(hex_of(key)) {
                        let p = choose|p: int| 0 <= p < before.len() && before[p] == d;
                        assert(before.push(hex_of(key))[p] == d);
                    }
                } else {
                    if !before.contains(d) {
                        assert(listed(entries) == before.push(d));
                        assert(listed(entries)[before.len() as int] == d);
                    }
                }
            }
        }
    }
}

/// The outcome of looking a digest up in several stores.
#[derive(Debug, PartialEq, Eq)]
pub enum BatchLookup {
    /// The first store that holds the digest, in the order given, holds a batch.
    Found { store: usize, digest: String, transactions: Vec<String> },
    /// The first store that holds the digest holds something that is not a batch.
    NotABatch { store: usize },
    /// No store holds the digest.
    NotFound,
}

/// Looks digest `key` up in several stores, where `found[i]` is what store `i`
/// holds for it: the first store that holds it decides, in the order given.
pub fn find_batch(key: &[u8], found: &Vec<Option<Value>>) -> (r: BatchLookup)
    ensures
        match r {
            BatchLookup::Found { store, digest, transactions } => {
                &&& store < found@.len()
                &&& found@[store as int] matches Some(v) && contents_of(Some(v@))
                    == ContentsView::Transactions(transactions.deep_view())
                &&& forall|j: int| 0 <= j < store ==> found@[j] is None
                &&& digest@ == hex_of(key@)
            },
            BatchLookup::NotABatch { store } => {
                &&& store < found@.len()
                &&& found@[store as int] matches Some(v) && batch_of(v@) is None
                &&& forall|j: int| 0 <= j < store ==> found@[j] is None
            },
            BatchLookup::NotFound => forall|j: int| 0 <= j < found@.len() ==> found@[j] is None,
        },
{
    let mut i: usize = 0;
    while i < found.len()
        invariant
            i <= found@.len(),
            forall|j: int| 0 <= j < i ==> found@[j] is None,
        decreases found.len() - i,
    {
        match &found[i] {
            Some(v) => {
                return match decode_batch(v.as_slice()) {
                    Some(txs) => BatchLookup::Found {
                        store: i,
                        digest: to_hex(key),
                        transactions: hex_all(&txs),
                    },
                    None => BatchLookup::NotABatch { store: i },
                };
            },
            None => {},
        }
        i = i + 1;
    }
    BatchLookup::NotFound
}

} // verus!
