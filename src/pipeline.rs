use vstd::prelude::*;
use crate::committee::{PublicKey, WorkerId};
use crate::encoding::{base64_of, decimal_of, hex_of, to_base64, to_decimal, to_hex};
use crate::envelope::{batch_of, decode_batch, Transaction};
use crate::store::Value;
use crate::store::waiters_of;
use crate::store_model::{delivered, lookup, notifiers, run, step, writes_key, Command, StoreState};

verus! {

/// A content digest: the key of a batch or a header.
#[derive(Clone, Copy, Debug, PartialEq, Eq, Hash, PartialOrd, Ord)]
pub struct Digest(pub [u8; 32]);

/// Signatures of peers attesting that a round timed out.
#[derive(Clone, Debug)]
pub struct TimeoutCert {
    pub round: u64,
    pub timeouts: Vec<(PublicKey, Vec<u8>)>,
}

/// Signatures of peers attesting that they did not vote for a leader.
#[derive(Clone, Debug)]
pub struct NoVoteCert {
    pub round: u64,
    pub no_votes: Vec<(PublicKey, Vec<u8>)>,
}

/// A DAG vertex as consensus hands it out.
#[derive(Clone, Debug)]
pub struct Header {
    pub author: PublicKey,
    pub round: u64,
    pub id: Digest,
    pub payload: Vec<(Digest, WorkerId)>,
    pub parents: Vec<Digest>,
    pub signature: Vec<u8>,
    pub timeout_cert: TimeoutCert,
    pub no_vote_cert: NoVoteCert,
}

/// A certified header, in the order consensus emits it.
#[derive(Clone, Debug)]
pub struct Certificate {
    pub header: Header,
}

/// What the output records for one batch digest of a payload.
#[derive(Clone, Debug, PartialEq, Eq)]
pub enum BatchContents {
    /// The batch's transactions, each in lowercase hexadecimal.
    Transactions(Vec<String>),
    /// The batch could not be fetched.
    Missing,
    /// The stored value is not a batch.
    Invalid,
}

/// The abstract value of `BatchContents`.
pub enum ContentsView {
    Transactions(Seq<Seq<char>>),
    Missing,
    Invalid,
}

impl DeepView for BatchContents {
    type V = ContentsView;

    open spec fn deep_view(&self) -> ContentsView {
        match self {
            BatchContents::Transactions(txs) => ContentsView::Transactions(txs.deep_view()),
            BatchContents::Missing => ContentsView::Missing,
            BatchContents::Invalid => ContentsView::Invalid,
        }
    }
}

/// A signature aggregate as recorded: its round, and each signer's key and
/// signature in base64.
#[derive(Clone, Debug, PartialEq, Eq)]
pub struct AggregateRecord {
    pub round: u64,
    pub signers: Vec<(String, String)>,
}

/// The output record of one certificate. Digests, keys and signatures are in
/// standard base64; payload and transactions keep the order of the payload.
#[derive(Clone, Debug, PartialEq, Eq)]
pub struct CertificateRecord {
    pub author: String,
    pub round: u64,
    pub id: String,
    pub payload: Vec<(String, WorkerId)>,
    pub transactions: Vec<(String, BatchContents)>,
    pub parents: Vec<String>,
    pub signature: String,
    pub timeout_cert: AggregateRecord,
    pub no_vote_cert: AggregateRecord,
}

/// The abstract value of a `CertificateRecord`.
pub struct RecordView {
    pub author: Seq<char>,
    pub round: u64,
    pub id: Seq<char>,
    pub payload: Seq<(Seq<char>, WorkerId)>,
    pub transactions: Seq<(Seq<char>, ContentsView)>,
    pub parents: Seq<Seq<char>>,
    pub signature: Seq<char>,
    pub timeout_cert: (u64, Seq<(Seq<char>, Seq<char>)>),
    pub no_vote_cert: (u64, Seq<(Seq<char>, Seq<char>)>),
}

impl View for CertificateRecord {
    type V = RecordView;

    open spec fn view(&self) -> RecordView {
        RecordView {
            author: self.author@,
            round: self.round,
            id: self.id@,
            payload: self.payload.deep_view(),
            transactions: self.transactions.deep_view(),
            parents: self.parents.deep_view(),
            signature: self.signature@,
            timeout_cert: (self.timeout_cert.round, self.timeout_cert.signers.deep_view()),
            no_vote_cert: (self.no_vote_cert.round, self.no_vote_cert.signers.deep_view()),
        }
    }
}

/// What is recorded for a batch given what could be fetched for its digest.
pub open spec fn contents_of(fetched: Option<Seq<u8>>) -> ContentsView {
    match fetched {
        None => ContentsView::Missing,
        Some(b) => match batch_of(b) {
            Some(txs) => ContentsView::Transactions(txs.map_values(|t: Seq<u8>| hex_of(t))),
            None => ContentsView::Invalid,
        },
    }
}

/// The bytes of an optional value.
pub open spec fn bytes_of(o: Option<Vec<u8>>) -> Option<Seq<u8>> {
    match o {
        Some(v) => Some(v@),
        None => None,
    }
}

/// The recorded signers of an aggregate.
pub open spec fn signers_of(s: Seq<(PublicKey, Vec<u8>)>) -> Seq<(Seq<char>, Seq<char>)> {
    s.map_values(|e: (PublicKey, Vec<u8>)| (base64_of(e.0.0@), base64_of(e.1@)))
}

/// The record of certificate header `h`, where `fetched[i]` is what could be
/// fetched for the `i`-th digest of its payload.
pub open spec fn record_of(h: Header, fetched: Seq<Option<Seq<u8>>>) -> RecordView {
    RecordView {
        author: base64_of(h.author.0@),
        round: h.round,
        id: base64_of(h.id.0@),
        payload: h.payload@.map_values(|e: (Digest, WorkerId)| (base64_of(e.0.0@), e.1)),
        transactions: Seq::new(
            h.payload@.len(),
            |i: int| (base64_of(h.payload@[i].0.0@), contents_of(fetched[i])),
        ),
        parents: h.parents@.map_values(|d: Digest| base64_of(d.0@)),
        signature: base64_of(h.signature@),
        timeout_cert: (h.timeout_cert.round, signers_of(h.timeout_cert.timeouts@)),
        no_vote_cert: (h.no_vote_cert.round, signers_of(h.no_vote_cert.no_votes@)),
    }
}

/// The path of the store of worker `id`, next to the primary's store at `base`.
pub open spec fn worker_store_path_of(base: Seq<char>, id: WorkerId) -> Seq<char> {
    base + seq!['-'] + decimal_of(id as nat)
}

/// Where worker `id` keeps its store: `{base}-{id}`.
pub fn worker_store_path(base: &str, id: WorkerId) -> (r: String)
    ensures
        r@ == worker_store_path_of(base@, id),
{
    let mut path = base.to_owned();
    path.append("-");
    let digits = to_decimal(id);
    path.append(digits.as_str());
    proof {
        reveal_strlit("-");
    }
    path
}

/// The next move in fetching a batch after its point read.
pub enum AfterRead {
    /// The batch was there.
    Fetched(Value),
    /// The batch is not there yet: wait for its first write.
    AwaitWrite,
    /// The read failed: record the batch as missing.
    GiveUp,
}

/// Decides the next move from the outcome of a batch's point read: a hit is
/// used, a miss waits for the write, an engine error gives up on the batch.
pub fn after_read<E>(read: Result<Option<Value>, E>) -> (r: AfterRead)
    ensures
        match read {
            Ok(Some(v)) => r == AfterRead::Fetched(v),
            Ok(None) => r is AwaitWrite,
            Err(_) => r is GiveUp,
        },
{
    match read {
        Ok(Some(v)) => AfterRead::Fetched(v),
        Ok(None) => AfterRead::AwaitWrite,
        Err(_) => AfterRead::GiveUp,
    }
}

/// What was fetched once the wait for a batch's write ended.
pub fn after_wait<E>(waited: Result<Value, E>) -> (r: Option<Value>)
    ensures
        match waited {
            Ok(v) => r == Some(v),
            Err(_) => r is None,
        },
{
    match waited {
        Ok(v) => Some(v),
        Err(_) => None,
    }
}

/// Hexadecimal text of each transaction, in order.
pub(crate) fn hex_all(txs: &Vec<Transaction>) -> (r: Vec<String>)
    ensures
        r.deep_view() == txs.deep_view().map_values(|t: Seq<u8>| hex_of(t)),
{
    let mut out: Vec<String> = Vec::new();
    let mut i: usize = 0;
    while i < txs.len()
        invariant
            i <= txs@.len(),
            out@.len() == i,
            forall|j: int| 0 <= j < i ==> #[trigger] out@[j]@ == hex_of(txs@[j]@),
        decreases txs.len() - i,
    {
        out.push(to_hex(txs[i].as_slice()));
        i = i + 1;
    }
    proof {
        assert forall|j: int| 0 <= j < txs@.len() implies #[trigger] txs.deep_view()[j]
            == txs@[j]@ by {
            assert(txs@[j].deep_view() =~= txs@[j]@);
        }
    }
    assert(out.deep_view() =~= txs.deep_view().map_values(|t: Seq<u8>| hex_of(t)));
    out
}

/// What is recorded for a batch given what could be fetched for its digest:
/// its transactions in hexadecimal, `Invalid` for a value that is not a batch,
/// `Missing` when nothing could be fetched.
pub fn batch_contents(fetched: &Option<Value>) -> (r: BatchContents)
    ensures
        r.deep_view() == contents_of(bytes_of(*fetched)),
{
    match fetched {
        None => BatchContents::Missing,
        Some(bytes) => match decode_batch(bytes.as_slice()) {
            Some(txs) => BatchContents::Transactions(hex_all(&txs)),
            None => BatchContents::Invalid,
        },
    }
}

/// Records the signers of an aggregate.
fn signer_records(signers: &Vec<(PublicKey, Vec<u8>)>) -> (r: Vec<(String, String)>)
    ensures
        r.deep_view() == signers_of(signers@),
{
    let mut out: Vec<(String, String)> = Vec::new();
    let mut i: usize = 0;
    while i < signers.len()
        invariant
            i <= signers@.len(),
            out@.len() == i,
            forall|j: int|
                0 <= j < i ==> #[trigger] out@[j].0@ == base64_of(signers@[j].0.0@) && out@[j].1@
                    == base64_of(signers@[j].1@),
        decreases signers.len() - i,
    {
        let key = to_base64(&signers[i].0.0);
        let signature = to_base64(signers[i].1.as_slice());
        out.push((key, signature));
        i = i + 1;
    }
    assert(out.deep_view() =~= signers_of(signers@));
    out
}

/// Records the digests of a list, in order.
fn digest_records(digests: &Vec<Digest>) -> (r: Vec<String>)
    ensures
        r.deep_view() == digests@.map_values(|d: Digest| base64_of(d.0@)),
{
    let mut out: Vec<String> = Vec::new();
    let mut i: usize = 0;
    while i < digests.len()
        invariant
            i <= digests@.len(),
            out@.len() == i,
            forall|j: int| 0 <= j < i ==> #[trigger] out@[j]@ == base64_of(digests@[j].0@),
        decreases digests.len() - i,
    {
        out.push(to_base64(&digests[i].0));
        i = i + 1;
    }
    assert(out.deep_view() =~= digests@.map_values(|d: Digest| base64_of(d.0@)));
    out
}

/// Builds the output record of a certificate header, where `fetched[i]` is
/// what could be fetched for the `i`-th digest of its payload.
pub fn build_record(header: &Header, fetched: &Vec<Option<Value>>) -> (r: CertificateRecord)
    requires
        fetched@.len() == header.payload@.len(),
    ensures
        r@ == record_of(*header, fetched@.map_values(|o: Option<Value>| bytes_of(o))),
{
    let ghost fetched_bytes = fetched@.map_values(|o: Option<Value>| bytes_of(o));
    let mut payload: Vec<(String, WorkerId)> = Vec::new();
    let mut transactions: Vec<(String, BatchContents)> = Vec::new();
    let mut i: usize = 0;
    while i < header.payload.len()
        invariant
            i <= header.payload@.len() == fetched@.len(),
            fetched_bytes == fetched@.map_values(|o: Option<Value>| bytes_of(o)),
            payload@.len() == i,
            transactions@.len() == i,
            forall|j: int|
                0 <= j < i ==> #[trigger] payload@[j].0@ == base64_of(header.payload@[j].0.0@)
                    && payload@[j].1 == header.payload@[j].1,
            forall|j: int|
                0 <= j < i ==> #[trigger] transactions@[j].0@ == base64_of(
                    header.payload@[j].0.0@,
                ) && transactions@[j].1.deep_view() == contents_of(fetched_bytes[j]),
        decreases header.payload.len() - i,
    {
        let digest = to_base64(&header.payload[i].0.0);
        let contents = batch_contents(&fetched[i]);
        payload.push((digest.clone(), header.payload[i].1));
        transactions.push((digest, contents));
        i = i + 1;
    }
    let record = CertificateRecord {
        author: to_base64(&header.author.0),
        round: header.round,
        id: to_base64(&header.id.0),
        payload,
        transactions,
        parents: digest_records(&header.parents),
        signature: to_base64(header.signature.as_slice()),
        timeout_cert: AggregateRecord {
            round: header.timeout_cert.round,
            signers: signer_records(&header.timeout_cert.timeouts),
        },
        no_vote_cert: AggregateRecord {
            round: header.no_vote_cert.round,
            signers: signer_records(&header.no_vote_cert.no_votes),
        },
    };
    proof {
        let spec_record = record_of(*header, fetched_bytes);
        assert(record.payload.deep_view() =~= spec_record.payload);
        assert(record.transactions.deep_view() =~= spec_record.transactions);
    }
    record
}

/// The ordered log of certificate records, in the order certificates arrived.
pub struct OutputLog {
    records: Vec<CertificateRecord>,
}

impl View for OutputLog {
    type V = Seq<RecordView>;

    closed spec fn view(&self) -> Seq<RecordView> {
        self.records@.map_values(|r: CertificateRecord| r@)
    }
}

impl OutputLog {
    /// An empty log.
    pub fn new() -> (r: Self)
        ensures
            r@ == Seq::<RecordView>::empty(),
    {
        let r = OutputLog { records: Vec::new() };
        assert(r@ =~= Seq::<RecordView>::empty());
        r
    }

    /// Records the next certificate in arrival order and returns its record.
    pub fn push_certificate(&mut self, certificate: &Certificate, fetched: &Vec<Option<Value>>) -> (r:
        &CertificateRecord)
        requires
            fetched@.len() == certificate.header.payload@.len(),
        ensures
            final(self)@ == old(self)@.push(
                record_of(certificate.header, fetched@.map_values(|o: Option<Value>| bytes_of(o))),
            ),
            r@ == record_of(
                certificate.header,
                fetched@.map_values(|o: Option<Value>| bytes_of(o)),
            ),
    {
        let record = build_record(&certificate.header, fetched);
        self.records.push(record);
        assert(self@ =~= old(self)@.push(self.records@.last()@));
        let n = self.records.len();
        &self.records[n - 1]
    }

    /// The records so far, oldest first.
    pub fn records(&self) -> (r: &Vec<CertificateRecord>)
        ensures
            r@.map_values(|c: CertificateRecord| c@) == self@,
    {
        &self.records
    }
}

/// The log after certificates with headers `headers` arrived in that order,
/// `fetched[i]` being what was fetched for the payload of `headers[i]`.
pub open spec fn log_of(headers: Seq<Header>, fetched: Seq<Seq<Option<Seq<u8>>>>) -> Seq<RecordView>
    decreases headers.len(),
{
    if headers.len() == 0 {
        Seq::empty()
    } else {
        log_of(headers.drop_last(), fetched.drop_last()).push(
            record_of(headers.last(), fetched.last()),
        )
    }
}

/// The log holds one record per certificate, in the order the certificates
/// arrived, and each record depends on its own certificate and fetched batches
/// alone; so equal inputs give equal logs.
pub proof fn lemma_log_in_arrival_order(
    headers: Seq<Header>,
    fetched: Seq<Seq<Option<Seq<u8>>>>,
)
    requires
        fetched.len() == headers.len(),
    ensures
        log_of(headers, fetched).len() == headers.len(),
        forall|i: int|
            0 <= i < headers.len() ==> #[trigger] log_of(headers, fetched)[i] == record_of(
                headers[i],
                fetched[i],
            ),
    decreases headers.len(),
{
    if headers.len() > 0 {
        lemma_log_in_arrival_order(headers.drop_last(), fetched.drop_last());
    }
}

proof fn lemma_notifiers_concat<W>(a: Seq<Command<W>>, b: Seq<Command<W>>, k: Seq<u8>)
    ensures
        notifiers(a + b, k) == notifiers(a, k) + notifiers(b, k),
    decreases b.len(),
{
    if b.len() == 0 {
        assert(a + b =~= a);
        assert(notifiers(a, k) + notifiers(b, k) =~= notifiers(a, k));
    } else {
        lemma_notifiers_concat(a, b.drop_last(), k);
        assert((a + b).drop_last() =~= a + b.drop_last());
        assert((a + b).last() == b.last());
        let na = notifiers(a, k);
        let nb = notifiers(b.drop_last(), k);
        match b.last() {
            Command::NotifyRead(k2, w) => {
                if k2 == k {
                    assert(na + nb.push(w) =~= (na + nb).push(w));
                }
            },
            _ => {},
        }
    }
}

/// A batch that is absent from its worker's store when its certificate
/// arrives, and written later, is recorded with the written value: the point
/// read misses, so the pipeline waits; the waiter is not answered before the
/// write; the first write of the digest answers it with exactly the written
/// value; and a fetched value is never recorded as missing.
pub proof fn lemma_late_batch_is_recorded<W>(
    s: StoreState<W>,
    w: W,
    later: Seq<Command<W>>,
    k: Seq<u8>,
    v: Seq<u8>,
)
    requires
        !s.contents.contains_key(k),
        !writes_key(later, k),
    ensures
        lookup(s, k) is None,
        delivered(s, Command::NotifyRead(k, w)).len() == 0,
        ({
            let released = delivered(
                run(step(s, Command::NotifyRead(k, w)), later),
                Command::Write(k, v),
            );
            let at = waiters_of(s.pending, k).len() as int;
            at < released.len() && released[at] == (w, v)
        }),
        !(contents_of(Some(v)) is Missing),
{
    let first = seq![Command::NotifyRead(k, w)];
    let cmds = first + later;
    assert(!writes_key(cmds, k)) by {
        if writes_key(cmds, k) {
            let i = choose|i: int|
                0 <= i < cmds.len() && (#[trigger] cmds[i] matches Command::Write(k2, _) && k2 == k);
            if i > 0 {
                assert(later[i - 1] == cmds[i]);
            }
        }
    }
    crate::store_model::lemma_notify_before_first_write(s, cmds, k, v);
    assert(run(s, first) == step(s, Command::NotifyRead(k, w))) by {
        assert(first.drop_last() =~= Seq::<Command<W>>::empty());
        assert(run(s, first.drop_last()) == s);
        assert(first.last() == Command::NotifyRead(k, w));
    }
    lemma_run_concat(s, first, later);
    lemma_notifiers_concat(first, later, k);
    assert(notifiers(first, k) == seq![w]) by {
        assert(first.drop_last() =~= Seq::<Command<W>>::empty());
        assert(notifiers(first.drop_last(), k) == Seq::<W>::empty());
        assert(first.last() == Command::NotifyRead(k, w));
        assert(Seq::<W>::empty().push(w) =~= seq![w]);
    }
}

proof fn lemma_run_concat<W>(s: StoreState<W>, a: Seq<Command<W>>, b: Seq<Command<W>>)
    ensures
        run(s, a + b) == run(run(s, a), b),
    decreases b.len(),
{
    if b.len() == 0 {
        assert(a + b =~= a);
    } else {
        lemma_run_concat(s, a, b.drop_last());
        assert((a + b).drop_last() =~= a + b.drop_last());
        assert((a + b).last() == b.last());
    }
}

} // verus!
