use vstd::prelude::*;

verus! {

/// Numeric identifier of a worker of one authority; ids need not be dense.
pub type WorkerId = u32;

/// Voting weight of an authority.
pub type Stake = u32;

/// The public key that identifies an authority.
#[derive(Clone, Copy, Debug, PartialEq, Eq, Hash, PartialOrd, Ord)]
pub struct PublicKey(pub [u8; 32]);

/// A network endpoint, `host:port`.
#[derive(Clone, Debug)]
pub struct Address {
    pub host: String,
    pub port: u16,
}

/// The endpoints of an authority's primary.
#[derive(Clone, Debug)]
pub struct PrimaryAddresses {
    pub primary_to_primary: Address,
    pub worker_to_primary: Address,
}

/// The endpoints of one worker.
#[derive(Clone, Debug)]
pub struct WorkerAddresses {
    pub primary_to_worker: Address,
    pub transactions: Address,
    pub worker_to_worker: Address,
}

/// One committee member: its stake, its primary and its workers.
#[derive(Clone, Debug)]
pub struct Authority {
    pub stake: Stake,
    pub primary: PrimaryAddresses,
    pub workers: Vec<(WorkerId, WorkerAddresses)>,
}

/// What a lookup in, or the construction of, a committee can fail with.
#[derive(Debug, PartialEq, Eq)]
pub enum ConfigError {
    UnknownAuthority(PublicKey),
    UnknownWorker(WorkerId),
    DuplicateAuthority(PublicKey),
    DuplicateWorker(PublicKey, WorkerId),
    ZeroStake(PublicKey),
}

/// The fixed membership of a run: authority key to authority record.
pub struct Committee {
    pub authorities: Vec<(PublicKey, Authority)>,
}

/// An association list read as a map; the first entry of a key is the one that counts.
pub open spec fn assoc<K, V>(s: Seq<(K, V)>) -> Map<K, V>
    decreases s.len(),
{
    if s.len() == 0 {
        Map::empty()
    } else {
        assoc(s.drop_first()).insert(s[0].0, s[0].1)
    }
}

/// No key occurs twice in the association list.
pub open spec fn keys_unique<K, V>(s: Seq<(K, V)>) -> bool {
    forall|i: int, j: int| 0 <= i < j < s.len() ==> s[i].0 != s[j].0
}

proof fn lemma_assoc_absent<K, V>(s: Seq<(K, V)>, k: K)
    requires
        forall|i: int| 0 <= i < s.len() ==> s[i].0 != k,
    ensures
        !assoc(s).contains_key(k),
    decreases s.len(),
{
    if s.len() > 0 {
        let t = s.drop_first();
        assert forall|i: int| 0 <= i < t.len() implies t[i].0 != k by {
            assert(t[i] == s[i + 1]);
        }
        lemma_assoc_absent(t, k);
    }
}

proof fn lemma_assoc_first<K, V>(s: Seq<(K, V)>, i: int)
    requires
        0 <= i < s.len(),
        forall|j: int| 0 <= j < i ==> s[j].0 != s[i].0,
    ensures
        assoc(s).contains_key(s[i].0),
        assoc(s)[s[i].0] == s[i].1,
    decreases s.len(),
{
    if i > 0 {
        let t = s.drop_first();
        assert(t[i - 1] == s[i]);
        assert forall|j: int| 0 <= j < i - 1 implies #[trigger] t[j].0 != t[i - 1].0 by {
            assert(t[j] == s[j + 1]);
        }
        lemma_assoc_first(t, i - 1);
    }
}

impl Authority {
    /// The worker table of this authority as a map.
    pub open spec fn worker_map(&self) -> Map<WorkerId, WorkerAddresses> {
        assoc(self.workers@)
    }

    /// Looks up one of this authority's workers by id.
    pub fn worker(&self, id: WorkerId) -> (r: Option<&WorkerAddresses>)
        ensures
            r is Some <==> self.worker_map().contains_key(id),
            r matches Some(w) ==> *w == self.worker_map()[id],
    {
        let mut i: usize = 0;
        while i < self.workers.len()
            invariant
                i <= self.workers.len(),
                forall|j: int| 0 <= j < i ==> self.workers@[j].0 != id,
            decreases self.workers.len() - i,
        {
            if self.workers[i].0 == id {
                proof {
                    lemma_assoc_first(self.workers@, i as int);
                }
                return Some(&self.workers[i].1);
            }
            i = i + 1;
        }
        proof {
            lemma_assoc_absent(self.workers@, id);
        }
        None
    }
}

/// Whether two keys are the same, byte for byte.
fn same_key(a: &PublicKey, b: &PublicKey) -> (r: bool)
    ensures
        r == (*a == *b),
{
    let mut i: usize = 0;
    while i < 32
        invariant
            i <= 32,
            forall|j: int| 0 <= j < i ==> a.0[j] == b.0[j],
        decreases 32 - i,
    {
        if a.0[i] != b.0[i] {
            return false;
        }
        i = i + 1;
    }
    assert(a.0 =~= b.0);
    true
}

impl Committee {
    /// The membership table: authority key to authority record.
    pub open spec fn authority_map(&self) -> Map<PublicKey, Authority> {
        assoc(self.authorities@)
    }

    /// Keys are unique, stakes are positive, and worker ids are unique per authority.
    pub open spec fn well_formed(&self) -> bool {
        &&& keys_unique(self.authorities@)
        &&& forall|i: int|
            0 <= i < self.authorities@.len() ==> #[trigger] valid_authority(self.authorities@[i].1)
    }

    /// Builds a committee from its members, rejecting a repeated key, a repeated
    /// worker id within one authority, and a zero stake.
    pub fn new(authorities: Vec<(PublicKey, Authority)>) -> (r: Result<Committee, ConfigError>)
        ensures
            r is Ok <==> (keys_unique(authorities@) && forall|i: int|
                0 <= i < authorities@.len() ==> #[trigger] valid_authority(authorities@[i].1)),
            r matches Ok(c) ==> c.authorities@ == authorities@ && c.well_formed(),
            r matches Err(e) ==> match e {
                ConfigError::DuplicateAuthority(k) => exists|i: int, j: int|
                    0 <= i < j < authorities@.len() && authorities@[i].0 == k
                        && authorities@[j].0 == k,
                ConfigError::ZeroStake(k) => exists|i: int|
                    0 <= i < authorities@.len() && authorities@[i].0 == k
                        && authorities@[i].1.stake == 0,
                ConfigError::DuplicateWorker(k, id) => exists|i: int|
                    0 <= i < authorities@.len() && authorities@[i].0 == k && repeats_worker(
                        authorities@[i].1.workers@,
                        id,
                    ),
                _ => false,
            },
    {
        let mut i: usize = 0;
        while i < authorities.len()
            invariant
                i <= authorities.len(),
                forall|a: int, b: int| 0 <= a < b < i ==> authorities@[a].0 != authorities@[b].0,
                forall|a: int| 0 <= a < i ==> #[trigger] valid_authority(authorities@[a].1),
            decreases authorities.len() - i,
        {
            let key = &authorities[i].0;
            let mut j: usize = 0;
            while j < i
                invariant
                    j <= i < authorities.len(),
                    *key == authorities@[i as int].0,
                    forall|a: int| 0 <= a < j ==> authorities@[a].0 != authorities@[i as int].0,
                decreases i - j,
            {
                if same_key(&authorities[j].0, key) {
                    assert(!keys_unique(authorities@)) by {
                        assert(authorities@[j as int].0 == authorities@[i as int].0);
                    }
                    return Err(ConfigError::DuplicateAuthority(*key));
                }
                j = j + 1;
            }
            let authority = &authorities[i].1;
            if authority.stake == 0 {
                assert(!valid_authority(authorities@[i as int].1));
                return Err(ConfigError::ZeroStake(*key));
            }
            match first_repeated_worker(&authority.workers) {
                Some(id) => {
                    assert(!valid_authority(authorities@[i as int].1));
                    assert(authorities@[i as int].0 == *key);
                    return Err(ConfigError::DuplicateWorker(*key, id));
                },
                None => {},
            }
            i = i + 1;
        }
        Ok(Committee { authorities })
    }

    /// The members in the order they were given.
    pub fn authorities(&self) -> (r: &Vec<(PublicKey, Authority)>)
        ensures
            r@ == self.authorities@,
    {
        &self.authorities
    }

    /// Looks up an authority by key.
    pub fn authority(&self, name: &PublicKey) -> (r: Result<&Authority, ConfigError>)
        ensures
            r is Ok <==> self.authority_map().contains_key(*name),
            r matches Ok(a) ==> *a == self.authority_map()[*name],
            r matches Err(e) ==> e == ConfigError::UnknownAuthority(*name),
    {
        let mut i: usize = 0;
        while i < self.authorities.len()
            invariant
                i <= self.authorities.len(),
                forall|j: int| 0 <= j < i ==> self.authorities@[j].0 != *name,
            decreases self.authorities.len() - i,
        {
            if same_key(&self.authorities[i].0, name) {
                proof {
                    lemma_assoc_first(self.authorities@, i as int);
                }
                return Ok(&self.authorities[i].1);
            }
            i = i + 1;
        }
        proof {
            lemma_assoc_absent(self.authorities@, *name);
        }
        Err(ConfigError::UnknownAuthority(*name))
    }

    /// The stake of an authority; zero for a key outside the committee.
    pub fn stake(&self, name: &PublicKey) -> (r: Stake)
        ensures
            r == (if self.authority_map().contains_key(*name) {
                self.authority_map()[*name].stake
            } else {
                0
            }),
    {
        match self.authority(name) {
            Ok(a) => a.stake,
            Err(_) => 0,
        }
    }

    /// The primary endpoints of an authority.
    pub fn primary(&self, to: &PublicKey) -> (r: Result<&PrimaryAddresses, ConfigError>)
        ensures
            r is Ok <==> self.authority_map().contains_key(*to),
            r matches Ok(p) ==> *p == self.authority_map()[*to].primary,
            r matches Err(e) ==> e == ConfigError::UnknownAuthority(*to),
    {
        match self.authority(to) {
            Ok(a) => Ok(&a.primary),
            Err(e) => Err(e),
        }
    }

    /// The endpoints of worker `id` of authority `to`.
    pub fn worker(&self, to: &PublicKey, id: &WorkerId) -> (r: Result<
        &WorkerAddresses,
        ConfigError,
    >)
        ensures
            r is Ok <==> (self.authority_map().contains_key(*to)
                && self.authority_map()[*to].worker_map().contains_key(*id)),
            r matches Ok(w) ==> *w == self.authority_map()[*to].worker_map()[*id],
            r matches Err(e) ==> (if self.authority_map().contains_key(*to) {
                e == ConfigError::UnknownWorker(*id)
            } else {
                e == ConfigError::UnknownAuthority(*to)
            }),
    {
        match self.authority(to) {
            Ok(a) => match a.worker(*id) {
                Some(w) => Ok(w),
                None => Err(ConfigError::UnknownWorker(*id)),
            },
            Err(e) => Err(e),
        }
    }
}

/// An authority record that a committee accepts.
pub open spec fn valid_authority(a: Authority) -> bool {
    a.stake >= 1 && keys_unique(a.workers@)
}

/// Worker id `id` occurs at least twice in the table.
pub open spec fn repeats_worker(workers: Seq<(WorkerId, WorkerAddresses)>, id: WorkerId) -> bool {
    exists|a: int, b: int| 0 <= a < b < workers.len() && workers[a].0 == id && workers[b].0 == id
}

/// The first worker id that occurs a second time in the table, if any.
fn first_repeated_worker(workers: &Vec<(WorkerId, WorkerAddresses)>) -> (r: Option<WorkerId>)
    ensures
        r is None <==> keys_unique(workers@),
        r matches Some(id) ==> repeats_worker(workers@, id),
{
    let mut i: usize = 0;
    while i < workers.len()
        invariant
            i <= workers.len(),
            forall|a: int, b: int| 0 <= a < b < i ==> workers@[a].0 != workers@[b].0,
        decreases workers.len() - i,
    {
        let mut j: usize = 0;
        while j < i
            invariant
                j <= i < workers.len(),
                forall|a: int| 0 <= a < j ==> workers@[a].0 != workers@[i as int].0,
            decreases i - j,
        {
            if workers[j].0 == workers[i].0 {
                assert(repeats_worker(workers@, workers@[i as int].0)) by {
                    assert(workers@[j as int].0 == workers@[i as int].0);
                }
                return Some(workers[i].0);
            }
            j = j + 1;
        }
        i = i + 1;
    }
    None
}

} // verus!
