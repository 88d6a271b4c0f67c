use sailfish_node::committee::{
    Address, Authority, Committee, ConfigError, PrimaryAddresses, PublicKey, WorkerAddresses,
};

fn address(port: usize) -> Address {
    Address { host: "127.0.0.1".to_string(), port: port as u16 }
}

// Four deterministic authority keys.
fn keys() -> Vec<PublicKey> {
    (0..4u8).map(|i| PublicKey([i + 1; 32])).collect()
}

fn committee() -> Committee {
    Committee {
        authorities: keys()
            .iter()
            .enumerate()
            .map(|(i, id)| {
                let primary = PrimaryAddresses {
                    primary_to_primary: address(100 + i),
                    worker_to_primary: address(200 + i),
                };
                let workers = vec![(
                    0,
                    WorkerAddresses {
                        primary_to_worker: address(300 + i),
                        transactions: address(400 + i),
                        worker_to_worker: address(500 + i),
                    },
                )];
                (*id, Authority { stake: 1, primary, workers })
            })
            .collect(),
    }
}

#[test]
fn worker_returns_unknown_worker_error() {
    let committee = committee();
    let name = committee.authorities()[0].0;
    let result = committee.worker(&name, &1); // only worker 0 exists
    match result {
        Err(ConfigError::UnknownWorker(id)) => assert_eq!(id, 1),
        other => panic!("Unexpected result: {:?}", other),
    }
}

#[test]
fn worker_of_unknown_authority_is_rejected() {
    let committee = committee();
    let stranger = PublicKey([9; 32]);
    match committee.worker(&stranger, &0) {
        Err(ConfigError::UnknownAuthority(k)) => assert_eq!(k, stranger),
        other => panic!("Unexpected result: {:?}", other),
    }
}

#[test]
fn worker_lookup_returns_its_addresses() {
    let committee = committee();
    for (i, key) in keys().iter().enumerate() {
        let w = committee.worker(key, &0).unwrap();
        assert_eq!(w.primary_to_worker.port as usize, 300 + i);
        assert_eq!(w.transactions.port as usize, 400 + i);
        assert_eq!(w.worker_to_worker.port as usize, 500 + i);
        assert_eq!(w.transactions.host, "127.0.0.1");
    }
}

#[test]
fn primary_and_stake_lookups() {
    let committee = committee();
    let key = keys()[2];
    let p = committee.primary(&key).unwrap();
    assert_eq!(p.primary_to_primary.port, 102);
    assert_eq!(p.worker_to_primary.port, 202);
    assert_eq!(committee.stake(&key), 1);
    assert_eq!(committee.stake(&PublicKey([0; 32])), 0);
    match committee.primary(&PublicKey([0; 32])) {
        Err(ConfigError::UnknownAuthority(_)) => {}
        other => panic!("Unexpected result: {:?}", other),
    }
}

#[test]
fn new_accepts_a_valid_committee() {
    let members = committee().authorities;
    let built = Committee::new(members).unwrap();
    assert_eq!(built.authorities().len(), 4);
    assert!(built.worker(&keys()[3], &0).is_ok());
}

#[test]
fn new_rejects_a_repeated_key() {
    let mut members = committee().authorities;
    let copy = members[1].clone();
    members.push(copy);
    match Committee::new(members) {
        Err(ConfigError::DuplicateAuthority(k)) => assert_eq!(k, keys()[1]),
        _ => panic!("a repeated key must be refused"),
    }
}

#[test]
fn new_rejects_zero_stake() {
    let mut members = committee().authorities;
    members[0].1.stake = 0;
    match Committee::new(members) {
        Err(ConfigError::ZeroStake(k)) => assert_eq!(k, keys()[0]),
        _ => panic!("a zero stake must be refused"),
    }
}

#[test]
fn new_rejects_a_repeated_worker_id() {
    let mut members = committee().authorities;
    let again = members[2].1.workers[0].clone();
    members[2].1.workers.push(again);
    match Committee::new(members) {
        Err(ConfigError::DuplicateWorker(k, id)) => {
            assert_eq!(k, keys()[2]);
            assert_eq!(id, 0);
        }
        _ => panic!("a repeated worker id must be refused"),
    }
}

#[test]
fn worker_ids_need_not_be_dense() {
    let mut members = committee().authorities;
    let mut extra = members[0].1.workers[0].1.clone();
    extra.transactions.port = 4242;
    members[0].1.workers.push((7, extra));
    let committee = Committee::new(members).unwrap();
    assert_eq!(committee.worker(&keys()[0], &7).unwrap().transactions.port, 4242);
    match committee.worker(&keys()[0], &3) {
        Err(ConfigError::UnknownWorker(3)) => {}
        other => panic!("Unexpected result: {:?}", other),
    }
}
