use miniredis::environment::{generate_replid, Environment, Role, SlaveConnection};
use miniredis::keyspace::Keyspace;

#[test]
fn fresh_replid_is_forty_alphanumerics() {
    let a = generate_replid();
    assert_eq!(a.len(), 40);
    assert!(a.chars().all(|c| c.is_ascii_alphanumeric()));
    let b = generate_replid();
    assert_ne!(a, b);
    let env = Environment::new(Role::Master, 6379);
    assert_eq!(env.master_replid().len(), 40);
    assert_eq!(env.master_repl_offset(), 0);
    assert_eq!(env.role(), "master");
    assert!(env.slaves().is_empty());
    assert_eq!(env.master_host(), None);
}

#[test]
fn second_set_overwrites_value_and_expiry() {
    let mut env = Environment::new(Role::Master, 1);
    env.set(b"k".to_vec(), b"one".to_vec(), Some(10), 100);
    env.set(b"k".to_vec(), b"two".to_vec(), None, 100);
    assert_eq!(env.get(b"k", 1_000_000), Some(b"two".to_vec()));
    env.set(b"k".to_vec(), b"three".to_vec(), Some(10), 100);
    assert_eq!(env.get(b"k", 109), Some(b"three".to_vec()));
    assert_eq!(env.get(b"k", 110), None);
    assert_eq!(env.get(b"k", 0), None);
}

#[test]
fn expiry_saturates_at_the_end_of_the_clock() {
    let mut env = Environment::new(Role::Master, 1);
    env.set(b"k".to_vec(), b"v".to_vec(), Some(u64::MAX), 5);
    assert_eq!(env.get(b"k", u64::MAX - 1), Some(b"v".to_vec()));
}

#[test]
fn own_writes_survive_other_keys() {
    let mut env = Environment::new(Role::Master, 1);
    for i in 0..20u8 {
        env.set(vec![b'k', i], vec![b'v', i], None, 0);
    }
    for i in 0..20u8 {
        assert_eq!(env.get(&[b'k', i], 0), Some(vec![b'v', i]));
    }
    assert_eq!(env.get(b"missing", 0), None);
}

#[test]
fn keyspace_insert_remove() {
    let mut ks = Keyspace::new();
    ks.insert(b"a".to_vec(), b"1".to_vec(), None);
    ks.insert(b"b".to_vec(), b"2".to_vec(), Some(3));
    ks.remove(b"a");
    assert_eq!(ks.get(b"a", 0), None);
    assert_eq!(ks.get(b"b", 2), Some(b"2".to_vec()));
    assert_eq!(ks.get(b"b", 3), None);
    ks.remove(b"zzz");
}

#[test]
fn replica_registry() {
    let mut env = Environment::new(Role::Master, 1);
    env.add_slave(4, 0);
    env.add_slave(9, 3);
    env.add_slave(4, 1);
    assert_eq!(env.get_slave(9), Some(&SlaveConnection::new(9, 3)));
    assert_eq!(env.get_slave(4).map(|s| s.offset()), Some(0));
    assert_eq!(env.get_slave(1), None);
    env.remove_slave(4);
    assert_eq!(env.slaves().len(), 1);
    assert_eq!(env.slaves()[0].stream(), 9);
    env.set_master_repl_offset(42);
    assert_eq!(env.master_repl_offset(), 42);
}
