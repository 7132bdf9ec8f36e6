//! Server state: role, replication identity and offset, the registered
//! replica connections, and the keyspace.
use vstd::prelude::*;
use rand::Rng;
use crate::handshake::string_of_bytes;
use crate::keyspace::{expiry_after, expired, Keyspace};

verus! {

/// Length of a replication id.
pub const REPLID_LEN: usize = 40;

#[derive(Clone, Copy, Debug, PartialEq, Eq, Structural)]
pub enum Role {
    Master,
    Slave,
}

pub open spec fn role_name(r: Role) -> Seq<char> {
    match r {
        Role::Master => "master"@,
        Role::Slave => "slave"@,
    }
}

pub open spec fn is_alphanumeric_byte(b: u8) -> bool {
    (48 <= b <= 57) || (65 <= b <= 90) || (97 <= b <= 122)
}

pub open spec fn is_alphanumeric_char(c: char) -> bool {
    ('0' <= c <= '9') || ('A' <= c <= 'Z') || ('a' <= c <= 'z')
}

/// A registered replica: the handle of its connection, which the host
/// program maps to a socket, and its replication offset.
#[derive(Clone, Copy, Debug, PartialEq, Eq, Structural)]
pub struct SlaveConnection {
    pub stream: u64,
    pub offset: u64,
}

impl SlaveConnection {
    pub fn new(stream: u64, offset: u64) -> (r: SlaveConnection)
        ensures
            r.stream == stream,
            r.offset == offset,
    {
        SlaveConnection { stream, offset }
    }

    pub fn stream(&self) -> (r: u64)
        ensures
            r == self.stream,
    {
        self.stream
    }

    pub fn offset(&self) -> (r: u64)
        ensures
            r == self.offset,
    {
        self.offset
    }
}

/// Relies on rand: `rand::rng()` is the thread-local generator and sampling
/// `rand::distr::Alphanumeric` from it yields one byte of `A-Z`, `a-z` or `0-9`.
#[verifier::external_body]
fn random_alphanumeric() -> (b: u8)
    ensures
        is_alphanumeric_byte(b),
{
    rand::rng().sample(rand::distr::Alphanumeric)
}

/// Relies on `String::push`, which appends one character.
#[verifier::external_body]
pub(crate) fn push_char(s: &mut String, c: char)
    ensures
        final(s)@ == old(s)@.push(c),
{
    s.push(c);
}

/// A fresh replication id: `REPLID_LEN` random alphanumeric characters.
pub fn generate_replid() -> (r: String)
    ensures
        r@.len() == REPLID_LEN,
        forall|i: int| 0 <= i < r@.len() ==> is_alphanumeric_char(#[trigger] r@[i]),
{
    let mut drawn: Vec<u8> = Vec::new();
    let mut i: usize = 0;
    while i < REPLID_LEN
        invariant
            i <= REPLID_LEN,
            drawn@.len() == i,
            forall|j: int| 0 <= j < drawn@.len() ==> is_alphanumeric_byte(#[trigger] drawn@[j]),
        decreases REPLID_LEN - i,
    {
        drawn.push(random_alphanumeric());
        i = i + 1;
    }
    let r = string_of_bytes(drawn.as_slice());
    assert forall|j: int| 0 <= j < r@.len() implies is_alphanumeric_char(#[trigger] r@[j]) by {
        assert(r@[j] == drawn@[j] as char);
        assert(is_alphanumeric_byte(drawn@[j]));
    }
    r
}

pub struct Environment {
    role: Role,
    port: u16,
    master_replid: String,
    master_repl_offset: u64,
    master_host: Option<String>,
    master_port: Option<u16>,
    slaves: Vec<SlaveConnection>,
    values: Keyspace,
}

impl Environment {
    pub closed spec fn spec_role(&self) -> Role {
        self.role
    }

    pub closed spec fn spec_port(&self) -> u16 {
        self.port
    }

    pub closed spec fn spec_replid(&self) -> Seq<char> {
        self.master_replid@
    }

    pub closed spec fn spec_offset(&self) -> u64 {
        self.master_repl_offset
    }

    pub closed spec fn spec_master(&self) -> Option<(Seq<char>, u16)> {
        match (&self.master_host, self.master_port) {
            (Some(h), Some(p)) => Some((h@, p)),
            _ => None,
        }
    }

    pub closed spec fn spec_slaves(&self) -> Seq<SlaveConnection> {
        self.slaves@
    }

    pub closed spec fn spec_values(&self) -> Map<Seq<u8>, (Seq<u8>, Option<u64>)> {
        self.values@
    }

    /// The keyspace keeps its keys unique, a replica has no replicas of its
    /// own, and only a replica knows a primary.
    pub closed spec fn wf(&self) -> bool {
        &&& self.values.wf()
        &&& self.role == Role::Slave ==> self.slaves@.len() == 0
        &&& self.master_host is Some <==> self.master_port is Some
        &&& self.master_host is Some ==> self.role == Role::Slave
    }

    /// Same role, identity, replicas and primary; the keyspace may differ.
    pub open spec fn same_but_values(&self, other: &Environment) -> bool {
        &&& self.spec_role() == other.spec_role()
        &&& self.spec_port() == other.spec_port()
        &&& self.spec_replid() == other.spec_replid()
        &&& self.spec_offset() == other.spec_offset()
        &&& self.spec_master() == other.spec_master()
        &&& self.spec_slaves() == other.spec_slaves()
    }

    /// A server in `role` listening on `port`, with a fresh random
    /// replication id, offset 0, no replicas and an empty keyspace.
    pub fn new(role: Role, port: u16) -> (r: Environment)
        ensures
            r.wf(),
            r.spec_role() == role,
            r.spec_port() == port,
            r.spec_replid().len() == REPLID_LEN,
            forall|i: int|
                0 <= i < r.spec_replid().len() ==> is_alphanumeric_char(#[trigger] r.spec_replid()[i]),
            r.spec_offset() == 0,
            r.spec_master() is None,
            r.spec_slaves().len() == 0,
            r.spec_values() == Map::<Seq<u8>, (Seq<u8>, Option<u64>)>::empty(),
    {
        Environment {
            role,
            port,
            master_replid: generate_replid(),
            master_repl_offset: 0,
            master_host: None,
            master_port: None,
            slaves: Vec::new(),
            values: Keyspace::new(),
        }
    }

    /// A replica listening on `port` that follows the primary at
    /// `master_host:master_port`.
    pub fn replica_of(port: u16, master_host: String, master_port: u16) -> (r: Environment)
        ensures
            r.wf(),
            r.spec_role() == Role::Slave,
            r.spec_port() == port,
            r.spec_replid().len() == REPLID_LEN,
            r.spec_offset() == 0,
            r.spec_master() == Some((master_host@, master_port)),
            r.spec_slaves().len() == 0,
            r.spec_values() == Map::<Seq<u8>, (Seq<u8>, Option<u64>)>::empty(),
    {
        Environment {
            role: Role::Slave,
            port,
            master_replid: generate_replid(),
            master_repl_offset: 0,
            master_host: Some(master_host),
            master_port: Some(master_port),
            slaves: Vec::new(),
            values: Keyspace::new(),
        }
    }

    /// The role's name on the wire: `master` or `slave`.
    pub fn role(&self) -> (r: &'static str)
        ensures
            r@ == role_name(self.spec_role()),
    {
        match self.role {
            Role::Master => "master",
            Role::Slave => "slave",
        }
    }

    pub fn is_master(&self) -> (r: bool)
        ensures
            r == (self.spec_role() == Role::Master),
    {
        self.role == Role::Master
    }

    pub fn port(&self) -> (r: u16)
        ensures
            r == self.spec_port(),
    {
        self.port
    }

    pub fn master_replid(&self) -> (r: &str)
        ensures
            r@ == self.spec_replid(),
    {
        self.master_replid.as_str()
    }

    pub fn master_repl_offset(&self) -> (r: u64)
        ensures
            r == self.spec_offset(),
    {
        self.master_repl_offset
    }

    pub fn master_host(&self) -> (r: Option<&str>)
        ensures
            match self.spec_master() {
                Some((h, _)) => r matches Some(s) && s@ == h,
                None => r is None,
            },
    {
        match (&self.master_host, self.master_port) {
            (Some(h), Some(_)) => Some(h.as_str()),
            _ => None,
        }
    }

    pub fn master_port(&self) -> (r: Option<u16>)
        ensures
            match self.spec_master() {
                Some((_, p)) => r == Some(p),
                None => r is None,
            },
    {
        match (&self.master_host, self.master_port) {
            (Some(_), Some(p)) => Some(p),
            _ => None,
        }
    }

    pub fn set_master_replid(&mut self, replid: String)
        requires
            old(self).wf(),
        ensures
            final(self).wf(),
            final(self).spec_replid() == replid@,
            final(self).spec_role() == old(self).spec_role(),
            final(self).spec_port() == old(self).spec_port(),
            final(self).spec_offset() == old(self).spec_offset(),
            final(self).spec_master() == old(self).spec_master(),
            final(self).spec_slaves() == old(self).spec_slaves(),
            final(self).spec_values() == old(self).spec_values(),
    {
        self.master_replid = replid;
    }

    pub fn set_master_repl_offset(&mut self, offset: u64)
        requires
            old(self).wf(),
        ensures
            final(self).wf(),
            final(self).spec_offset() == offset,
            final(self).spec_role() == old(self).spec_role(),
            final(self).spec_port() == old(self).spec_port(),
            final(self).spec_replid() == old(self).spec_replid(),
            final(self).spec_master() == old(self).spec_master(),
            final(self).spec_slaves() == old(self).spec_slaves(),
            final(self).spec_values() == old(self).spec_values(),
    {
        self.master_repl_offset = offset;
    }

    /// Registers a replica at the end of the list. Only a primary has
    /// replicas.
    pub fn add_slave(&mut self, stream: u64, offset: u64)
        requires
            old(self).wf(),
            old(self).spec_role() == Role::Master,
        ensures
            final(self).wf(),
            final(self).spec_slaves() == old(self).spec_slaves().push(
                SlaveConnection { stream, offset },
            ),
            final(self).spec_role() == old(self).spec_role(),
            final(self).spec_port() == old(self).spec_port(),
            final(self).spec_replid() == old(self).spec_replid(),
            final(self).spec_offset() == old(self).spec_offset(),
            final(self).spec_master() == old(self).spec_master(),
            final(self).spec_values() == old(self).spec_values(),
    {
        self.slaves.push(SlaveConnection { stream, offset });
    }

    /// The replicas in registration order.
    pub fn slaves(&self) -> (r: &Vec<SlaveConnection>)
        ensures
            r@ == self.spec_slaves(),
    {
        &self.slaves
    }

    /// The first registered replica on connection `stream`.
    pub fn get_slave(&self, stream: u64) -> (r: Option<&SlaveConnection>)
        ensures
            match r {
                Some(c) => exists|i: int|
                    0 <= i < self.spec_slaves().len() && self.spec_slaves()[i] == *c && c.stream
                        == stream && forall|j: int|
                        0 <= j < i ==> (#[trigger] self.spec_slaves()[j]).stream != stream,
                None => forall|i: int|
                    0 <= i < self.spec_slaves().len() ==> (#[trigger] self.spec_slaves()[i]).stream
                        != stream,
            },
    {
        let mut i: usize = 0;
        while i < self.slaves.len()
            invariant
                i <= self.slaves@.len(),
                forall|j: int| 0 <= j < i ==> (#[trigger] self.slaves@[j]).stream != stream,
            decreases self.slaves@.len() - i,
        {
            if self.slaves[i].stream == stream {
                assert(self.spec_slaves()[i as int] == self.slaves@[i as int]);
                return Some(&self.slaves[i]);
            }
            i = i + 1;
        }
        None
    }

    /// Drops every replica registered on connection `stream`, keeping the
    /// order of the others.
    pub fn remove_slave(&mut self, stream: u64)
        requires
            old(self).wf(),
        ensures
            final(self).wf(),
            final(self).spec_slaves() == old(self).spec_slaves().filter(
                |c: SlaveConnection| c.stream != stream,
            ),
            final(self).spec_role() == old(self).spec_role(),
            final(self).spec_port() == old(self).spec_port(),
            final(self).spec_replid() == old(self).spec_replid(),
            final(self).spec_offset() == old(self).spec_offset(),
            final(self).spec_master() == old(self).spec_master(),
            final(self).spec_values() == old(self).spec_values(),
    {
        let ghost pred = |c: SlaveConnection| c.stream != stream;
        let mut kept: Vec<SlaveConnection> = Vec::new();
        let mut i: usize = 0;
        reveal(Seq::filter);
        assert(self.slaves@.subrange(0, 0).filter(pred) =~= Seq::<SlaveConnection>::empty());
        while i < self.slaves.len()
            invariant
                i <= self.slaves@.len(),
                kept@ == self.slaves@.subrange(0, i as int).filter(pred),
                pred == (|c: SlaveConnection| c.stream != stream),
            decreases self.slaves@.len() - i,
        {
            let c = self.slaves[i];
            assert(self.slaves@.subrange(0, i + 1).drop_last() =~= self.slaves@.subrange(0, i as int));
            let ghost next = self.slaves@.subrange(0, i + 1);
            assert(next.last() == c);
            assert(pred(c) == (c.stream != stream));
            reveal(Seq::filter);
            assert(next.filter(pred) == if pred(c) {
                next.drop_last().filter(pred).push(c)
            } else {
                next.drop_last().filter(pred)
            });
            if c.stream != stream {
                kept.push(c);
            }
            i = i + 1;
        }
        assert(self.slaves@.subrange(0, i as int) =~= self.slaves@);
        self.slaves = kept;
        proof {
            self.slaves@.lemma_filter_len(pred);
        }
    }

    /// Stores `value` under `key`; with `px`, it expires `px` milliseconds
    /// after `now`. Any earlier entry of the key, expiry included, is replaced.
    pub fn set(&mut self, key: Vec<u8>, value: Vec<u8>, px: Option<u64>, now: u64)
        requires
            old(self).wf(),
        ensures
            final(self).wf(),
            final(self).same_but_values(old(self)),
            final(self).spec_values() == old(self).spec_values().insert(
                key@,
                (value@, expiry_after(now, px)),
            ),
    {
        let expires_at = match px {
            Some(ms) => Some(now.saturating_add(ms)),
            None => None,
        };
        self.values.insert(key, value, expires_at);
    }

    /// The value under `key` at instant `now`; an entry expired by then is
    /// removed and reads as absent.
    pub fn get(&mut self, key: &[u8], now: u64) -> (r: Option<Vec<u8>>)
        requires
            old(self).wf(),
        ensures
            final(self).wf(),
            final(self).same_but_values(old(self)),
            !old(self).spec_values().contains_key(key@) ==> r is None && final(self).spec_values()
                == old(self).spec_values(),
            old(self).spec_values().contains_key(key@) && expired(
                old(self).spec_values()[key@].1,
                now,
            ) ==> r is None && final(self).spec_values() == old(self).spec_values().remove(key@),
            old(self).spec_values().contains_key(key@) && !expired(
                old(self).spec_values()[key@].1,
                now,
            ) ==> (r matches Some(v) && v@ == old(self).spec_values()[key@].0
                && final(self).spec_values() == old(self).spec_values()),
    {
        self.values.get(key, now)
    }
}

} // verus!
