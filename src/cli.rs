//! The launcher's options, as the host program hands them over, and the
//! server state they call for.
use vstd::prelude::*;
use vstd::string::StringSliceAdditionalSpecFns;
use vstd::utf8::encode_utf8;
use crate::environment::{Environment, Role};
use crate::handshake::{chars_of, string_of_bytes};
use crate::resp2::{parse_u64, parse_u64_bytes};
use crate::codec::copy_range;

verus! {

/// The default listening port.
pub const DEFAULT_PORT: u16 = 6379;

pub struct Cli {
    pub port: u16,
    /// `"<host> <port>"` of the primary to follow, if any.
    pub replicaof: Option<String>,
    pub command: Option<CLICommand>,
}

pub enum CLICommand {
    Info { section: String },
}

/// The first space at or after `i`.
pub open spec fn space_from(s: Seq<u8>, i: int) -> Option<int>
    decreases s.len() - i,
{
    if i < 0 || i >= s.len() {
        None
    } else if s[i] == 32 {
        Some(i)
    } else {
        space_from(s, i + 1)
    }
}

/// The host and port of `"<host> <port>"`: the host is the non-empty ASCII
/// text before the first space, the port a non-zero decimal `u16` after it.
pub open spec fn replicaof_target(s: Seq<u8>) -> Option<(Seq<u8>, u16)> {
    match space_from(s, 0) {
        None => None,
        Some(i) => {
            let host = s.subrange(0, i);
            match parse_u64(s.subrange(i + 1, s.len() as int)) {
                Some(p) => if i > 0 && (forall|j: int| 0 <= j < i ==> #[trigger] s[j] < 128) && 0
                    < p <= 65535 {
                    Some((host, p as u16))
                } else {
                    None
                },
                None => None,
            }
        },
    }
}

fn find_space(s: &[u8]) -> (r: Option<usize>)
    ensures
        match space_from(s@, 0) {
            Some(i) => r == Some(i as usize) && 0 <= i < s@.len(),
            None => r is None,
        },
        s@.len() <= usize::MAX,
{
    let mut i: usize = 0;
    while i < s.len()
        invariant
            i <= s@.len(),
            space_from(s@, 0) == space_from(s@, i as int),
        decreases s@.len() - i,
    {
        if s[i] == 32 {
            return Some(i);
        }
        i = i + 1;
    }
    None
}

/// The primary named by a `--replicaof` value.
pub fn parse_replicaof(value: &str) -> (r: Option<(String, u16)>)
    ensures
        match replicaof_target(value.spec_bytes()) {
            Some((h, p)) => r matches Some((hs, pp)) && hs@ == chars_of(h) && pp == p,
            None => r is None,
        },
{
    let s = value.as_bytes();
    let i = match find_space(s) {
        None => {
            return None;
        },
        Some(i) => i,
    };
    let digits = copy_range(s, i + 1, s.len());
    let p = match parse_u64_bytes(digits.as_slice()) {
        None => {
            return None;
        },
        Some(p) => p,
    };
    if i == 0 || p == 0 || p > 65535 {
        return None;
    }
    let mut j: usize = 0;
    while j < i
        invariant
            j <= i < s@.len(),
            s@ == value.spec_bytes(),
            space_from(s@, 0) == Some(i as int),
            parse_u64(s@.subrange(i + 1, s@.len() as int)) == Some(p),
            0 < i,
            0 < p <= 65535,
            forall|m: int| 0 <= m < j ==> #[trigger] s@[m] < 128,
        decreases i - j,
    {
        if s[j] >= 128 {
            assert(!(value.spec_bytes()[j as int] < 128));
            assert(!(forall|m: int| 0 <= m < i ==> #[trigger] value.spec_bytes()[m] < 128));
            return None;
        }
        j = j + 1;
    }
    let host = copy_range(s, 0, i);
    Some((string_of_bytes(host.as_slice()), p as u16))
}

impl Cli {
    /// The server state that the options call for: a primary, or with
    /// `replicaof` a replica of the primary it names. An unreadable
    /// `replicaof` is an error.
    pub fn server_state(&self) -> (r: Result<Environment, String>)
        ensures
            match &self.replicaof {
                None => r matches Ok(env) && env.wf() && env.spec_role() == Role::Master
                    && env.spec_port() == self.port && env.spec_master() is None
                    && env.spec_slaves().len() == 0,
                Some(v) => match replicaof_target(encode_utf8(v@)) {
                    Some((h, p)) => r matches Ok(env) && env.wf() && env.spec_role()
                        == Role::Slave && env.spec_port() == self.port && env.spec_master() == Some(
                        (chars_of(h), p),
                    ),
                    None => r is Err,
                },
            },
    {
        match &self.replicaof {
            None => Ok(Environment::new(Role::Master, self.port)),
            Some(v) => match parse_replicaof(v.as_str()) {
                Some((host, p)) => Ok(Environment::replica_of(self.port, host, p)),
                None => Err("--replicaof takes \"<host> <port>\"".to_string()),
            },
        }
    }
}

} // verus!
