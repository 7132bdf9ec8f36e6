//! The command executor: one decoded request, run against the server state,
//! gives the bytes to answer with and what the connection does next.
use vstd::prelude::*;
use vstd::string::StringSliceAdditionalSpecFns;
use vstd::utf8::encode_utf8;
use base64::Engine;
use crate::fold::{names, names_word};
use crate::codec::{
    copy_range, crlf, decode, encode_array, encode_array_frame, encode_bulk, encode_bulk_strings,
    encode_bulks, error_reply,
    error_string, null_bulk, parse_frame, push_bytes, push_crlf, simple_string, Scan, DOLLAR, PLUS,
};
use crate::command::{kind_of_args, RespCommand};
use crate::decimal::{decimal, digits_value, is_digit, push_decimal};
use crate::environment::{role_name, Environment, Role, SlaveConnection};
use crate::info::{section_of, InfoSection};
use crate::keyspace::{expired, expiry_after};
use crate::serialization::{Deserialize, Serialize};

verus! {

/// The empty-database snapshot that a primary sends after `FULLRESYNC`, in
/// standard base64.
pub const EMPTY_RDB_BASE64: &'static str = "UkVESVMwMDEx+glyZWRpcy12ZXIFNy4yLjD6CnJlZGlzLWJpdHPAQPoFY3RpbWXCbQi8ZfoIdXNlZC1tZW3CsMQQAPoIYW9mLWJhc2XAAP/wbjv+wP9aog==";

#[verifier::external_type_specification]
#[verifier::external_body]
pub struct ExDecodeError(base64::DecodeError);

/// The bytes that `text` encodes in padded standard base64, if it is such
/// an encoding.
pub uninterp spec fn base64_standard(text: Seq<char>) -> Option<Seq<u8>>;

/// Relies on base64's `general_purpose::STANDARD` engine: `decode` returns
/// the bytes that the text encodes, or an error when it is not valid padded
/// standard base64; the outcome depends on the text alone.
#[verifier::external_body]
fn decode_standard(text: &str) -> (r: Result<Vec<u8>, base64::DecodeError>)
    ensures
        match base64_standard(text@) {
            Some(b) => r matches Ok(v) && v@ == b,
            None => r is Err,
        },
{
    base64::engine::general_purpose::STANDARD.decode(text)
}

/// Which connection a request came in on: a client's, or a replica's own
/// connection to its primary, which carries propagated writes.
#[derive(Clone, Copy, Debug, PartialEq, Eq, Structural)]
pub enum Link {
    Client,
    Primary,
}

/// What running one request gives: the bytes to write back, whether the
/// request's raw bytes go on to every replica, and whether the connection
/// becomes a replica once the bytes are written.
pub struct Reply {
    pub response: Vec<u8>,
    pub propagate: bool,
    pub register_replica: bool,
}

pub struct Resp2 {
    kind: RespCommand,
    data: Vec<Vec<u8>>,
    literal: Vec<u8>,
}

pub open spec fn msg_unknown() -> Seq<u8> {
    "ERR unknown command".spec_bytes()
}

pub open spec fn msg_arity() -> Seq<u8> {
    "ERR wrong number of arguments".spec_bytes()
}

pub open spec fn msg_syntax() -> Seq<u8> {
    "ERR syntax error".spec_bytes()
}

pub open spec fn msg_not_integer() -> Seq<u8> {
    "ERR value is not an integer or out of range".spec_bytes()
}

pub open spec fn msg_info_section() -> Seq<u8> {
    "ERR unknown INFO section".spec_bytes()
}

pub open spec fn msg_not_primary() -> Seq<u8> {
    "ERR only a primary serves PSYNC".spec_bytes()
}

pub open spec fn pong() -> Seq<u8> {
    simple_string("PONG".spec_bytes())
}

pub open spec fn ok() -> Seq<u8> {
    simple_string("OK".spec_bytes())
}

/// A decimal `u64`: an optional `+`, then one or more digits whose value
/// fits.
pub open spec fn parse_u64(s: Seq<u8>) -> Option<u64> {
    if s.len() > 0 && s[0] == PLUS {
        parse_digits(s.drop_first())
    } else {
        parse_digits(s)
    }
}

/// One or more digits whose value fits in a `u64`.
pub open spec fn parse_digits(s: Seq<u8>) -> Option<u64> {
    if s.len() > 0 && (forall|i: int| 0 <= i < s.len() ==> is_digit(#[trigger] s[i]))
        && digits_value(s) <= u64::MAX {
        Some(digits_value(s) as u64)
    } else {
        None
    }
}

/// How the arguments of `SET key value [PX ms]` read: the time to live, or
/// the error to answer with.
pub open spec fn set_ttl(args: Seq<Seq<u8>>) -> Result<Option<u64>, Seq<u8>> {
    if args.len() == 3 {
        Ok(None)
    } else if args.len() != 5 {
        Err(msg_arity())
    } else if !names(args[3], "PX"@) {
        Err(msg_syntax())
    } else {
        match parse_u64(args[4]) {
            Some(ms) => Ok(Some(ms)),
            None => Err(msg_not_integer()),
        }
    }
}

/// The body of `INFO replication`.
pub open spec fn info_payload(role: Role, replid: Seq<char>, offset: u64) -> Seq<u8> {
    "role:".spec_bytes() + encode_utf8(role_name(role)) + crlf() + "master_replid:".spec_bytes()
        + encode_utf8(replid) + crlf() + "master_repl_offset:".spec_bytes() + decimal(
        offset as nat,
    )
}

/// A primary's answer to `PSYNC`: the `FULLRESYNC` line, then the snapshot
/// as a length header and raw bytes with no trailing CRLF.
pub open spec fn psync_response(replid: Seq<char>, rdb: Seq<u8>) -> Seq<u8> {
    simple_string("FULLRESYNC ".spec_bytes() + encode_utf8(replid) + " 0".spec_bytes()) + seq![
        DOLLAR,
    ] + decimal(rdb.len()) + crlf() + rdb
}

/// A reply that only answers.
pub open spec fn answers(r: Reply, bytes: Seq<u8>) -> bool {
    r.response@ == bytes && !r.propagate && !r.register_replica
}

/// A copy of `v`.
fn clone_bytes(v: &Vec<u8>) -> (r: Vec<u8>)
    ensures
        r@ == v@,
{
    copy_range(v.as_slice(), 0, v.len())
}

/// Reads a decimal `u64`, with an optional leading `+`.
pub fn parse_u64_bytes(s: &[u8]) -> (r: Option<u64>)
    ensures
        r == parse_u64(s@),
{
    if s.len() > 0 && s[0] == PLUS {
        let rest = copy_range(s, 1, s.len());
        assert(rest@ =~= s@.drop_first());
        parse_digits_bytes(rest.as_slice())
    } else {
        parse_digits_bytes(s)
    }
}

fn parse_digits_bytes(s: &[u8]) -> (r: Option<u64>)
    ensures
        r == parse_digits(s@),
{
    if s.len() == 0 {
        return None;
    }
    let mut v: u64 = 0;
    let mut i: usize = 0;
    assert(s@.subrange(0, 0) =~= Seq::<u8>::empty());
    while i < s.len()
        invariant
            i <= s@.len(),
            forall|j: int| 0 <= j < i ==> is_digit(#[trigger] s@[j]),
            v == digits_value(s@.subrange(0, i as int)),
        decreases s@.len() - i,
    {
        let b = s[i];
        if b < 48 || b > 57 {
            return None;
        }
        assert(s@.subrange(0, i + 1).drop_last() =~= s@.subrange(0, i as int));
        let next = match v.checked_mul(10) {
            Some(t) => t.checked_add((b - 48) as u64),
            None => None,
        };
        match next {
            Some(w) => {
                v = w;
                i = i + 1;
            },
            None => {
                let mut k: usize = i + 1;
                while k < s.len()
                    invariant
                        i + 1 <= k <= s@.len(),
                        forall|j: int| 0 <= j < k ==> is_digit(#[trigger] s@[j]),
                    decreases s@.len() - k,
                {
                    if s[k] < 48 || s[k] > 57 {
                        return None;
                    }
                    k = k + 1;
                }
                proof {
                    crate::codec::lemma_digits_grow(s@, 0, i + 1, s@.len() as int);
                    assert(s@.subrange(0, s@.len() as int) =~= s@);
                }
                return None;
            },
        }
    }
    assert(s@.subrange(0, i as int) =~= s@);
    Some(v)
}

/// Whether a request of this kind leaves the keyspace alone and only
/// answers: all but `SET`, `GET` and a primary's `PSYNC`.
pub open spec fn is_plain(kind: RespCommand, role: Role) -> bool {
    kind != RespCommand::SET && kind != RespCommand::GET && !(kind == RespCommand::PSYNC && role
        == Role::Master)
}

/// The answer to a request that only answers, on a server in `role` with
/// this replication id and offset.
pub open spec fn plain_answer(
    kind: RespCommand,
    args: Seq<Seq<u8>>,
    role: Role,
    replid: Seq<char>,
    offset: u64,
) -> Seq<u8> {
    match kind {
        RespCommand::PING => if args.len() <= 1 {
            pong()
        } else if args.len() == 2 {
            encode_bulk(args[1])
        } else {
            error_string(msg_arity())
        },
        RespCommand::ECHO => if args.len() == 2 {
            encode_bulk(args[1])
        } else {
            error_string(msg_arity())
        },
        RespCommand::INFO => if args.len() != 2 {
            error_string(msg_arity())
        } else if section_of(args[1]) is Some {
            encode_bulk(info_payload(role, replid, offset))
        } else {
            error_string(msg_info_section())
        },
        RespCommand::REPLCONF => ok(),
        RespCommand::PSYNC => error_string(msg_not_primary()),
        _ => error_string(msg_unknown()),
    }
}

/// What a `GET` does: `response` and the keyspace after it, given the
/// keyspace before it.
pub open spec fn get_effect(
    before: Map<Seq<u8>, (Seq<u8>, Option<u64>)>,
    after: Map<Seq<u8>, (Seq<u8>, Option<u64>)>,
    key: Seq<u8>,
    now: u64,
    response: Seq<u8>,
) -> bool {
    if !before.contains_key(key) {
        response == null_bulk() && after == before
    } else if expired(before[key].1, now) {
        response == null_bulk() && after == before.remove(key)
    } else {
        response == encode_bulk(before[key].0) && after == before
    }
}

impl Resp2 {
    pub closed spec fn spec_kind(&self) -> RespCommand {
        self.kind
    }

    pub closed spec fn spec_data(&self) -> Seq<Seq<u8>> {
        self.data.deep_view()
    }

    pub closed spec fn spec_literal(&self) -> Seq<u8> {
        self.literal@
    }

    /// An empty request of unknown kind.
    pub fn new() -> (r: Resp2)
        ensures
            r.spec_kind() == RespCommand::UNDEFINED,
            r.spec_data() == Seq::<Seq<u8>>::empty(),
            r.spec_literal() == Seq::<u8>::empty(),
    {
        let r = Resp2 { kind: RespCommand::UNDEFINED, data: Vec::new(), literal: Vec::new() };
        assert(r.data.deep_view() =~= Seq::<Seq<u8>>::empty());
        r
    }

    pub fn set_kind(&mut self, kind: RespCommand)
        ensures
            final(self).spec_kind() == kind,
            final(self).spec_data() == old(self).spec_data(),
            final(self).spec_literal() == old(self).spec_literal(),
    {
        self.kind = kind;
    }

    pub fn set_literal(&mut self, literal: Vec<u8>)
        ensures
            final(self).spec_literal() == literal@,
            final(self).spec_kind() == old(self).spec_kind(),
            final(self).spec_data() == old(self).spec_data(),
    {
        self.literal = literal;
    }

    pub fn set_data(&mut self, data: Vec<Vec<u8>>)
        ensures
            final(self).spec_data() == data.deep_view(),
            final(self).spec_kind() == old(self).spec_kind(),
            final(self).spec_literal() == old(self).spec_literal(),
    {
        self.data = data;
    }

    pub fn kind(&self) -> (r: RespCommand)
        ensures
            r == self.spec_kind(),
    {
        self.kind
    }

    pub fn data(&self) -> (r: &Vec<Vec<u8>>)
        ensures
            r.deep_view() == self.spec_data(),
    {
        &self.data
    }

    pub fn literal(&self) -> (r: &Vec<u8>)
        ensures
            r@ == self.spec_literal(),
    {
        &self.literal
    }

    /// Reads the frame at the head of `input`: its arguments, the kind its
    /// first argument names, and its raw bytes. Fails, changing nothing, when
    /// `input` does not begin with a complete frame.
    pub fn read_frame(&mut self, input: &[u8]) -> (r: Result<(), String>)
        ensures
            match decode(input@) {
                Scan::Done(args, k) => r is Ok && final(self).spec_data() == args
                    && final(self).spec_kind() == kind_of_args(args) && final(self).spec_literal()
                    == input@.subrange(0, k),
                _ => r is Err && *final(self) == *old(self),
            },
    {
        match parse_frame(input) {
            Ok(Some((args, used))) => {
                let kind = if args.len() == 0 {
                    RespCommand::UNDEFINED
                } else {
                    RespCommand::from_bytes(args[0].as_slice())
                };
                proof {
                    if args.len() > 0 {
                        assert(args.deep_view()[0] == args[0]@);
                    }
                }
                self.literal = copy_range(input, 0, used);
                self.data = args;
                self.kind = kind;
                Ok(())
            },
            Ok(None) => Err("incomplete RESP frame".to_string()),
            Err(()) => Err("malformed RESP frame".to_string()),
        }
    }

    /// The replicas that the request's raw bytes go to, in registration
    /// order. With no replicas there is nothing to send; with replicas, a
    /// request without raw bytes is an error.
    pub fn propagate(&self, env: &Environment) -> (r: Result<Vec<u64>, String>)
        ensures
            env.spec_slaves().len() == 0 ==> (r matches Ok(v) && v@.len() == 0),
            env.spec_slaves().len() > 0 && self.spec_literal().len() == 0 ==> r is Err,
            env.spec_slaves().len() > 0 && self.spec_literal().len() > 0 ==> (r matches Ok(v)
                && v@ == env.spec_slaves().map_values(|c: SlaveConnection| c.stream)),
    {
        let slaves = env.slaves();
        if slaves.len() == 0 {
            return Ok(Vec::new());
        }
        if self.literal.len() == 0 {
            return Err("no raw bytes to propagate".to_string());
        }
        let mut ids: Vec<u64> = Vec::new();
        let mut i: usize = 0;
        while i < slaves.len()
            invariant
                i <= slaves@.len(),
                ids@ == slaves@.subrange(0, i as int).map_values(|c: SlaveConnection| c.stream),
            decreases slaves@.len() - i,
        {
            ids.push(slaves[i].stream);
            i = i + 1;
            assert(ids@ =~= slaves@.subrange(0, i as int).map_values(|c: SlaveConnection| c.stream));
        }
        assert(slaves@.subrange(0, i as int) =~= slaves@);
        Ok(ids)
    }
}

/// A reply that only answers.
fn answer(response: Vec<u8>) -> (r: Reply)
    ensures
        answers(r, response@),
{
    Reply { response, propagate: false, register_replica: false }
}

/// The answer to `INFO replication`.
fn info_replication(env: &Environment) -> (r: Vec<u8>)
    ensures
        r@ == encode_bulk(info_payload(env.spec_role(), env.spec_replid(), env.spec_offset())),
{
    let mut body: Vec<u8> = Vec::new();
    push_bytes(&mut body, "role:".as_bytes());
    push_bytes(&mut body, env.role().as_bytes());
    push_crlf(&mut body);
    push_bytes(&mut body, "master_replid:".as_bytes());
    push_bytes(&mut body, env.master_replid().as_bytes());
    push_crlf(&mut body);
    push_bytes(&mut body, "master_repl_offset:".as_bytes());
    push_decimal(&mut body, env.master_repl_offset());
    assert(body@ =~= info_payload(env.spec_role(), env.spec_replid(), env.spec_offset()));
    crate::codec::bulk_reply(body.as_slice())
}

/// The answer to `PSYNC` on a primary, or an error when the snapshot does
/// not decode.
fn full_resync(env: &Environment) -> (r: Result<Vec<u8>, String>)
    ensures
        match base64_standard(EMPTY_RDB_BASE64@) {
            Some(rdb) => r matches Ok(v) && v@ == psync_response(env.spec_replid(), rdb),
            None => r is Err,
        },
{
    match decode_standard(EMPTY_RDB_BASE64) {
        Err(_) => Err("the empty snapshot is not valid base64".to_string()),
        Ok(rdb) => {
            let mut out: Vec<u8> = Vec::new();
            out.push(PLUS);
            push_bytes(&mut out, "FULLRESYNC ".as_bytes());
            push_bytes(&mut out, env.master_replid().as_bytes());
            push_bytes(&mut out, " 0".as_bytes());
            push_crlf(&mut out);
            out.push(DOLLAR);
            push_decimal(&mut out, rdb.len() as u64);
            push_crlf(&mut out);
            push_bytes(&mut out, rdb.as_slice());
            assert(out@ =~= psync_response(env.spec_replid(), rdb@));
            Ok(out)
        },
    }
}

impl Resp2 {
    /// Runs the request against `env` at instant `now`, as received on
    /// `link`. Only `SET` and `GET` touch the keyspace, and nothing else in
    /// `env` changes. Only `PSYNC` can fail, when the snapshot does not decode.
    pub fn reflect(&self, env: &mut Environment, link: Link, now: u64) -> (r: Result<Reply, String>)
        requires
            old(env).wf(),
        ensures
            final(env).wf(),
            final(env).same_but_values(old(env)),
            self.spec_kind() != RespCommand::SET && self.spec_kind() != RespCommand::GET
                ==> final(env).spec_values() == old(env).spec_values(),
            self.spec_kind() != RespCommand::PSYNC ==> r is Ok,
            self.spec_kind() == RespCommand::SET ==> (r matches Ok(rep) && match set_ttl(
                self.spec_data(),
            ) {
                Ok(px) => final(env).spec_values() == old(env).spec_values().insert(
                    self.spec_data()[1],
                    (self.spec_data()[2], expiry_after(now, px)),
                ) && rep.response@ == (if link == Link::Client {
                    ok()
                } else {
                    Seq::<u8>::empty()
                }) && rep.propagate == (link == Link::Client && old(env).spec_role()
                    == Role::Master) && !rep.register_replica,
                Err(msg) => answers(rep, error_string(msg)) && final(env).spec_values() == old(
                    env,
                ).spec_values(),
            }),
            self.spec_kind() == RespCommand::GET ==> (r matches Ok(rep) && !rep.propagate
                && !rep.register_replica && if self.spec_data().len() == 2 {
                get_effect(
                    old(env).spec_values(),
                    final(env).spec_values(),
                    self.spec_data()[1],
                    now,
                    rep.response@,
                )
            } else {
                rep.response@ == error_string(msg_arity()) && final(env).spec_values() == old(
                    env,
                ).spec_values()
            }),
            self.spec_kind() == RespCommand::PSYNC && old(env).spec_role() == Role::Master ==> match base64_standard(
                EMPTY_RDB_BASE64@,
            ) {
                Some(rdb) => r matches Ok(rep) && rep.response@ == psync_response(
                    old(env).spec_replid(),
                    rdb,
                ) && !rep.propagate && rep.register_replica,
                None => r is Err,
            },
            is_plain(self.spec_kind(), old(env).spec_role()) ==> (r matches Ok(rep) && answers(
                rep,
                plain_answer(
                    self.spec_kind(),
                    self.spec_data(),
                    old(env).spec_role(),
                    old(env).spec_replid(),
                    old(env).spec_offset(),
                ),
            )),
    {
        let n = self.data.len();
        proof {
            assert forall|i: int| 0 <= i < n implies #[trigger] self.spec_data()[i]
                == self.data@[i]@ by {
                assert(self.data@[i].deep_view() =~= self.data@[i]@);
            }
        }
        match self.kind {
            RespCommand::PING => {
                if n <= 1 {
                    Ok(answer(crate::codec::simple_reply("PONG".as_bytes())))
                } else if n == 2 {
                    Ok(answer(crate::codec::bulk_reply(self.data[1].as_slice())))
                } else {
                    Ok(answer(error_reply("ERR wrong number of arguments".as_bytes())))
                }
            },
            RespCommand::ECHO => {
                if n == 2 {
                    Ok(answer(crate::codec::bulk_reply(self.data[1].as_slice())))
                } else {
                    Ok(answer(error_reply("ERR wrong number of arguments".as_bytes())))
                }
            },
            RespCommand::SET => {
                if n != 3 && n != 5 {
                    return Ok(answer(error_reply("ERR wrong number of arguments".as_bytes())));
                }
                let mut px: Option<u64> = None;
                if n == 5 {
                    if !names_word(self.data[3].as_slice(), "PX") {
                        return Ok(answer(error_reply("ERR syntax error".as_bytes())));
                    }
                    match parse_u64_bytes(self.data[4].as_slice()) {
                        Some(ms) => {
                            px = Some(ms);
                        },
                        None => {
                            return Ok(
                                answer(
                                    error_reply(
                                        "ERR value is not an integer or out of range".as_bytes(),
                                    ),
                                ),
                            );
                        },
                    }
                }
                env.set(clone_bytes(&self.data[1]), clone_bytes(&self.data[2]), px, now);
                if link == Link::Client {
                    Ok(
                        Reply {
                            response: crate::codec::simple_reply("OK".as_bytes()),
                            propagate: env.is_master(),
                            register_replica: false,
                        },
                    )
                } else {
                    Ok(Reply { response: Vec::new(), propagate: false, register_replica: false })
                }
            },
            RespCommand::GET => {
                if n != 2 {
                    return Ok(answer(error_reply("ERR wrong number of arguments".as_bytes())));
                }
                match env.get(self.data[1].as_slice(), now) {
                    Some(v) => Ok(answer(crate::codec::bulk_reply(v.as_slice()))),
                    None => Ok(answer(crate::codec::null_reply())),
                }
            },
            RespCommand::INFO => {
                if n != 2 {
                    return Ok(answer(error_reply("ERR wrong number of arguments".as_bytes())));
                }
                match InfoSection::parse(self.data[1].as_slice()) {
                    Some(InfoSection::REPLICATION) => Ok(answer(info_replication(env))),
                    None => Ok(answer(error_reply("ERR unknown INFO section".as_bytes()))),
                }
            },
            RespCommand::REPLCONF => Ok(answer(crate::codec::simple_reply("OK".as_bytes()))),
            RespCommand::PSYNC => {
                if !env.is_master() {
                    return Ok(answer(error_reply("ERR only a primary serves PSYNC".as_bytes())));
                }
                match full_resync(env) {
                    Ok(bytes) => Ok(
                        Reply { response: bytes, propagate: false, register_replica: true },
                    ),
                    Err(e) => Err(e),
                }
            },
            RespCommand::UNDEFINED => Ok(answer(error_reply("ERR unknown command".as_bytes()))),
        }
    }
}

impl Serialize<Vec<u8>> for Resp2 {
    fn serialize_bulk_string(&self) -> (r: Vec<u8>)
        ensures
            r@ == encode_bulks(self.spec_data()),
    {
        encode_bulk_strings(&self.data)
    }

    fn serialize_array(&self) -> (r: Vec<u8>)
        ensures
            r@ == encode_array(self.spec_data()),
    {
        encode_array_frame(&self.data)
    }
}

impl Deserialize<Vec<u8>> for Resp2 {
    fn deserialize(&mut self, input: Vec<u8>) -> (r: Result<(), String>)
        ensures
            match decode(input@) {
                Scan::Done(args, k) => r is Ok && final(self).spec_data() == args
                    && final(self).spec_kind() == kind_of_args(args) && final(self).spec_literal()
                    == input@.subrange(0, k),
                _ => r is Err && *final(self) == *old(self),
            },
    {
        self.read_frame(input.as_slice())
    }
}

impl<'a> Deserialize<&'a str> for Resp2 {
    fn deserialize(&mut self, input: &'a str) -> (r: Result<(), String>)
        ensures
            match decode(input.spec_bytes()) {
                Scan::Done(args, k) => r is Ok && final(self).spec_data() == args
                    && final(self).spec_kind() == kind_of_args(args) && final(self).spec_literal()
                    == input.spec_bytes().subrange(0, k),
                _ => r is Err && *final(self) == *old(self),
            },
    {
        self.read_frame(input.as_bytes())
    }
}

} // verus!
