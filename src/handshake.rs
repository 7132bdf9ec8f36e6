//! The replica's side of the replication handshake, as a state machine: the
//! host program sends what a step asks for and hands back what the primary
//! answered.
use vstd::prelude::*;
use vstd::string::StringSliceAdditionalSpecFns;
use crate::codec::{copy_range, encode_array, encode_array_frame, scan_number, Scan, CR, DOLLAR, LF};
use crate::decimal::{decimal, push_decimal};
use crate::environment::{is_alphanumeric_byte, push_char, Environment};
use crate::resp2::{parse_u64, parse_u64_bytes};

verus! {

#[derive(Clone, Copy, Debug, PartialEq, Eq, Structural)]
pub enum HandshakeState {
    NotStarted,
    PingSent,
    ReplconfPortSent,
    ReplconfCapaSent,
    PsyncSent,
    RdbReceiving,
    Live,
    Failed,
}

/// What one step of the handshake does with the primary's bytes.
pub enum StepSpec {
    /// No complete answer yet.
    NeedMore,
    /// The answer, `consumed` bytes long, was the expected one: move to the
    /// state and send the bytes.
    Advance(HandshakeState, int, Seq<u8>),
    /// The `FULLRESYNC` line, `consumed` bytes long, named this replication
    /// id and offset.
    Learned(int, Seq<u8>, u64),
    /// The snapshot, `consumed` bytes long, has arrived.
    Live(int),
    /// The primary answered something else.
    Fail,
}

/// What a step asks of the host program.
pub enum Progress {
    NeedMore,
    Continue { consumed: usize, send: Vec<u8> },
    Live { consumed: usize },
    Failed,
}

pub struct Handshake {
    state: HandshakeState,
    port: u16,
}

pub open spec fn starts_with(s: Seq<u8>, w: Seq<u8>) -> bool {
    w.len() <= s.len() && s.subrange(0, w.len() as int) == w
}

/// The first CRLF at or after `i`.
pub open spec fn line_end_from(buf: Seq<u8>, i: int) -> Option<int>
    decreases buf.len() - i,
{
    if i < 0 || i + 1 >= buf.len() {
        None
    } else if buf[i] == CR && buf[i + 1] == LF {
        Some(i)
    } else {
        line_end_from(buf, i + 1)
    }
}

pub open spec fn alnum_run_end(s: Seq<u8>, i: int) -> int
    decreases s.len() - i,
{
    if i < 0 || i >= s.len() || !is_alphanumeric_byte(s[i]) {
        i
    } else {
        alnum_run_end(s, i + 1)
    }
}

pub open spec fn fullresync_prefix() -> Seq<u8> {
    "+FULLRESYNC ".spec_bytes()
}

/// The id and offset of a line `+FULLRESYNC <id> <offset>`, where the id is
/// a non-empty run of ASCII letters and digits.
pub open spec fn parse_fullresync(line: Seq<u8>) -> Option<(Seq<u8>, u64)> {
    let p = fullresync_prefix().len() as int;
    let e = alnum_run_end(line, p);
    if !starts_with(line, fullresync_prefix()) || e == p || e >= line.len() || line[e] != 32 {
        None
    } else {
        match parse_u64(line.subrange(e + 1, line.len() as int)) {
            Some(off) => Some((line.subrange(p, e), off)),
            None => None,
        }
    }
}

pub open spec fn ping_cmd() -> Seq<u8> {
    encode_array(seq!["PING".spec_bytes()])
}

pub open spec fn replconf_port_cmd(port: u16) -> Seq<u8> {
    encode_array(seq!["REPLCONF".spec_bytes(), "listening-port".spec_bytes(), decimal(port as nat)])
}

pub open spec fn replconf_capa_cmd() -> Seq<u8> {
    encode_array(seq!["REPLCONF".spec_bytes(), "capa".spec_bytes(), "psync2".spec_bytes()])
}

pub open spec fn psync_cmd() -> Seq<u8> {
    encode_array(seq!["PSYNC".spec_bytes(), "?".spec_bytes(), "-1".spec_bytes()])
}

/// An expected one-line answer: the line must begin with `word`.
pub open spec fn expect_line(input: Seq<u8>, word: Seq<u8>, next: HandshakeState, send: Seq<u8>) -> StepSpec {
    match line_end_from(input, 0) {
        None => StepSpec::NeedMore,
        Some(e) => if starts_with(input.subrange(0, e), word) {
            StepSpec::Advance(next, e + 2, send)
        } else {
            StepSpec::Fail
        },
    }
}

/// One step of the handshake in `state`, on the bytes the primary has sent
/// since the last step.
pub open spec fn handshake_step(state: HandshakeState, port: u16, input: Seq<u8>) -> StepSpec {
    match state {
        HandshakeState::PingSent => expect_line(
            input,
            "+PONG".spec_bytes(),
            HandshakeState::ReplconfPortSent,
            replconf_port_cmd(port),
        ),
        HandshakeState::ReplconfPortSent => expect_line(
            input,
            "+OK".spec_bytes(),
            HandshakeState::ReplconfCapaSent,
            replconf_capa_cmd(),
        ),
        HandshakeState::ReplconfCapaSent => expect_line(
            input,
            "+OK".spec_bytes(),
            HandshakeState::PsyncSent,
            psync_cmd(),
        ),
        HandshakeState::PsyncSent => match line_end_from(input, 0) {
            None => StepSpec::NeedMore,
            Some(e) => match parse_fullresync(input.subrange(0, e)) {
                Some((id, off)) => StepSpec::Learned(e + 2, id, off),
                None => StepSpec::Fail,
            },
        },
        HandshakeState::RdbReceiving => if input.len() == 0 {
            StepSpec::NeedMore
        } else if input[0] != DOLLAR {
            StepSpec::Fail
        } else {
            match scan_number(input, 1) {
                Scan::Done(n, p) => if p + n <= input.len() {
                    StepSpec::Live(p + n)
                } else {
                    StepSpec::NeedMore
                },
                Scan::More => StepSpec::NeedMore,
                Scan::Bad => StepSpec::Fail,
            }
        },
        _ => StepSpec::Fail,
    }
}

/// The characters of ASCII bytes.
pub open spec fn chars_of(b: Seq<u8>) -> Seq<char> {
    b.map_values(|x: u8| x as char)
}

pub(crate) fn string_of_bytes(b: &[u8]) -> (r: String)
    ensures
        r@ == chars_of(b@),
{
    let mut s = String::new();
    let mut i: usize = 0;
    while i < b.len()
        invariant
            i <= b@.len(),
            s@ == chars_of(b@.subrange(0, i as int)),
        decreases b@.len() - i,
    {
        push_char(&mut s, b[i] as char);
        i = i + 1;
        assert(s@ =~= chars_of(b@.subrange(0, i as int)));
    }
    assert(b@.subrange(0, i as int) =~= b@);
    s
}

fn bytes_of(s: &str) -> (r: Vec<u8>)
    ensures
        r@ == s.spec_bytes(),
{
    let b = s.as_bytes();
    copy_range(b, 0, b.len())
}

fn find_line_end(buf: &[u8]) -> (r: Option<usize>)
    ensures
        match line_end_from(buf@, 0) {
            Some(e) => r == Some(e as usize),
            None => r is None,
        },
        r matches Some(e) ==> e + 2 <= buf@.len() <= usize::MAX,
        line_end_from(buf@, 0) matches Some(e) ==> 0 <= e && e + 2 <= buf@.len(),
{
    let mut i: usize = 0;
    while i < buf.len() && buf.len() - i >= 2
        invariant
            i <= buf@.len(),
            line_end_from(buf@, 0) == line_end_from(buf@, i as int),
        decreases buf@.len() - i,
    {
        if buf[i] == CR && buf[i + 1] == LF {
            return Some(i);
        }
        i = i + 1;
    }
    None
}

/// The end of the first line of `input` when it begins with `word`:
/// `Ok(None)` while no line is complete, `Err(())` for another line.
fn expect_word(input: &[u8], word: &str) -> (r: Result<Option<usize>, ()>)
    ensures
        match line_end_from(input@, 0) {
            None => r == Ok::<Option<usize>, ()>(None),
            Some(e) => if starts_with(input@.subrange(0, e), word.spec_bytes()) {
                0 <= e && e + 2 <= input@.len() && r == Ok::<Option<usize>, ()>(Some(e as usize))
            } else {
                r is Err
            },
        },
        r matches Ok(Some(e)) ==> e + 2 <= input@.len() <= usize::MAX,
{
    match find_line_end(input) {
        None => Ok(None),
        Some(e) => {
            let line = copy_range(input, 0, e);
            if has_prefix(line.as_slice(), word.as_bytes()) {
                Ok(Some(e))
            } else {
                Err(())
            }
        },
    }
}

fn has_prefix(s: &[u8], w: &[u8]) -> (r: bool)
    ensures
        r == starts_with(s@, w@),
{
    if w.len() > s.len() {
        return false;
    }
    let mut i: usize = 0;
    while i < w.len()
        invariant
            i <= w@.len() <= s@.len(),
            forall|j: int| 0 <= j < i ==> s@[j] == w@[j],
        decreases w@.len() - i,
    {
        if s[i] != w[i] {
            assert(s@.subrange(0, w@.len() as int)[i as int] != w@[i as int]);
            return false;
        }
        i = i + 1;
    }
    assert(s@.subrange(0, w@.len() as int) =~= w@);
    true
}

fn alnum_end(s: &[u8], start: usize) -> (r: usize)
    requires
        start <= s@.len(),
    ensures
        r == alnum_run_end(s@, start as int),
        start <= r <= s@.len(),
{
    let mut i: usize = start;
    while i < s.len() && ((48 <= s[i] && s[i] <= 57) || (65 <= s[i] && s[i] <= 90) || (97 <= s[i]
        && s[i] <= 122))
        invariant
            start <= i <= s@.len(),
            alnum_run_end(s@, start as int) == alnum_run_end(s@, i as int),
        decreases s@.len() - i,
    {
        i = i + 1;
    }
    i
}

fn read_fullresync(line: &[u8]) -> (r: Option<(Vec<u8>, u64)>)
    ensures
        match parse_fullresync(line@) {
            Some((id, off)) => r matches Some((v, o)) && v@ == id && o == off,
            None => r is None,
        },
{
    let prefix = "+FULLRESYNC ".as_bytes();
    if !has_prefix(line, prefix) {
        return None;
    }
    let p = prefix.len();
    let e = alnum_end(line, p);
    if e == p || e >= line.len() || line[e] != 32 {
        return None;
    }
    let digits = copy_range(line, e + 1, line.len());
    match parse_u64_bytes(digits.as_slice()) {
        Some(off) => Some((copy_range(line, p, e), off)),
        None => None,
    }
}

impl Handshake {
    pub closed spec fn spec_state(&self) -> HandshakeState {
        self.state
    }

    pub closed spec fn spec_port(&self) -> u16 {
        self.port
    }

    /// A handshake for a replica that listens on `port`.
    pub fn new(port: u16) -> (r: Handshake)
        ensures
            r.spec_state() == HandshakeState::NotStarted,
            r.spec_port() == port,
    {
        Handshake { state: HandshakeState::NotStarted, port }
    }

    pub fn state(&self) -> (r: HandshakeState)
        ensures
            r == self.spec_state(),
    {
        self.state
    }

    /// The first message, `PING`.
    pub fn start(&mut self) -> (r: Vec<u8>)
        requires
            old(self).spec_state() == HandshakeState::NotStarted,
        ensures
            r@ == ping_cmd(),
            final(self).spec_state() == HandshakeState::PingSent,
            final(self).spec_port() == old(self).spec_port(),
    {
        self.state = HandshakeState::PingSent;
        let mut parts: Vec<Vec<u8>> = Vec::new();
        parts.push(bytes_of("PING"));
        proof {
            assert(parts.deep_view() =~= seq!["PING".spec_bytes()]) by {
                assert(parts@[0].deep_view() =~= parts@[0]@);
            }
        }
        encode_array_frame(&parts)
    }

    fn command3(a: &str, b: &str, c: &[u8]) -> (r: Vec<u8>)
        ensures
            r@ == encode_array(seq![a.spec_bytes(), b.spec_bytes(), c@]),
    {
        let mut parts: Vec<Vec<u8>> = Vec::new();
        parts.push(bytes_of(a));
        parts.push(bytes_of(b));
        parts.push(copy_range(c, 0, c.len()));
        proof {
            assert(c@.subrange(0, c@.len() as int) =~= c@);
            assert(parts.deep_view() =~= seq![a.spec_bytes(), b.spec_bytes(), c@]) by {
                assert(parts@[0].deep_view() =~= parts@[0]@);
                assert(parts@[1].deep_view() =~= parts@[1]@);
                assert(parts@[2].deep_view() =~= parts@[2]@);
            }
        }
        encode_array_frame(&parts)
    }

    /// Runs one step on the bytes the primary has sent since the last step.
    /// On `FULLRESYNC` the replication id and offset it names are stored in
    /// `env`; nothing else in `env` changes.
    pub fn on_input(&mut self, env: &mut Environment, input: &[u8]) -> (r: Progress)
        requires
            old(env).wf(),
        ensures
            final(env).wf(),
            final(self).spec_port() == old(self).spec_port(),
            match handshake_step(old(self).spec_state(), old(self).spec_port(), input@) {
                StepSpec::NeedMore => r is NeedMore && final(self).spec_state() == old(self).spec_state() && *final(env) == *old(env),
                StepSpec::Advance(next, k, msg) => r matches Progress::Continue { consumed, send }
                    && consumed == k && send@ == msg && final(self).spec_state() == next
                    && *final(env) == *old(env),
                StepSpec::Learned(k, id, off) => r matches Progress::Continue { consumed, send }
                    && consumed == k && send@.len() == 0 && final(self).spec_state()
                    == HandshakeState::RdbReceiving && final(env).spec_replid() == chars_of(id)
                    && final(env).spec_offset() == off && final(env).spec_role() == old(env).spec_role() && final(env).spec_port() == old(env).spec_port() && final(env).spec_master() == old(env).spec_master() && final(env).spec_slaves() == old(env).spec_slaves() && final(env).spec_values() == old(env).spec_values(),
                StepSpec::Live(k) => r matches Progress::Live { consumed } && consumed == k
                    && final(self).spec_state() == HandshakeState::Live && *final(env) == *old(env),
                StepSpec::Fail => r is Failed && final(self).spec_state() == HandshakeState::Failed
                    && *final(env) == *old(env),
            },
    {
        match self.state {
            HandshakeState::PingSent => match expect_word(input, "+PONG") {
                Err(()) => {
                    self.state = HandshakeState::Failed;
                    Progress::Failed
                },
                Ok(None) => Progress::NeedMore,
                Ok(Some(e)) => {
                    let mut port_digits: Vec<u8> = Vec::new();
                    push_decimal(&mut port_digits, self.port as u64);
                    let send = Handshake::command3(
                        "REPLCONF",
                        "listening-port",
                        port_digits.as_slice(),
                    );
                    self.state = HandshakeState::ReplconfPortSent;
                    Progress::Continue { consumed: e + 2, send }
                },
            },
            HandshakeState::ReplconfPortSent => match expect_word(input, "+OK") {
                Err(()) => {
                    self.state = HandshakeState::Failed;
                    Progress::Failed
                },
                Ok(None) => Progress::NeedMore,
                Ok(Some(e)) => {
                    let send = Handshake::command3("REPLCONF", "capa", "psync2".as_bytes());
                    self.state = HandshakeState::ReplconfCapaSent;
                    Progress::Continue { consumed: e + 2, send }
                },
            },
            HandshakeState::ReplconfCapaSent => match expect_word(input, "+OK") {
                Err(()) => {
                    self.state = HandshakeState::Failed;
                    Progress::Failed
                },
                Ok(None) => Progress::NeedMore,
                Ok(Some(e)) => {
                    let send = Handshake::command3("PSYNC", "?", "-1".as_bytes());
                    self.state = HandshakeState::PsyncSent;
                    Progress::Continue { consumed: e + 2, send }
                },
            },
            HandshakeState::PsyncSent => {
                let e = match find_line_end(input) {
                    None => {
                        return Progress::NeedMore;
                    },
                    Some(e) => e,
                };
                let line = copy_range(input, 0, e);
                match read_fullresync(line.as_slice()) {
                    None => {
                        self.state = HandshakeState::Failed;
                        Progress::Failed
                    },
                    Some((id, off)) => {
                        env.set_master_replid(string_of_bytes(id.as_slice()));
                        env.set_master_repl_offset(off);
                        self.state = HandshakeState::RdbReceiving;
                        Progress::Continue { consumed: e + 2, send: Vec::new() }
                    },
                }
            },
            HandshakeState::RdbReceiving => {
                if input.len() == 0 {
                    return Progress::NeedMore;
                }
                if input[0] != DOLLAR {
                    self.state = HandshakeState::Failed;
                    return Progress::Failed;
                }
                match crate::codec::read_number_at(input, 1) {
                    Err(()) => {
                        self.state = HandshakeState::Failed;
                        Progress::Failed
                    },
                    Ok(None) => Progress::NeedMore,
                    Ok(Some((n, p))) => {
                        if input.len() - p >= n {
                            self.state = HandshakeState::Live;
                            Progress::Live { consumed: p + n }
                        } else {
                            Progress::NeedMore
                        }
                    },
                }
            },
            _ => {
                self.state = HandshakeState::Failed;
                Progress::Failed
            },
        }
    }
}

} // verus!
