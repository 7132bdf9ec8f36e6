//! Laws of replication: the handshake against a primary's answers, and the
//! forwarding of writes.
use vstd::prelude::*;
use vstd::string::StringSliceAdditionalSpecFns;
use vstd::utf8::{encode_utf8, is_ascii_chars, is_ascii_chars_encode_utf8};
use crate::codec::{crlf, decode, simple_string, Scan, CR, DOLLAR, LF};
use crate::decimal::{decimal, digits_value};
use crate::environment::{is_alphanumeric_byte, is_alphanumeric_char};
use crate::frame_laws::{lemma_decode_prefix, lemma_frame_end, lemma_number_at};
use crate::handshake::{
    alnum_run_end, chars_of, fullresync_prefix, handshake_step, line_end_from, parse_fullresync,
    psync_cmd, replconf_capa_cmd, replconf_port_cmd, starts_with, HandshakeState, StepSpec,
};
use crate::command::RespCommand;
use crate::environment::{Role, SlaveConnection};
use crate::resp2::{is_plain, ok, parse_u64, plain_answer, pong, psync_response};

verus! {

proof fn lemma_ascii_bytes(s: &str)
    requires
        is_ascii_chars(s@),
    ensures
        s.spec_bytes().len() == s@.len(),
        forall|i: int| 0 <= i < s@.len() ==> s.spec_bytes()[i] == s@[i] as u8,
{
    is_ascii_chars_encode_utf8(s@);
}

/// The first CRLF at or after `i` is at `j` when no byte in between is CR.
proof fn lemma_line_end_at(buf: Seq<u8>, i: int, j: int)
    requires
        0 <= i <= j,
        j + 1 < buf.len(),
        buf[j] == CR,
        buf[j + 1] == LF,
        forall|m: int| i <= m < j ==> buf[m] != CR,
    ensures
        line_end_from(buf, i) == Some(j),
    decreases j - i,
{
    if i < j {
        lemma_line_end_at(buf, i + 1, j);
    }
}

proof fn lemma_alnum_run(s: Seq<u8>, i: int, j: int)
    requires
        0 <= i <= j < s.len(),
        forall|m: int| i <= m < j ==> is_alphanumeric_byte(#[trigger] s[m]),
        !is_alphanumeric_byte(s[j]),
    ensures
        alnum_run_end(s, i) == j,
    decreases j - i,
{
    if i < j {
        assert(is_alphanumeric_byte(s[i]));
        lemma_alnum_run(s, i + 1, j);
    }
}

/// A one-line answer `+<word>\r\n` satisfies the step that waits for it.
proof fn lemma_simple_answer(word: &str, plus_word: &str)
    requires
        is_ascii_chars(word@),
        plus_word@ == seq!['+'] + word@,
        forall|i: int| 0 <= i < word@.len() ==> word@[i] != '\r',
    ensures
        line_end_from(simple_string(word.spec_bytes()), 0) == Some(word@.len() as int + 1),
        starts_with(
            simple_string(word.spec_bytes()).subrange(0, word@.len() as int + 1),
            plus_word.spec_bytes(),
        ),
{
    lemma_ascii_bytes(word);
    assert(is_ascii_chars(plus_word@)) by {
        assert forall|i: int| 0 <= i < plus_word@.len() implies '\0' <= #[trigger] plus_word@[i]
            <= '\u{7f}' by {
            if i > 0 {
                assert(plus_word@[i] == word@[i - 1]);
            }
        }
    }
    lemma_ascii_bytes(plus_word);
    let a = simple_string(word.spec_bytes());
    let n = word@.len() as int;
    assert forall|m: int| 0 <= m < n + 1 implies a[m] != CR by {
        if m > 0 {
            assert(a[m] == word.spec_bytes()[m - 1]);
            assert(word@[m - 1] != '\r');
            assert(('\r' as u8) == CR);
        }
    }
    lemma_line_end_at(a, 0, n + 1);
    assert(plus_word.spec_bytes().len() == n + 1);
    assert(a.subrange(0, n + 1).subrange(0, n + 1) =~= a.subrange(0, n + 1));
    assert(a.subrange(0, n + 1) =~= plus_word.spec_bytes()) by {
        assert forall|m: int| 0 <= m < n + 1 implies a.subrange(0, n + 1)[m]
            == plus_word.spec_bytes()[m] by {
            if m > 0 {
                assert(plus_word@[m] == word@[m - 1]);
                assert(a[m] == word.spec_bytes()[m - 1]);
            }
        }
    }
}

/// The `FULLRESYNC` line of a primary whose id is `replid` teaches the
/// replica that id and offset 0, and what follows it is the snapshot.
proof fn lemma_fullresync_step(port: u16, replid: Seq<char>, rdb: Seq<u8>)
    requires
        replid.len() > 0,
        forall|i: int| 0 <= i < replid.len() ==> is_alphanumeric_char(#[trigger] replid[i]),
        rdb.len() <= usize::MAX,
    ensures
        handshake_step(HandshakeState::PsyncSent, port, psync_response(replid, rdb)) matches StepSpec::Learned(
            k,
            id,
            off,
        ) && chars_of(id) == replid && off == 0 && 0 <= k <= psync_response(replid, rdb).len()
            && psync_response(replid, rdb).subrange(
            k,
            psync_response(replid, rdb).len() as int,
        ) == seq![DOLLAR] + decimal(rdb.len()) + crlf() + rdb,
{
    reveal_strlit("FULLRESYNC ");
    reveal_strlit("+FULLRESYNC ");
    reveal_strlit(" 0");
    lemma_ascii_bytes("FULLRESYNC ");
    lemma_ascii_bytes("+FULLRESYNC ");
    lemma_ascii_bytes(" 0");
    assert(is_ascii_chars(replid));
    is_ascii_chars_encode_utf8(replid);
    let f = "FULLRESYNC ".spec_bytes();
    let idb = encode_utf8(replid);
    let z = " 0".spec_bytes();
    let resp = psync_response(replid, rdb);
    let line = seq![43u8] + f + idb + z;
    let ll = line.len() as int;
    let idn = idb.len() as int;
    assert(ll == 12 + idn + 2);
    assert forall|m: int| 0 <= m < ll implies resp[m] == line[m] by {}
    assert forall|m: int| 0 <= m < idn implies is_alphanumeric_byte(#[trigger] idb[m]) by {
        assert(idb[m] == replid[m] as u8);
        assert(is_alphanumeric_char(replid[m]));
    }
    assert forall|m: int| 0 <= m < ll implies resp[m] != CR by {
        if 12 <= m < 12 + idn {
            assert(is_alphanumeric_byte(idb[m - 12]));
        }
    }
    assert(resp[ll] == CR);
    assert(resp[ll + 1] == LF);
    lemma_line_end_at(resp, 0, ll);
    let l2 = resp.subrange(0, ll);
    assert(l2 =~= line);
    assert(fullresync_prefix() =~= seq![43u8] + f) by {
        assert forall|m: int| 0 <= m < 12 implies fullresync_prefix()[m] == (seq![43u8] + f)[m] by {
            assert("+FULLRESYNC "@[m] == (seq!['+'] + "FULLRESYNC "@)[m]);
        }
    }
    assert(line.subrange(0, 12) =~= fullresync_prefix());
    assert(!is_alphanumeric_byte(line[12 + idn]));
    lemma_alnum_run(line, 12, 12 + idn);
    let zero = seq![48u8];
    assert(line.subrange(12 + idn + 1, ll) =~= zero);
    assert(zero.drop_last() =~= Seq::<u8>::empty());
    assert(zero.last() == 48u8);
    assert(digits_value(Seq::<u8>::empty()) == 0);
    assert(digits_value(zero) == 0);
    assert(parse_u64(zero) == Some(0u64));
    let id = line.subrange(12, 12 + idn);
    assert(id =~= idb);
    assert(chars_of(id) =~= replid) by {
        assert forall|m: int| 0 <= m < idn implies chars_of(id)[m] == replid[m] by {
            assert(id[m] == replid[m] as u8);
        }
    }
    assert(parse_fullresync(l2) == Some((id, 0u64)));
    assert(resp.subrange(ll + 2, resp.len() as int) =~= seq![DOLLAR] + decimal(rdb.len()) + crlf()
        + rdb);
}

/// The snapshot `$<n>\r\n` and its `n` bytes complete the handshake.
proof fn lemma_snapshot_step(port: u16, rdb: Seq<u8>)
    requires
        rdb.len() <= usize::MAX,
    ensures
        handshake_step(
            HandshakeState::RdbReceiving,
            port,
            seq![DOLLAR] + decimal(rdb.len()) + crlf() + rdb,
        ) == StepSpec::Live((seq![DOLLAR] + decimal(rdb.len()) + crlf() + rdb).len() as int),
{
    let rest = seq![DOLLAR] + decimal(rdb.len()) + crlf() + rdb;
    let d = decimal(rdb.len());
    let dl = d.len() as int;
    assert(rest.subrange(1, 1 + dl) =~= d);
    assert(rest[1 + dl] == CR);
    assert(rest[2 + dl] == LF);
    lemma_number_at(rest, 1, rdb.len());
}

/// The handshake against a primary whose replication id is `replid`: fed,
/// one after the other, the answers that a primary gives (`+PONG`, `+OK`,
/// `+OK`, and its `FULLRESYNC` line with the snapshot), the replica moves
/// through every state to `Live`, sends `REPLCONF listening-port`,
/// `REPLCONF capa psync2` and `PSYNC ? -1` on the way, learns exactly that
/// id and offset 0, and consumes exactly what the primary sent.
pub proof fn lemma_handshake(port: u16, replid: Seq<char>, rdb: Seq<u8>)
    requires
        replid.len() > 0,
        forall|i: int| 0 <= i < replid.len() ==> is_alphanumeric_char(#[trigger] replid[i]),
        rdb.len() <= usize::MAX,
    ensures
        handshake_step(HandshakeState::PingSent, port, pong()) == StepSpec::Advance(
            HandshakeState::ReplconfPortSent,
            pong().len() as int,
            replconf_port_cmd(port),
        ),
        handshake_step(HandshakeState::ReplconfPortSent, port, ok()) == StepSpec::Advance(
            HandshakeState::ReplconfCapaSent,
            ok().len() as int,
            replconf_capa_cmd(),
        ),
        handshake_step(HandshakeState::ReplconfCapaSent, port, ok()) == StepSpec::Advance(
            HandshakeState::PsyncSent,
            ok().len() as int,
            psync_cmd(),
        ),
        handshake_step(HandshakeState::PsyncSent, port, psync_response(replid, rdb)) matches StepSpec::Learned(
            k,
            id,
            off,
        ) && chars_of(id) == replid && off == 0 && handshake_step(
            HandshakeState::RdbReceiving,
            port,
            psync_response(replid, rdb).subrange(k, psync_response(replid, rdb).len() as int),
        ) == StepSpec::Live(psync_response(replid, rdb).len() - k),
{
    reveal_strlit("PONG");
    reveal_strlit("+PONG");
    reveal_strlit("OK");
    reveal_strlit("+OK");
    assert("+PONG"@ =~= seq!['+'] + "PONG"@);
    assert("+OK"@ =~= seq!['+'] + "OK"@);
    lemma_ascii_bytes("PONG");
    lemma_ascii_bytes("OK");
    lemma_simple_answer("PONG", "+PONG");
    lemma_simple_answer("OK", "+OK");
    lemma_fullresync_step(port, replid, rdb);
    lemma_snapshot_step(port, rdb);
}

/// The raw bytes that a request was read from, forwarded as they are, decode
/// on the receiving side to the same arguments, and so to the same command,
/// consuming all of them.
pub proof fn lemma_forwarded_frame_replays(input: Seq<u8>)
    requires
        decode(input) is Done,
    ensures
        decode(input) matches Scan::Done(args, k) && decode(input.subrange(0, k)) == Scan::Done(
            args,
            k,
        ) && k == input.subrange(0, k).len(),
{
    lemma_frame_end(input);
    if let Scan::Done(args, k) = decode(input) {
        assert(input.subrange(0, k).is_prefix_of(input));
        lemma_decode_prefix(input.subrange(0, k), input);
    }
}

/// Frames sent one after the other on one connection.
pub open spec fn concat(frames: Seq<Seq<u8>>) -> Seq<u8>
    decreases frames.len(),
{
    if frames.len() == 0 {
        Seq::empty()
    } else {
        frames[0] + concat(frames.drop_first())
    }
}

/// A replica that is sent the raw bytes of complete frames back to back,
/// and drains each frame as it is found, finds exactly those frames in that
/// order: after the first `i` are drained, what is left is the rest of the
/// stream, and its head decodes as frame `i` does.
pub proof fn lemma_forwarded_stream(frames: Seq<Seq<u8>>, i: int)
    requires
        forall|j: int|
            0 <= j < frames.len() ==> (decode(#[trigger] frames[j]) matches Scan::Done(_, k) && k
                == frames[j].len()),
        0 <= i < frames.len(),
    ensures
        concat(frames.subrange(i, frames.len() as int)) == frames[i] + concat(
            frames.subrange(i + 1, frames.len() as int),
        ),
        decode(concat(frames.subrange(i, frames.len() as int))) == decode(frames[i]),
{
    let tail = frames.subrange(i, frames.len() as int);
    assert(tail[0] == frames[i]);
    assert(tail.drop_first() =~= frames.subrange(i + 1, frames.len() as int));
    let whole = concat(tail);
    assert(frames[i].is_prefix_of(whole));
    lemma_decode_prefix(frames[i], whole);
}

/// The primary's side of the handshake. On a primary, the replica's `PING`,
/// its two `REPLCONF`s and its `PSYNC` are answered `+PONG`, `+OK`, `+OK`
/// and (by `reflect`'s own clause) the `FULLRESYNC` line with the snapshot.
/// Only the `PSYNC` registers the connection, so a primary that had no
/// replicas then has exactly this one, and each write it propagates after
/// that goes to this connection alone.
pub proof fn lemma_primary_handshake(
    ping_args: Seq<Seq<u8>>,
    port_args: Seq<Seq<u8>>,
    capa_args: Seq<Seq<u8>>,
    replid: Seq<char>,
    offset: u64,
    replicas: Seq<SlaveConnection>,
    conn: SlaveConnection,
)
    requires
        ping_args.len() <= 1,
        replicas.len() == 0,
    ensures
        is_plain(RespCommand::PING, Role::Master),
        plain_answer(RespCommand::PING, ping_args, Role::Master, replid, offset) == pong(),
        is_plain(RespCommand::REPLCONF, Role::Master),
        plain_answer(RespCommand::REPLCONF, port_args, Role::Master, replid, offset) == ok(),
        plain_answer(RespCommand::REPLCONF, capa_args, Role::Master, replid, offset) == ok(),
        !is_plain(RespCommand::PSYNC, Role::Master),
        replicas.push(conn).len() == 1,
        replicas.push(conn).map_values(|c: SlaveConnection| c.stream) == seq![conn.stream],
{
    assert(replicas.push(conn).map_values(|c: SlaveConnection| c.stream) =~= seq![conn.stream]);
}

} // verus!
