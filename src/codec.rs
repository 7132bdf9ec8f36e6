//! The RESP wire codec: a pull decoder for arrays of bulk strings and the
//! matching encoders.
use vstd::prelude::*;
use crate::decimal::{decimal, digits_value, is_digit, push_decimal};

verus! {

pub const CR: u8 = 13;

pub const LF: u8 = 10;

pub const STAR: u8 = 42;

pub const DOLLAR: u8 = 36;

pub const PLUS: u8 = 43;

pub const MINUS: u8 = 45;

/// What a scan of a buffer from some position finds: a complete item that
/// ends just before `end`, a buffer that is a strict prefix of something
/// that could still become an item, or bytes that no continuation can
/// turn into one.
pub enum Scan<T> {
    Done(T, int),
    More,
    Bad,
}

pub open spec fn crlf() -> Seq<u8> {
    seq![CR, LF]
}

/// The first position at or after `pos` that does not hold a digit.
pub open spec fn digit_run_end(buf: Seq<u8>, pos: int) -> int
    decreases buf.len() - pos,
{
    if pos < 0 || pos >= buf.len() || !is_digit(buf[pos]) {
        pos
    } else {
        digit_run_end(buf, pos + 1)
    }
}

/// A line `<digits>\r\n` at `pos`, whose value must fit in a `usize`.
pub open spec fn scan_number(buf: Seq<u8>, pos: int) -> Scan<nat> {
    let e = digit_run_end(buf, pos);
    let v = digits_value(buf.subrange(pos, e));
    if v > usize::MAX {
        Scan::Bad
    } else if e >= buf.len() {
        Scan::More
    } else if e == pos || buf[e] != CR {
        Scan::Bad
    } else if e + 1 >= buf.len() {
        Scan::More
    } else if buf[e + 1] != LF {
        Scan::Bad
    } else {
        Scan::Done(v, e + 2)
    }
}

/// A bulk string `$<len>\r\n<len bytes>\r\n` at `pos`.
pub open spec fn scan_bulk(buf: Seq<u8>, pos: int) -> Scan<Seq<u8>> {
    if pos >= buf.len() {
        Scan::More
    } else if buf[pos] != DOLLAR {
        Scan::Bad
    } else {
        match scan_number(buf, pos + 1) {
            Scan::Done(n, p) => {
                let end = p + n;
                if buf.len() <= end {
                    Scan::More
                } else if buf[end] != CR {
                    Scan::Bad
                } else if buf.len() <= end + 1 {
                    Scan::More
                } else if buf[end + 1] != LF {
                    Scan::Bad
                } else {
                    Scan::Done(buf.subrange(p, end), end + 2)
                }
            },
            Scan::More => Scan::More,
            Scan::Bad => Scan::Bad,
        }
    }
}

/// `n` bulk strings one after the other from `pos`.
pub open spec fn scan_bulks(buf: Seq<u8>, pos: int, n: nat) -> Scan<Seq<Seq<u8>>>
    decreases n,
{
    if n == 0 {
        Scan::Done(Seq::empty(), pos)
    } else {
        match scan_bulks(buf, pos, (n - 1) as nat) {
            Scan::Done(args, p) => match scan_bulk(buf, p) {
                Scan::Done(a, q) => Scan::Done(args.push(a), q),
                Scan::More => Scan::More,
                Scan::Bad => Scan::Bad,
            },
            Scan::More => Scan::More,
            Scan::Bad => Scan::Bad,
        }
    }
}

/// One request frame at the head of `buf`: `*<n>\r\n` and `n` bulk strings.
pub open spec fn decode(buf: Seq<u8>) -> Scan<Seq<Seq<u8>>> {
    if buf.len() == 0 {
        Scan::More
    } else if buf[0] != STAR {
        Scan::Bad
    } else {
        match scan_number(buf, 1) {
            Scan::Done(n, p) => scan_bulks(buf, p, n),
            Scan::More => Scan::More,
            Scan::Bad => Scan::Bad,
        }
    }
}

pub open spec fn encode_bulk(a: Seq<u8>) -> Seq<u8> {
    seq![DOLLAR] + decimal(a.len()) + crlf() + a + crlf()
}

pub open spec fn encode_bulks(args: Seq<Seq<u8>>) -> Seq<u8>
    decreases args.len(),
{
    if args.len() == 0 {
        Seq::empty()
    } else {
        encode_bulks(args.drop_last()) + encode_bulk(args.last())
    }
}

pub open spec fn encode_array(args: Seq<Seq<u8>>) -> Seq<u8> {
    seq![STAR] + decimal(args.len()) + crlf() + encode_bulks(args)
}

pub open spec fn simple_string(text: Seq<u8>) -> Seq<u8> {
    seq![PLUS] + text + crlf()
}

pub open spec fn error_string(text: Seq<u8>) -> Seq<u8> {
    seq![MINUS] + text + crlf()
}

pub open spec fn null_bulk() -> Seq<u8> {
    seq![DOLLAR, MINUS, 49u8, CR, LF]
}

pub proof fn lemma_run_end(buf: Seq<u8>, pos: int)
    requires
        0 <= pos <= buf.len(),
    ensures
        pos <= digit_run_end(buf, pos) <= buf.len(),
        forall|j: int| pos <= j < digit_run_end(buf, pos) ==> is_digit(#[trigger] buf[j]),
        digit_run_end(buf, pos) == buf.len() || !is_digit(buf[digit_run_end(buf, pos)]),
    decreases buf.len() - pos,
{
    if pos < buf.len() && is_digit(buf[pos]) {
        lemma_run_end(buf, pos + 1);
    }
}

/// A run of digits known to reach `i` ends at or after `i`.
pub proof fn lemma_run_end_reaches(buf: Seq<u8>, pos: int, i: int)
    requires
        0 <= pos <= i <= buf.len(),
        forall|j: int| pos <= j < i ==> is_digit(#[trigger] buf[j]),
    ensures
        i <= digit_run_end(buf, pos),
    decreases i - pos,
{
    if pos < i {
        assert(is_digit(buf[pos]));
        lemma_run_end_reaches(buf, pos + 1, i);
    } else {
        lemma_run_end(buf, pos);
    }
}

/// The value of a run of digits does not shrink as the run grows.
pub proof fn lemma_digits_grow(s: Seq<u8>, pos: int, i: int, k: int)
    requires
        0 <= pos <= i <= k <= s.len(),
        forall|j: int| pos <= j < k ==> is_digit(#[trigger] s[j]),
    ensures
        digits_value(s.subrange(pos, i)) <= digits_value(s.subrange(pos, k)),
    decreases k - i,
{
    if i < k {
        lemma_digits_grow(s, pos, i, k - 1);
        assert(s.subrange(pos, k).drop_last() =~= s.subrange(pos, k - 1));
    }
}

proof fn lemma_digits_step(s: Seq<u8>, pos: int, i: int)
    requires
        0 <= pos <= i < s.len(),
    ensures
        digits_value(s.subrange(pos, i + 1)) == digits_value(s.subrange(pos, i)) * 10 + (s[i]
            - 48) as nat,
{
    assert(s.subrange(pos, i + 1).drop_last() =~= s.subrange(pos, i));
}

/// Reads a `<digits>\r\n` line at `pos`: `Ok(Some((value, end)))`, `Ok(None)`
/// while more bytes are needed, `Err(())` when malformed.
fn read_number(buf: &[u8], pos: usize) -> (r: Result<Option<(usize, usize)>, ()>)
    requires
        pos <= buf@.len(),
    ensures
        match scan_number(buf@, pos as int) {
            Scan::Done(v, e) => r matches Ok(Some((a, b))) && a == v && b == e && e <= buf@.len(),
            Scan::More => r == Ok::<Option<(usize, usize)>, ()>(None),
            Scan::Bad => r is Err,
        },
{
    let mut i: usize = pos;
    let mut v: usize = 0;
    proof {
        assert(buf@.subrange(pos as int, pos as int) =~= Seq::<u8>::empty());
    }
    while i < buf.len() && 48 <= buf[i] && buf[i] <= 57
        invariant
            pos <= i <= buf@.len(),
            forall|j: int| pos <= j < i ==> is_digit(#[trigger] buf@[j]),
            v == digits_value(buf@.subrange(pos as int, i as int)),
        decreases buf@.len() - i,
    {
        proof {
            lemma_digits_step(buf@, pos as int, i as int);
        }
        let d = (buf[i] - 48) as usize;
        let next = match v.checked_mul(10) {
            Some(t) => t.checked_add(d),
            None => None,
        };
        match next {
            Some(w) => {
                v = w;
                i = i + 1;
            },
            None => {
                proof {
                    let ghost e = digit_run_end(buf@, pos as int);
                    lemma_run_end(buf@, pos as int);
                    lemma_run_end_reaches(buf@, pos as int, i + 1);
                    lemma_digits_grow(buf@, pos as int, i + 1, e);
                }
                return Err(());
            },
        }
    }
    proof {
        lemma_run_end(buf@, pos as int);
        lemma_run_end_reaches(buf@, pos as int, i as int);
    }
    if i >= buf.len() {
        return Ok(None);
    }
    if i == pos || buf[i] != CR {
        return Err(());
    }
    if i + 1 >= buf.len() {
        return Ok(None);
    }
    if buf[i + 1] != LF {
        return Err(());
    }
    Ok(Some((v, i + 2)))
}

/// Reads a `<digits>\r\n` line at `pos`, as the decoder does.
pub fn read_number_at(buf: &[u8], pos: usize) -> (r: Result<Option<(usize, usize)>, ()>)
    requires
        pos <= buf@.len(),
    ensures
        match scan_number(buf@, pos as int) {
            Scan::Done(v, e) => r matches Ok(Some((a, b))) && a == v && b == e && e <= buf@.len(),
            Scan::More => r == Ok::<Option<(usize, usize)>, ()>(None),
            Scan::Bad => r is Err,
        },
{
    read_number(buf, pos)
}

/// Once the bulk strings stop short or go wrong, reading more of them
/// changes nothing.
proof fn lemma_bulks_stuck(buf: Seq<u8>, pos: int, k: nat, n: nat)
    requires
        k <= n,
        !(scan_bulks(buf, pos, k) is Done),
    ensures
        scan_bulks(buf, pos, n) == scan_bulks(buf, pos, k),
    decreases n - k,
{
    if k < n {
        lemma_bulks_stuck(buf, pos, k, (n - 1) as nat);
    }
}

/// Reads a bulk string at `pos`: its payload is `buf[start..stop]` and it
/// ends before `end`.
fn read_bulk(buf: &[u8], pos: usize) -> (r: Result<Option<(usize, usize, usize)>, ()>)
    requires
        pos <= buf@.len(),
    ensures
        match scan_bulk(buf@, pos as int) {
            Scan::Done(a, e) => r matches Ok(Some((start, stop, end))) && start <= stop <= buf@.len()
                && buf@.subrange(start as int, stop as int) == a && end == e,
            Scan::More => r == Ok::<Option<(usize, usize, usize)>, ()>(None),
            Scan::Bad => r is Err,
        },
{
    if pos >= buf.len() {
        return Ok(None);
    }
    if buf[pos] != DOLLAR {
        return Err(());
    }
    match read_number(buf, pos + 1) {
        Err(()) => Err(()),
        Ok(None) => Ok(None),
        Ok(Some((n, p))) => {
            if buf.len() - p <= n {
                return Ok(None);
            }
            let end = p + n;
            if buf[end] != CR {
                return Err(());
            }
            if buf.len() - end <= 1 {
                return Ok(None);
            }
            if buf[end + 1] != LF {
                return Err(());
            }
            Ok(Some((p, end, end + 2)))
        },
    }
}

/// A copy of `buf[lo..hi]`.
pub fn copy_range(buf: &[u8], lo: usize, hi: usize) -> (r: Vec<u8>)
    requires
        lo <= hi <= buf@.len(),
    ensures
        r@ == buf@.subrange(lo as int, hi as int),
{
    let mut out: Vec<u8> = Vec::new();
    let mut i: usize = lo;
    while i < hi
        invariant
            lo <= i <= hi <= buf@.len(),
            out@ == buf@.subrange(lo as int, i as int),
        decreases hi - i,
    {
        out.push(buf[i]);
        i = i + 1;
        assert(out@ =~= buf@.subrange(lo as int, i as int));
    }
    out
}

/// Decodes the frame at the head of `buf`: `Ok(Some((args, consumed)))` for a
/// complete frame, `Ok(None)` while it is still incomplete, `Err(())` when
/// the bytes can never form one. Bytes after the frame are left alone.
pub fn parse_frame(buf: &[u8]) -> (r: Result<Option<(Vec<Vec<u8>>, usize)>, ()>)
    ensures
        match decode(buf@) {
            Scan::Done(args, k) => r matches Ok(Some((v, n))) && v.deep_view() == args && n == k,
            Scan::More => r == Ok::<Option<(Vec<Vec<u8>>, usize)>, ()>(None),
            Scan::Bad => r is Err,
        },
{
    if buf.len() == 0 {
        return Ok(None);
    }
    if buf[0] != STAR {
        return Err(());
    }
    match read_number(buf, 1) {
        Err(()) => Err(()),
        Ok(None) => Ok(None),
        Ok(Some((n, p))) => {
            let mut args: Vec<Vec<u8>> = Vec::new();
            let mut pos: usize = p;
            let mut i: usize = 0;
            proof {
                assert(args.deep_view() =~= Seq::<Seq<u8>>::empty());
            }
            while i < n
                invariant
                    i <= n,
                    pos <= buf@.len(),
                    decode(buf@) == scan_bulks(buf@, p as int, n as nat),
                    scan_bulks(buf@, p as int, i as nat) == Scan::Done(args.deep_view(), pos as int),
                decreases n - i,
            {
                match read_bulk(buf, pos) {
                    Err(()) => {
                        proof {
                            lemma_bulks_stuck(buf@, p as int, (i + 1) as nat, n as nat);
                        }
                        return Err(());
                    },
                    Ok(None) => {
                        proof {
                            lemma_bulks_stuck(buf@, p as int, (i + 1) as nat, n as nat);
                        }
                        return Ok(None);
                    },
                    Ok(Some((start, stop, end))) => {
                        let ghost before = args.deep_view();
                        let a = copy_range(buf, start, stop);
                        assert(a.deep_view() =~= a@);
                        args.push(a);
                        assert(args.deep_view() =~= before.push(a@));
                        pos = end;
                        i = i + 1;
                    },
                }
            }
            Ok(Some((args, pos)))
        },
    }
}

/// Finds the first complete command frame in `buf`. Returns its raw bytes and
/// how many bytes it spans, `None` while the frame is incomplete, or an error
/// for bytes that cannot begin a valid frame.
pub fn try_parse_one_command(buf: &[u8]) -> (r: Result<Option<(Vec<u8>, usize)>, String>)
    ensures
        match decode(buf@) {
            Scan::Done(args, k) => r matches Ok(Some((bytes, n))) && n == k && bytes@ == buf@.subrange(0, k),
            Scan::More => r matches Ok(None),
            Scan::Bad => r is Err,
        },
{
    match parse_frame(buf) {
        Ok(Some((_args, used))) => Ok(Some((copy_range(buf, 0, used), used))),
        Ok(None) => Ok(None),
        Err(()) => Err("malformed RESP frame".to_string()),
    }
}

/// Appends `a` to `out`.
pub fn push_bytes(out: &mut Vec<u8>, a: &[u8])
    ensures
        final(out)@ == old(out)@ + a@,
{
    let ghost start = out@;
    let mut i: usize = 0;
    while i < a.len()
        invariant
            i <= a@.len(),
            out@ == start + a@.subrange(0, i as int),
        decreases a@.len() - i,
    {
        out.push(a[i]);
        i = i + 1;
        assert(out@ =~= start + a@.subrange(0, i as int));
    }
    assert(a@.subrange(0, a@.len() as int) =~= a@);
}

pub fn push_crlf(out: &mut Vec<u8>)
    ensures
        final(out)@ == old(out)@ + crlf(),
{
    out.push(CR);
    out.push(LF);
    assert(out@ =~= old(out)@ + crlf());
}

/// Appends `a` framed as a bulk string; its length header counts bytes.
pub fn push_bulk(out: &mut Vec<u8>, a: &[u8])
    ensures
        final(out)@ == old(out)@ + encode_bulk(a@),
{
    out.push(DOLLAR);
    push_decimal(out, a.len() as u64);
    push_crlf(out);
    push_bytes(out, a);
    push_crlf(out);
    assert(out@ =~= old(out)@ + encode_bulk(a@));
}

/// Each part framed as a bulk string, one after the other.
pub fn encode_bulk_strings(parts: &Vec<Vec<u8>>) -> (r: Vec<u8>)
    ensures
        r@ == encode_bulks(parts.deep_view()),
{
    let mut out: Vec<u8> = Vec::new();
    let mut i: usize = 0;
    assert(parts.deep_view().subrange(0, 0) =~= Seq::<Seq<u8>>::empty());
    while i < parts.len()
        invariant
            i <= parts@.len(),
            out@ == encode_bulks(parts.deep_view().subrange(0, i as int)),
        decreases parts@.len() - i,
    {
        assert(parts[i as int].deep_view() =~= parts[i as int]@);
        push_bulk(&mut out, parts[i].as_slice());
        assert(parts.deep_view().subrange(0, i + 1).drop_last() =~= parts.deep_view().subrange(
            0,
            i as int,
        ));
        i = i + 1;
    }
    assert(parts.deep_view().subrange(0, i as int) =~= parts.deep_view());
    out
}

/// The parts as one RESP array: `*<n>\r\n` and then each part as a bulk string.
pub fn encode_array_frame(parts: &Vec<Vec<u8>>) -> (r: Vec<u8>)
    ensures
        r@ == encode_array(parts.deep_view()),
{
    let mut out: Vec<u8> = Vec::new();
    out.push(STAR);
    push_decimal(&mut out, parts.len() as u64);
    push_crlf(&mut out);
    let body = encode_bulk_strings(parts);
    push_bytes(&mut out, body.as_slice());
    assert(out@ =~= encode_array(parts.deep_view()));
    out
}

/// `+<text>\r\n`
pub fn simple_reply(text: &[u8]) -> (r: Vec<u8>)
    ensures
        r@ == simple_string(text@),
{
    let mut out: Vec<u8> = Vec::new();
    out.push(PLUS);
    push_bytes(&mut out, text);
    push_crlf(&mut out);
    assert(out@ =~= simple_string(text@));
    out
}

/// `-<text>\r\n`
pub fn error_reply(text: &[u8]) -> (r: Vec<u8>)
    ensures
        r@ == error_string(text@),
{
    let mut out: Vec<u8> = Vec::new();
    out.push(MINUS);
    push_bytes(&mut out, text);
    push_crlf(&mut out);
    assert(out@ =~= error_string(text@));
    out
}

/// `a` as a single bulk string.
pub fn bulk_reply(a: &[u8]) -> (r: Vec<u8>)
    ensures
        r@ == encode_bulk(a@),
{
    let mut out: Vec<u8> = Vec::new();
    push_bulk(&mut out, a);
    assert(out@ =~= encode_bulk(a@));
    out
}

/// The null bulk string `$-1\r\n`.
pub fn null_reply() -> (r: Vec<u8>)
    ensures
        r@ == null_bulk(),
{
    let mut out: Vec<u8> = Vec::new();
    out.push(DOLLAR);
    out.push(MINUS);
    out.push(49u8);
    push_crlf(&mut out);
    assert(out@ =~= null_bulk());
    out
}

} // verus!
