//! Laws of the wire codec: encoding then decoding gives the arguments back,
//! and a frame is recognised exactly when its last byte has arrived.
use vstd::prelude::*;
use crate::codec::{
    decode, digit_run_end, encode_array, encode_bulk, encode_bulks, lemma_digits_grow, lemma_run_end,
    lemma_run_end_reaches, scan_bulk, scan_bulks, scan_number, Scan, CR, LF, STAR,
};
use crate::decimal::{decimal, is_digit, lemma_decimal};

verus! {

/// How a scan of a prefix `p` relates to the same scan of a longer buffer:
/// a result found in `p` stands, a failure in `p` stands, and an item of the
/// longer buffer that ends within `p` is already found in `p`.
pub open spec fn stable<T>(on_prefix: Scan<T>, on_whole: Scan<T>, prefix_len: int) -> bool {
    &&& on_prefix is Done ==> on_whole == on_prefix
    &&& on_prefix is Bad ==> on_whole is Bad
    &&& (on_whole matches Scan::Done(_, e) && e <= prefix_len) ==> on_prefix == on_whole
}

pub open spec fn ends_within<T>(s: Scan<T>, lo: int, hi: int) -> bool {
    s matches Scan::Done(_, e) ==> lo < e <= hi
}

proof fn lemma_run_end_prefix(p: Seq<u8>, b: Seq<u8>, pos: int)
    requires
        p.is_prefix_of(b),
        0 <= pos <= p.len(),
    ensures
        digit_run_end(p, pos) == if digit_run_end(b, pos) < p.len() {
            digit_run_end(b, pos)
        } else {
            p.len() as int
        },
    decreases p.len() - pos,
{
    lemma_run_end(b, pos);
    if pos < p.len() {
        assert(p[pos] == b[pos]);
        if is_digit(p[pos]) {
            lemma_run_end_prefix(p, b, pos + 1);
        }
    }
}

proof fn lemma_number_bounds(buf: Seq<u8>, pos: int)
    requires
        0 <= pos <= buf.len(),
    ensures
        ends_within(scan_number(buf, pos), pos, buf.len() as int),
{
    lemma_run_end(buf, pos);
}

proof fn lemma_number_prefix(p: Seq<u8>, b: Seq<u8>, pos: int)
    requires
        p.is_prefix_of(b),
        0 <= pos <= p.len(),
    ensures
        stable(scan_number(p, pos), scan_number(b, pos), p.len() as int),
{
    lemma_run_end_prefix(p, b, pos);
    lemma_run_end(b, pos);
    lemma_run_end(p, pos);
    let eb = digit_run_end(b, pos);
    let ep = digit_run_end(p, pos);
    if eb < p.len() {
        assert(p.subrange(pos, ep) =~= b.subrange(pos, eb));
        if ep < p.len() {
            assert(p[ep] == b[ep]);
        }
        if ep + 1 < p.len() {
            assert(p[ep + 1] == b[ep + 1]);
        }
    } else {
        assert(p.subrange(pos, ep) =~= b.subrange(pos, p.len() as int));
        lemma_digits_grow(b, pos, p.len() as int, eb);
    }
}

proof fn lemma_bulk_bounds(buf: Seq<u8>, pos: int)
    requires
        0 <= pos <= buf.len(),
    ensures
        ends_within(scan_bulk(buf, pos), pos, buf.len() as int),
{
    if pos < buf.len() {
        lemma_number_bounds(buf, pos + 1);
    }
}

proof fn lemma_bulk_prefix(p: Seq<u8>, b: Seq<u8>, pos: int)
    requires
        p.is_prefix_of(b),
        0 <= pos <= p.len(),
    ensures
        stable(scan_bulk(p, pos), scan_bulk(b, pos), p.len() as int),
{
    lemma_bulk_bounds(b, pos);
    if pos < p.len() {
        assert(p[pos] == b[pos]);
        lemma_number_prefix(p, b, pos + 1);
        lemma_number_bounds(b, pos + 1);
        lemma_number_bounds(p, pos + 1);
        if let Scan::Done(n, q) = scan_number(p, pos + 1) {
            let end = q + n;
            if end < p.len() {
                assert(p[end] == b[end]);
            }
            if end + 1 < p.len() {
                assert(p[end + 1] == b[end + 1]);
                assert(p.subrange(q, end) =~= b.subrange(q, end));
            }
        }
    }
}

proof fn lemma_bulks_bounds(buf: Seq<u8>, pos: int, n: nat)
    requires
        0 <= pos <= buf.len(),
    ensures
        scan_bulks(buf, pos, n) matches Scan::Done(_, e) ==> pos <= e <= buf.len(),
    decreases n,
{
    if n > 0 {
        lemma_bulks_bounds(buf, pos, (n - 1) as nat);
        if let Scan::Done(_, q) = scan_bulks(buf, pos, (n - 1) as nat) {
            lemma_bulk_bounds(buf, q);
        }
    }
}

proof fn lemma_bulks_prefix(p: Seq<u8>, b: Seq<u8>, pos: int, n: nat)
    requires
        p.is_prefix_of(b),
        0 <= pos <= p.len(),
    ensures
        stable(scan_bulks(p, pos, n), scan_bulks(b, pos, n), p.len() as int),
    decreases n,
{
    if n > 0 {
        let m = (n - 1) as nat;
        lemma_bulks_prefix(p, b, pos, m);
        lemma_bulks_bounds(p, pos, m);
        lemma_bulks_bounds(b, pos, m);
        if let Scan::Done(_, q) = scan_bulks(b, pos, m) {
            lemma_bulk_bounds(b, q);
            if q <= p.len() {
                lemma_bulk_prefix(p, b, q);
            }
        }
    }
}

proof fn lemma_decode_bounds(buf: Seq<u8>)
    ensures
        ends_within(decode(buf), 0, buf.len() as int),
{
    if buf.len() > 0 {
        lemma_number_bounds(buf, 1);
        if let Scan::Done(n, q) = scan_number(buf, 1) {
            lemma_bulks_bounds(buf, q, n);
        }
    }
}

/// A frame found in a buffer lies within it.
pub proof fn lemma_frame_end(buf: Seq<u8>)
    ensures
        decode(buf) matches Scan::Done(_, k) ==> 0 < k <= buf.len(),
{
    lemma_decode_bounds(buf);
}

/// Decoding a prefix of a buffer agrees with decoding the whole buffer: a
/// frame or an error found in the prefix stands, and a frame of the whole
/// buffer that ends within the prefix is found there.
pub proof fn lemma_decode_prefix(p: Seq<u8>, b: Seq<u8>)
    requires
        p.is_prefix_of(b),
    ensures
        stable(decode(p), decode(b), p.len() as int),
{
    lemma_decode_bounds(b);
    lemma_decode_bounds(p);
    if p.len() > 0 {
        assert(p[0] == b[0]);
        lemma_number_prefix(p, b, 1);
        lemma_number_bounds(b, 1);
        lemma_number_bounds(p, 1);
        if let Scan::Done(n, q) = scan_number(b, 1) {
            lemma_bulks_bounds(b, q, n);
            if q <= p.len() {
                lemma_bulks_prefix(p, b, q, n);
            }
        }
    }
}

/// Every strict prefix of a frame is reported as needing more bytes.
pub proof fn lemma_frame_boundary(frame: Seq<u8>, i: int)
    requires
        decode(frame) matches Scan::Done(_, k) && k == frame.len(),
        0 <= i < frame.len(),
    ensures
        decode(frame.subrange(0, i)) == Scan::<Seq<Seq<u8>>>::More,
{
    let p = frame.subrange(0, i);
    lemma_decode_prefix(p, frame);
    lemma_decode_bounds(p);
}

/// Two frames fed one byte at a time, with the first drained as soon as it
/// is found: the first is found exactly when its last byte has arrived, and
/// the second exactly when all bytes of both have arrived.
pub proof fn lemma_incremental_framing(f1: Seq<u8>, f2: Seq<u8>, j: int)
    requires
        decode(f1) matches Scan::Done(_, k) && k == f1.len(),
        decode(f2) matches Scan::Done(_, k) && k == f2.len(),
        0 <= j <= f1.len() + f2.len(),
    ensures
        j < f1.len() ==> decode((f1 + f2).subrange(0, j)) == Scan::<Seq<Seq<u8>>>::More,
        j >= f1.len() ==> decode((f1 + f2).subrange(0, j)) == decode(f1),
        f1.len() <= j < f1.len() + f2.len() ==> decode((f1 + f2).subrange(f1.len() as int, j))
            == Scan::<Seq<Seq<u8>>>::More,
        j == f1.len() + f2.len() ==> decode((f1 + f2).subrange(f1.len() as int, j)) == decode(f2),
{
    let s = f1 + f2;
    if j < f1.len() {
        assert(s.subrange(0, j) =~= f1.subrange(0, j));
        lemma_frame_boundary(f1, j);
    } else {
        assert(f1.is_prefix_of(s.subrange(0, j)));
        lemma_decode_prefix(f1, s.subrange(0, j));
        let rest = s.subrange(f1.len() as int, j);
        if j < f1.len() + f2.len() {
            assert(rest =~= f2.subrange(0, j - f1.len()));
            lemma_frame_boundary(f2, j - f1.len());
        } else {
            assert(rest =~= f2);
        }
    }
}

pub proof fn lemma_number_at(buf: Seq<u8>, pos: int, n: nat)
    requires
        0 <= pos,
        n <= usize::MAX,
        pos + decimal(n).len() + 2 <= buf.len(),
        buf.subrange(pos, pos + decimal(n).len()) == decimal(n),
        buf[pos + decimal(n).len()] == CR,
        buf[pos + decimal(n).len() + 1] == LF,
    ensures
        scan_number(buf, pos) == Scan::Done(n, pos + decimal(n).len() + 2),
{
    let d = decimal(n);
    let e = pos + d.len();
    lemma_decimal(n);
    assert forall|j: int| pos <= j < e implies is_digit(#[trigger] buf[j]) by {
        assert(buf[j] == buf.subrange(pos, e)[j - pos]);
    }
    lemma_run_end(buf, pos);
    lemma_run_end_reaches(buf, pos, e);
}

proof fn lemma_bulk_at(buf: Seq<u8>, pos: int, a: Seq<u8>)
    requires
        0 <= pos,
        a.len() <= usize::MAX,
        pos + encode_bulk(a).len() <= buf.len(),
        buf.subrange(pos, pos + encode_bulk(a).len()) == encode_bulk(a),
    ensures
        scan_bulk(buf, pos) == Scan::Done(a, pos + encode_bulk(a).len()),
{
    let eb = encode_bulk(a);
    let d = decimal(a.len());
    let dl: int = d.len() as int;
    assert forall|k: int| 0 <= k < eb.len() implies buf[pos + k] == #[trigger] eb[k] by {
        assert(buf.subrange(pos, pos + eb.len())[k] == buf[pos + k]);
    }
    assert(buf[pos] == eb[0]);
    let q = pos + 1 + dl + 2;
    let end = q + a.len();
    assert(buf.subrange(pos + 1, pos + 1 + dl) =~= d) by {
        assert forall|k: int| 0 <= k < dl implies buf.subrange(pos + 1, pos + 1 + dl)[k]
            == d[k] by {
            assert(eb[1 + k] == d[k]);
        }
    }
    assert(buf[pos + 1 + dl] == eb[1 + dl]);
    assert(buf[pos + 1 + dl + 1] == eb[1 + dl + 1]);
    lemma_number_at(buf, pos + 1, a.len());
    assert(buf.subrange(q, end) =~= a) by {
        assert forall|k: int| 0 <= k < a.len() implies buf.subrange(q, end)[k] == a[k] by {
            assert(eb[q - pos + k] == a[k]);
        }
    }
    assert(buf[end] == eb[end - pos]);
    assert(buf[end + 1] == eb[end + 1 - pos]);
}

proof fn lemma_bulks_at(buf: Seq<u8>, pos: int, args: Seq<Seq<u8>>)
    requires
        0 <= pos,
        forall|i: int| 0 <= i < args.len() ==> (#[trigger] args[i]).len() <= usize::MAX,
        pos + encode_bulks(args).len() <= buf.len(),
        buf.subrange(pos, pos + encode_bulks(args).len()) == encode_bulks(args),
    ensures
        scan_bulks(buf, pos, args.len()) == Scan::Done(args, pos + encode_bulks(args).len()),
    decreases args.len(),
{
    if args.len() == 0 {
        assert(args =~= Seq::<Seq<u8>>::empty());
    } else {
        let init = args.drop_last();
        let head = encode_bulks(init);
        let tail = encode_bulk(args.last());
        assert(encode_bulks(args) == head + tail);
        let whole = buf.subrange(pos, pos + head.len() + tail.len());
        assert(buf.subrange(pos, pos + head.len()) =~= head) by {
            assert forall|k: int| 0 <= k < head.len() implies buf.subrange(pos, pos + head.len())[k]
                == head[k] by {
                assert(whole[k] == (head + tail)[k]);
            }
        }
        assert(buf.subrange(pos + head.len(), pos + head.len() + tail.len()) =~= tail) by {
            assert forall|k: int| 0 <= k < tail.len() implies buf.subrange(
                pos + head.len(),
                pos + head.len() + tail.len(),
            )[k] == tail[k] by {
                assert(whole[head.len() + k] == (head + tail)[head.len() + k]);
            }
        }
        assert forall|i: int| 0 <= i < init.len() implies (#[trigger] init[i]).len()
            <= usize::MAX by {
            assert(init[i] == args[i]);
        }
        lemma_bulks_at(buf, pos, init);
        assert(args[args.len() - 1].len() <= usize::MAX);
        lemma_bulk_at(buf, pos + head.len(), args.last());
        assert(init.push(args.last()) =~= args);
    }
}

/// Decoding the array encoding of any arguments gives back exactly those
/// arguments and consumes exactly the encoding, whatever bytes follow it.
pub proof fn lemma_round_trip(args: Seq<Seq<u8>>, rest: Seq<u8>)
    requires
        args.len() <= usize::MAX,
        forall|i: int| 0 <= i < args.len() ==> (#[trigger] args[i]).len() <= usize::MAX,
    ensures
        decode(encode_array(args) + rest) == Scan::Done(args, encode_array(args).len() as int),
{
    let f = encode_array(args);
    let buf = f + rest;
    let d = decimal(args.len());
    let dl: int = d.len() as int;
    let body = encode_bulks(args);
    let q: int = 1 + dl + 2;
    assert(buf[0] == STAR);
    assert(buf.subrange(1, 1 + dl) =~= d) by {
        assert forall|k: int| 0 <= k < dl implies buf.subrange(1, 1 + dl)[k] == d[k] by {
            assert(buf[1 + k] == f[1 + k]);
        }
    }
    assert(buf[1 + dl] == f[1 + dl]);
    assert(buf[2 + dl] == f[2 + dl]);
    lemma_number_at(buf, 1, args.len());
    assert(buf.subrange(q, q + body.len()) =~= body) by {
        assert forall|k: int| 0 <= k < body.len() implies buf.subrange(q, q + body.len())[k]
            == body[k] by {
            assert(buf[q + k] == f[q + k]);
        }
    }
    lemma_bulks_at(buf, q, args);
}

} // verus!
