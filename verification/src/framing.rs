//! Length-prefixed framing: each message on the wire is an 8-byte big-endian
//! payload length followed by that many payload bytes. Both directions of
//! the protocol use the same envelope.

use vstd::prelude::*;

verus! {

/// Why a frame could not be read.
#[derive(Debug, Clone, Copy, PartialEq, Eq, Structural)]
pub enum FramingError {
    /// The stream ended before the header or the payload was complete.
    UnexpectedEof,
    /// The payload is not a message the protocol knows.
    BadJson,
    /// The header announces a payload longer than the configured maximum.
    LengthOverflow,
}

/// The eight bytes of `x`, most significant first.
pub open spec fn u64_be_bytes(x: u64) -> Seq<u8> {
    seq![
        (x >> 56) as u8,
        (x >> 48) as u8,
        (x >> 40) as u8,
        (x >> 32) as u8,
        (x >> 24) as u8,
        (x >> 16) as u8,
        (x >> 8) as u8,
        x as u8,
    ]
}

/// The number eight big-endian bytes stand for.
pub open spec fn u64_from_be(s: Seq<u8>) -> u64
    recommends
        s.len() == 8,
{
    ((s[0] as u64) << 56) | ((s[1] as u64) << 48) | ((s[2] as u64) << 40) | ((s[3] as u64) << 32)
        | ((s[4] as u64) << 24) | ((s[5] as u64) << 16) | ((s[6] as u64) << 8) | (s[7] as u64)
}

/// Big-endian encoding of a 64-bit number reads back as that number.
pub proof fn lemma_u64_be_round_trip(x: u64)
    ensures
        u64_from_be(u64_be_bytes(x)) == x,
{
    let s = u64_be_bytes(x);
    assert(s[0] == (x >> 56) as u8 && s[1] == (x >> 48) as u8 && s[2] == (x >> 40) as u8 && s[3]
        == (x >> 32) as u8 && s[4] == (x >> 24) as u8 && s[5] == (x >> 16) as u8 && s[6] == (x
        >> 8) as u8 && s[7] == x as u8);
    assert(((((x >> 56) as u8) as u64) << 56) | ((((x >> 48) as u8) as u64) << 48) | ((((x
        >> 40) as u8) as u64) << 40) | ((((x >> 32) as u8) as u64) << 32) | ((((x
        >> 24) as u8) as u64) << 24) | ((((x >> 16) as u8) as u64) << 16) | ((((x
        >> 8) as u8) as u64) << 8) | ((x as u8) as u64) == x) by (bit_vector);
}

/// Write the eight big-endian bytes of `x`.
pub fn u64_to_be_vec(x: u64) -> (r: Vec<u8>)
    ensures
        r@ == u64_be_bytes(x),
{
    let mut r: Vec<u8> = Vec::new();
    r.push((x >> 56) as u8);
    r.push((x >> 48) as u8);
    r.push((x >> 40) as u8);
    r.push((x >> 32) as u8);
    r.push((x >> 24) as u8);
    r.push((x >> 16) as u8);
    r.push((x >> 8) as u8);
    r.push(x as u8);
    proof {
        assert(r@ =~= u64_be_bytes(x));
    }
    r
}

/// Read the eight big-endian bytes at `start`.
pub fn u64_from_be_at(v: &Vec<u8>, start: usize) -> (r: u64)
    requires
        start + 8 <= v@.len(),
    ensures
        r == u64_from_be(v@.subrange(start as int, start + 8)),
{
    let ghost s = v@.subrange(start as int, start + 8);
    let _len = v.len();
    let b0 = v[start] as u64;
    let b1 = v[start + 1] as u64;
    let b2 = v[start + 2] as u64;
    let b3 = v[start + 3] as u64;
    let b4 = v[start + 4] as u64;
    let b5 = v[start + 5] as u64;
    let b6 = v[start + 6] as u64;
    let b7 = v[start + 7] as u64;
    let r = b0 * 0x100_0000_0000_0000 + b1 * 0x1_0000_0000_0000 + b2 * 0x100_0000_0000 + b3
        * 0x1_0000_0000 + b4 * 0x100_0000 + b5 * 0x1_0000 + b6 * 0x100 + b7;
    proof {
        assert(s[0] == v@[start as int] && s[1] == v@[start + 1] && s[2] == v@[start + 2] && s[3]
            == v@[start + 3] && s[4] == v@[start + 4] && s[5] == v@[start + 5] && s[6] == v@[start
            + 6] && s[7] == v@[start + 7]);
        assert(b0 * 0x100_0000_0000_0000 + b1 * 0x1_0000_0000_0000 + b2 * 0x100_0000_0000 + b3
            * 0x1_0000_0000 + b4 * 0x100_0000 + b5 * 0x1_0000 + b6 * 0x100 + b7 == ((b0 << 56) | (
        b1 << 48) | (b2 << 40) | (b3 << 32) | (b4 << 24) | (b5 << 16) | (b6 << 8) | b7))
            by (bit_vector)
            requires
                b0 < 256 && b1 < 256 && b2 < 256 && b3 < 256 && b4 < 256 && b5 < 256 && b6 < 256
                    && b7 < 256,
        ;
    }
    r
}

/// The four bytes of `x`, most significant first.
pub open spec fn u32_be_bytes(x: u32) -> Seq<u8> {
    seq![(x >> 24) as u8, (x >> 16) as u8, (x >> 8) as u8, x as u8]
}

/// Write the four big-endian bytes of `x`.
pub fn u32_to_be_vec(x: u32) -> (r: Vec<u8>)
    ensures
        r@ == u32_be_bytes(x),
{
    let mut r: Vec<u8> = Vec::new();
    r.push((x >> 24) as u8);
    r.push((x >> 16) as u8);
    r.push((x >> 8) as u8);
    r.push(x as u8);
    proof {
        assert(r@ =~= u32_be_bytes(x));
    }
    r
}

/// Two hundred fifty-six to the `n`th power.
pub open spec fn pow256(n: nat) -> int
    decreases n,
{
    if n == 0 {
        1
    } else {
        256 * pow256((n - 1) as nat)
    }
}

/// Powers of two hundred fifty-six are positive and multiply by adding
/// exponents.
pub proof fn lemma_pow256(m: nat, n: nat)
    ensures
        pow256(m) >= 1,
        pow256(m + n) == pow256(m) * pow256(n),
    decreases m,
{
    if m == 0 {
        assert(pow256(n) == 1 * pow256(n));
    } else {
        lemma_pow256((m - 1) as nat, n);
        assert(pow256(m + n) == 256 * pow256((m - 1 + n) as nat));
        assert(256 * (pow256((m - 1) as nat) * pow256(n)) == (256 * pow256((m - 1) as nat))
            * pow256(n)) by (nonlinear_arith);
    }
}

/// The number a big-endian byte string stands for.
pub open spec fn be_value(s: Seq<u8>) -> int
    decreases s.len(),
{
    if s.len() == 0 {
        0
    } else {
        s[0] * pow256((s.len() - 1) as nat) + be_value(s.skip(1))
    }
}

/// A byte string's value is bounded by the power of its length.
pub proof fn lemma_be_value_bounds(s: Seq<u8>)
    ensures
        0 <= be_value(s) < pow256(s.len()),
    decreases s.len(),
{
    if s.len() == 0 {
    } else {
        lemma_be_value_bounds(s.skip(1));
        lemma_pow256((s.len() - 1) as nat, 0);
        let p = pow256((s.len() - 1) as nat);
        assert(s[0] * p + be_value(s.skip(1)) < 256 * p && s[0] * p >= 0) by (nonlinear_arith)
            requires
                0 <= s[0] < 256 && p >= 1 && 0 <= be_value(s.skip(1)) < p,
        ;
    }
}

/// The value of a concatenation: the left part shifted past the right.
pub proof fn lemma_be_value_append(a: Seq<u8>, b: Seq<u8>)
    ensures
        be_value(a + b) == be_value(a) * pow256(b.len()) + be_value(b),
    decreases a.len(),
{
    if a.len() == 0 {
        assert(a + b =~= b);
    } else {
        lemma_be_value_append(a.skip(1), b);
        assert((a + b).skip(1) =~= a.skip(1) + b);
        lemma_pow256((a.len() - 1) as nat, b.len());
        let pa = pow256((a.len() - 1) as nat);
        let pb = pow256(b.len());
        assert(a[0] * (pa * pb) + (be_value(a.skip(1)) * pb + be_value(b)) == (a[0] * pa
            + be_value(a.skip(1))) * pb + be_value(b)) by (nonlinear_arith);
    }
}

/// Strict lexicographic order on byte strings of equal length.
pub open spec fn lex_lt(a: Seq<u8>, b: Seq<u8>) -> bool
    decreases a.len(),
{
    if a.len() == 0 || b.len() == 0 {
        false
    } else if a[0] < b[0] {
        true
    } else if a[0] > b[0] {
        false
    } else {
        lex_lt(a.skip(1), b.skip(1))
    }
}

/// On equal-length byte strings, lexicographic order is the order of the
/// numbers the strings stand for.
pub proof fn lemma_lex_lt_is_value_order(a: Seq<u8>, b: Seq<u8>)
    requires
        a.len() == b.len(),
    ensures
        lex_lt(a, b) <==> be_value(a) < be_value(b),
    decreases a.len(),
{
    if a.len() == 0 {
    } else {
        lemma_lex_lt_is_value_order(a.skip(1), b.skip(1));
        lemma_be_value_bounds(a.skip(1));
        lemma_be_value_bounds(b.skip(1));
        let p = pow256((a.len() - 1) as nat);
        if a[0] != b[0] {
            assert((a[0] * p + be_value(a.skip(1)) < b[0] * p + be_value(b.skip(1))) <==> a[0]
                < b[0]) by (nonlinear_arith)
                requires
                    p >= 1 && 0 <= be_value(a.skip(1)) < p && 0 <= be_value(b.skip(1)) < p && a[0]
                        != b[0],
            ;
        }
    }
}

/// Eight big-endian bytes stand for the number they encode.
pub proof fn lemma_be_value_u64(x: u64)
    ensures
        be_value(u64_be_bytes(x)) == x,
{
    let b0 = (x >> 56) as u8;
    let b1 = (x >> 48) as u8;
    let b2 = (x >> 40) as u8;
    let b3 = (x >> 32) as u8;
    let b4 = (x >> 24) as u8;
    let b5 = (x >> 16) as u8;
    let b6 = (x >> 8) as u8;
    let b7 = x as u8;
    let s = u64_be_bytes(x);
    assert(be_value(Seq::<u8>::empty()) == 0);
    assert(pow256(0) == 1);
    assert(pow256(1) == 256);
    assert(pow256(2) == 0x1_0000);
    assert(pow256(3) == 0x100_0000);
    assert(pow256(4) == 0x1_0000_0000);
    assert(pow256(5) == 0x100_0000_0000);
    assert(pow256(6) == 0x1_0000_0000_0000);
    assert(pow256(7) == 0x100_0000_0000_0000);
    assert(seq![b7].skip(1) =~= Seq::<u8>::empty());
    assert(be_value(seq![b7]) == b7);
    assert(seq![b6, b7].skip(1) =~= seq![b7]);
    assert(be_value(seq![b6, b7]) == b6 * 0x100 + b7);
    assert(seq![b5, b6, b7].skip(1) =~= seq![b6, b7]);
    assert(be_value(seq![b5, b6, b7]) == b5 * 0x1_0000 + b6 * 0x100 + b7);
    assert(seq![b4, b5, b6, b7].skip(1) =~= seq![b5, b6, b7]);
    assert(be_value(seq![b4, b5, b6, b7]) == b4 * 0x100_0000 + b5 * 0x1_0000 + b6 * 0x100 + b7);
    assert(seq![b3, b4, b5, b6, b7].skip(1) =~= seq![b4, b5, b6, b7]);
    assert(be_value(seq![b3, b4, b5, b6, b7]) == b3 * 0x1_0000_0000 + b4 * 0x100_0000 + b5
        * 0x1_0000 + b6 * 0x100 + b7);
    assert(seq![b2, b3, b4, b5, b6, b7].skip(1) =~= seq![b3, b4, b5, b6, b7]);
    assert(be_value(seq![b2, b3, b4, b5, b6, b7]) == b2 * 0x100_0000_0000 + b3 * 0x1_0000_0000
        + b4 * 0x100_0000 + b5 * 0x1_0000 + b6 * 0x100 + b7);
    assert(seq![b1, b2, b3, b4, b5, b6, b7].skip(1) =~= seq![b2, b3, b4, b5, b6, b7]);
    assert(be_value(seq![b1, b2, b3, b4, b5, b6, b7]) == b1 * 0x1_0000_0000_0000 + b2
        * 0x100_0000_0000 + b3 * 0x1_0000_0000 + b4 * 0x100_0000 + b5 * 0x1_0000 + b6 * 0x100
        + b7);
    assert(s =~= seq![b0, b1, b2, b3, b4, b5, b6, b7]);
    assert(s.skip(1) =~= seq![b1, b2, b3, b4, b5, b6, b7]);
    assert(be_value(s) == b0 * 0x100_0000_0000_0000 + b1 * 0x1_0000_0000_0000 + b2
        * 0x100_0000_0000 + b3 * 0x1_0000_0000 + b4 * 0x100_0000 + b5 * 0x1_0000 + b6 * 0x100
        + b7);
    assert(b0 * 0x100_0000_0000_0000 + b1 * 0x1_0000_0000_0000 + b2 * 0x100_0000_0000 + b3
        * 0x1_0000_0000 + b4 * 0x100_0000 + b5 * 0x1_0000 + b6 * 0x100 + b7 == x)
        by (bit_vector)
        requires
            b0 == (x >> 56) as u8 && b1 == (x >> 48) as u8 && b2 == (x >> 40) as u8 && b3 == (x
                >> 32) as u8 && b4 == (x >> 24) as u8 && b5 == (x >> 16) as u8 && b6 == (x
                >> 8) as u8 && b7 == x as u8,
    ;
}

/// Four big-endian bytes stand for the number they encode.
pub proof fn lemma_be_value_u32(x: u32)
    ensures
        be_value(u32_be_bytes(x)) == x,
{
    let b0 = (x >> 24) as u8;
    let b1 = (x >> 16) as u8;
    let b2 = (x >> 8) as u8;
    let b3 = x as u8;
    let s = u32_be_bytes(x);
    assert(be_value(Seq::<u8>::empty()) == 0);
    assert(pow256(0) == 1);
    assert(pow256(1) == 256);
    assert(pow256(2) == 0x1_0000);
    assert(pow256(3) == 0x100_0000);
    assert(seq![b3].skip(1) =~= Seq::<u8>::empty());
    assert(be_value(seq![b3]) == b3);
    assert(seq![b2, b3].skip(1) =~= seq![b3]);
    assert(be_value(seq![b2, b3]) == b2 * 0x100 + b3);
    assert(seq![b1, b2, b3].skip(1) =~= seq![b2, b3]);
    assert(be_value(seq![b1, b2, b3]) == b1 * 0x1_0000 + b2 * 0x100 + b3);
    assert(s =~= seq![b0, b1, b2, b3]);
    assert(s.skip(1) =~= seq![b1, b2, b3]);
    assert(be_value(s) == b0 * 0x100_0000 + b1 * 0x1_0000 + b2 * 0x100 + b3);
    assert(b0 * 0x100_0000 + b1 * 0x1_0000 + b2 * 0x100 + b3 == x) by (bit_vector)
        requires
            b0 == (x >> 24) as u8 && b1 == (x >> 16) as u8 && b2 == (x >> 8) as u8 && b3
                == x as u8,
    ;
}

/// A framed payload: the payload length as eight big-endian bytes, then the
/// payload itself.
pub open spec fn spec_frame(payload: Seq<u8>) -> Seq<u8> {
    u64_be_bytes(payload.len() as u64) + payload
}

/// What decoding at `start` yields: the payload and the position after it,
/// or the error. A header longer than `max_len` is refused before the
/// payload is touched; missing bytes are an unexpected end of input.
pub open spec fn spec_frame_decode(s: Seq<u8>, start: int, max_len: u64) -> Result<
    (Seq<u8>, int),
    FramingError,
> {
    if start + 8 > s.len() {
        Err(FramingError::UnexpectedEof)
    } else {
        let n = u64_from_be(s.subrange(start, start + 8));
        if n > max_len {
            Err(FramingError::LengthOverflow)
        } else if start + 8 + n > s.len() {
            Err(FramingError::UnexpectedEof)
        } else {
            Ok((s.subrange(start + 8, start + 8 + n), start + 8 + n))
        }
    }
}

/// Frame a payload for the wire.
pub fn frame_encode(payload: &Vec<u8>) -> (r: Vec<u8>)
    ensures
        r@ == spec_frame(payload@),
{
    let mut r = u64_to_be_vec(payload.len() as u64);
    let mut body = crate::text::clone_bytes(payload);
    r.append(&mut body);
    proof {
        assert(r@ =~= spec_frame(payload@));
    }
    r
}

/// Decode the frame that starts at `start` in `buf`.
pub fn frame_decode(buf: &Vec<u8>, start: usize, max_len: u64) -> (r: Result<
    (Vec<u8>, usize),
    FramingError,
>)
    requires
        start <= buf@.len(),
        max_len <= usize::MAX as u64,
    ensures
        match r {
            Ok(p) => spec_frame_decode(buf@, start as int, max_len) == Ok::<_, FramingError>(
                (p.0@, p.1 as int),
            ),
            Err(e) => spec_frame_decode(buf@, start as int, max_len) == Err::<(Seq<u8>, int), _>(
                e,
            ),
        },
{
    if buf.len() - start < 8 {
        return Err(FramingError::UnexpectedEof);
    }
    let n = u64_from_be_at(buf, start);
    if n > max_len {
        return Err(FramingError::LengthOverflow);
    }
    let n = n as usize;
    if buf.len() - (start + 8) < n {
        return Err(FramingError::UnexpectedEof);
    }
    let payload = crate::text::subvec(buf, start + 8, start + 8 + n);
    Ok((payload, start + 8 + n))
}

/// The concatenation of the frames of each payload, in order.
pub open spec fn spec_frames(ps: Seq<Seq<u8>>) -> Seq<u8>
    decreases ps.len(),
{
    if ps.len() == 0 {
        Seq::empty()
    } else {
        spec_frame(ps[0]) + spec_frames(ps.skip(1))
    }
}

/// Decoding the head of a framed stream yields the first payload, and the
/// bytes after it are exactly the stream of the remaining payloads.
pub proof fn lemma_frame_stream_step(ps: Seq<Seq<u8>>, max_len: u64)
    requires
        ps.len() > 0,
        ps[0].len() <= max_len,
    ensures
        spec_frame_decode(spec_frames(ps), 0, max_len) == Ok::<_, FramingError>(
            (ps[0], 8 + ps[0].len() as int),
        ),
        spec_frames(ps).subrange(8 + ps[0].len() as int, spec_frames(ps).len() as int)
            == spec_frames(ps.skip(1)),
{
    let s = spec_frames(ps);
    let p = ps[0];
    let n = p.len() as u64;
    lemma_u64_be_round_trip(n);
    assert(s.subrange(0, 8) =~= u64_be_bytes(n));
    assert(s.subrange(8, 8 + n as int) =~= p);
    assert(s.subrange(8 + n as int, s.len() as int) =~= spec_frames(ps.skip(1)));
}

/// The number of frames to read back, read in order, are the payloads that
/// were written, in order.
pub open spec fn spec_decode_n(s: Seq<u8>, max_len: u64, k: nat) -> Option<Seq<Seq<u8>>>
    decreases k,
{
    if k == 0 {
        Some(Seq::empty())
    } else {
        match spec_frame_decode(s, 0, max_len) {
            Ok(p) => match spec_decode_n(s.subrange(p.1, s.len() as int), max_len, (k - 1) as nat) {
                Some(rest) => Some(seq![p.0] + rest),
                None => None,
            },
            Err(_) => None,
        }
    }
}

/// A stream of framed payloads reads back as the same payloads in order.
pub proof fn lemma_frame_stream_round_trip(ps: Seq<Seq<u8>>, max_len: u64)
    requires
        forall|i: int| 0 <= i < ps.len() ==> (#[trigger] ps[i]).len() <= max_len,
    ensures
        spec_decode_n(spec_frames(ps), max_len, ps.len()) == Some(ps),
    decreases ps.len(),
{
    if ps.len() == 0 {
        assert(spec_decode_n(spec_frames(ps), max_len, 0) == Some(Seq::<Seq<u8>>::empty()));
        assert(ps =~= Seq::<Seq<u8>>::empty());
    } else {
        lemma_frame_stream_step(ps, max_len);
        let s = spec_frames(ps);
        let rest = ps.skip(1);
        assert(forall|i: int| 0 <= i < rest.len() ==> (#[trigger] rest[i]).len() <= max_len);
        lemma_frame_stream_round_trip(rest, max_len);
        assert(s.subrange(8 + ps[0].len() as int, s.len() as int) == spec_frames(rest));
        assert(seq![ps[0]] + rest =~= ps);
    }
}

} // verus!
