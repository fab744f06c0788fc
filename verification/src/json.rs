//! JSON strings over bytes: canonical escaping of a byte string, and a
//! scanner for the canonical form. The escapes are exactly those the wire
//! peers emit: `\"`, `\\`, `\b`, `\t`, `\n`, `\f`, `\r`, and lowercase
//! `\u00XX` for the remaining control bytes; all other bytes stand for
//! themselves. The scanner accepts exactly what `json_string` produces.

use vstd::prelude::*;

verus! {

pub const QUOTE: u8 = 0x22;
pub const BACKSLASH: u8 = 0x5c;
pub const RBRACE: u8 = 0x7d;
pub const RBRACKET: u8 = 0x5d;
pub const COMMA: u8 = 0x2c;

/// The lowercase hex digit for a value below sixteen.
pub open spec fn hex_digit(d: nat) -> u8 {
    if d < 10 {
        (0x30 + d) as u8
    } else {
        (0x61 + d - 10) as u8
    }
}

/// The value of a lowercase hex digit, or sixteen if it is none.
pub open spec fn hex_val(b: u8) -> nat {
    if 0x30 <= b <= 0x39 {
        (b - 0x30) as nat
    } else if 0x61 <= b <= 0x66 {
        (b - 0x61 + 10) as nat
    } else {
        16
    }
}

/// Whether `b` has a short escape form.
pub open spec fn has_short_escape(b: u8) -> bool {
    b == QUOTE || b == BACKSLASH || b == 0x08 || b == 0x09 || b == 0x0a || b == 0x0c || b == 0x0d
}

/// The canonical escape of one byte.
pub open spec fn esc_byte(b: u8) -> Seq<u8> {
    if b == QUOTE {
        seq![BACKSLASH, QUOTE]
    } else if b == BACKSLASH {
        seq![BACKSLASH, BACKSLASH]
    } else if b == 0x08 {
        seq![BACKSLASH, 0x62]
    } else if b == 0x09 {
        seq![BACKSLASH, 0x74]
    } else if b == 0x0a {
        seq![BACKSLASH, 0x6e]
    } else if b == 0x0c {
        seq![BACKSLASH, 0x66]
    } else if b == 0x0d {
        seq![BACKSLASH, 0x72]
    } else if b < 0x20 {
        seq![BACKSLASH, 0x75, 0x30, 0x30, hex_digit((b / 16) as nat), hex_digit((b % 16) as nat)]
    } else {
        seq![b]
    }
}

/// The canonical escaping of a byte string.
pub open spec fn esc(s: Seq<u8>) -> Seq<u8>
    decreases s.len(),
{
    if s.len() == 0 {
        Seq::empty()
    } else {
        esc_byte(s[0]) + esc(s.skip(1))
    }
}

/// A byte string as a JSON string: quoted and escaped.
pub open spec fn json_string(s: Seq<u8>) -> Seq<u8> {
    seq![QUOTE] + esc(s) + seq![QUOTE]
}

/// Escaping distributes over concatenation.
pub proof fn lemma_esc_append(a: Seq<u8>, b: Seq<u8>)
    ensures
        esc(a + b) == esc(a) + esc(b),
    decreases a.len(),
{
    if a.len() == 0 {
        assert(a + b =~= b);
        assert(esc(a) + esc(b) =~= esc(b));
    } else {
        lemma_esc_append(a.skip(1), b);
        assert((a + b).skip(1) =~= a.skip(1) + b);
        assert(esc_byte(a[0]) + (esc(a.skip(1)) + esc(b)) =~= (esc_byte(a[0]) + esc(a.skip(1)))
            + esc(b));
    }
}

/// Escaping one more byte appends its escape.
pub proof fn lemma_esc_push(s: Seq<u8>, b: u8)
    ensures
        esc(s.push(b)) == esc(s) + esc_byte(b),
{
    lemma_esc_append(s, seq![b]);
    assert(s.push(b) =~= s + seq![b]);
    assert(seq![b].skip(1) =~= Seq::<u8>::empty());
    assert(esc(Seq::<u8>::empty()) == Seq::<u8>::empty());
    assert(esc(seq![b]) =~= esc_byte(b));
}

/// Append the canonical escaping of `s` to `out`.
pub fn write_escaped(out: &mut Vec<u8>, s: &Vec<u8>)
    ensures
        final(out)@ == old(out)@ + esc(s@),
{
    let ghost base = out@;
    let mut i: usize = 0;
    while i < s.len()
        invariant
            0 <= i <= s@.len(),
            out@ == base + esc(s@.take(i as int)),
        decreases s@.len() - i,
    {
        let b = s[i];
        if b == QUOTE {
            out.push(BACKSLASH);
            out.push(QUOTE);
        } else if b == BACKSLASH {
            out.push(BACKSLASH);
            out.push(BACKSLASH);
        } else if b == 0x08 {
            out.push(BACKSLASH);
            out.push(0x62);
        } else if b == 0x09 {
            out.push(BACKSLASH);
            out.push(0x74);
        } else if b == 0x0a {
            out.push(BACKSLASH);
            out.push(0x6e);
        } else if b == 0x0c {
            out.push(BACKSLASH);
            out.push(0x66);
        } else if b == 0x0d {
            out.push(BACKSLASH);
            out.push(0x72);
        } else if b < 0x20 {
            out.push(BACKSLASH);
            out.push(0x75);
            out.push(0x30);
            out.push(0x30);
            let hi = b / 16;
            let lo = b % 16;
            out.push(if hi < 10 { 0x30 + hi } else { 0x61 + hi - 10 });
            out.push(if lo < 10 { 0x30 + lo } else { 0x61 + lo - 10 });
        } else {
            out.push(b);
        }
        proof {
            lemma_esc_push(s@.take(i as int), b);
            assert(s@.take(i as int).push(b) =~= s@.take(i + 1 as int));
            assert(out@ =~= base + esc(s@.take(i + 1 as int)));
        }
        i = i + 1;
    }
    proof {
        assert(s@.take(s@.len() as int) =~= s@);
    }
}

/// Append `s` as a JSON string to `out`.
pub fn write_json_string(out: &mut Vec<u8>, s: &Vec<u8>)
    ensures
        final(out)@ == old(out)@ + json_string(s@),
{
    let ghost base = out@;
    out.push(QUOTE);
    write_escaped(out, s);
    out.push(QUOTE);
    proof {
        assert(out@ =~= base + json_string(s@));
    }
}

/// A byte that stands for itself inside a JSON string.
pub open spec fn is_plain(b: u8) -> bool {
    b >= 0x20 && b != QUOTE && b != BACKSLASH
}


/// The byte a two-character escape stands for, if the second character
/// forms one.
pub open spec fn short_unescape(c: u8) -> Option<u8> {
    if c == QUOTE {
        Some(QUOTE)
    } else if c == BACKSLASH {
        Some(BACKSLASH)
    } else if c == 0x62 {
        Some(0x08)
    } else if c == 0x74 {
        Some(0x09)
    } else if c == 0x6e {
        Some(0x0a)
    } else if c == 0x66 {
        Some(0x0c)
    } else if c == 0x72 {
        Some(0x0d)
    } else {
        None
    }
}

/// Scan the canonical characters of a JSON string from `pos` up to the
/// closing quote: the decoded bytes and the position after the quote.
/// Exactly the escapes `esc_byte` produces are accepted.
pub open spec fn spec_scan_chars(b: Seq<u8>, pos: int) -> Option<(Seq<u8>, int)>
    decreases b.len() - pos,
{
    if pos < 0 || pos >= b.len() {
        None
    } else if b[pos] == QUOTE {
        Some((Seq::empty(), pos + 1))
    } else if b[pos] == BACKSLASH {
        if pos + 2 > b.len() {
            None
        } else if short_unescape(b[pos + 1]) is Some {
            match spec_scan_chars(b, pos + 2) {
                Some(d) => Some((seq![short_unescape(b[pos + 1]).unwrap()] + d.0, d.1)),
                None => None,
            }
        } else if b[pos + 1] == 0x75 {
            if pos + 6 > b.len() {
                None
            } else if b[pos + 2] != 0x30 || b[pos + 3] != 0x30 {
                None
            } else {
                let hi = hex_val(b[pos + 4]);
                let lo = hex_val(b[pos + 5]);
                if hi >= 16 || lo >= 16 {
                    None
                } else {
                    let v = (hi * 16 + lo) as u8;
                    if v < 0x20 && !has_short_escape(v) && b[pos + 4] == hex_digit(hi) && b[pos
                        + 5] == hex_digit(lo) {
                        match spec_scan_chars(b, pos + 6) {
                            Some(d) => Some((seq![v] + d.0, d.1)),
                            None => None,
                        }
                    } else {
                        None
                    }
                }
            }
        } else {
            None
        }
    } else if is_plain(b[pos]) {
        match spec_scan_chars(b, pos + 1) {
            Some(d) => Some((seq![b[pos]] + d.0, d.1)),
            None => None,
        }
    } else {
        None
    }
}

/// Scan a whole JSON string at `pos`: the decoded bytes and the position
/// after the closing quote.
pub open spec fn spec_scan_string(b: Seq<u8>, pos: int) -> Option<(Seq<u8>, int)> {
    if 0 <= pos < b.len() && b[pos] == QUOTE {
        spec_scan_chars(b, pos + 1)
    } else {
        None
    }
}

/// Soundness: whatever the scanner accepts is exactly the canonical
/// escaping of what it decoded, closing quote included.
pub proof fn lemma_scan_chars_sound(b: Seq<u8>, pos: int)
    requires
        spec_scan_chars(b, pos) is Some,
    ensures
        ({
            let d = spec_scan_chars(b, pos).unwrap();
            &&& 0 <= pos < d.1 <= b.len()
            &&& b.subrange(pos, d.1) == esc(d.0) + seq![QUOTE]
        }),
    decreases b.len() - pos,
{
    let d = spec_scan_chars(b, pos).unwrap();
    assert(esc(Seq::<u8>::empty()) == Seq::<u8>::empty());
    if b[pos] == QUOTE {
        assert(b.subrange(pos, pos + 1) =~= esc(Seq::<u8>::empty()) + seq![QUOTE]);
    } else if b[pos] == BACKSLASH {
        if short_unescape(b[pos + 1]) is Some {
            let v = short_unescape(b[pos + 1]).unwrap();
            lemma_scan_chars_sound(b, pos + 2);
            let rest = spec_scan_chars(b, pos + 2).unwrap();
            assert(b.subrange(pos, pos + 2) =~= esc_byte(v));
            lemma_esc_cons(v, rest.0);
            assert(b.subrange(pos, d.1) =~= b.subrange(pos, pos + 2) + b.subrange(pos + 2, d.1));
            assert(b.subrange(pos, d.1) =~= esc(d.0) + seq![QUOTE]);
        } else {
            let hi = hex_val(b[pos + 4]);
            let lo = hex_val(b[pos + 5]);
            let v = (hi * 16 + lo) as u8;
            lemma_scan_chars_sound(b, pos + 6);
            let rest = spec_scan_chars(b, pos + 6).unwrap();
            assert(hi == v / 16 && lo == v % 16) by (nonlinear_arith)
                requires
                    hi < 16 && lo < 16 && v == (hi * 16 + lo) as u8,
            ;
            assert(b.subrange(pos, pos + 6) =~= esc_byte(v));
            lemma_esc_cons(v, rest.0);
            assert(b.subrange(pos, d.1) =~= b.subrange(pos, pos + 6) + b.subrange(pos + 6, d.1));
            assert(b.subrange(pos, d.1) =~= esc(d.0) + seq![QUOTE]);
        }
    } else {
        lemma_scan_chars_sound(b, pos + 1);
        let rest = spec_scan_chars(b, pos + 1).unwrap();
        assert(b.subrange(pos, pos + 1) =~= esc_byte(b[pos]));
        lemma_esc_cons(b[pos], rest.0);
        assert(b.subrange(pos, d.1) =~= b.subrange(pos, pos + 1) + b.subrange(pos + 1, d.1));
        assert(b.subrange(pos, d.1) =~= esc(d.0) + seq![QUOTE]);
    }
}

/// Escaping a string starting with `v` starts with the escape of `v`.
pub proof fn lemma_esc_cons(v: u8, rest: Seq<u8>)
    ensures
        esc(seq![v] + rest) == esc_byte(v) + esc(rest),
{
    assert((seq![v] + rest).len() > 0);
    assert((seq![v] + rest)[0] == v);
    assert((seq![v] + rest).skip(1) =~= rest);
}

/// Completeness: the scanner decodes the canonical escaping of any byte
/// string, stopping exactly at its closing quote.
pub proof fn lemma_scan_chars_complete(b: Seq<u8>, pos: int, s: Seq<u8>)
    requires
        0 <= pos,
        pos + esc(s).len() + 1 <= b.len(),
        b.subrange(pos, pos + esc(s).len()) == esc(s),
        b[pos + esc(s).len()] == QUOTE,
    ensures
        spec_scan_chars(b, pos) == Some((s, pos + esc(s).len() + 1)),
    decreases s.len(),
{
    if s.len() == 0 {
        assert(esc(s).len() == 0);
        assert(b[pos] == QUOTE);
    } else {
        let b0 = s[0];
        let e0 = esc_byte(b0);
        let tail = esc(s.skip(1));
        assert(esc(s) == e0 + tail);
        assert(e0.len() >= 1);
        let es = esc(s);
        assert forall|j: int| 0 <= j < e0.len() implies b[pos + j] == e0[j] by {
            assert(b.subrange(pos, pos + es.len() as int)[j] == es[j]);
            assert(es[j] == e0[j]);
        }
        assert(b.subrange(pos + e0.len(), pos + es.len() as int) =~= b.subrange(
            pos,
            pos + es.len() as int,
        ).subrange(e0.len() as int, es.len() as int));
        assert(es.subrange(e0.len() as int, es.len() as int) =~= tail);
        assert(b.subrange(pos + e0.len(), pos + e0.len() + tail.len()) =~= tail);
        lemma_scan_chars_complete(b, pos + e0.len() as int, s.skip(1));
        if b0 == QUOTE || b0 == BACKSLASH || b0 == 0x08 || b0 == 0x09 || b0 == 0x0a || b0 == 0x0c
            || b0 == 0x0d {
            assert(e0.len() == 2);
            assert(b[pos] == e0[0] && b[pos + 1] == e0[1]);
            assert(b[pos] == BACKSLASH);
            assert(short_unescape(b[pos + 1]) == Some(b0));
        } else if b0 < 0x20 {
            assert(e0.len() == 6);
            assert(b[pos] == e0[0] && b[pos + 1] == e0[1] && b[pos + 2] == e0[2] && b[pos + 3]
                == e0[3] && b[pos + 4] == e0[4] && b[pos + 5] == e0[5]);
            assert(b[pos] == BACKSLASH && b[pos + 1] == 0x75 && b[pos + 2] == 0x30 && b[pos + 3]
                == 0x30 && b[pos + 4] == hex_digit((b0 / 16) as nat) && b[pos + 5] == hex_digit(
                (b0 % 16) as nat,
            ));
            assert(short_unescape(b[pos + 1]) is None);
            assert(hex_val(hex_digit((b0 / 16) as nat)) == b0 / 16 && hex_val(
                hex_digit((b0 % 16) as nat),
            ) == b0 % 16);
            assert((b0 / 16) * 16 + b0 % 16 == b0) by (nonlinear_arith);
        } else {
            assert(e0.len() == 1);
            assert(b[pos] == e0[0]);
            assert(b[pos] == b0 && is_plain(b0));
        }
        assert(seq![b0] + s.skip(1) =~= s);
    }
}

/// The JSON string of `s` occupies `b` exactly from `pos`.
pub open spec fn is_json_string_at(b: Seq<u8>, pos: int, s: Seq<u8>) -> bool {
    &&& 0 <= pos
    &&& pos + json_string(s).len() <= b.len()
    &&& b.subrange(pos, pos + json_string(s).len() as int) == json_string(s)
}

/// A JSON string present at `pos` is scanned to exactly its contents.
pub proof fn lemma_scan_string_complete(b: Seq<u8>, pos: int, s: Seq<u8>)
    requires
        is_json_string_at(b, pos, s),
    ensures
        spec_scan_string(b, pos) == Some((s, pos + json_string(s).len() as int)),
{
    let js = json_string(s);
    assert(b[pos] == js[0]) by {
        assert(b.subrange(pos, pos + js.len() as int)[0] == js[0]);
    }
    assert(b[pos] == QUOTE);
    assert forall|j: int| 0 <= j < esc(s).len() implies b.subrange(
        pos + 1,
        pos + 1 + esc(s).len() as int,
    )[j] == esc(s)[j] by {
        assert(b.subrange(pos, pos + js.len() as int)[j + 1] == js[j + 1]);
        assert(js[j + 1] == esc(s)[j]);
    }
    assert(b.subrange(pos + 1, pos + 1 + esc(s).len() as int) =~= esc(s));
    assert(b[pos + 1 + esc(s).len()] == QUOTE) by {
        assert(b.subrange(pos, pos + js.len() as int)[esc(s).len() as int + 1] == js[esc(
            s,
        ).len() as int + 1]);
        assert(js[esc(s).len() as int + 1] == QUOTE);
    }
    lemma_scan_chars_complete(b, pos + 1, s);
}

/// What the scanner accepts at `pos` is the JSON string of what it decoded.
pub proof fn lemma_scan_string_sound(b: Seq<u8>, pos: int)
    requires
        spec_scan_string(b, pos) is Some,
    ensures
        ({
            let d = spec_scan_string(b, pos).unwrap();
            &&& is_json_string_at(b, pos, d.0)
            &&& d.1 == pos + json_string(d.0).len()
        }),
{
    let d = spec_scan_string(b, pos).unwrap();
    lemma_scan_chars_sound(b, pos + 1);
    assert(b.subrange(pos, d.1) =~= seq![QUOTE] + b.subrange(pos + 1, d.1));
    assert(b.subrange(pos, d.1) =~= json_string(d.0));
}

/// Prefixing decoded bytes onto a scan outcome.
pub open spec fn spec_compose(prefix: Seq<u8>, o: Option<(Seq<u8>, int)>) -> Option<
    (Seq<u8>, int),
> {
    match o {
        Some(d) => Some((prefix + d.0, d.1)),
        None => None,
    }
}

/// The value of a lowercase hex digit byte, or sixteen if it is none.
fn hexv(b: u8) -> (r: u8)
    ensures
        r as nat == hex_val(b),
{
    if 0x30 <= b && b <= 0x39 {
        b - 0x30
    } else if 0x61 <= b && b <= 0x66 {
        b - 0x61 + 10
    } else {
        16
    }
}

/// The lowercase hex digit byte for a value below sixteen.
fn hexd(d: u8) -> (r: u8)
    requires
        d < 16,
    ensures
        r == hex_digit(d as nat),
{
    if d < 10 {
        0x30 + d
    } else {
        0x61 + d - 10
    }
}

/// Parse the JSON string at `pos`: the decoded bytes and the position after
/// the closing quote. Returns exactly what the canonical scanner accepts.
pub fn parse_json_string(buf: &Vec<u8>, pos: usize) -> (r: Option<(Vec<u8>, usize)>)
    requires
        pos <= buf@.len(),
    ensures
        match r {
            Some(p) => spec_scan_string(buf@, pos as int) == Some((p.0@, p.1 as int)) && pos < p.1
                <= buf@.len(),
            None => spec_scan_string(buf@, pos as int) is None,
        },
{
    if pos >= buf.len() || buf[pos] != QUOTE {
        return None;
    }
    let mut cur: usize = pos + 1;
    let mut dec: Vec<u8> = Vec::new();
    loop
        invariant
            pos + 1 <= cur <= buf@.len(),
            pos < buf@.len(),
            buf@[pos as int] == QUOTE,
            spec_scan_chars(buf@, pos + 1) == spec_compose(
                dec@,
                spec_scan_chars(buf@, cur as int),
            ),
        decreases buf@.len() - cur,
    {
        if cur >= buf.len() {
            return None;
        }
        let b = buf[cur];
        if b == QUOTE {
            proof {
                assert(dec@ + Seq::<u8>::empty() =~= dec@);
            }
            return Some((dec, cur + 1));
        } else if b == BACKSLASH {
            if cur + 1 >= buf.len() {
                return None;
            }
            let c = buf[cur + 1];
            let short = if c == QUOTE {
                Some(QUOTE)
            } else if c == BACKSLASH {
                Some(BACKSLASH)
            } else if c == 0x62 {
                Some(0x08u8)
            } else if c == 0x74 {
                Some(0x09u8)
            } else if c == 0x6e {
                Some(0x0au8)
            } else if c == 0x66 {
                Some(0x0cu8)
            } else if c == 0x72 {
                Some(0x0du8)
            } else {
                None
            };
            proof {
                assert(short == short_unescape(c));
            }
            match short {
                Some(v) => {
                    let ghost prior = dec@;
                    dec.push(v);
                    proof {
                        lemma_compose_step(buf@, pos + 1, prior, v, cur as int, cur + 2);
                    }
                    cur = cur + 2;
                },
                None => {
                    if c != 0x75 {
                        return None;
                    }
                    if buf.len() - cur < 6 {
                        return None;
                    }
                    if buf[cur + 2] != 0x30 || buf[cur + 3] != 0x30 {
                        return None;
                    }
                    let hi = hexv(buf[cur + 4]);
                    let lo = hexv(buf[cur + 5]);
                    if hi >= 16 || lo >= 16 {
                        return None;
                    }
                    let v = hi * 16 + lo;
                    let is_short = v == QUOTE || v == BACKSLASH || v == 0x08 || v == 0x09 || v
                        == 0x0a || v == 0x0c || v == 0x0d;
                    if !(v < 0x20 && !is_short && buf[cur + 4] == hexd(hi) && buf[cur + 5] == hexd(
                        lo,
                    )) {
                        return None;
                    }
                    let ghost prior = dec@;
                    dec.push(v);
                    proof {
                        lemma_compose_step(buf@, pos + 1, prior, v, cur as int, cur + 6);
                    }
                    cur = cur + 6;
                },
            }
        } else if b >= 0x20 {
            let ghost prior = dec@;
            dec.push(b);
            proof {
                lemma_compose_step(buf@, pos + 1, prior, b, cur as int, cur + 1);
            }
            cur = cur + 1;
        } else {
            return None;
        }
    }
}

/// One decoded byte moves from the scanner's head to the accumulator.
proof fn lemma_compose_step(b: Seq<u8>, start: int, prior: Seq<u8>, v: u8, cur: int, next: int)
    requires
        spec_scan_chars(b, start) == spec_compose(prior, spec_scan_chars(b, cur)),
        spec_scan_chars(b, cur) == spec_compose(seq![v], spec_scan_chars(b, next)),
    ensures
        spec_scan_chars(b, start) == spec_compose(prior.push(v), spec_scan_chars(b, next)),
{
    match spec_scan_chars(b, next) {
        Some(d) => {
            assert(prior + (seq![v] + d.0) =~= prior.push(v) + d.0);
        },
        None => {
        },
    }
}

} // verus!
