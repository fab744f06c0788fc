//! Task identifiers: a millisecond timestamp paired with an intra-millisecond
//! counter, totally ordered, with a printable text form and its inverse.

use vstd::prelude::*;
use crate::framing::{
    be_value, lemma_be_value_append, lemma_be_value_u32, lemma_be_value_u64,
    lemma_lex_lt_is_value_order, lex_lt, pow256, u32_be_bytes, u32_to_be_vec, u64_be_bytes,
    u64_to_be_vec,
};
use crate::text::{
    all_ascii, ascii_to_string, ascii_view, dec_digits, find_byte, find_from,
    format_u32, format_u64, lemma_dec_digits_wf, lemma_find_byte, lemma_parse_format_u32,
    lemma_parse_format_u64, parse_u32, parse_u64, spec_parse_u32, spec_parse_u64, subvec,
};

verus! {

/// Two to the sixty-fourth power, used to split a timestamp in halves.
pub const TIMESTAMP_SPLIT: u128 = 0x1_0000_0000_0000_0000;

/// The ASCII hyphen separating the fields of a task id's text form.
pub const FIELD_SEPARATOR: u8 = 0x2d;

/// A task identifier. The timestamp is a millisecond count held as two
/// big-endian 64-bit halves; the counter distinguishes ids issued within one
/// millisecond.
#[derive(Debug, Clone, Copy, PartialEq, Eq, Structural, Hash)]
pub struct TaskId {
    pub hi: u64,
    pub lo: u64,
    pub count: u32,
}

/// Why a task id could not be parsed from text.
#[derive(Debug, Clone, Copy, PartialEq, Eq, Structural)]
pub enum TaskIdParseError {
    /// No separator at all, so the second timestamp field is missing.
    MissingTimestampLo,
    /// Only one separator, so the counter field is missing.
    MissingCount,
    /// The first timestamp field is not a 64-bit decimal number.
    BadTimestampHi,
    /// The second timestamp field is not a 64-bit decimal number.
    BadTimestampLo,
    /// The counter field is not a 32-bit decimal number.
    BadCount,
}

impl TaskIdParseError {
    /// The message describing this error.
    pub open spec fn spec_message(self) -> Seq<char> {
        match self {
            TaskIdParseError::MissingTimestampLo => "second part of timestamp not found"@,
            TaskIdParseError::MissingCount => "count part not found"@,
            TaskIdParseError::BadTimestampHi => "first part of timestamp is not a number"@,
            TaskIdParseError::BadTimestampLo => "second part of timestamp is not a number"@,
            TaskIdParseError::BadCount => "count part is not a number"@,
        }
    }

    /// The message describing this error.
    pub fn message(&self) -> (r: &'static str)
        ensures
            r@ == self.spec_message(),
    {
        match self {
            TaskIdParseError::MissingTimestampLo => "second part of timestamp not found",
            TaskIdParseError::MissingCount => "count part not found",
            TaskIdParseError::BadTimestampHi => "first part of timestamp is not a number",
            TaskIdParseError::BadTimestampLo => "second part of timestamp is not a number",
            TaskIdParseError::BadCount => "count part is not a number",
        }
    }
}

impl TaskId {
    /// The full timestamp this id carries.
    pub open spec fn spec_timestamp(self) -> int {
        self.hi * TIMESTAMP_SPLIT + self.lo
    }

    /// The counter this id carries.
    pub open spec fn spec_count(self) -> u32 {
        self.count
    }

    /// A single number ordering ids by (timestamp, counter).
    pub open spec fn spec_key(self) -> int {
        self.spec_timestamp() * 0x1_0000_0000 + self.count
    }

    /// Build an id from a full timestamp and a counter.
    pub fn from_parts(timestamp: u128, count: u32) -> (r: TaskId)
        ensures
            r.spec_timestamp() == timestamp,
            r.spec_count() == count,
    {
        proof {
            assert(timestamp / TIMESTAMP_SPLIT < TIMESTAMP_SPLIT && timestamp % TIMESTAMP_SPLIT
                < TIMESTAMP_SPLIT && (timestamp / TIMESTAMP_SPLIT) * TIMESTAMP_SPLIT + timestamp
                % TIMESTAMP_SPLIT == timestamp) by (nonlinear_arith);
        }
        TaskId { hi: (timestamp / TIMESTAMP_SPLIT) as u64, lo: (timestamp % TIMESTAMP_SPLIT) as u64, count }
    }

    /// Build an id from the two timestamp halves and a counter.
    pub fn from_split_parts(first_timestamp_part: u64, second_timestamp_part: u64, count: u32) -> (r: TaskId)
        ensures
            r == (TaskId { hi: first_timestamp_part, lo: second_timestamp_part, count }),
    {
        TaskId { hi: first_timestamp_part, lo: second_timestamp_part, count }
    }

    /// The text form of this id: the two timestamp halves and the counter in
    /// decimal, separated by hyphens.
    pub open spec fn spec_display_bytes(self) -> Seq<u8> {
        dec_digits(self.hi as nat) + seq![FIELD_SEPARATOR] + dec_digits(self.lo as nat)
            + seq![FIELD_SEPARATOR] + dec_digits(self.count as nat)
    }

    /// Render this id in its text form, as bytes.
    pub fn display_bytes(&self) -> (r: Vec<u8>)
        ensures
            r@ == self.spec_display_bytes(),
    {
        let mut r = format_u64(self.hi);
        r.push(FIELD_SEPARATOR);
        let mut lo = format_u64(self.lo);
        r.append(&mut lo);
        r.push(FIELD_SEPARATOR);
        let mut count = format_u32(self.count);
        r.append(&mut count);
        proof {
            assert(r@ =~= self.spec_display_bytes());
        }
        r
    }

    /// Render this id in its text form, as a string.
    pub fn to_text(&self) -> (r: String)
        ensures
            r@ == ascii_view(self.spec_display_bytes()),
    {
        let bytes = self.display_bytes();
        proof {
            lemma_display_bytes_ascii(*self);
        }
        ascii_to_string(&bytes)
    }

    /// What parsing a text form yields: the first three hyphen-separated
    /// fields read as two 64-bit numbers and a 32-bit number; anything after
    /// a third separator is ignored.
    pub open spec fn spec_parse_text(s: Seq<u8>) -> Result<TaskId, TaskIdParseError> {
        let i1 = find_byte(s, FIELD_SEPARATOR);
        if i1 == s.len() {
            Err(TaskIdParseError::MissingTimestampLo)
        } else {
            let s1 = s.take(i1);
            let r1 = s.skip(i1 + 1);
            let i2 = find_byte(r1, FIELD_SEPARATOR);
            if i2 == r1.len() {
                Err(TaskIdParseError::MissingCount)
            } else {
                let s2 = r1.take(i2);
                let r2 = r1.skip(i2 + 1);
                let s3 = r2.take(find_byte(r2, FIELD_SEPARATOR));
                match spec_parse_u64(s1) {
                    None => Err(TaskIdParseError::BadTimestampHi),
                    Some(hi) => match spec_parse_u64(s2) {
                        None => Err(TaskIdParseError::BadTimestampLo),
                        Some(lo) => match spec_parse_u32(s3) {
                            None => Err(TaskIdParseError::BadCount),
                            Some(count) => Ok(TaskId { hi, lo, count }),
                        },
                    },
                }
            }
        }
    }

    /// The twenty-byte form: the two timestamp halves and the counter,
    /// each big-endian.
    pub open spec fn spec_bytes(self) -> Seq<u8> {
        u64_be_bytes(self.hi) + u64_be_bytes(self.lo) + u32_be_bytes(self.count)
    }

    /// Render this id in its twenty-byte form.
    pub fn to_bytes(&self) -> (r: Vec<u8>)
        ensures
            r@ == self.spec_bytes(),
    {
        let mut r = u64_to_be_vec(self.hi);
        let mut lo = u64_to_be_vec(self.lo);
        r.append(&mut lo);
        let mut count = u32_to_be_vec(self.count);
        r.append(&mut count);
        proof {
            assert(r@ =~= self.spec_bytes());
        }
        r
    }

    /// Whether this id was issued strictly before `other`: the earlier
    /// timestamp first, then the smaller counter.
    pub fn lt(&self, other: &TaskId) -> (r: bool)
        ensures
            r == (self.spec_key() < other.spec_key()),
    {
        proof {
            lemma_key_orders_ids(*self, *other);
            lemma_split_order(
                self.hi as int,
                self.lo as int,
                other.hi as int,
                other.lo as int,
                TIMESTAMP_SPLIT as int,
            );
        }
        if self.hi != other.hi {
            self.hi < other.hi
        } else if self.lo != other.lo {
            self.lo < other.lo
        } else {
            self.count < other.count
        }
    }

    /// Parse a text form back into an id.
    pub fn parse_text(v: &Vec<u8>) -> (r: Result<TaskId, TaskIdParseError>)
        ensures
            r == TaskId::spec_parse_text(v@),
    {
        let ghost s = v@;
        let d1 = find_from(v, 0, FIELD_SEPARATOR);
        proof {
            assert(s.skip(0) =~= s);
        }
        if d1 == v.len() {
            return Err(TaskIdParseError::MissingTimestampLo);
        }
        let ghost i1 = find_byte(s, FIELD_SEPARATOR);
        let ghost r1 = s.skip(i1 + 1);
        let d2 = find_from(v, d1 + 1, FIELD_SEPARATOR);
        proof {
            assert(r1 =~= s.skip(d1 + 1));
        }
        if d2 == v.len() {
            return Err(TaskIdParseError::MissingCount);
        }
        let ghost i2 = find_byte(r1, FIELD_SEPARATOR);
        let ghost r2 = r1.skip(i2 + 1);
        let d3 = find_from(v, d2 + 1, FIELD_SEPARATOR);
        proof {
            assert(r2 =~= s.skip(d2 + 1));
        }
        let part1 = subvec(v, 0, d1);
        let part2 = subvec(v, d1 + 1, d2);
        let part3 = subvec(v, d2 + 1, d3);
        proof {
            assert(part1@ =~= s.take(i1));
            assert(part2@ =~= r1.take(i2));
            assert(part3@ =~= r2.take(find_byte(r2, FIELD_SEPARATOR)));
        }
        let hi = match parse_u64(&part1) {
            Some(hi) => hi,
            None => {
                return Err(TaskIdParseError::BadTimestampHi);
            },
        };
        let lo = match parse_u64(&part2) {
            Some(lo) => lo,
            None => {
                return Err(TaskIdParseError::BadTimestampLo);
            },
        };
        let count = match parse_u32(&part3) {
            Some(count) => count,
            None => {
                return Err(TaskIdParseError::BadCount);
            },
        };
        Ok(TaskId { hi, lo, count })
    }
}

/// The text form of an id is ASCII.
pub proof fn lemma_display_bytes_ascii(id: TaskId)
    ensures
        all_ascii(id.spec_display_bytes()),
{
    lemma_dec_digits_wf(id.hi as nat);
    lemma_dec_digits_wf(id.lo as nat);
    lemma_dec_digits_wf(id.count as nat);
}

/// Parsing the text form of any id gives that id back.
pub proof fn lemma_task_id_text_round_trip(id: TaskId)
    ensures
        TaskId::spec_parse_text(id.spec_display_bytes()) == Ok::<TaskId, TaskIdParseError>(id),
{
    let s = id.spec_display_bytes();
    let a = dec_digits(id.hi as nat);
    let b = dec_digits(id.lo as nat);
    let c = dec_digits(id.count as nat);
    lemma_dec_digits_wf(id.hi as nat);
    lemma_dec_digits_wf(id.lo as nat);
    lemma_dec_digits_wf(id.count as nat);
    let i1 = a.len() as int;
    assert(forall|j: int| 0 <= j < i1 ==> s[j] != FIELD_SEPARATOR);
    lemma_find_byte(s, FIELD_SEPARATOR, i1);
    assert(s.take(i1) =~= a);
    let r1 = s.skip(i1 + 1);
    assert(r1 =~= b + seq![FIELD_SEPARATOR] + c);
    let i2 = b.len() as int;
    assert(forall|j: int| 0 <= j < i2 ==> r1[j] != FIELD_SEPARATOR);
    lemma_find_byte(r1, FIELD_SEPARATOR, i2);
    assert(r1.take(i2) =~= b);
    let r2 = r1.skip(i2 + 1);
    assert(r2 =~= c);
    assert(forall|j: int| 0 <= j < c.len() ==> r2[j] != FIELD_SEPARATOR);
    lemma_find_byte(r2, FIELD_SEPARATOR, c.len() as int);
    assert(r2.take(c.len() as int) =~= c);
    lemma_parse_format_u64(id.hi);
    lemma_parse_format_u64(id.lo);
    lemma_parse_format_u32(id.count);
}

#[derive(Debug)]
/// Hands out task ids: a fresh timestamp resets the counter, a repeated
/// timestamp increments it, so keys strictly increase.
pub struct TaskIdGenerator {
    pub last: u128,
    pub count: u32,
}

impl TaskIdGenerator {
    /// The key of the most recently issued id (or of the initial state).
    pub open spec fn spec_key(self) -> int {
        self.last * 0x1_0000_0000 + self.count
    }

    /// The timestamp most recently seen.
    pub open spec fn spec_last(self) -> u128 {
        self.last
    }

    /// The counter most recently issued.
    pub open spec fn spec_count(self) -> u32 {
        self.count
    }

    /// A generator that has issued nothing yet.
    pub fn new() -> (r: TaskIdGenerator)
        ensures
            r.spec_last() == 0,
            r.spec_count() == 0,
    {
        TaskIdGenerator { last: 0, count: 0 }
    }

    /// Whether the generator can issue an id for the time `now`: the clock
    /// has not run backwards, and the counter has headroom if the
    /// millisecond repeats.
    pub open spec fn spec_can_issue(self, now: u128) -> bool {
        now >= self.last && (now == self.last ==> self.count < u32::MAX)
    }

    /// The generator state and id that issuing at time `now` produces.
    pub open spec fn spec_next(self, now: u128) -> (TaskIdGenerator, TaskId) {
        let count = if now == self.last {
            (self.count + 1) as u32
        } else {
            0u32
        };
        (
            TaskIdGenerator { last: now, count },
            TaskId {
                hi: (now / TIMESTAMP_SPLIT) as u64,
                lo: (now % TIMESTAMP_SPLIT) as u64,
                count,
            },
        )
    }

    /// Issue the next id for the current time `now` (milliseconds). The
    /// clock must not run backwards, and within one millisecond the counter
    /// must not exhaust its 32 bits; both are forced by machine limits.
    pub fn next_id(&mut self, now: u128) -> (r: TaskId)
        requires
            old(self).spec_can_issue(now),
        ensures
            *final(self) == old(self).spec_next(now).0,
            r == old(self).spec_next(now).1,
            final(self).spec_last() == now,
            r.spec_timestamp() == now,
            r.spec_count() == final(self).spec_count(),
            r.spec_key() == final(self).spec_key(),
            r.spec_key() > old(self).spec_key(),
    {
        if self.last == now {
            self.count = self.count + 1;
        } else {
            self.last = now;
            self.count = 0;
        }
        let n = self.count;
        proof {
            assert(now / TIMESTAMP_SPLIT < TIMESTAMP_SPLIT && now % TIMESTAMP_SPLIT
                < TIMESTAMP_SPLIT && (now / TIMESTAMP_SPLIT) * TIMESTAMP_SPLIT + now
                % TIMESTAMP_SPLIT == now) by (nonlinear_arith);
        }
        let r = TaskId { hi: (now / TIMESTAMP_SPLIT) as u64, lo: (now % TIMESTAMP_SPLIT) as u64, count: n };
        proof {
            assert(r.spec_key() == now * 0x1_0000_0000 + n) by (nonlinear_arith)
                requires
                    r.spec_timestamp() == now,
                    r.spec_count() == n,
                    r.spec_key() == r.spec_timestamp() * 0x1_0000_0000 + r.spec_count(),
            ;
            if now != old(self).spec_last() {
                lemma_key_order(old(self).spec_last() as int, old(self).spec_count() as int, now as int, n as int);
            }
        }
        r
    }
}

/// Mixed-radix order and equality: with the low part bounded by the base,
/// comparing `high * base + low` is comparing `(high, low)` in order.
pub proof fn lemma_split_order(h1: int, l1: int, h2: int, l2: int, base: int)
    requires
        base > 0,
        0 <= l1 < base,
        0 <= l2 < base,
    ensures
        (h1 * base + l1 < h2 * base + l2) <==> (h1 < h2 || (h1 == h2 && l1 < l2)),
        (h1 * base + l1 == h2 * base + l2) <==> (h1 == h2 && l1 == l2),
{
    assert((h1 * base + l1 < h2 * base + l2) <==> (h1 < h2 || (h1 == h2 && l1 < l2)))
        by (nonlinear_arith)
        requires
            base > 0 && 0 <= l1 < base && 0 <= l2 < base,
    ;
    assert((h1 * base + l1 == h2 * base + l2) <==> (h1 == h2 && l1 == l2)) by (nonlinear_arith)
        requires
            base > 0 && 0 <= l1 < base && 0 <= l2 < base,
    ;
}

/// Ids are totally ordered by their keys, which is the order of
/// `(timestamp, counter)`, and the order is strict: ids with equal keys are
/// the same id.
pub proof fn lemma_key_orders_ids(a: TaskId, b: TaskId)
    ensures
        (a.spec_key() < b.spec_key()) <==> (a.spec_timestamp() < b.spec_timestamp() || (
        a.spec_timestamp() == b.spec_timestamp() && a.count < b.count)),
        (a.spec_key() == b.spec_key()) <==> a == b,
{
    lemma_split_order(
        a.spec_timestamp(),
        a.count as int,
        b.spec_timestamp(),
        b.count as int,
        0x1_0000_0000,
    );
    lemma_split_order(a.hi as int, a.lo as int, b.hi as int, b.lo as int, TIMESTAMP_SPLIT as int);
}

/// The twenty-byte form is twenty bytes and stands for the id's key.
pub proof fn lemma_bytes_value_is_key(id: TaskId)
    ensures
        id.spec_bytes().len() == 20,
        be_value(id.spec_bytes()) == id.spec_key(),
{
    let hb = u64_be_bytes(id.hi);
    let lb = u64_be_bytes(id.lo);
    let cb = u32_be_bytes(id.count);
    lemma_be_value_u64(id.hi);
    lemma_be_value_u64(id.lo);
    lemma_be_value_u32(id.count);
    lemma_be_value_append(hb + lb, cb);
    lemma_be_value_append(hb, lb);
    assert(pow256(0) == 1);
    assert(pow256(1) == 256);
    assert(pow256(2) == 0x1_0000);
    assert(pow256(3) == 0x100_0000);
    assert(pow256(4) == 0x1_0000_0000);
    assert(pow256(5) == 0x100_0000_0000);
    assert(pow256(6) == 0x1_0000_0000_0000);
    assert(pow256(7) == 0x100_0000_0000_0000);
    assert(pow256(8) == 0x1_0000_0000_0000_0000);
    assert(id.spec_bytes() =~= (hb + lb) + cb);
    assert(be_value(id.spec_bytes()) == (id.hi * 0x1_0000_0000_0000_0000 + id.lo)
        * 0x1_0000_0000 + id.count);
}

/// Byte-lexicographic order on the twenty-byte forms is exactly the order
/// of `(timestamp, counter)`.
pub proof fn lemma_byte_order_is_id_order(a: TaskId, b: TaskId)
    ensures
        lex_lt(a.spec_bytes(), b.spec_bytes()) <==> a.spec_key() < b.spec_key(),
{
    lemma_bytes_value_is_key(a);
    lemma_bytes_value_is_key(b);
    lemma_lex_lt_is_value_order(a.spec_bytes(), b.spec_bytes());
}

/// Keys order first by timestamp, then by counter.
pub proof fn lemma_key_order(t1: int, c1: int, t2: int, c2: int)
    requires
        t1 < t2,
        0 <= c1 < 0x1_0000_0000,
        0 <= c2,
    ensures
        t1 * 0x1_0000_0000 + c1 < t2 * 0x1_0000_0000 + c2,
{
    assert(t1 * 0x1_0000_0000 + c1 < t2 * 0x1_0000_0000 + c2) by (nonlinear_arith)
        requires
            t1 < t2,
            0 <= c1 < 0x1_0000_0000,
            0 <= c2,
    ;
}

} // verus!
