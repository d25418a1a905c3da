//! Parsing of the broker topic configuration value.
//!
//! The environment is read outside the library; what arrives here is the
//! raw `name:partitions:offset` text.  Splitting it and reading its two
//! numbers, with the fallback to `1` that the start-up has always used, is
//! pure computation and is verified.

use vstd::prelude::*;

use crate::text::spec_split_char;
use crate::text::split_char_all;

verus! {

/// True for the decimal digit characters.
pub open spec fn is_digit_char(c: char) -> bool {
    0x30 <= (c as u32) <= 0x39
}

/// Run-time check for `is_digit_char`.
pub fn digit_char_check(c: char) -> (b: bool)
    ensures
        b == is_digit_char(c),
{
    let u = c as u32;
    0x30 <= u && u <= 0x39
}

/// The numeric value of one digit character.
pub open spec fn digit_value(c: char) -> int {
    (c as u32) - 0x30
}

/// A non-empty run of digit characters.
pub open spec fn all_digit_chars(s: Seq<char>) -> bool {
    s.len() > 0 && (forall|k: int| 0 <= k < s.len() ==> is_digit_char(#[trigger] s[k]))
}

/// The number a run of digits denotes, most significant digit first.
pub open spec fn digits_value(s: Seq<char>) -> int
    decreases s.len(),
{
    if s.len() == 0 {
        0
    } else {
        digits_value(s.drop_last()) * 10 + digit_value(s.last())
    }
}

/// A run of digits denotes a number that is not negative.
proof fn lemma_digits_value_nonneg(s: Seq<char>)
    requires
        forall|k: int| 0 <= k < s.len() ==> is_digit_char(#[trigger] s[k]),
    ensures
        digits_value(s) >= 0,
    decreases s.len(),
{
    if s.len() > 0 {
        assert(forall|k: int|
            0 <= k < s.drop_last().len() ==> is_digit_char(#[trigger] s.drop_last()[k]));
        lemma_digits_value_nonneg(s.drop_last());
    }
}

/// Reading more digits never shrinks the denoted number.
proof fn lemma_digits_value_mono(s: Seq<char>, k: int)
    requires
        0 <= k <= s.len(),
        forall|j: int| 0 <= j < s.len() ==> is_digit_char(#[trigger] s[j]),
    ensures
        digits_value(s.take(k)) <= digits_value(s),
    decreases s.len() - k,
{
    if k == s.len() {
        assert(s.take(k) =~= s);
    } else {
        assert(forall|j: int| 0 <= j < s.take(k).len() ==> is_digit_char(#[trigger] s.take(k)[j]));
        lemma_digits_value_nonneg(s.take(k));
        assert(s.take(k + 1).drop_last() =~= s.take(k));
        assert(s.take(k + 1).last() == s[k]);
        assert(digits_value(s.take(k + 1)) == digits_value(s.take(k)) * 10 + digit_value(s[k]));
        lemma_digits_value_mono(s, k + 1);
    }
}

/// The signed number a text denotes: an optional sign, then digits and
/// nothing else.  The denoted value is unbounded; each width applies its
/// own range below.
pub open spec fn spec_parse_int(s: Seq<char>) -> Option<int> {
    let ds = if s.len() > 0 && (s[0] == '-' || s[0] == '+') {
        s.drop_first()
    } else {
        s
    };
    if !all_digit_chars(ds) {
        None
    } else if s.len() > 0 && s[0] == '-' {
        Some(-digits_value(ds))
    } else {
        Some(digits_value(ds))
    }
}

/// The 64-bit signed number a text denotes, when it has one in range.
pub open spec fn spec_parse_i64(s: Seq<char>) -> Option<int> {
    match spec_parse_int(s) {
        Some(v) => if i64::MIN <= v <= i64::MAX {
            Some(v)
        } else {
            None
        },
        None => None,
    }
}

/// The 32-bit signed number a text denotes, when it has one in range.
pub open spec fn spec_parse_i32(s: Seq<char>) -> Option<int> {
    match spec_parse_int(s) {
        Some(v) => if i32::MIN <= v <= i32::MAX {
            Some(v)
        } else {
            None
        },
        None => None,
    }
}

/// Reads a 64-bit signed decimal number: an optional sign, then digits.
/// Reports `None` on anything else and on a value out of range.
pub fn parse_i64_text(s: &str) -> (r: Option<i64>)
    ensures
        match spec_parse_i64(s@) {
            Some(v) => r matches Some(x) && x as int == v,
            None => r is None,
        },
{
    let n = s.unicode_len();
    let mut start: usize = 0;
    let mut neg = false;
    if n > 0 {
        let c0 = s.get_char(0);
        if c0 == '-' {
            neg = true;
            start = 1;
        } else if c0 == '+' {
            start = 1;
        }
    }
    let ghost ds = if s@.len() > 0 && (s@[0] == '-' || s@[0] == '+') {
        s@.drop_first()
    } else {
        s@
    };
    proof {
        assert(ds =~= s@.subrange(start as int, n as int));
    }
    if start == n {
        proof {
            assert(ds.len() == 0);
        }
        return None;
    }
    let limit: u64 = if neg {
        9223372036854775808
    } else {
        9223372036854775807
    };
    let mut acc: u64 = 0;
    let mut j: usize = start;
    while j < n
        invariant
            start <= j <= n,
            n == s@.len(),
            start <= 1,
            start < n,
            ds == s@.subrange(start as int, n as int),
            ds == (if s@.len() > 0 && (s@[0] == '-' || s@[0] == '+') {
                s@.drop_first()
            } else {
                s@
            }),
            neg == (s@.len() > 0 && s@[0] == '-'),
            start == 1 ==> (s@[0] == '-' || s@[0] == '+'),
            start == 0 ==> !(s@.len() > 0 && (s@[0] == '-' || s@[0] == '+')),
            limit == (if neg {
                9223372036854775808u64
            } else {
                9223372036854775807u64
            }),
            forall|k: int| start <= k < j ==> is_digit_char(#[trigger] s@[k]),
            acc as int == digits_value(s@.subrange(start as int, j as int)),
            acc <= limit,
        decreases n - j,
    {
        let c = s.get_char(j);
        if !digit_char_check(c) {
            proof {
                assert(ds[j - start] == s@[j as int]);
                assert(!all_digit_chars(ds));
            }
            return None;
        }
        let d: u64 = ((c as u32) - 0x30) as u64;
        let ghost pre = s@.subrange(start as int, j as int);
        let ghost post = s@.subrange(start as int, j as int + 1);
        proof {
            assert(post.drop_last() =~= pre);
            assert(post.last() == s@[j as int]);
            assert(digits_value(post) == digits_value(pre) * 10 + digit_value(s@[j as int]));
        }
        if acc > (limit - d) / 10 {
            proof {
                let li = limit as int;
                let di = d as int;
                let ai = acc as int;
                assert(ai * 10 + di > li) by (nonlinear_arith)
                    requires
                        ai > (li - di) / 10,
                        0 <= di <= 9,
                        di <= li,
                        0 <= ai,
                ;
                if all_digit_chars(ds) {
                    assert forall|k: int|
                        0 <= k < ds.take(j - start + 1).len() implies ds.take(j - start + 1)[k]
                        == post[k] by {
                        assert(ds[k] == s@[start + k]);
                    }
                    assert(ds.take(j - start + 1) =~= post);
                    lemma_digits_value_mono(ds, j - start + 1);
                    assert(digits_value(ds) >= digits_value(post));
                    assert(digit_value(s@[j as int]) == di);
                    assert(digits_value(post) == ai * 10 + di);
                    assert(digits_value(ds) > li);
                    if neg {
                        assert(spec_parse_int(s@) == Some(-digits_value(ds)));
                    } else {
                        assert(spec_parse_int(s@) == Some(digits_value(ds)));
                    }
                    assert(spec_parse_i64(s@) is None);
                }
            }
            return None;
        }
        proof {
            let li = limit as int;
            let di = d as int;
            let ai = acc as int;
            assert(ai * 10 + di <= li) by (nonlinear_arith)
                requires
                    ai <= (li - di) / 10,
                    0 <= di <= 9,
                    di <= li,
                    0 <= ai,
            ;
        }
        acc = acc * 10 + d;
        j = j + 1;
    }
    proof {
        assert(s@.subrange(start as int, n as int) == ds);
        assert(all_digit_chars(ds)) by {
            assert(forall|k: int| 0 <= k < ds.len() ==> ds[k] == s@[start + k]);
        }
        assert(acc as int == digits_value(ds));
    }
    if neg {
        if acc == 9223372036854775808 {
            Some(i64::MIN)
        } else {
            Some(-(acc as i64))
        }
    } else {
        Some(acc as i64)
    }
}

/// Reads a 32-bit signed decimal number: an optional sign, then digits.
/// Reports `None` on anything else and on a value out of range.
pub fn parse_i32_text(s: &str) -> (r: Option<i32>)
    ensures
        match spec_parse_i32(s@) {
            Some(v) => r matches Some(x) && x as int == v,
            None => r is None,
        },
{
    match parse_i64_text(s) {
        None => None,
        Some(v) => if v < -2147483648 || v > 2147483647 {
            None
        } else {
            Some(v as i32)
        },
    }
}

/// One broker topic to ensure at start-up: its name, its partition count,
/// its starting offset, and its fixed replication factor.
pub struct KafkaNinoverseTopic {
    pub topic: String,
    pub partition: i32,
    pub offset: i64,
    pub replication: i32,
}

/// The colon-separated pieces of the topic configuration value.
pub open spec fn spec_topic_pieces(cfg: Seq<char>) -> Seq<Seq<char>> {
    spec_split_char(cfg, ':')
}

/// The partition count the configuration declares: its second piece as a
/// number, or `1` when the piece is missing or does not read.
pub open spec fn spec_topic_partition(cfg: Seq<char>) -> int {
    let ps = spec_topic_pieces(cfg);
    if ps.len() < 2 {
        1
    } else {
        match spec_parse_i32(ps[1]) {
            Some(v) => v,
            None => 1,
        }
    }
}

/// The starting offset the configuration declares: its third piece as a
/// number, or `1` when the piece is missing or does not read.
pub open spec fn spec_topic_offset(cfg: Seq<char>) -> int {
    let ps = spec_topic_pieces(cfg);
    if ps.len() < 3 {
        1
    } else {
        match spec_parse_i64(ps[2]) {
            Some(v) => v,
            None => 1,
        }
    }
}

/// Reads the topic configuration value `name:partitions:offset` into the
/// single topic the start-up ensures, falling back to `1` for a missing
/// or unreadable number.
pub fn get_kafka_generic_topic(topic_config: &str) -> (r: Vec<KafkaNinoverseTopic>)
    ensures
        r@.len() == 1,
        r@[0].topic@ == spec_topic_pieces(topic_config@)[0],
        r@[0].partition as int == spec_topic_partition(topic_config@),
        r@[0].offset as int == spec_topic_offset(topic_config@),
        r@[0].replication == 0,
{
    let pieces = split_char_all(topic_config, ':');
    proof {
        assert(forall|k: int|
            0 <= k < pieces@.len() ==> spec_topic_pieces(topic_config@)[k] == #[trigger] pieces@[
                k]@);
    }
    let topic = pieces[0].clone();
    let partition: i32 = if pieces.len() < 2 {
        1
    } else {
        match parse_i32_text(pieces[1].as_str()) {
            Some(v) => v,
            None => 1,
        }
    };
    let offset: i64 = if pieces.len() < 3 {
        1
    } else {
        match parse_i64_text(pieces[2].as_str()) {
            Some(v) => v,
            None => 1,
        }
    };
    let mut r: Vec<KafkaNinoverseTopic> = Vec::new();
    r.push(KafkaNinoverseTopic { topic, partition, offset, replication: 0 });
    r
}

} // verus!
