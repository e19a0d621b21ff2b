//! Finding the NCCL unique id in the output of the helper process that
//! creates it: either a line that starts with the helper's marker, or, for
//! older helpers, a line that is nothing but the id's 256 hex digits.

use vstd::prelude::*;
use crate::error::{Result, TensorError};
use crate::text::{chars_of, decimal, decimal_u64, trim, trim_bounds};

verus! {

/// An ASCII hexadecimal digit.
pub open spec fn is_hex_digit_char(c: char) -> bool {
    ('0' <= c && c <= '9') || ('a' <= c && c <= 'f') || ('A' <= c && c <= 'F')
}

/// 256 ASCII hexadecimal digits, the text form of an NCCL unique id.
pub open spec fn looks_like_id_hex(s: Seq<char>) -> bool {
    s.len() == 256 && forall|i: int| 0 <= i < s.len() ==> is_hex_digit_char(#[trigger] s[i])
}

fn hex_digits_between(v: &Vec<char>, from: usize, to: usize) -> (b: bool)
    requires
        from <= to <= v@.len(),
    ensures
        b == looks_like_id_hex(v@.subrange(from as int, to as int)),
{
    let ghost t = v@.subrange(from as int, to as int);
    if to - from != 256 {
        return false;
    }
    let mut i = from;
    while i < to
        invariant
            from <= i <= to,
            to <= v@.len(),
            t == v@.subrange(from as int, to as int),
            forall|k: int| 0 <= k < i - from ==> is_hex_digit_char(#[trigger] t[k]),
        decreases to - i,
    {
        let c = v[i];
        if !(('0' <= c && c <= '9') || ('a' <= c && c <= 'f') || ('A' <= c && c <= 'F')) {
            assert(t[i - from] == c);
            return false;
        }
        assert(t[i - from] == c);
        i = i + 1;
    }
    true
}

/// The id a helper output line offers, if any: after trimming, the rest of
/// a line that starts with `marker` (trimmed again), or a line that is
/// exactly an id's hex digits.
pub open spec fn line_candidate(line: Seq<char>, marker: Seq<char>) -> Option<Seq<char>> {
    let t = trim(line);
    if marker.len() <= t.len() && t.take(marker.len() as int) == marker {
        Some(trim(t.skip(marker.len() as int)))
    } else if looks_like_id_hex(t) {
        Some(t)
    } else {
        None
    }
}

/// The id candidate that one helper output line offers.
pub fn nccl_unique_id_candidate(line: &str, marker: &str) -> (c: Option<String>)
    ensures
        c matches Some(s) ==> line_candidate(line@, marker@) == Some(s@),
        c is None ==> line_candidate(line@, marker@) is None,
{
    let v = chars_of(line);
    let m = chars_of(marker);
    let (a, b) = trim_bounds(&v, 0, v.len());
    assert(v@.subrange(0, v@.len() as int) =~= line@);
    let ghost t = v@.subrange(a as int, b as int);
    if m.len() <= b - a {
        let mut i: usize = 0;
        let mut same = true;
        while i < m.len()
            invariant
                i <= m@.len(),
                m@.len() <= b - a,
                a <= b <= v@.len(),
                t == v@.subrange(a as int, b as int),
                same <==> forall|k: int| 0 <= k < i ==> #[trigger] t[k] == m@[k],
            decreases m@.len() - i,
        {
            if v[a + i] != m[i] {
                same = false;
            }
            assert(t[i as int] == v@[a + i]);
            i = i + 1;
        }
        if same {
            assert(t.take(m@.len() as int) =~= marker@);
            let (c, d) = trim_bounds(&v, a + m.len(), b);
            assert(t.skip(m@.len() as int) =~= v@.subrange(a + m@.len(), b as int));
            return Some(String::from_str(line.substring_char(c, d)));
        } else {
            proof {
                let k = choose|k: int| 0 <= k < m@.len() && !(#[trigger] t[k] == m@[k]);
                assert(t.take(m@.len() as int)[k] == t[k]);
                assert(t.take(m@.len() as int) != marker@);
            }
        }
    }
    if hex_digits_between(&v, a, b) {
        Some(String::from_str(line.substring_char(a, b)))
    } else {
        None
    }
}

/// One line's id candidate, with the reason the id parser refused it
/// (`None` when it accepted it).
#[derive(Clone, Debug)]
pub struct NcclIdCandidate {
    pub hex: String,
    pub invalid_reason: Option<String>,
}

/// Line `i` offers an accepted id.
pub open spec fn valid_at(lines: Seq<Option<NcclIdCandidate>>, i: int) -> bool {
    lines[i] matches Some(c) && c.invalid_reason is None
}

/// Line `i` offers a refused id.
pub open spec fn invalid_at(lines: Seq<Option<NcclIdCandidate>>, i: int) -> bool {
    lines[i] matches Some(c) && c.invalid_reason is Some
}

/// How many of the first `n` lines offer an accepted id.
pub open spec fn valid_count(lines: Seq<Option<NcclIdCandidate>>, n: int) -> nat
    decreases n,
{
    if n <= 0 {
        0
    } else {
        valid_count(lines, n - 1) + (if valid_at(lines, n - 1) {
            1nat
        } else {
            0nat
        })
    }
}

/// The last line, before `n`, that offers a refused id.
pub open spec fn last_invalid(lines: Seq<Option<NcclIdCandidate>>, n: int) -> Option<int>
    decreases n,
{
    if n <= 0 {
        None
    } else if invalid_at(lines, n - 1) {
        Some(n - 1)
    } else {
        last_invalid(lines, n - 1)
    }
}

/// The message of a refused id, as a line parser reports it.
pub open spec fn invalid_id_message(reason: Seq<char>) -> Seq<char> {
    "device error: NCCL unique-id helper returned invalid id: "@ + reason
}

/// The message when no line offers an id.
pub open spec fn missing_id_message(marker: Seq<char>, line_count: nat) -> Seq<char> {
    "NCCL unique-id helper stdout did not contain "@ + marker + "; stdout_lines="@ + decimal(line_count)
}

/// Picks the NCCL unique id from the helper's output, given each line's
/// candidate (one entry per output line) and `marker`, the prefix that marks
/// an id line. Exactly one accepted id is returned; a second accepted id is
/// refused as ambiguous; with none, the last refused id's reason is
/// reported, and with no candidate at all, the absence of the marker. Every
/// refusal is a device error.
pub fn select_nccl_unique_id(lines: &[Option<NcclIdCandidate>], marker: &str) -> (res: Result<String>)
    requires
        lines@.len() <= u64::MAX,
    ensures
        res matches Err(e) ==> e is Device,
        valid_count(lines@, lines@.len() as int) == 1 <==> res is Ok,
        res matches Ok(hex) ==> exists|i: int|
            0 <= i < lines@.len() && valid_at(lines@, i) && #[trigger] lines@[i]->Some_0.hex@ == hex@,
        valid_count(lines@, lines@.len() as int) >= 2 ==> (res matches Err(e) && e.message_spec()
            == "NCCL unique-id helper stdout contained multiple candidate ids"@),
        valid_count(lines@, lines@.len() as int) == 0 ==> (res matches Err(e) && e.message_spec() == (
        match last_invalid(lines@, lines@.len() as int) {
            Some(i) => invalid_id_message(lines@[i]->Some_0.invalid_reason->Some_0@),
            None => missing_id_message(marker@, lines@.len() as nat),
        })),
{
    let mut parsed: Option<String> = None;
    let mut parsed_at: usize = 0;
    let mut invalid: Option<usize> = None;
    let mut i: usize = 0;
    while i < lines.len()
        invariant
            i <= lines@.len(),
            valid_count(lines@, i as int) <= 1,
            parsed is Some <==> valid_count(lines@, i as int) == 1,
            parsed matches Some(h) ==> parsed_at < i && valid_at(lines@, parsed_at as int)
                && lines@[parsed_at as int]->Some_0.hex@ == h@,
            invalid is None <==> last_invalid(lines@, i as int) is None,
            invalid matches Some(k) ==> last_invalid(lines@, i as int) == Some(k as int),
            last_invalid(lines@, i as int) matches Some(k) ==> 0 <= k < i && invalid_at(lines@, k),
        decreases lines@.len() - i,
    {
        proof {
            lemma_last_invalid_bound(lines@, i + 1);
        }
        match &lines[i] {
            Some(c) => {
                match &c.invalid_reason {
                    None => {
                        if parsed.is_some() {
                            proof {
                                assert(valid_count(lines@, i + 1) == 2);
                                lemma_valid_count_monotone(lines@, i + 1, lines@.len() as int);
                            }
                            return Err(
                                TensorError::Device(
                                    String::from_str("NCCL unique-id helper stdout contained multiple candidate ids"),
                                ),
                            );
                        }
                        parsed = Some(c.hex.clone());
                        parsed_at = i;
                    },
                    Some(_) => {
                        invalid = Some(i);
                    },
                }
            },
            None => {},
        }
        i = i + 1;
    }
    match parsed {
        Some(h) => Ok(h),
        None => match invalid {
            Some(k) => {
                let reason = match &lines[k] {
                    Some(c) => match &c.invalid_reason {
                        Some(r) => r.as_str(),
                        None => "",
                    },
                    None => "",
                };
                let mut message = String::from_str(
                    "device error: NCCL unique-id helper returned invalid id: ",
                );
                message.append(reason);
                Err(TensorError::Device(message))
            },
            None => {
                let mut message = String::from_str("NCCL unique-id helper stdout did not contain ");
                message.append(marker);
                message.append("; stdout_lines=");
                let count = decimal_u64(lines.len() as u64);
                message.append(count.as_str());
                Err(TensorError::Device(message))
            },
        },
    }
}

proof fn lemma_last_invalid_bound(lines: Seq<Option<NcclIdCandidate>>, n: int)
    ensures
        last_invalid(lines, n) matches Some(k) ==> 0 <= k < n && invalid_at(lines, k),
    decreases n,
{
    if n > 0 {
        lemma_last_invalid_bound(lines, n - 1);
    }
}

proof fn lemma_valid_count_monotone(lines: Seq<Option<NcclIdCandidate>>, i: int, n: int)
    requires
        i <= n,
    ensures
        valid_count(lines, i) <= valid_count(lines, n),
    decreases n - i,
{
    if i < n {
        lemma_valid_count_monotone(lines, i, n - 1);
    }
}

} // verus!
