use vstd::prelude::*;
use vstd::string::StrSliceExecFns;

verus! {

// The webhook's free-text `content` field embeds the assignment id of the
// settled obligation as the decimal digits that immediately follow the first
// occurrence of the marker `FLATAPP` followed by at least one digit. The
// digits are read greedily; a value that does not fit an `i32` fails the
// extraction, as does content without the pattern.

pub open spec fn is_digit(c: char) -> bool {
    '0' <= c && c <= '9'
}

pub open spec fn digit_val(c: char) -> int {
    c as int - '0' as int
}

/// The marker begins at position `i` of `s` and at least one digit follows.
pub open spec fn pattern_at(s: Seq<char>, i: int) -> bool {
    &&& 0 <= i
    &&& i + 8 <= s.len()
    &&& s[i] == 'F'
    &&& s[i + 1] == 'L'
    &&& s[i + 2] == 'A'
    &&& s[i + 3] == 'T'
    &&& s[i + 4] == 'A'
    &&& s[i + 5] == 'P'
    &&& s[i + 6] == 'P'
    &&& is_digit(s[i + 7])
}

/// The first position at or after `i` where the pattern matches, if any.
pub open spec fn pattern_from(s: Seq<char>, i: int) -> Option<int>
    decreases s.len() - i,
{
    if i + 8 > s.len() {
        None
    } else if pattern_at(s, i) {
        Some(i)
    } else {
        pattern_from(s, i + 1)
    }
}

pub open spec fn pattern_start(s: Seq<char>) -> Option<int> {
    pattern_from(s, 0)
}

/// The end of the maximal digit run starting at `j`.
pub open spec fn run_end(s: Seq<char>, j: int) -> int
    decreases s.len() - j,
{
    if j < 0 || j >= s.len() {
        j
    } else if is_digit(s[j]) {
        run_end(s, j + 1)
    } else {
        j
    }
}

/// Value of the decimal digits of `s` in positions `from..to`.
pub open spec fn digits_val(s: Seq<char>, from: int, to: int) -> int
    decreases to - from,
{
    if from >= to {
        0
    } else {
        digits_val(s, from, to - 1) * 10 + digit_val(s[to - 1])
    }
}

/// What extraction yields on `s`: the value of the digit run after the first
/// marker, or nothing when there is no marker or the value overflows `i32`.
pub open spec fn extract_spec(s: Seq<char>) -> Option<int> {
    match pattern_start(s) {
        None => None,
        Some(m) => {
            let v = digits_val(s, m + 7, run_end(s, m + 7));
            if v <= i32::MAX {
                Some(v)
            } else {
                None
            }
        },
    }
}

proof fn lemma_digits_val_nonneg(s: Seq<char>, from: int, to: int)
    requires
        forall|k: int| from <= k < to ==> is_digit(s[k]),
    ensures
        digits_val(s, from, to) >= 0,
    decreases to - from,
{
    if from < to {
        lemma_digits_val_nonneg(s, from, to - 1);
    }
}

proof fn lemma_digits_val_grows(s: Seq<char>, from: int, to: int)
    requires
        from < to,
        forall|k: int| from <= k < to ==> is_digit(s[k]),
        digits_val(s, from, to - 1) > i32::MAX,
    ensures
        digits_val(s, from, to) > i32::MAX,
{
    lemma_digits_val_nonneg(s, from, to - 1);
}

/// Extracts the embedded assignment id from webhook content: the decimal run
/// after the first `FLATAPP` marker, or `None` when the pattern is absent or
/// the number does not fit an `i32`.
pub fn extract_code(content: &str) -> (r: Option<i32>)
    ensures
        r is Some <==> extract_spec(content@) is Some,
        r matches Some(v) ==> extract_spec(content@) == Some(v as int),
{
    let n = content.unicode_len();
    let mut i: usize = 0;
    loop
        invariant
            0 <= i,
            i + 8 <= n + 8,
            n == content@.len(),
            pattern_start(content@) == pattern_from(content@, i as int),
            forall|j: int| 0 <= j < i ==> !pattern_at(content@, j),
        ensures
            pattern_start(content@) matches Some(m) && 0 <= m < n && pattern_at(content@, m)
                && i == m || pattern_start(content@) is None && i + 8 > n,
        decreases n + 8 - i,
    {
        if n < 8 || i > n - 8 {
            proof {
                assert(i + 8 > n);
                assert(pattern_from(content@, i as int) is None);
            }
            break;
        }
        let c0 = content.get_char(i);
        let c1 = content.get_char(i + 1);
        let c2 = content.get_char(i + 2);
        let c3 = content.get_char(i + 3);
        let c4 = content.get_char(i + 4);
        let c5 = content.get_char(i + 5);
        let c6 = content.get_char(i + 6);
        let c7 = content.get_char(i + 7);
        if c0 == 'F' && c1 == 'L' && c2 == 'A' && c3 == 'T' && c4 == 'A' && c5 == 'P' && c6 == 'P'
            && '0' <= c7 && c7 <= '9' {
            proof {
                assert(pattern_at(content@, i as int));
            }
            break;
        }
        proof {
            assert(!pattern_at(content@, i as int));
        }
        i += 1;
    }
    if n < 8 || i > n - 8 {
        return None;
    }
    let m = i;
    // walk the digit run, accumulating its value until it can no longer fit
    let mut j: usize = m + 7;
    let mut val: u64 = 0;
    let mut over: bool = false;
    loop
        invariant
            m + 7 <= j <= n,
            n == content@.len(),
            pattern_at(content@, m as int),
            forall|k: int| m + 7 <= k < j ==> is_digit(content@[k]),
            run_end(content@, m as int + 7) == run_end(content@, j as int),
            !over ==> val == digits_val(content@, m as int + 7, j as int)
                && val <= i32::MAX as u64,
            over ==> digits_val(content@, m as int + 7, j as int) > i32::MAX,
        ensures
            j as int == run_end(content@, m as int + 7),
            forall|k: int| m + 7 <= k < j ==> is_digit(content@[k]),
            !over ==> val == digits_val(content@, m as int + 7, j as int)
                && val <= i32::MAX as u64,
            over ==> digits_val(content@, m as int + 7, j as int) > i32::MAX,
        decreases n - j,
    {
        if j >= n {
            break;
        }
        let c = content.get_char(j);
        if !('0' <= c && c <= '9') {
            break;
        }
        proof {
            if over {
                lemma_digits_val_grows(content@, m as int + 7, j as int + 1);
            }
        }
        if !over {
            let d = (c as u32) - ('0' as u32);
            let next = val * 10 + d as u64;
            if next > i32::MAX as u64 {
                over = true;
            } else {
                val = next;
            }
            proof {
                if next > i32::MAX as u64 {
                    assert(digits_val(content@, m as int + 7, j as int + 1) > i32::MAX);
                }
            }
        }
        j += 1;
    }
    if over {
        None
    } else {
        Some(val as i32)
    }
}

} // verus!
