use vstd::prelude::*;
use crate::codec::{hex_char_val, hex_val};
use vstd::string::StrSliceExecFns;

verus! {

/// A whitespace character, per the Unicode White_Space set that
/// `str::trim` removes.
pub open spec fn is_space(c: char) -> bool {
    ||| c == '\u{9}'
    ||| c == '\u{a}'
    ||| c == '\u{b}'
    ||| c == '\u{c}'
    ||| c == '\u{d}'
    ||| c == ' '
    ||| c == '\u{85}'
    ||| c == '\u{a0}'
    ||| c == '\u{1680}'
    ||| c == '\u{2000}'
    ||| c == '\u{2001}'
    ||| c == '\u{2002}'
    ||| c == '\u{2003}'
    ||| c == '\u{2004}'
    ||| c == '\u{2005}'
    ||| c == '\u{2006}'
    ||| c == '\u{2007}'
    ||| c == '\u{2008}'
    ||| c == '\u{2009}'
    ||| c == '\u{200a}'
    ||| c == '\u{2028}'
    ||| c == '\u{2029}'
    ||| c == '\u{202f}'
    ||| c == '\u{205f}'
    ||| c == '\u{3000}'
}

/// The string with its leading whitespace removed.
pub open spec fn trim_front(s: Seq<char>) -> Seq<char>
    decreases s.len(),
{
    if s.len() > 0 && is_space(s[0]) {
        trim_front(s.skip(1))
    } else {
        s
    }
}

/// The string with its trailing whitespace removed.
pub open spec fn trim_back(s: Seq<char>) -> Seq<char>
    decreases s.len(),
{
    if s.len() > 0 && is_space(s.last()) {
        trim_back(s.drop_last())
    } else {
        s
    }
}

/// The string with whitespace removed from both ends.
pub open spec fn trim_spec(s: Seq<char>) -> Seq<char> {
    trim_back(trim_front(s))
}

pub open spec fn is_dec_digit(c: char) -> bool {
    hex_val(c) < 10
}

/// The number a sequence of decimal digits denotes.
pub open spec fn dec_val(s: Seq<char>) -> int
    decreases s.len(),
{
    if s.len() == 0 {
        0
    } else {
        dec_val(s.drop_last()) * 10 + hex_val(s.last())
    }
}

/// The digit part of a signed integer string: everything after the
/// optional single leading sign.
pub open spec fn int_body(s: Seq<char>) -> Seq<char> {
    if s.len() > 0 && (s[0] == '+' || s[0] == '-') {
        s.skip(1)
    } else {
        s
    }
}

pub open spec fn is_negative(s: Seq<char>) -> bool {
    s.len() > 0 && s[0] == '-'
}

/// A well-formed `i32` string: an optional sign, then at least one
/// decimal digit and nothing else, denoting a value in range.
pub open spec fn valid_i32_str(s: Seq<char>) -> bool {
    let b = int_body(s);
    &&& b.len() > 0
    &&& forall|q: int| 0 <= q < b.len() ==> is_dec_digit(#[trigger] b[q])
    &&& (if is_negative(s) {
        dec_val(b) <= 0x8000_0000
    } else {
        dec_val(b) <= 0x7fff_ffff
    })
}

/// The value an `i32` string denotes, with any malformed or out-of-range
/// string falling back to zero.
pub open spec fn parse_i32_spec(s: Seq<char>) -> int {
    if valid_i32_str(s) {
        if is_negative(s) {
            -dec_val(int_body(s))
        } else {
            dec_val(int_body(s))
        }
    } else {
        0
    }
}

proof fn lemma_dec_val_nonneg(s: Seq<char>)
    requires
        forall|q: int| 0 <= q < s.len() ==> is_dec_digit(#[trigger] s[q]),
    ensures
        dec_val(s) >= 0,
    decreases s.len(),
{
    if s.len() > 0 {
        lemma_dec_val_nonneg(s.drop_last());
    }
}

/// Appending digits never shrinks the denoted number.
proof fn lemma_dec_val_extend(s: Seq<char>, i: int)
    requires
        0 <= i <= s.len(),
        forall|q: int| 0 <= q < s.len() ==> is_dec_digit(#[trigger] s[q]),
    ensures
        dec_val(s) >= dec_val(s.take(i)),
    decreases s.len() - i,
{
    if i < s.len() {
        assert(s.take(i + 1).drop_last() =~= s.take(i));
        assert(forall|q: int| 0 <= q < s.take(i).len() ==> is_dec_digit(#[trigger] s.take(i)[q]));
        lemma_dec_val_nonneg(s.take(i));
        assert(dec_val(s.take(i + 1)) == dec_val(s.take(i)) * 10 + hex_val(s[i]));
        lemma_dec_val_extend(s, i + 1);
    } else {
        assert(s.take(i) =~= s);
    }
}

/// Whether the character is whitespace.
fn is_space_char(c: char) -> (r: bool)
    ensures
        r == is_space(c),
{
    c == '\u{9}' || c == '\u{a}' || c == '\u{b}' || c == '\u{c}' || c == '\u{d}' || c == ' ' || c
        == '\u{85}' || c == '\u{a0}' || c == '\u{1680}' || c == '\u{2000}' || c == '\u{2001}' || c
        == '\u{2002}' || c == '\u{2003}' || c == '\u{2004}' || c == '\u{2005}' || c == '\u{2006}'
        || c == '\u{2007}' || c == '\u{2008}' || c == '\u{2009}' || c == '\u{200a}' || c
        == '\u{2028}' || c == '\u{2029}' || c == '\u{202f}' || c == '\u{205f}' || c == '\u{3000}'
}

/// Remove leading and trailing whitespace, as the readers of the
/// one-line OS preference files do before using their content.
pub fn trim_whitespace(s: &str) -> (r: String)
    ensures
        r@ == trim_spec(s@),
{
    let n: usize = s.unicode_len();
    let mut start: usize = 0;
    proof {
        assert(s@.skip(0) =~= s@);
    }
    while start < n && is_space_char(s.get_char(start))
        invariant
            0 <= start <= n,
            n == s@.len(),
            trim_front(s@) == trim_front(s@.skip(start as int)),
        decreases n - start,
    {
        proof {
            assert(s@.skip(start as int)[0] == s@[start as int]);
            assert(s@.skip(start as int).skip(1) =~= s@.skip(start + 1));
        }
        start = start + 1;
    }
    proof {
        if start == n {
            assert(s@.skip(start as int) =~= Seq::<char>::empty());
        }
        assert(trim_front(s@) == s@.skip(start as int));
    }

    let mut end: usize = n;
    proof {
        assert(s@.subrange(start as int, n as int) =~= s@.skip(start as int));
    }
    while end > start && is_space_char(s.get_char(end - 1))
        invariant
            start <= end <= n,
            n == s@.len(),
            trim_front(s@) == s@.skip(start as int),
            trim_back(s@.skip(start as int)) == trim_back(s@.subrange(start as int, end as int)),
        decreases end,
    {
        proof {
            let cur = s@.subrange(start as int, end as int);
            assert(cur.last() == s@[end - 1]);
            assert(cur.drop_last() =~= s@.subrange(start as int, end - 1));
        }
        end = end - 1;
    }
    proof {
        let cur = s@.subrange(start as int, end as int);
        if end == start {
            assert(cur =~= Seq::<char>::empty());
        }
        assert(trim_back(cur) == cur);
        assert(trim_spec(s@) == s@.subrange(start as int, end as int));
    }
    let r = s.substring_char(start, end).to_owned();
    r
}

/// Parse a signed decimal integer the way the SMT-state reader does: a
/// malformed or out-of-range string counts as zero.
pub fn parse_i32_or_zero(s: &str) -> (r: i32)
    ensures
        r as int == parse_i32_spec(s@),
{
    let n: usize = s.unicode_len();
    if n == 0 {
        return 0;
    }
    let first = s.get_char(0);
    let neg = first == '-';
    let start: usize = if first == '-' || first == '+' {
        1
    } else {
        0
    };
    let ghost body = int_body(s@);
    proof {
        assert(body =~= s@.skip(start as int));
    }
    if start >= n {
        // A bare sign has no digits.
        return 0;
    }

    let mut acc: i64 = 0;
    let mut p: usize = start;
    while p < n
        invariant
            start <= p <= n,
            n == s@.len(),
            start < n,
            body == int_body(s@),
            body == s@.skip(start as int),
            neg == is_negative(s@),
            forall|q: int| 0 <= q < p - start ==> is_dec_digit(#[trigger] body[q]),
            0 <= acc <= 0x8000_0000,
            acc as int == dec_val(body.take(p - start)),
        decreases n - p,
    {
        let c = s.get_char(p);
        let v: u8 = hex_char_val(c);
        proof {
            assert(body[p - start] == s@[p as int]);
        }
        if v >= 10 {
            // A non-digit in the body: the whole string is malformed.
            proof {
                assert(!is_dec_digit(body[p - start]));
                assert(!valid_i32_str(s@));
            }
            return 0;
        }
        proof {
            assert(body.take(p + 1 - start).drop_last() =~= body.take(p - start));
            assert(body.take(p + 1 - start).last() == body[p - start]);
        }
        acc = acc * 10 + (v as i64);
        if acc > 0x8000_0000 {
            // Too many digits for any i32, whatever the sign.
            proof {
                if valid_i32_str(s@) {
                    lemma_dec_val_extend(body, p + 1 - start);
                    assert(body.take(body.len() as int) =~= body);
                    assert(dec_val(body) >= acc);
                    assert(false);
                }
            }
            return 0;
        }
        p = p + 1;
    }
    proof {
        assert(body.take(n - start) =~= body);
        assert(body.len() > 0);
    }
    if neg {
        if acc == 0x8000_0000 {
            i32::MIN
        } else {
            proof {
                assert(valid_i32_str(s@));
            }
            -(acc as i32)
        }
    } else {
        if acc == 0x8000_0000 {
            // 2147483648 overflows the positive range.
            proof {
                assert(!valid_i32_str(s@));
            }
            0
        } else {
            proof {
                assert(valid_i32_str(s@));
            }
            acc as i32
        }
    }
}

/// The compute half of the SMT-state probe: the OS file's single line,
/// trimmed and read as an integer, with any malformed content counting
/// as "inactive".
pub fn parse_smt_state(contents: &str) -> (r: i32)
    ensures
        r as int == parse_i32_spec(trim_spec(contents@)),
{
    let trimmed = trim_whitespace(contents);
    parse_i32_or_zero(trimmed.as_str())
}

/// The compute half of the energy-profile read: the preference file's
/// single line, trimmed.
pub fn read_energy_profile_value(contents: &str) -> (r: String)
    ensures
        r@ == trim_spec(contents@),
{
    trim_whitespace(contents)
}

/// The block of static configuration values written into the engine's
/// shared state before it is attached, immutable for the lifetime of one
/// engine instantiation. Durations are in nanoseconds.
#[derive(Clone, Copy, Debug, PartialEq, Eq, Structural)]
pub struct EngineParams {
    pub debug: bool,
    pub smt_enabled: bool,
    pub lowlatency: bool,
    pub local_kthreads: bool,
    pub slice_ns: u64,
    pub slice_ns_min: u64,
    pub slice_ns_lag: i64,
    pub starvation_thresh_ns: u64,
    pub nvcsw_max_thresh: u64,
    pub exit_dump_len: u32,
}

/// Turn the validated command-line values (durations in microseconds)
/// into the engine's static configuration block. The maximum slice must
/// not be shorter than the minimum one, and every duration must fit in
/// its nanosecond field.
pub fn engine_params(
    exit_dump_len: u32,
    slice_us: u64,
    slice_us_min: u64,
    slice_us_lag: i64,
    lowlatency: bool,
    local_kthreads: bool,
    nvcsw_max_thresh: u64,
    starvation_thresh_us: u64,
    debug: bool,
    smt_enabled: bool,
) -> (p: EngineParams)
    requires
        slice_us >= slice_us_min,
        slice_us <= u64::MAX / 1000,
        starvation_thresh_us <= u64::MAX / 1000,
        -9223372036854775 <= slice_us_lag <= 9223372036854775,
    ensures
        p.debug == debug,
        p.smt_enabled == smt_enabled,
        p.lowlatency == lowlatency,
        p.local_kthreads == local_kthreads,
        p.slice_ns == slice_us * 1000,
        p.slice_ns_min == slice_us_min * 1000,
        p.slice_ns_lag == slice_us_lag * 1000,
        p.starvation_thresh_ns == starvation_thresh_us * 1000,
        p.nvcsw_max_thresh == nvcsw_max_thresh,
        p.exit_dump_len == exit_dump_len,
{
    EngineParams {
        debug,
        smt_enabled,
        lowlatency,
        local_kthreads,
        slice_ns: slice_us * 1000,
        slice_ns_min: slice_us_min * 1000,
        slice_ns_lag: slice_us_lag * 1000,
        starvation_thresh_ns: starvation_thresh_us * 1000,
        nvcsw_max_thresh,
        exit_dump_len,
    }
}

} // verus!
