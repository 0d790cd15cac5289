use vstd::prelude::*;
use crate::classify::{get_primary_cpus, tier_id_set, Powermode};
use crate::cpumask::{full_set, Cpumask};
use crate::topology::Topology;

verus! {

/// Some entry of the id list equals `i`.
pub open spec fn seq_has(cpus: Seq<usize>, i: int) -> bool {
    exists|j: int| 0 <= j < cpus.len() && cpus[j] == i
}

/// Largest id in a non-empty id list.
pub open spec fn max_id(cpus: Seq<usize>) -> usize
    decreases cpus.len(),
{
    if cpus.len() == 0 {
        0
    } else if cpus.len() == 1 {
        cpus[0]
    } else {
        let rest = max_id(cpus.drop_last());
        if cpus.last() > rest {
            cpus.last()
        } else {
            rest
        }
    }
}

/// Bit `k` of a hex-digit value.
pub open spec fn nib_bit(d: u8, k: u8) -> bool {
    (d >> k) & 1 == 1
}

/// Value of hex digit number `q`, counting digits from the least
/// significant end: its bit `k` is set iff CPU `4*q + k` is a member.
pub open spec fn nib_val(cpus: Seq<usize>, q: int) -> u8 {
    (if seq_has(cpus, 4 * q) {
        1u8
    } else {
        0u8
    }) | (if seq_has(cpus, 4 * q + 1) {
        2u8
    } else {
        0u8
    }) | (if seq_has(cpus, 4 * q + 2) {
        4u8
    } else {
        0u8
    }) | (if seq_has(cpus, 4 * q + 3) {
        8u8
    } else {
        0u8
    })
}

/// The lowercase hex character for a digit value below 16.
pub open spec fn hex_digit(d: u8) -> char {
    if d == 0 {
        '0'
    } else if d == 1 {
        '1'
    } else if d == 2 {
        '2'
    } else if d == 3 {
        '3'
    } else if d == 4 {
        '4'
    } else if d == 5 {
        '5'
    } else if d == 6 {
        '6'
    } else if d == 7 {
        '7'
    } else if d == 8 {
        '8'
    } else if d == 9 {
        '9'
    } else if d == 10 {
        'a'
    } else if d == 11 {
        'b'
    } else if d == 12 {
        'c'
    } else if d == 13 {
        'd'
    } else if d == 14 {
        'e'
    } else {
        'f'
    }
}

/// The value of a hex character, or 16 when the character is not a hex
/// digit at all.
pub open spec fn hex_val(c: char) -> u8 {
    if c == '0' {
        0
    } else if c == '1' {
        1
    } else if c == '2' {
        2
    } else if c == '3' {
        3
    } else if c == '4' {
        4
    } else if c == '5' {
        5
    } else if c == '6' {
        6
    } else if c == '7' {
        7
    } else if c == '8' {
        8
    } else if c == '9' {
        9
    } else if c == 'a' || c == 'A' {
        10
    } else if c == 'b' || c == 'B' {
        11
    } else if c == 'c' || c == 'C' {
        12
    } else if c == 'd' || c == 'D' {
        13
    } else if c == 'e' || c == 'E' {
        14
    } else if c == 'f' || c == 'F' {
        15
    } else {
        16
    }
}

pub open spec fn is_hex_char(c: char) -> bool {
    hex_val(c) < 16
}

/// Number of hex digits of the canonical encoding of a non-empty id list:
/// the width is sized to the highest member id, rounded up to whole bytes
/// (two digits per byte, at least one byte).
pub open spec fn encode_width(cpus: Seq<usize>) -> int {
    2 * ((max_id(cpus) + 8) / 8)
}

/// The digits of the canonical encoding, most significant first.
pub open spec fn encode_digits(cpus: Seq<usize>) -> Seq<char> {
    Seq::new(
        encode_width(cpus) as nat,
        |p: int| hex_digit(nib_val(cpus, encode_width(cpus) - 1 - p)),
    )
}

/// The canonical hexadecimal string of a CPU id list: `0x0` for the empty
/// list, else `0x` followed by the big-endian digits.
pub open spec fn encode_spec(cpus: Seq<usize>) -> Seq<char> {
    if cpus.len() == 0 {
        seq!['0', 'x', '0']
    } else {
        seq!['0', 'x'] + encode_digits(cpus)
    }
}

/// The set of CPU ids that a sequence of hex digits (most significant
/// first) denotes: id `i` is a member iff bit `i % 4` of digit `i / 4`
/// from the least significant end is set.
pub open spec fn decode_set(digits: Seq<char>) -> Set<usize> {
    Set::new(
        |i: usize|
            i as int / 4 < digits.len() && nib_bit(
                hex_val(digits[digits.len() - 1 - i as int / 4]),
                (i as int % 4) as u8,
            ),
    )
}

proof fn lemma_seq_has_push(cpus: Seq<usize>, x: usize, i: int)
    ensures
        seq_has(cpus.push(x), i) <==> (seq_has(cpus, i) || i == x),
{
    if seq_has(cpus.push(x), i) {
        let j = choose|j: int| 0 <= j < cpus.push(x).len() && cpus.push(x)[j] == i;
        if j < cpus.len() {
            assert(cpus[j] == i);
        }
    }
    if seq_has(cpus, i) {
        let j = choose|j: int| 0 <= j < cpus.len() && cpus[j] == i;
        assert(cpus.push(x)[j] == i);
    }
    assert(cpus.push(x)[cpus.len() as int] == x);
}

pub proof fn lemma_max_id_ge(cpus: Seq<usize>, j: int)
    requires
        0 <= j < cpus.len(),
    ensures
        cpus[j] <= max_id(cpus),
    decreases cpus.len(),
{
    if cpus.len() > 1 && j < cpus.len() - 1 {
        lemma_max_id_ge(cpus.drop_last(), j);
    }
}

proof fn lemma_or_bit(v: u8, k: u8, m: u8)
    requires
        k < 4,
        m < 4,
    ensures
        nib_bit(v | (1u8 << k), m) == (m == k || nib_bit(v, m)),
        v < 16 ==> (v | (1u8 << k)) < 16,
{
    assert((((v | (1u8 << k)) >> m) & 1 == 1) == (m == k || ((v >> m) & 1 == 1))
        && (v < 16 ==> (v | (1u8 << k)) < 16)) by (bit_vector)
        requires
            k < 4,
            m < 4,
    ;
}

proof fn lemma_zero_bits(k: u8)
    requires
        k < 8,
    ensures
        !nib_bit(0u8, k),
{
    assert((0u8 >> k) & 1 == 0) by (bit_vector);
}

/// The bits of `nib_val` are exactly the memberships it was built from.
proof fn lemma_nib_val_bit(cpus: Seq<usize>, q: int, k: u8)
    requires
        k < 4,
    ensures
        nib_bit(nib_val(cpus, q), k) == seq_has(cpus, 4 * q + k),
        nib_val(cpus, q) < 16,
{
    let v0: u8 = if seq_has(cpus, 4 * q) {
        1u8
    } else {
        0u8
    };
    let v1: u8 = if seq_has(cpus, 4 * q + 1) {
        2u8
    } else {
        0u8
    };
    let v2: u8 = if seq_has(cpus, 4 * q + 2) {
        4u8
    } else {
        0u8
    };
    let v3: u8 = if seq_has(cpus, 4 * q + 3) {
        8u8
    } else {
        0u8
    };
    assert(((((v0 | v1 | v2 | v3) >> k) & 1 == 1) == ((k == 0 && v0 == 1) || (k == 1 && v1 == 2) || (
    k == 2 && v2 == 4) || (k == 3 && v3 == 8))) && (v0 | v1 | v2 | v3) < 16) by (bit_vector)
        requires
            k < 4,
            v0 == 0 || v0 == 1,
            v1 == 0 || v1 == 2,
            v2 == 0 || v2 == 4,
            v3 == 0 || v3 == 8,
    ;
}

/// Two hex-digit values with the same four low bits are equal.
proof fn lemma_nib_ext(a: u8, b: u8)
    requires
        a < 16,
        b < 16,
        forall|k: u8| k < 4 ==> nib_bit(a, k) == nib_bit(b, k),
    ensures
        a == b,
{
    assert(nib_bit(a, 0) == nib_bit(b, 0));
    assert(nib_bit(a, 1) == nib_bit(b, 1));
    assert(nib_bit(a, 2) == nib_bit(b, 2));
    assert(nib_bit(a, 3) == nib_bit(b, 3));
    assert(a < 16 && b < 16 && ((a >> 0) & 1 == 1) == ((b >> 0) & 1 == 1) && ((a >> 1) & 1 == 1) == (
    (b >> 1) & 1 == 1) && ((a >> 2) & 1 == 1) == ((b >> 2) & 1 == 1) && ((a >> 3) & 1 == 1) == ((b
        >> 3) & 1 == 1) ==> a == b) by (bit_vector);
}

/// Round-tripping a digit value through its character gives it back.
proof fn lemma_hex_digit_val(d: u8)
    requires
        d < 16,
    ensures
        hex_val(hex_digit(d)) == d,
        is_hex_char(hex_digit(d)),
{
}

/// The one-character string for a hex digit value.
fn hex_digit_str(d: u8) -> (r: &'static str)
    requires
        d < 16,
    ensures
        r@ =~= seq![hex_digit(d)],
{
    proof {
        reveal_strlit("0");
        reveal_strlit("1");
        reveal_strlit("2");
        reveal_strlit("3");
        reveal_strlit("4");
        reveal_strlit("5");
        reveal_strlit("6");
        reveal_strlit("7");
        reveal_strlit("8");
        reveal_strlit("9");
        reveal_strlit("a");
        reveal_strlit("b");
        reveal_strlit("c");
        reveal_strlit("d");
        reveal_strlit("e");
        reveal_strlit("f");
    }
    match d {
        0 => "0",
        1 => "1",
        2 => "2",
        3 => "3",
        4 => "4",
        5 => "5",
        6 => "6",
        7 => "7",
        8 => "8",
        9 => "9",
        10 => "a",
        11 => "b",
        12 => "c",
        13 => "d",
        14 => "e",
        _ => "f",
    }
}

/// Convert a list of CPU ids to the corresponding cpumask string of
/// whatever width the highest id asks for: `0x0` when the list is empty,
/// else `0x` followed by one pair of lowercase hex digits per byte,
/// most significant byte first, where bit `i % 8` of byte `i / 8` is set
/// iff id `i` occurs in the list.
pub fn cpus_to_cpumask(cpus: &Vec<usize>) -> (r: String)
    requires
        forall|j: int| 0 <= j < cpus@.len() ==> #[trigger] cpus@[j] <= usize::MAX / 8,
    ensures
        r@ == encode_spec(cpus@),
{
    let n: usize = cpus.len();
    if n == 0 {
        let r = "0x0".to_owned();
        proof {
            reveal_strlit("0x0");
            assert(r@ =~= encode_spec(cpus@));
        }
        return r;
    }

    // Find the largest CPU id, to size the mask.
    let mut maxv: usize = cpus[0];
    let mut i: usize = 1;
    proof {
        assert(cpus@.take(1) =~= seq![cpus@[0]]);
    }
    while i < n
        invariant
            1 <= i <= n,
            n == cpus@.len(),
            maxv == max_id(cpus@.take(i as int)),
        decreases n - i,
    {
        proof {
            assert(cpus@.take(i + 1).drop_last() =~= cpus@.take(i as int));
            assert(cpus@.take(i + 1).last() == cpus@[i as int]);
        }
        if cpus[i] > maxv {
            maxv = cpus[i];
        }
        i = i + 1;
    }
    proof {
        assert(cpus@.take(n as int) =~= cpus@);
        assert(cpus@.contains(cpus@[0]));
        lemma_max_id_ge(cpus@, 0);
        assert(cpus@[0] <= usize::MAX / 8);
        lemma_max_id_attained(cpus@);
    }
    assert(maxv <= usize::MAX / 8);

    // One hex digit per four CPU ids, rounded up to whole bytes.
    let nd: usize = 2 * ((maxv + 8) / 8);

    let mut nibs: Vec<u8> = Vec::new();
    let mut i: usize = 0;
    while i < nd
        invariant
            0 <= i <= nd,
            nibs@.len() == i,
            forall|q: int| 0 <= q < i ==> nibs@[q] == 0u8,
        decreases nd - i,
    {
        nibs.push(0u8);
        i = i + 1;
    }
    proof {
        assert forall|q: int, k: u8| 0 <= q < nd && k < 4 implies !#[trigger] nib_bit(
            nibs@[q],
            k,
        ) by {
            lemma_zero_bits(k);
        }
    }

    // Set the appropriate nibble bit for each CPU id.
    let mut i: usize = 0;
    while i < n
        invariant
            0 <= i <= n,
            n == cpus@.len(),
            nd == 2 * ((max_id(cpus@) + 8) / 8),
            max_id(cpus@) <= usize::MAX / 8,
            forall|j: int| 0 <= j < cpus@.len() ==> #[trigger] cpus@[j] <= max_id(cpus@),
            nibs@.len() == nd,
            forall|q: int| 0 <= q < nd ==> #[trigger] nibs@[q] < 16,
            forall|q: int, k: u8|
                0 <= q < nd && k < 4 ==> #[trigger] nib_bit(nibs@[q], k) == seq_has(
                    cpus@.take(i as int),
                    4 * q + k,
                ),
        decreases n - i,
    {
        let x: usize = cpus[i];
        let qi: usize = x / 4;
        let k: u8 = (x % 4) as u8;
        proof {
            assert(x <= max_id(cpus@));
            assert(4 * qi + k == x);
            assert(qi < nd);
        }
        let old_nib = nibs[qi];
        let ghost old_nibs = nibs@;
        nibs.set(qi, old_nib | (1u8 << k));
        proof {
            assert(cpus@.take(i + 1) =~= cpus@.take(i as int).push(cpus@[i as int]));
            assert forall|q: int, m: u8| 0 <= q < nd && m < 4 implies #[trigger] nib_bit(
                nibs@[q],
                m,
            ) == seq_has(cpus@.take(i + 1), 4 * q + m) by {
                lemma_seq_has_push(cpus@.take(i as int), x, 4 * q + m);
                if q == qi {
                    lemma_or_bit(old_nibs[q], k, m);
                    if m == k {
                        assert(4 * q + m == x);
                    } else {
                        assert(4 * q + m != x);
                    }
                } else {
                    assert(nibs@[q] == old_nibs[q]);
                    assert(4 * q + m != x);
                }
            }
            assert forall|q: int| 0 <= q < nd implies #[trigger] nibs@[q] < 16 by {
                if q == qi {
                    lemma_or_bit(old_nibs[q], k, 0);
                }
            }
        }
        i = i + 1;
    }
    proof {
        assert(cpus@.take(n as int) =~= cpus@);
        assert forall|q: int| 0 <= q < nd implies #[trigger] nibs@[q] == nib_val(cpus@, q) by {
            assert forall|k: u8| k < 4 implies #[trigger] nib_bit(nibs@[q], k) == nib_bit(
                nib_val(cpus@, q),
                k,
            ) by {
                lemma_nib_val_bit(cpus@, q, k);
            }
            lemma_nib_val_bit(cpus@, q, 0);
            lemma_nib_ext(nibs@[q], nib_val(cpus@, q));
        }
    }

    // Render the digits most significant first, behind the 0x prefix.
    let mut r = "0x".to_owned();
    proof {
        reveal_strlit("0x");
    }
    let mut p: usize = 0;
    while p < nd
        invariant
            0 <= p <= nd,
            nibs@.len() == nd,
            nd == encode_width(cpus@),
            forall|q: int| 0 <= q < nd ==> #[trigger] nibs@[q] == nib_val(cpus@, q),
            forall|q: int| 0 <= q < nd ==> #[trigger] nibs@[q] < 16,
            r@ == seq!['0', 'x'] + Seq::new(p as nat, |pp: int| hex_digit(nib_val(cpus@, nd - 1 - pp))),
        decreases nd - p,
    {
        let d: u8 = nibs[nd - 1 - p];
        let ghost old_r = r@;
        r.append(hex_digit_str(d));
        proof {
            assert(r@ =~= seq!['0', 'x'] + Seq::new(
                (p + 1) as nat,
                |pp: int| hex_digit(nib_val(cpus@, nd - 1 - pp)),
            ));
        }
        p = p + 1;
    }
    proof {
        assert(r@ =~= encode_spec(cpus@));
    }
    r
}

/// Why a cpumask string was rejected.
#[derive(Clone, Copy, Debug, PartialEq, Eq, Structural)]
pub enum ParseError {
    /// A character of the string (after the optional `0x` prefix, with
    /// underscores ignored) is not a hexadecimal digit.
    InvalidHexChar,
    /// A set bit selects a CPU id at or beyond the machine's CPU id
    /// count.
    CpuOutOfRange,
}

/// The string with its optional `0x` prefix removed.
pub open spec fn strip_0x(s: Seq<char>) -> Seq<char> {
    if s.len() >= 2 && s[0] == '0' && s[1] == 'x' {
        s.skip(2)
    } else {
        s
    }
}

/// The string with every underscore removed.
pub open spec fn drop_underscores(s: Seq<char>) -> Seq<char>
    decreases s.len(),
{
    if s.len() == 0 {
        Seq::empty()
    } else if s[0] == '_' {
        drop_underscores(s.skip(1))
    } else {
        seq![s[0]] + drop_underscores(s.skip(1))
    }
}

/// Every character is a hexadecimal digit.
pub open spec fn all_hex(s: Seq<char>) -> bool {
    forall|q: int| 0 <= q < s.len() ==> is_hex_char(#[trigger] s[q])
}

proof fn lemma_drop_us_step(s: Seq<char>, i: int)
    requires
        0 <= i < s.len(),
    ensures
        drop_underscores(s.skip(i)) == (if s[i] == '_' {
            Seq::<char>::empty()
        } else {
            seq![s[i]]
        }) + drop_underscores(s.skip(i + 1)),
{
    assert(s.skip(i)[0] == s[i]);
    assert(s.skip(i).skip(1) =~= s.skip(i + 1));
    if s[i] == '_' {
        assert(Seq::<char>::empty() + drop_underscores(s.skip(i + 1)) =~= drop_underscores(
            s.skip(i + 1),
        ));
    }
}

proof fn lemma_drop_us_len(s: Seq<char>)
    ensures
        drop_underscores(s).len() <= s.len(),
    decreases s.len(),
{
    if s.len() > 0 {
        lemma_drop_us_len(s.skip(1));
    }
}

proof fn lemma_drop_us_id(s: Seq<char>)
    requires
        forall|q: int| 0 <= q < s.len() ==> #[trigger] s[q] != '_',
    ensures
        drop_underscores(s) == s,
    decreases s.len(),
{
    if s.len() > 0 {
        lemma_drop_us_id(s.skip(1));
        assert(seq![s[0]] + s.skip(1) =~= s);
    }
}

/// The part of the decoded set contributed by the `q` least significant
/// digits.
pub open spec fn decode_set_upto(digits: Seq<char>, q: int) -> Set<usize> {
    Set::new(
        |i: usize|
            i as int / 4 < q && i as int / 4 < digits.len() && nib_bit(
                hex_val(digits[digits.len() - 1 - i as int / 4]),
                (i as int % 4) as u8,
            ),
    )
}

/// Every CPU id the digits select lies below the machine's CPU id
/// count.
pub open spec fn in_range(digits: Seq<char>, nr: usize) -> bool {
    forall|i: usize| #[trigger] decode_set(digits).contains(i) ==> i < nr
}

/// What `Cpumask::from_str` promises of its result: the string is
/// accepted exactly when every character left after stripping the
/// optional `0x` prefix and the underscores is a hex digit and every
/// set bit selects a CPU id the machine has, in which case the mask
/// holds exactly the set those digits denote; otherwise the error says
/// which of the two went wrong (a bad character takes precedence).
pub open spec fn from_str_post(r: Result<Cpumask, ParseError>, s: Seq<char>, nr: usize) -> bool {
    let digits = drop_underscores(strip_0x(s));
    &&& (r is Ok <==> (all_hex(digits) && in_range(digits, nr)))
    &&& (r matches Ok(m) ==> m@ == decode_set(digits))
    &&& (!all_hex(digits) ==> (r matches Err(e) && e == ParseError::InvalidHexChar))
    &&& (all_hex(digits) && !in_range(digits, nr) ==> (r matches Err(e) && e
        == ParseError::CpuOutOfRange))
}

/// The value of a hex character, or 16 when it is not a hex digit.
pub(crate) fn hex_char_val(c: char) -> (r: u8)
    ensures
        r == hex_val(c),
{
    match c {
        '0' => 0,
        '1' => 1,
        '2' => 2,
        '3' => 3,
        '4' => 4,
        '5' => 5,
        '6' => 6,
        '7' => 7,
        '8' => 8,
        '9' => 9,
        'a' | 'A' => 10,
        'b' | 'B' => 11,
        'c' | 'C' => 12,
        'd' | 'D' => 13,
        'e' | 'E' => 14,
        'f' | 'F' => 15,
        _ => 16,
    }
}

/// A set bit at digit `q`, bit `k` selects a CPU id at or beyond `nr`,
/// so the digits are not in range.
proof fn lemma_oob_bit(digits: Seq<char>, q: int, k: u8, nr: usize)
    requires
        0 <= q < digits.len(),
        k < 4,
        4 * q + k <= usize::MAX,
        nib_bit(hex_val(digits[digits.len() - 1 - q]), k),
        4 * q + k >= nr,
    ensures
        !in_range(digits, nr),
{
    let i = (4 * q + k) as usize;
    assert(i as int / 4 == q);
    assert((i as int % 4) as u8 == k);
    assert(decode_set(digits).contains(i));
}

/// Whether two string slices hold the same characters.
pub(crate) fn str_eq(a: &str, b: &str) -> (r: bool)
    ensures
        r == (a@ == b@),
{
    let sa = a.to_owned();
    let sb = b.to_owned();
    sa == sb
}

impl Cpumask {
    /// Build a Cpumask from a hexadecimal string: a hex number,
    /// case-insensitive, with an optional `0x` prefix and with
    /// underscores ignored; bit `i` of that number selects CPU `i`. A
    /// character that is not a hex digit fails the parse, as does a set
    /// bit at or beyond the machine's `nr_cpu_ids` CPU ids.
    pub fn from_str(s: &str, nr_cpu_ids: usize) -> (r: Result<Cpumask, ParseError>)
        requires
            s@.len() <= usize::MAX / 8,
        ensures
            from_str_post(r, s@, nr_cpu_ids),
    {
        let n: usize = s.unicode_len();
        let start: usize = if n >= 2 && s.get_char(0) == '0' && s.get_char(1) == 'x' {
            2
        } else {
            0
        };
        let ghost stripped = strip_0x(s@);
        proof {
            assert(stripped =~= s@.skip(start as int));
        }

        // Collect the digit values left to right, skipping underscores and
        // rejecting anything that is not a hex digit.
        let mut digits: Vec<u8> = Vec::new();
        let ghost mut done: Seq<char> = Seq::empty();
        let mut p: usize = start;
        proof {
            assert(stripped.skip(0) =~= stripped);
            assert(Seq::<char>::empty() + drop_underscores(stripped) =~= drop_underscores(
                stripped,
            ));
        }
        while p < n
            invariant
                start <= p <= n,
                n == s@.len(),
                n <= usize::MAX / 8,
                stripped == s@.skip(start as int),
                stripped == strip_0x(s@),
                drop_underscores(stripped) == done + drop_underscores(
                    stripped.skip(p - start),
                ),
                digits@.len() == done.len(),
                forall|q: int|
                    0 <= q < done.len() ==> is_hex_char(#[trigger] done[q]) && digits@[q]
                        == hex_val(done[q]),
            decreases n - p,
        {
            let c = s.get_char(p);
            proof {
                lemma_drop_us_step(stripped, p - start);
                assert(stripped[p - start] == s@[p as int]);
            }
            if c == '_' {
                // contributes nothing
            } else {
                let v: u8 = hex_char_val(c);
                if v >= 16 {
                    proof {
                        let rest = drop_underscores(stripped.skip(p + 1 - start));
                        let d = drop_underscores(stripped);
                        assert(d == done + (seq![c] + rest));
                        assert((seq![c] + rest)[0] == c);
                        assert(d[done.len() as int] == c);
                        assert(!is_hex_char(d[done.len() as int]));
                    }
                    return Err(ParseError::InvalidHexChar);
                }
                digits.push(v);
                proof {
                    done = done + seq![c];
                    assert(done + drop_underscores(stripped.skip(p + 1 - start))
                        =~= drop_underscores(stripped));
                }
            }
            p = p + 1;
        }
        proof {
            assert(stripped.skip(n - start).len() == 0);
            assert(stripped.skip(n - start) =~= Seq::<char>::empty());
            assert(done + drop_underscores(Seq::<char>::empty()) =~= done);
            assert(done == drop_underscores(stripped));
            lemma_drop_us_len(stripped);
        }

        // Set one mask bit per set nibble bit, least significant digit
        // first.
        let nd: usize = digits.len();
        let mut mask = Cpumask::new();
        proof {
            assert(mask@ =~= decode_set_upto(done, 0));
        }
        let mut q: usize = 0;
        while q < nd
            invariant
                0 <= q <= nd,
                nd == digits@.len(),
                nd == done.len(),
                nd <= usize::MAX / 8,
                done == drop_underscores(strip_0x(s@)),
                forall|j: int|
                    0 <= j < done.len() ==> is_hex_char(#[trigger] done[j]) && digits@[j]
                        == hex_val(done[j]),
                mask@ == decode_set_upto(done, q as int),
                forall|i: usize| #[trigger] mask@.contains(i) ==> i < nr_cpu_ids,
            decreases nd - q,
        {
            let dv: u8 = digits[nd - 1 - q];
            let ghost before = mask@;
            proof {
                assert(dv == hex_val(done[nd - 1 - q]));
            }
            if (dv >> 0u8) & 1 == 1 {
                if 4 * q >= nr_cpu_ids {
                    proof {
                        lemma_oob_bit(done, q as int, 0, nr_cpu_ids);
                    }
                    return Err(ParseError::CpuOutOfRange);
                }
                mask.set_cpu(4 * q);
            }
            if (dv >> 1u8) & 1 == 1 {
                if 4 * q + 1 >= nr_cpu_ids {
                    proof {
                        lemma_oob_bit(done, q as int, 1, nr_cpu_ids);
                    }
                    return Err(ParseError::CpuOutOfRange);
                }
                mask.set_cpu(4 * q + 1);
            }
            if (dv >> 2u8) & 1 == 1 {
                if 4 * q + 2 >= nr_cpu_ids {
                    proof {
                        lemma_oob_bit(done, q as int, 2, nr_cpu_ids);
                    }
                    return Err(ParseError::CpuOutOfRange);
                }
                mask.set_cpu(4 * q + 2);
            }
            if (dv >> 3u8) & 1 == 1 {
                if 4 * q + 3 >= nr_cpu_ids {
                    proof {
                        lemma_oob_bit(done, q as int, 3, nr_cpu_ids);
                    }
                    return Err(ParseError::CpuOutOfRange);
                }
                mask.set_cpu(4 * q + 3);
            }
            proof {
                assert(dv == hex_val(done[nd - 1 - q]));
                assert forall|i: usize| mask@.contains(i) <==> decode_set_upto(
                    done,
                    q + 1,
                ).contains(i) by {
                    if i as int / 4 < q {
                        assert(i < 4 * q);
                        assert(mask@.contains(i) == before.contains(i));
                    } else if i as int / 4 == q {
                        assert(4 * q <= i < 4 * q + 4);
                        assert(!before.contains(i));
                    } else {
                        assert(i >= 4 * (q + 1));
                        assert(mask@.contains(i) == before.contains(i));
                        assert(!before.contains(i));
                    }
                }
                assert(mask@ =~= decode_set_upto(done, q + 1));
            }
            q = q + 1;
        }
        proof {
            assert(mask@ =~= decode_set(done));
        }
        Ok(mask)
    }
}

pub proof fn lemma_max_id_attained(cpus: Seq<usize>)
    requires
        cpus.len() > 0,
    ensures
        seq_has(cpus, max_id(cpus) as int),
        forall|j: int| 0 <= j < cpus.len() ==> #[trigger] cpus[j] <= max_id(cpus),
    decreases cpus.len(),
{
    assert forall|j: int| 0 <= j < cpus.len() implies #[trigger] cpus[j] <= max_id(cpus) by {
        lemma_max_id_ge(cpus, j);
    }
    if cpus.len() == 1 {
        assert(cpus[0] == max_id(cpus));
    } else if cpus.last() > max_id(cpus.drop_last()) {
        assert(cpus[cpus.len() - 1] == max_id(cpus));
    } else {
        lemma_max_id_attained(cpus.drop_last());
        let j = choose|j: int| 0 <= j < cpus.drop_last().len() && cpus.drop_last()[j] == max_id(
            cpus.drop_last(),
        );
        assert(cpus[j] == max_id(cpus));
    }
}

/// Codec round-trip: for every list of CPU ids, decoding the canonical
/// encoding gives back exactly the set of ids of the list — in
/// particular, a non-empty set survives the round trip unchanged, and
/// the empty list encodes to `0x0`, which decodes to the empty set.
pub proof fn lemma_codec_round_trip(cpus: Seq<usize>)
    requires
        forall|j: int| 0 <= j < cpus.len() ==> #[trigger] cpus[j] <= usize::MAX / 8,
    ensures
        all_hex(drop_underscores(strip_0x(encode_spec(cpus)))),
        forall|i: usize|
            decode_set(drop_underscores(strip_0x(encode_spec(cpus)))).contains(i) <==> seq_has(
                cpus,
                i as int,
            ),
        encode_spec(cpus).len() <= usize::MAX / 8,
{
    let s = encode_spec(cpus);
    assert(usize::MAX >= 0xffff_ffff) by (nonlinear_arith)
        requires
            usize::MAX == u32::MAX || usize::MAX == u64::MAX,
    ;
    if cpus.len() == 0 {
        assert(s[0] == '0');
        let d = strip_0x(s);
        assert(d =~= seq!['0']);
        lemma_drop_us_id(d);
        assert(is_hex_char('0'));
        assert forall|i: usize| !decode_set(drop_underscores(strip_0x(s))).contains(i) by {
            if i as int / 4 < 1 {
                lemma_zero_bits((i as int % 4) as u8);
            }
        }
        assert(forall|i: int| !seq_has(cpus, i));
    } else {
        let w = encode_width(cpus);
        let maxv = max_id(cpus);
        let d = encode_digits(cpus);
        assert(8 * ((maxv + 8) / 8) >= maxv + 1 && (maxv + 8) / 8 >= 1) by {
            assert(maxv + 8 == 8 * ((maxv + 8) / 8) + ((maxv + 8) % 8));
        }
        assert(s[0] == '0' && s[1] == 'x');
        assert(strip_0x(s) =~= d);
        assert forall|p: int| 0 <= p < d.len() implies is_hex_char(#[trigger] d[p]) && d[p]
            != '_' by {
            lemma_nib_val_bit(cpus, w - 1 - p, 0);
            lemma_hex_digit_val(nib_val(cpus, w - 1 - p));
        }
        lemma_drop_us_id(d);
        lemma_max_id_attained(cpus);
        assert forall|i: usize| decode_set(d).contains(i) <==> seq_has(cpus, i as int) by {
            let ii = i as int;
            let q = ii / 4;
            let k = (ii % 4) as u8;
            assert(ii == 4 * q + k);
            if q < w {
                assert(d[d.len() - 1 - q] == hex_digit(nib_val(cpus, q)));
                lemma_nib_val_bit(cpus, q, k);
                lemma_hex_digit_val(nib_val(cpus, q));
                assert(decode_set(d).contains(i) == nib_bit(nib_val(cpus, q), k));
            } else {
                assert(ii >= 4 * w);
                assert(4 * w >= maxv + 1);
                if seq_has(cpus, ii) {
                    let j = choose|j: int| 0 <= j < cpus.len() && cpus[j] == ii;
                    assert(cpus[j] <= maxv);
                    assert(false);
                }
            }
        }
        // The encoded string is far shorter than the width bound asks.
        assert(8 * ((maxv + 8) / 8) <= maxv + 8);
        assert(maxv <= usize::MAX / 8);
        assert(8 * (usize::MAX / 8) <= usize::MAX);
        assert(s.len() == 2 + w);
        assert(8 * w <= 2 * maxv + 16);
        assert(s.len() <= usize::MAX / 8) by (nonlinear_arith)
            requires
                8 * w <= 2 * maxv + 16,
                maxv <= usize::MAX / 8,
                8 * (usize::MAX / 8) <= usize::MAX,
                usize::MAX >= 0xffff_ffff,
                s.len() == 2 + w,
        ;
    }
}

/// Codec empty case: the empty set encodes to the single zero byte
/// `0x0`, and `0x0` decodes back to the empty set.
pub proof fn lemma_codec_empty()
    ensures
        encode_spec(Seq::<usize>::empty()) == "0x0"@,
        decode_set(drop_underscores(strip_0x("0x0"@))) == Set::<usize>::empty(),
{
    reveal_strlit("0x0");
    assert(encode_spec(Seq::<usize>::empty()) =~= "0x0"@);
    lemma_codec_round_trip(Seq::<usize>::empty());
    let d = decode_set(drop_underscores(strip_0x(encode_spec(Seq::<usize>::empty()))));
    assert forall|i: usize| !d.contains(i) by {
        assert(!seq_has(Seq::<usize>::empty(), i as int));
    }
    assert(d =~= Set::<usize>::empty());
}

/// Parse the primary-domain selection string:
///  - `powersave` / `performance`: classify the topology and use that
///    tier's CPU set;
///  - `auto`: the empty mask, meaning "derive later from the live energy
///    profile";
///  - an empty string: the full mask (every CPU id below `nr_cpu_ids`);
///  - anything else: a literal hex cpumask, per `Cpumask::from_str`.
pub fn parse_cpumask(cpu_str: &str, topo: &Topology, nr_cpu_ids: usize) -> (r: Result<
    Cpumask,
    ParseError,
>)
    requires
        topo.wf(),
        topo.ids_below(nr_cpu_ids),
        cpu_str@.len() <= usize::MAX / 8,
    ensures
        cpu_str@ == "powersave"@ ==> (r matches Ok(m) && m@ == tier_id_set(
            topo.cpus@,
            Powermode::Powersave,
        )),
        cpu_str@ == "performance"@ ==> (r matches Ok(m) && m@ == tier_id_set(
            topo.cpus@,
            Powermode::Performance,
        )),
        cpu_str@ == "auto"@ ==> (r matches Ok(m) && m@ == Set::<usize>::empty()),
        cpu_str@.len() == 0 ==> (r matches Ok(m) && m@ == full_set(nr_cpu_ids)),
        cpu_str@ != "powersave"@ && cpu_str@ != "performance"@ && cpu_str@ != "auto"@
            && cpu_str@.len() != 0 ==> from_str_post(r, cpu_str@, nr_cpu_ids),
{
    proof {
        reveal_strlit("powersave");
        reveal_strlit("performance");
        reveal_strlit("auto");
    }
    if str_eq(cpu_str, "powersave") {
        return Ok(classified_mask(topo, Powermode::Powersave, nr_cpu_ids));
    }
    if str_eq(cpu_str, "performance") {
        return Ok(classified_mask(topo, Powermode::Performance, nr_cpu_ids));
    }
    if str_eq(cpu_str, "auto") {
        return Ok(Cpumask::new());
    }
    if cpu_str.unicode_len() != 0 {
        return Cpumask::from_str(cpu_str, nr_cpu_ids);
    }
    Ok(Cpumask::setall(nr_cpu_ids))
}

/// The mask holding exactly the ids of the list, produced the way every
/// configuration path here does: encode the id list to its hex string,
/// then parse that string back into a mask.
pub fn mask_from_cpus(cpus: &Vec<usize>, nr_cpu_ids: usize) -> (m: Cpumask)
    requires
        forall|j: int| 0 <= j < cpus@.len() ==> #[trigger] cpus@[j] <= usize::MAX / 8,
        forall|j: int| 0 <= j < cpus@.len() ==> #[trigger] cpus@[j] < nr_cpu_ids,
    ensures
        m@ == Set::new(|i: usize| seq_has(cpus@, i as int)),
{
    proof {
        lemma_codec_round_trip(cpus@);
        let digits = drop_underscores(strip_0x(encode_spec(cpus@)));
        assert forall|i: usize| #[trigger] decode_set(digits).contains(i) implies i
            < nr_cpu_ids by {
            assert(seq_has(cpus@, i as int));
            let j = choose|j: int| 0 <= j < cpus@.len() && cpus@[j] == i as int;
            assert(cpus@[j] < nr_cpu_ids);
        }
    }
    let hex = cpus_to_cpumask(cpus);
    let parsed = Cpumask::from_str(hex.as_str(), nr_cpu_ids);
    match parsed {
        Ok(m) => {
            proof {
                assert(m@ =~= Set::new(|i: usize| seq_has(cpus@, i as int)));
            }
            m
        },
        Err(e) => {
            proof {
                assert(false);
            }
            Cpumask::new()
        },
    }
}

/// The mask of the CPU ids of one classifier tier, as the selection
/// string path computes it.
fn classified_mask(topo: &Topology, mode: Powermode, nr_cpu_ids: usize) -> (r: Cpumask)
    requires
        topo.wf(),
        topo.ids_below(nr_cpu_ids),
    ensures
        r@ == tier_id_set(topo.cpus@, mode),
{
    let cpus = get_primary_cpus(topo, mode);
    proof {
        assert forall|j: int|
            0 <= j < cpus@.len() implies #[trigger] cpus@[j] <= usize::MAX / 8 && cpus@[j]
            < nr_cpu_ids by {
            assert(cpus@.contains(cpus@[j]));
        }
    }
    let m = mask_from_cpus(&cpus, nr_cpu_ids);
    proof {
        assert forall|i: usize| m@.contains(i) <==> tier_id_set(topo.cpus@, mode).contains(
            i,
        ) by {
            assert(seq_has(cpus@, i as int) == cpus@.contains(i));
        }
        assert(m@ =~= tier_id_set(topo.cpus@, mode));
    }
    m
}

} // verus!
