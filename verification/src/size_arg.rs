//! Byte sizes written as a decimal number, an optional unit prefix and an
//! optional `B`, such as `1G`, `512MiB` or `4096`.
//!
//! The accepted language is that of the regular expression
//! `^([0-9]+)([KMGTPE]?i?)B?$`; the second group is the unit.
use vstd::prelude::*;

use crate::error::ArgError;
use crate::text::{
    all_digits,
    chars_of,
    digits_end,
    digits_to_u64,
    digits_value,
    is_digit,
    lemma_digits_end_at,
    lemma_digits_end,
    power,
    scan_digits,
    string_of,
};

verus! {

/// A letter that may open a unit: `[KMGTPE]`.
pub open spec fn is_unit_letter(c: char) -> bool {
    c == 'K' || c == 'M' || c == 'G' || c == 'T' || c == 'P' || c == 'E'
}

/// Where a byte size text splits: the end of its digits and the end of its
/// unit. `None` when the text is no byte size.
pub open spec fn size_shape(s: Seq<char>) -> Option<(int, int)> {
    let d = digits_end(s, 0);
    let p1 = if d < s.len() && is_unit_letter(s[d]) {
        d + 1
    } else {
        d
    };
    let p2 = if p1 < s.len() && s[p1] == 'i' {
        p1 + 1
    } else {
        p1
    };
    let p3 = if p2 < s.len() && s[p2] == 'B' {
        p2 + 1
    } else {
        p2
    };
    if d > 0 && p3 == s.len() {
        Some((d, p2))
    } else {
        None
    }
}

/// The number of bytes that one of a unit stands for: decimal prefixes
/// `K`, `M`, `G`, `T` and binary ones `Ki`, `Mi`, `Gi`, `Ti`; no unit is one
/// byte. Other units are not supported.
pub open spec fn unit_factor(u: Seq<char>) -> Option<nat> {
    if u == Seq::<char>::empty() {
        Some(1)
    } else if u == seq!['K'] {
        Some(1_000)
    } else if u == seq!['K', 'i'] {
        Some(1_024)
    } else if u == seq!['M'] {
        Some(1_000_000)
    } else if u == seq!['M', 'i'] {
        Some(1_048_576)
    } else if u == seq!['G'] {
        Some(1_000_000_000)
    } else if u == seq!['G', 'i'] {
        Some(1_073_741_824)
    } else if u == seq!['T'] {
        Some(1_000_000_000_000)
    } else if u == seq!['T', 'i'] {
        Some(1_099_511_627_776)
    } else {
        None
    }
}

/// A byte size text whose number, and number of bytes where the unit is
/// supported, fit in a `u64`; or a text that is no byte size.
pub open spec fn size_fits(s: Seq<char>) -> bool {
    match size_shape(s) {
        Some((d, u)) => {
            let n = digits_value(s.subrange(0, d));
            &&& n <= u64::MAX
            &&& unit_factor(s.subrange(d, u)) matches Some(f) ==> n * f <= u64::MAX
        },
        None => true,
    }
}

/// What parsing a byte size text gives: its number of bytes, or the error.
pub open spec fn size_outcome(s: Seq<char>, r: Result<u64, ArgError>) -> bool {
    match size_shape(s) {
        Some((d, u)) => match unit_factor(s.subrange(d, u)) {
            Some(f) => r == Ok::<u64, ArgError>((digits_value(s.subrange(0, d)) * f) as u64),
            None => r matches Err(ArgError::UnsupportedUnit(x)) && x@ == s.subrange(d, u),
        },
        None => r matches Err(ArgError::BadByteSize(a)) && a@ == s,
    }
}

/// `bytesize::ByteSize::b`: a size of `size` bytes, as its number of bytes.
#[verifier::external_body]
fn byte_size_b(size: u64) -> (r: u64)
    ensures
        r == size,
{
    bytesize::ByteSize::b(size).0
}

/// `bytesize::ByteSize::kb`: `size` kilobytes, which is `size * 1000` bytes;
/// the multiplication panics on overflow.
#[verifier::external_body]
fn byte_size_kb(size: u64) -> (r: u64)
    requires
        size * 1_000 <= u64::MAX,
    ensures
        r == size * 1_000,
{
    bytesize::ByteSize::kb(size).0
}

/// `bytesize::ByteSize::kib`: `size` kibibytes, which is `size * 1024` bytes;
/// the multiplication panics on overflow.
#[verifier::external_body]
fn byte_size_kib(size: u64) -> (r: u64)
    requires
        size * 1_024 <= u64::MAX,
    ensures
        r == size * 1_024,
{
    bytesize::ByteSize::kib(size).0
}

/// `bytesize::ByteSize::mb`: `size` megabytes, which is `size * 10^6` bytes;
/// the multiplication panics on overflow.
#[verifier::external_body]
fn byte_size_mb(size: u64) -> (r: u64)
    requires
        size * 1_000_000 <= u64::MAX,
    ensures
        r == size * 1_000_000,
{
    bytesize::ByteSize::mb(size).0
}

/// `bytesize::ByteSize::mib`: `size` mebibytes, which is `size * 2^20` bytes;
/// the multiplication panics on overflow.
#[verifier::external_body]
fn byte_size_mib(size: u64) -> (r: u64)
    requires
        size * 1_048_576 <= u64::MAX,
    ensures
        r == size * 1_048_576,
{
    bytesize::ByteSize::mib(size).0
}

/// `bytesize::ByteSize::gb`: `size` gigabytes, which is `size * 10^9` bytes;
/// the multiplication panics on overflow.
#[verifier::external_body]
fn byte_size_gb(size: u64) -> (r: u64)
    requires
        size * 1_000_000_000 <= u64::MAX,
    ensures
        r == size * 1_000_000_000,
{
    bytesize::ByteSize::gb(size).0
}

/// `bytesize::ByteSize::gib`: `size` gibibytes, which is `size * 2^30` bytes;
/// the multiplication panics on overflow.
#[verifier::external_body]
fn byte_size_gib(size: u64) -> (r: u64)
    requires
        size * 1_073_741_824 <= u64::MAX,
    ensures
        r == size * 1_073_741_824,
{
    bytesize::ByteSize::gib(size).0
}

/// `bytesize::ByteSize::tb`: `size` terabytes, which is `size * 10^12` bytes;
/// the multiplication panics on overflow.
#[verifier::external_body]
fn byte_size_tb(size: u64) -> (r: u64)
    requires
        size * 1_000_000_000_000 <= u64::MAX,
    ensures
        r == size * 1_000_000_000_000,
{
    bytesize::ByteSize::tb(size).0
}

/// `bytesize::ByteSize::tib`: `size` tebibytes, which is `size * 2^40` bytes;
/// the multiplication panics on overflow.
#[verifier::external_body]
fn byte_size_tib(size: u64) -> (r: u64)
    requires
        size * 1_099_511_627_776 <= u64::MAX,
    ensures
        r == size * 1_099_511_627_776,
{
    bytesize::ByteSize::tib(size).0
}

/// The number of bytes in `num` of the unit `letter` (with `binary` for the
/// `i` forms); `None` where that exceeds `u64::MAX`.
fn scale(num: u64, letter: char, binary: bool, Ghost(u): Ghost<Seq<char>>) -> (r: Option<u64>)
    requires
        u == (if letter == ' ' {
            Seq::<char>::empty()
        } else if binary {
            seq![letter, 'i']
        } else {
            seq![letter]
        }),
        unit_factor(u) is Some,
    ensures
        match r {
            Some(v) => v == num * unit_factor(u)->0,
            None => num * unit_factor(u)->0 > u64::MAX,
        },
{
    proof {
        if letter != ' ' {
            assert(u.len() >= 1);
            assert(u[0] == letter);
            if binary {
                assert(u[1] == 'i');
            }
        }
        if letter != ' ' && letter != 'K' && letter != 'M' && letter != 'G' && letter != 'T' {
            assert(u != seq!['K'] && u != seq!['M'] && u != seq!['G'] && u != seq!['T']) by {
                assert(seq!['K'][0] == 'K' && seq!['M'][0] == 'M');
                assert(seq!['G'][0] == 'G' && seq!['T'][0] == 'T');
            }
            assert(u != seq!['K', 'i'] && u != seq!['M', 'i'] && u != seq!['G', 'i'] && u
                != seq!['T', 'i']) by {
                assert(seq!['K', 'i'][0] == 'K' && seq!['M', 'i'][0] == 'M');
                assert(seq!['G', 'i'][0] == 'G' && seq!['T', 'i'][0] == 'T');
            }
            assert(u.len() != Seq::<char>::empty().len());
        }
    }
    let f: u64 = if letter == ' ' {
        1
    } else if letter == 'K' {
        if binary {
            assert(u =~= seq!['K', 'i']);
            1_024
        } else {
            assert(u =~= seq!['K']);
            1_000
        }
    } else if letter == 'M' {
        if binary {
            assert(u =~= seq!['M', 'i']);
            1_048_576
        } else {
            assert(u =~= seq!['M']);
            1_000_000
        }
    } else if letter == 'G' {
        if binary {
            assert(u =~= seq!['G', 'i']);
            1_073_741_824
        } else {
            assert(u =~= seq!['G']);
            1_000_000_000
        }
    } else {
        if binary {
            assert(u =~= seq!['T', 'i']);
            1_099_511_627_776
        } else {
            assert(u =~= seq!['T']);
            1_000_000_000_000
        }
    };
    assert(f == unit_factor(u)->0);
    if num > u64::MAX / f {
        assert(num * f > u64::MAX) by (nonlinear_arith)
            requires
                num > u64::MAX / f,
                f > 0,
        ;
        return None;
    }
    assert(num * f <= u64::MAX) by (nonlinear_arith)
        requires
            num <= u64::MAX / f,
            f > 0,
    ;
    let v = if letter == ' ' {
        byte_size_b(num)
    } else if letter == 'K' {
        if binary {
            byte_size_kib(num)
        } else {
            byte_size_kb(num)
        }
    } else if letter == 'M' {
        if binary {
            byte_size_mib(num)
        } else {
            byte_size_mb(num)
        }
    } else if letter == 'G' {
        if binary {
            byte_size_gib(num)
        } else {
            byte_size_gb(num)
        }
    } else {
        if binary {
            byte_size_tib(num)
        } else {
            byte_size_tb(num)
        }
    };
    Some(v)
}

proof fn lemma_unsupported_unit(u: Seq<char>)
    requires
        u.len() >= 1,
        u[0] == 'P' || u[0] == 'E' || u[0] == 'i',
    ensures
        unit_factor(u) is None,
{
    assert(seq!['K'][0] == 'K' && seq!['M'][0] == 'M' && seq!['G'][0] == 'G' && seq!['T'][0]
        == 'T');
    assert(seq!['K', 'i'][0] == 'K' && seq!['M', 'i'][0] == 'M' && seq!['G', 'i'][0] == 'G'
        && seq!['T', 'i'][0] == 'T');
    assert(u.len() != Seq::<char>::empty().len());
}

fn is_unit_letter_char(c: char) -> (r: bool)
    ensures
        r == is_unit_letter(c),
{
    c == 'K' || c == 'M' || c == 'G' || c == 'T' || c == 'P' || c == 'E'
}

/// Parses a byte size such as `1G` or `512MiB`, giving its number of bytes.
///
/// Gives `None` exactly for the texts whose number, or number of bytes
/// where the unit is supported, exceeds `u64::MAX`.
pub fn try_parse_bytesize(arg: &str) -> (r: Option<Result<u64, ArgError>>)
    ensures
        r is Some <==> size_fits(arg@),
        r matches Some(x) ==> size_outcome(arg@, x),
{
    let s = chars_of(arg);
    let n = s.len();
    let d = scan_digits(&s, 0);
    proof {
        lemma_digits_end(s@, 0);
    }
    let mut p = d;
    let letter = if p < n && is_unit_letter_char(s[p]) {
        let c = s[p];
        p = p + 1;
        c
    } else {
        ' '
    };
    let p1 = p;
    let binary = p < n && s[p] == 'i';
    if binary {
        p = p + 1;
    }
    let p2 = p;
    if p < n && s[p] == 'B' {
        p = p + 1;
    }
    if d == 0 || p != n {
        return Some(Err(ArgError::BadByteSize(String::from_str(arg))));
    }
    assert(size_shape(s@) == Some((d as int, p2 as int)));
    let num = match digits_to_u64(&s, 0, d) {
        Some(v) => v,
        None => return None,
    };
    let ghost u = s@.subrange(d as int, p2 as int);
    if letter == 'P' || letter == 'E' || (letter == ' ' && binary) {
        proof {
            assert(u[0] == s@[d as int]);
            lemma_unsupported_unit(u);
        }
        return Some(Err(ArgError::UnsupportedUnit(string_of(&s, d, p2))));
    }
    proof {
        if letter == ' ' {
            assert(u =~= Seq::<char>::empty());
        } else if binary {
            assert(u =~= seq![letter, 'i']);
        } else {
            assert(u =~= seq![letter]);
        }
        assert(letter == ' ' || letter == 'K' || letter == 'M' || letter == 'G' || letter
            == 'T');
        assert(unit_factor(u) is Some) by {
            if letter != ' ' {
                if binary {
                    assert(u =~= seq![letter, 'i']);
                } else {
                    assert(u =~= seq![letter]);
                }
            }
        }
    }
    match scale(num, letter, binary, Ghost(u)) {
        Some(v) => Some(Ok(v)),
        None => None,
    }
}

/// Parses a byte size such as `1G` or `512MiB`: a decimal number, then an
/// optional unit (`K`, `Ki`, `M`, `Mi`, `G`, `Gi`, `T`, `Ti`), then an
/// optional `B`. Gives the number of bytes; `ArgError::UnsupportedUnit` for
/// the units `P`, `Pi`, `E`, `Ei` and `i`; `ArgError::BadByteSize` where the
/// text is no byte size.
pub fn parse_bytesize(arg: &str) -> (r: Result<u64, ArgError>)
    requires
        size_fits(arg@),
    ensures
        size_outcome(arg@, r),
{
    match try_parse_bytesize(arg) {
        Some(x) => x,
        None => Err(ArgError::BadByteSize(String::from_str(arg))),
    }
}

/// The units are powers: `K`, `M`, `G`, `T` are 1000 to the first to fourth
/// power, `Ki`, `Mi`, `Gi`, `Ti` are 1024 to those powers, no unit is one
/// byte, and `P`, `E`, their `i` forms and a lone `i` are not supported.
pub proof fn law_unit_factors()
    ensures
        unit_factor(Seq::empty()) == Some(1nat),
        unit_factor(seq!['K']) == Some(power(1000, 1)),
        unit_factor(seq!['M']) == Some(power(1000, 2)),
        unit_factor(seq!['G']) == Some(power(1000, 3)),
        unit_factor(seq!['T']) == Some(power(1000, 4)),
        unit_factor(seq!['K', 'i']) == Some(power(1024, 1)),
        unit_factor(seq!['M', 'i']) == Some(power(1024, 2)),
        unit_factor(seq!['G', 'i']) == Some(power(1024, 3)),
        unit_factor(seq!['T', 'i']) == Some(power(1024, 4)),
        unit_factor(seq!['P']) is None,
        unit_factor(seq!['P', 'i']) is None,
        unit_factor(seq!['E']) is None,
        unit_factor(seq!['E', 'i']) is None,
        unit_factor(seq!['i']) is None,
{
    reveal_with_fuel(power, 5);
    assert(seq!['K'].len() == 1 && seq!['M'].len() == 1 && seq!['G'].len() == 1 && seq!['T'].len()
        == 1);
    assert(seq!['K', 'i'].len() == 2 && seq!['M', 'i'].len() == 2 && seq!['G', 'i'].len() == 2);
    assert(seq!['K'] != Seq::<char>::empty()) by {
        assert(seq!['K'].len() == 1);
    }
    assert(seq!['M'] != seq!['K']) by {
        assert(seq!['M'][0] != seq!['K'][0]);
    }
    assert(seq!['G'] != seq!['K'] && seq!['G'] != seq!['M']) by {
        assert(seq!['G'][0] == 'G');
    }
    assert(seq!['T'] != seq!['K'] && seq!['T'] != seq!['M'] && seq!['T'] != seq!['G']) by {
        assert(seq!['T'][0] == 'T');
    }
    assert(seq!['K', 'i'] != seq!['K']) by {
        assert(seq!['K', 'i'].len() == 2);
    }
    assert(seq!['M', 'i'] != seq!['K', 'i'] && seq!['M', 'i'] != seq!['M']) by {
        assert(seq!['M', 'i'][0] == 'M' && seq!['M', 'i'].len() == 2);
    }
    assert(seq!['G', 'i'] != seq!['K', 'i'] && seq!['G', 'i'] != seq!['M', 'i']) by {
        assert(seq!['G', 'i'][0] == 'G' && seq!['G', 'i'].len() == 2);
    }
    assert(seq!['T', 'i'] != seq!['K', 'i'] && seq!['T', 'i'] != seq!['M', 'i'] && seq!['T', 'i']
        != seq!['G', 'i']) by {
        assert(seq!['T', 'i'][0] == 'T' && seq!['T', 'i'].len() == 2);
    }
    lemma_unsupported_unit(seq!['P']);
    lemma_unsupported_unit(seq!['P', 'i']);
    lemma_unsupported_unit(seq!['E']);
    lemma_unsupported_unit(seq!['E', 'i']);
    lemma_unsupported_unit(seq!['i']);
}

/// A unit as it may be written: nothing, or one of the letters `K`, `M`,
/// `G`, `T`, `P`, `E`, or `i`, or one of those letters followed by `i`.
pub open spec fn written_unit(u: Seq<char>) -> bool {
    let letter = |c: char| c == 'K' || c == 'M' || c == 'G' || c == 'T' || c == 'P' || c == 'E';
    ||| u.len() == 0
    ||| u.len() == 1 && (letter(u[0]) || u[0] == 'i')
    ||| u.len() == 2 && letter(u[0]) && u[1] == 'i'
}

/// Every text read as a byte size is digits, then a written unit, then
/// possibly `B`, and nothing else.
pub proof fn law_size_shape_sound(s: Seq<char>)
    ensures
        size_shape(s) matches Some((d, u)) ==> {
            &&& 0 < d <= u <= s.len()
            &&& forall|i: int| 0 <= i < d ==> is_digit(#[trigger] s[i])
            &&& written_unit(s.subrange(d, u))
            &&& (u == s.len() || (u + 1 == s.len() && s[u] == 'B'))
        },
{
    lemma_digits_end(s, 0);
    if let Some((d, u)) = size_shape(s) {
        let w = s.subrange(d, u);
        if u - d == 1 {
            assert(w[0] == s[d]);
        }
        if u - d == 2 {
            assert(w[0] == s[d] && w[1] == s[d + 1]);
        }
    }
}

/// A number, a written unit and an optional `B` make a byte size of that
/// number and unit, so where the unit is supported, that many units:
/// `512Mi` and `512MiB` are both `512 * 2^20` bytes, `1G` is `10^9` bytes.
pub proof fn law_size_with_unit(d: Seq<char>, u: Seq<char>, with_b: bool)
    requires
        d.len() > 0,
        forall|i: int| 0 <= i < d.len() ==> is_digit(#[trigger] d[i]),
        written_unit(u),
    ensures
        ({
            let s = d + u + (if with_b {
                seq!['B']
            } else {
                Seq::empty()
            });
            size_shape(s) matches Some((x, y)) && digits_value(s.subrange(0, x))
                == digits_value(d) && unit_factor(s.subrange(x, y)) == unit_factor(u)
        }),
{
    let tail: Seq<char> = if with_b {
        seq!['B']
    } else {
        Seq::empty()
    };
    let s = d + u + tail;
    let n = d.len() as int;
    let m = u.len() as int;
    assert(all_digits(s, 0, n)) by {
        assert forall|i: int| 0 <= i < n implies is_digit(#[trigger] s[i]) by {
            assert(s[i] == d[i]);
        }
    }
    assert(n < s.len() ==> s[n] == (if m > 0 {
        u[0]
    } else {
        tail[0]
    }));
    lemma_digits_end_at(s, 0, n);
    assert(s.subrange(0, n) =~= d);
    assert(s.subrange(n, n + m) =~= u);
    if m >= 1 {
        assert(s[n] == u[0]);
    }
    if m == 2 {
        assert(s[n + 1] == u[1]);
    }
    if with_b {
        assert(s[n + m] == 'B');
        assert(s.len() == n + m + 1);
    } else {
        assert(s.len() == n + m);
    }
    assert(size_shape(s) == Some((n, n + m)));
}

} // verus!
