//! Durations written as `[<n>h] [<n>m] [<n>s] [<n>ms]`, such as `2h3s 1ms`.
//!
//! The accepted language is that of the regular expression
//! `^(?:([0-9]+)h\s*)?(?:([0-9]+)m\s*)?(?:([0-9]+)s\s*)?(?:([0-9]+)ms\s*)?$`,
//! with its groups chosen as a backtracking matcher chooses them: each
//! optional group is taken when the rest of the text can still match.
use vstd::prelude::*;

use crate::error::ArgError;
use crate::text::{
    all_digits,
    chars_of,
    digits_end,
    digits_to_u64,
    digits_value,
    is_digit,
    is_white_space,
    lemma_digits_end,
    lemma_digits_end_at,
    lemma_spaces_end,
    lemma_spaces_end_at,
    scan_digits,
    scan_spaces,
    spaces_end,
};

verus! {

/// The unit that closes group `k` of a duration: `h`, `m`, `s`, `ms`.
pub open spec fn duration_unit(k: int) -> Seq<char> {
    if k == 0 {
        seq!['h']
    } else if k == 1 {
        seq!['m']
    } else if k == 2 {
        seq!['s']
    } else {
        seq!['m', 's']
    }
}

/// `s` holds the text `u` at position `i`.
pub open spec fn text_at(s: Seq<char>, i: int, u: Seq<char>) -> bool {
    0 <= i && i + u.len() <= s.len() && s.subrange(i, i + u.len()) == u
}

/// Group `k` read at `i`: digits, its unit and any white space after it.
/// Gives the span of the digits and the position after the group.
pub open spec fn duration_group(s: Seq<char>, i: int, k: int) -> Option<(int, int, int)> {
    let d = digits_end(s, i);
    if d > i && text_at(s, d, duration_unit(k)) {
        Some((i, d, spaces_end(s, d + duration_unit(k).len())))
    } else {
        None
    }
}

/// How the groups `k..4` match the text from `i` to its end: for each group,
/// the span of its digits where it is present. `None` when no choice matches.
pub open spec fn duration_groups_from(s: Seq<char>, i: int, k: nat) -> Option<
    Seq<Option<(int, int)>>,
>
    decreases 4 - k,
{
    if k >= 4 {
        if i == s.len() {
            Some(Seq::empty())
        } else {
            None
        }
    } else {
        let skipped = match duration_groups_from(s, i, k + 1) {
            Some(rest) => Some(seq![None::<(int, int)>] + rest),
            None => None,
        };
        match duration_group(s, i, k as int) {
            Some((a, b, j)) => match duration_groups_from(s, j, k + 1) {
                Some(rest) => Some(seq![Some((a, b))] + rest),
                None => skipped,
            },
            None => skipped,
        }
    }
}

/// The groups of a whole duration text: hours, minutes, seconds, milliseconds.
pub open spec fn duration_groups(s: Seq<char>) -> Option<Seq<Option<(int, int)>>> {
    duration_groups_from(s, 0, 0)
}

/// The number that a group holds, 0 where it is absent.
pub open spec fn group_value(s: Seq<char>, g: Option<(int, int)>) -> nat {
    match g {
        Some((a, b)) => digits_value(s.subrange(a, b)),
        None => 0,
    }
}

/// The length in milliseconds that the groups of `s` describe.
pub open spec fn duration_millis(s: Seq<char>, g: Seq<Option<(int, int)>>) -> nat {
    1000 * (3600 * group_value(s, g[0]) + 60 * group_value(s, g[1]) + group_value(s, g[2]))
        + group_value(s, g[3])
}

/// A duration text whose length in milliseconds fits in a `u64`, or a text
/// that is no duration at all.
pub open spec fn duration_fits(s: Seq<char>) -> bool {
    match duration_groups(s) {
        Some(g) => duration_millis(s, g) <= u64::MAX,
        None => true,
    }
}

/// What parsing a duration text gives: its length in milliseconds, or the
/// error that names the text.
pub open spec fn duration_outcome(s: Seq<char>, r: Result<u64, ArgError>) -> bool {
    match duration_groups(s) {
        Some(g) => r == Ok::<u64, ArgError>(duration_millis(s, g) as u64),
        None => r matches Err(ArgError::BadDuration(a)) && a@ == s,
    }
}

/// The spans that a parser found, as integers.
pub open spec fn spans_agree(v: Seq<Option<(usize, usize)>>, g: Seq<Option<(int, int)>>) -> bool {
    &&& v.len() == g.len()
    &&& forall|n: int|
        0 <= n < v.len() ==> match #[trigger] v[n] {
            Some((a, b)) => g[n] == Some((a as int, b as int)),
            None => g[n] is None,
        }
}

proof fn lemma_duration_group_bounds(s: Seq<char>, i: int, k: int)
    requires
        0 <= i <= s.len(),
    ensures
        duration_group(s, i, k) matches Some((a, b, j)) ==> a == i && i < b < j <= s.len()
            && all_digits(s, a, b),
{
    lemma_digits_end(s, i);
    let d = digits_end(s, i);
    if d > i && text_at(s, d, duration_unit(k)) {
        lemma_spaces_end(s, d + duration_unit(k).len());
    }
}

/// Tests whether the unit of group `k` stands at `d`.
fn unit_matches(s: &Vec<char>, d: usize, k: usize) -> (r: bool)
    requires
        d <= s@.len(),
        k < 4,
    ensures
        r == text_at(s@, d as int, duration_unit(k as int)),
{
    let n = s.len();
    if k < 3 {
        if d < n {
            let c = s[d];
            let want = if k == 0 {
                'h'
            } else if k == 1 {
                'm'
            } else {
                's'
            };
            assert(duration_unit(k as int) == seq![want]);
            assert(s@.subrange(d as int, d + 1) =~= seq![c]);
            if c == want {
                assert(s@.subrange(d as int, d + 1) =~= seq![want]);
            } else {
                assert(seq![c][0] != seq![want][0]);
            }
            c == want
        } else {
            false
        }
    } else {
        if d < n && n - d >= 2 {
            let c0 = s[d];
            let c1 = s[d + 1];
            let ghost sub = s@.subrange(d as int, d + 2);
            assert(sub =~= seq![c0, c1]);
            if c0 == 'm' && c1 == 's' {
                assert(sub =~= seq!['m', 's']);
            } else {
                assert(sub[0] != seq!['m', 's'][0] || sub[1] != seq!['m', 's'][1]);
            }
            c0 == 'm' && c1 == 's'
        } else {
            false
        }
    }
}

/// Reads group `k` at `i`, as `duration_group` describes it.
fn match_group(s: &Vec<char>, i: usize, k: usize) -> (r: Option<(usize, usize, usize)>)
    requires
        i <= s@.len(),
        k < 4,
    ensures
        match r {
            Some((a, b, j)) => duration_group(s@, i as int, k as int) == Some(
                (a as int, b as int, j as int),
            ),
            None => duration_group(s@, i as int, k as int) is None,
        },
{
    let d = scan_digits(s, i);
    proof {
        lemma_digits_end(s@, i as int);
    }
    if d > i && unit_matches(s, d, k) {
        let ulen: usize = if k == 3 {
            2
        } else {
            1
        };
        assert(ulen == duration_unit(k as int).len());
        assert(text_at(s@, d as int, duration_unit(k as int)));
        assert(d + ulen <= s@.len());
        assert(s@.len() == s.len());
        let j = scan_spaces(s, d + ulen);
        Some((i, d, j))
    } else {
        None
    }
}

/// Finds how groups `k..4` match from `i`, as `duration_groups_from`
/// describes it: each optional group is tried first, then skipped.
fn match_groups(s: &Vec<char>, i: usize, k: usize) -> (r: Option<Vec<Option<(usize, usize)>>>)
    requires
        i <= s@.len(),
        k <= 4,
    ensures
        match (r, duration_groups_from(s@, i as int, k as nat)) {
            (Some(v), Some(g)) => spans_agree(v@, g),
            (None, None) => true,
            _ => false,
        },
    decreases 4 - k,
{
    if k >= 4 {
        if i == s.len() {
            return Some(Vec::new());
        } else {
            return None;
        }
    }
    proof {
        lemma_duration_group_bounds(s@, i as int, k as int);
    }
    match match_group(s, i, k) {
        Some((a, b, j)) => {
            match match_groups(s, j, k + 1) {
                Some(rest) => {
                    let ghost g = duration_groups_from(s@, j as int, (k + 1) as nat)->0;
                    let mut v = rest;
                    v.insert(0, Some((a, b)));
                    proof {
                        let whole = seq![Some((a as int, b as int))] + g;
                        assert forall|n: int| 0 <= n < v@.len() implies match #[trigger] v@[n] {
                            Some((x, y)) => whole[n] == Some((x as int, y as int)),
                            None => whole[n] is None,
                        } by {
                            if n > 0 {
                                assert(v@[n] == rest@[n - 1]);
                            }
                        }
                    }
                    return Some(v);
                },
                None => {},
            }
        },
        None => {},
    }
    match match_groups(s, i, k + 1) {
        Some(rest) => {
            let ghost g = duration_groups_from(s@, i as int, (k + 1) as nat)->0;
            let mut v = rest;
            v.insert(0, None);
            proof {
                let whole = seq![None::<(int, int)>] + g;
                assert forall|n: int| 0 <= n < v@.len() implies match #[trigger] v@[n] {
                    Some((x, y)) => whole[n] == Some((x as int, y as int)),
                    None => whole[n] is None,
                } by {
                    if n > 0 {
                        assert(v@[n] == rest@[n - 1]);
                    }
                }
            }
            Some(v)
        },
        None => None,
    }
}

proof fn lemma_groups_shape(s: Seq<char>, i: int, k: nat)
    requires
        0 <= i <= s.len(),
        k <= 4,
    ensures
        duration_groups_from(s, i, k) matches Some(g) ==> {
            &&& g.len() == 4 - k
            &&& forall|n: int|
                0 <= n < g.len() ==> (#[trigger] g[n] matches Some((a, b)) ==> 0 <= a <= b
                    <= s.len() && all_digits(s, a, b))
        },
    decreases 4 - k,
{
    if k < 4 {
        lemma_groups_shape(s, i, k + 1);
        lemma_duration_group_bounds(s, i, k as int);
        if let Some((a, b, j)) = duration_group(s, i, k as int) {
            lemma_groups_shape(s, j, k + 1);
            if let Some(rest) = duration_groups_from(s, j, k + 1) {
                let whole = seq![Some((a, b))] + rest;
                assert forall|n: int| 0 <= n < whole.len() implies (#[trigger] whole[n] matches Some(
                    (x, y),
                ) ==> 0 <= x <= y <= s.len() && all_digits(s, x, y)) by {
                    if n > 0 {
                        assert(whole[n] == rest[n - 1]);
                    }
                }
            }
        }
        if let Some(rest) = duration_groups_from(s, i, k + 1) {
            let whole = seq![None::<(int, int)>] + rest;
            assert forall|n: int| 0 <= n < whole.len() implies (#[trigger] whole[n] matches Some(
                (x, y),
            ) ==> 0 <= x <= y <= s.len() && all_digits(s, x, y)) by {
                if n > 0 {
                    assert(whole[n] == rest[n - 1]);
                }
            }
        }
    }
}

/// The number held by a group (0 where it is absent), or `None` where it
/// exceeds `u64::MAX`.
fn group_number(s: &Vec<char>, span: Option<(usize, usize)>) -> (r: Option<u64>)
    requires
        span matches Some((a, b)) ==> a <= b <= s@.len() && all_digits(s@, a as int, b as int),
    ensures
        ({
            let g = match span {
                Some((a, b)) => Some((a as int, b as int)),
                None => None,
            };
            match r {
                Some(v) => v == group_value(s@, g),
                None => group_value(s@, g) > u64::MAX,
            }
        }),
{
    match span {
        Some((a, b)) => digits_to_u64(s, a, b),
        None => Some(0),
    }
}

/// Parses a duration, as `try_parse_duration` does, from the groups found in it.
fn duration_from_groups(s: &Vec<char>, g: &Vec<Option<(usize, usize)>>) -> (r: Option<u64>)
    requires
        g@.len() == 4,
        forall|n: int|
            0 <= n < 4 ==> (#[trigger] g@[n] matches Some((a, b)) ==> a <= b <= s@.len()
                && all_digits(s@, a as int, b as int)),
    ensures
        ({
            let spans = Seq::new(
                4,
                |n: int|
                    match g@[n] {
                        Some((a, b)) => Some((a as int, b as int)),
                        None => None,
                    },
            );
            match r {
                Some(v) => v == duration_millis(s@, spans),
                None => duration_millis(s@, spans) > u64::MAX,
            }
        }),
{
    let ghost spans = Seq::new(
        4,
        |n: int|
            match g@[n] {
                Some((a, b)) => Some((a as int, b as int)),
                None => None,
            },
    );
    let ghost hv = group_value(s@, spans[0]);
    let ghost mv = group_value(s@, spans[1]);
    let ghost sv = group_value(s@, spans[2]);
    let ghost msv = group_value(s@, spans[3]);
    assert(duration_millis(s@, spans) == 1000 * (3600 * hv + 60 * mv + sv) + msv);
    let h = match group_number(s, g[0]) {
        Some(v) => v,
        None => return None,
    };
    let m = match group_number(s, g[1]) {
        Some(v) => v,
        None => return None,
    };
    let sec = match group_number(s, g[2]) {
        Some(v) => v,
        None => return None,
    };
    let ms = match group_number(s, g[3]) {
        Some(v) => v,
        None => return None,
    };
    let mut secs: u64 = 0;
    match h.checked_mul(3600) {
        Some(t) => secs = t,
        None => return None,
    }
    match m.checked_mul(60) {
        Some(t) => match secs.checked_add(t) {
            Some(u) => secs = u,
            None => return None,
        },
        None => return None,
    }
    match secs.checked_add(sec) {
        Some(u) => secs = u,
        None => return None,
    }
    match secs.checked_mul(1000) {
        Some(t) => t.checked_add(ms),
        None => None,
    }
}

/// Parses a duration such as `5m 8s`, giving its length in milliseconds.
///
/// Gives `None` exactly for the durations whose length in milliseconds
/// exceeds `u64::MAX`, which cannot be represented.
pub fn try_parse_duration(arg: &str) -> (r: Option<Result<u64, ArgError>>)
    ensures
        r is Some <==> duration_fits(arg@),
        r matches Some(x) ==> duration_outcome(arg@, x),
{
    let s = chars_of(arg);
    proof {
        lemma_groups_shape(s@, 0, 0);
    }
    match match_groups(&s, 0, 0) {
        None => Some(Err(ArgError::BadDuration(String::from_str(arg)))),
        Some(g) => {
            let ghost gs = duration_groups(s@)->0;
            proof {
                assert forall|n: int| 0 <= n < 4 implies (#[trigger] g@[n] matches Some((a, b))
                    ==> a <= b <= s@.len() && all_digits(s@, a as int, b as int)) by {
                    assert(gs[n] matches Some((x, y)) ==> 0 <= x <= y <= s@.len() && all_digits(
                        s@,
                        x,
                        y,
                    ));
                }
                let spans = Seq::new(
                    4,
                    |n: int|
                        match g@[n] {
                            Some((a, b)) => Some((a as int, b as int)),
                            None => None,
                        },
                );
                assert(spans =~= gs);
            }
            match duration_from_groups(&s, &g) {
                Some(v) => Some(Ok(v)),
                None => None,
            }
        },
    }
}

/// Parses a duration such as `5m 8s` or `2h3s 1ms`: hours, minutes,
/// seconds and milliseconds, each optional, in that order, each a decimal
/// number followed by its unit and optional white space. Gives the length in
/// milliseconds, or `ArgError::BadDuration` with the text where it is no
/// duration.
pub fn parse_duration(arg: &str) -> (r: Result<u64, ArgError>)
    requires
        duration_fits(arg@),
    ensures
        duration_outcome(arg@, r),
{
    match try_parse_duration(arg) {
        Some(x) => x,
        None => Err(ArgError::BadDuration(String::from_str(arg))),
    }
}

proof fn lemma_text_from_agree(
    p1: Seq<Option<Seq<char>>>,
    sp1: Seq<Seq<char>>,
    p2: Seq<Option<Seq<char>>>,
    sp2: Seq<Seq<char>>,
    k: int,
)
    requires
        0 <= k,
        forall|n: int| k <= n < 4 ==> p1[n] == p2[n] && sp1[n] == sp2[n],
    ensures
        duration_text_from(p1, sp1, k) == duration_text_from(p2, sp2, k),
    decreases 4 - k,
{
    if k < 4 {
        lemma_text_from_agree(p1, sp1, p2, sp2, k + 1);
        assert(duration_segment(p1, sp1, k) == duration_segment(p2, sp2, k));
    }
}

/// Parts from which the text `s[i..]` is written, as groups `k..4` match it.
proof fn lemma_parts_of_groups(s: Seq<char>, i: int, k: nat) -> (r: (
    Seq<Option<Seq<char>>>,
    Seq<Seq<char>>,
))
    requires
        0 <= i <= s.len(),
        k <= 4,
        duration_groups_from(s, i, k) is Some,
    ensures
        well_formed_parts(r.0, r.1),
        s.subrange(i, s.len() as int) == duration_text_from(r.0, r.1, k as int),
        forall|n: int|
            0 <= n < 4 - k ==> group_value(s, #[trigger] duration_groups_from(s, i, k)->0[n])
                == part_value(r.0[k + n]),
    decreases 4 - k,
{
    if k >= 4 {
        let parts = seq![None::<Seq<char>>, None, None, None];
        let spaces = seq![Seq::<char>::empty(), Seq::empty(), Seq::empty(), Seq::empty()];
        assert(s.subrange(i, s.len() as int) =~= Seq::<char>::empty());
        return (parts, spaces);
    }
    lemma_duration_group_bounds(s, i, k as int);
    lemma_groups_shape(s, i, k);
    let g = duration_groups_from(s, i, k)->0;
    let taken = match duration_group(s, i, k as int) {
        Some((a, b, j)) => duration_groups_from(s, j, k + 1) is Some,
        None => false,
    };
    if taken {
        let (a, b, j) = duration_group(s, i, k as int)->0;
        let u = duration_unit(k as int);
        lemma_spaces_end(s, b + u.len());
        let rest = lemma_parts_of_groups(s, j, k + 1);
        let g2 = duration_groups_from(s, j, k + 1)->0;
        let d = s.subrange(a, b);
        let w = s.subrange(b + u.len(), j);
        let parts = rest.0.update(k as int, Some(d));
        let spaces = rest.1.update(k as int, w);
        lemma_text_from_agree(parts, spaces, rest.0, rest.1, (k + 1) as int);
        assert(duration_segment(parts, spaces, k as int) == d + u + w);
        assert(s.subrange(b, b + u.len()) == u);
        assert(s.subrange(i, s.len() as int) =~= d + u + w + s.subrange(j, s.len() as int));
        assert(well_formed_parts(parts, spaces)) by {
            assert forall|x: int| 0 <= x < d.len() implies is_digit(#[trigger] d[x]) by {
                assert(d[x] == s[a + x]);
            }
            assert forall|m: int, x: int| 0 <= m < 4 && 0 <= x < spaces[m].len() implies is_white_space(
                #[trigger] spaces[m][x],
            ) by {
                if m == k {
                    assert(spaces[m][x] == s[b + u.len() + x]);
                } else {
                    assert(spaces[m] == rest.1[m]);
                }
            }
            assert forall|m: int| 0 <= m < 4 implies (#[trigger] parts[m] matches Some(e) ==> e.len()
                > 0 && forall|x: int| 0 <= x < e.len() ==> is_digit(#[trigger] e[x])) by {
                if m != k {
                    assert(parts[m] == rest.0[m]);
                }
            }
        }
        assert(g == seq![Some((a, b))] + g2);
        assert forall|n: int| 0 <= n < 4 - k implies group_value(s, #[trigger] g[n]) == part_value(
            parts[k + n],
        ) by {
            if n > 0 {
                assert(g[n] == g2[n - 1]);
                assert(group_value(s, g2[n - 1]) == part_value(rest.0[k + 1 + (n - 1)]));
            }
        }
        (parts, spaces)
    } else {
        let rest = lemma_parts_of_groups(s, i, k + 1);
        let g2 = duration_groups_from(s, i, k + 1)->0;
        let parts = rest.0.update(k as int, None);
        let spaces = rest.1.update(k as int, Seq::empty());
        lemma_text_from_agree(parts, spaces, rest.0, rest.1, (k + 1) as int);
        assert(duration_segment(parts, spaces, k as int) =~= Seq::<char>::empty());
        assert(duration_text_from(parts, spaces, k as int) =~= duration_text_from(
            rest.0,
            rest.1,
            (k + 1) as int,
        ));
        assert(well_formed_parts(parts, spaces)) by {
            assert forall|m: int, x: int| 0 <= m < 4 && 0 <= x < spaces[m].len() implies is_white_space(
                #[trigger] spaces[m][x],
            ) by {
                assert(m != k);
                assert(spaces[m] == rest.1[m]);
            }
            assert forall|m: int| 0 <= m < 4 implies (#[trigger] parts[m] matches Some(e) ==> e.len()
                > 0 && forall|x: int| 0 <= x < e.len() ==> is_digit(#[trigger] e[x])) by {
                if m != k {
                    assert(parts[m] == rest.0[m]);
                }
            }
        }
        assert(g == seq![None::<(int, int)>] + g2);
        assert forall|n: int| 0 <= n < 4 - k implies group_value(s, #[trigger] g[n]) == part_value(
            parts[k + n],
        ) by {
            if n > 0 {
                assert(g[n] == g2[n - 1]);
                assert(group_value(s, g2[n - 1]) == part_value(rest.0[k + 1 + (n - 1)]));
            }
        }
        (parts, spaces)
    }
}

/// Every text read as a duration is a duration written part by part, and
/// its groups hold the numbers of those parts: nothing else is accepted.
pub proof fn law_duration_sound(s: Seq<char>)
    ensures
        duration_groups(s) matches Some(g) ==> exists|
            parts: Seq<Option<Seq<char>>>,
            spaces: Seq<Seq<char>>,
        |
            #![trigger duration_text_from(parts, spaces, 0)]
            {
                &&& well_formed_parts(parts, spaces)
                &&& s == duration_text_from(parts, spaces, 0)
                &&& forall|k: int| 0 <= k < 4 ==> group_value(s, #[trigger] g[k]) == part_value(parts[k])
            },
{
    if let Some(g) = duration_groups(s) {
        let (parts, spaces) = lemma_parts_of_groups(s, 0, 0);
        assert(s.subrange(0, s.len() as int) =~= s);
        assert(forall|k: int| 0 <= k < 4 ==> group_value(s, #[trigger] g[k]) == part_value(
            parts[k],
        ));
        assert(duration_text_from(parts, spaces, 0) == s);
    }
}

/// The units of a duration, in the order they are written: hours `h`,
/// minutes `m`, seconds `s`, milliseconds `ms`.
pub proof fn law_duration_units()
    ensures
        duration_unit(0) =~= seq!['h'],
        duration_unit(1) =~= seq!['m'],
        duration_unit(2) =~= seq!['s'],
        duration_unit(3) =~= seq!['m', 's'],
{
}

/// The text of group `k` of a duration written part by part: its digits,
/// its unit and the white space after it, or nothing where it is absent.
pub open spec fn duration_segment(parts: Seq<Option<Seq<char>>>, spaces: Seq<Seq<char>>, k: int) -> Seq<char> {
    match parts[k] {
        Some(d) => d + duration_unit(k) + spaces[k],
        None => Seq::empty(),
    }
}

/// The text of groups `k..4` of a duration written part by part.
pub open spec fn duration_text_from(parts: Seq<Option<Seq<char>>>, spaces: Seq<Seq<char>>, k: int) -> Seq<char>
    decreases 4 - k,
{
    if k >= 4 {
        Seq::empty()
    } else {
        duration_segment(parts, spaces, k) + duration_text_from(parts, spaces, k + 1)
    }
}

/// Parts of a duration: for hours, minutes, seconds and milliseconds, a
/// number or nothing, and the white space that follows.
pub open spec fn well_formed_parts(parts: Seq<Option<Seq<char>>>, spaces: Seq<Seq<char>>) -> bool {
    &&& parts.len() == 4
    &&& spaces.len() == 4
    &&& forall|k: int|
        0 <= k < 4 ==> (#[trigger] parts[k] matches Some(d) ==> d.len() > 0 && forall|i: int|
            0 <= i < d.len() ==> is_digit(#[trigger] d[i]))
    &&& forall|k: int, i: int|
        0 <= k < 4 && 0 <= i < spaces[k].len() ==> is_white_space(#[trigger] spaces[k][i])
}

/// The number a part holds, 0 where it is absent.
pub open spec fn part_value(p: Option<Seq<char>>) -> nat {
    match p {
        Some(d) => digits_value(d),
        None => 0,
    }
}

/// The first group at or after `k` that is present; 4 where none is.
pub open spec fn first_present(parts: Seq<Option<Seq<char>>>, k: int) -> int
    decreases 4 - k,
{
    if k >= 4 {
        4
    } else if parts[k] is Some {
        k
    } else {
        first_present(parts, k + 1)
    }
}

proof fn lemma_first_present(parts: Seq<Option<Seq<char>>>, spaces: Seq<Seq<char>>, k: int)
    requires
        well_formed_parts(parts, spaces),
        0 <= k <= 4,
    ensures
        k <= first_present(parts, k) <= 4,
        first_present(parts, k) < 4 ==> parts[first_present(parts, k)] is Some
            && duration_text_from(parts, spaces, k) == duration_segment(
            parts,
            spaces,
            first_present(parts, k),
        ) + duration_text_from(parts, spaces, first_present(parts, k) + 1),
        first_present(parts, k) == 4 ==> duration_text_from(parts, spaces, k).len() == 0,
        forall|j: int| k <= j < first_present(parts, k) ==> #[trigger] parts[j] is None,
    decreases 4 - k,
{
    if k < 4 {
        lemma_first_present(parts, spaces, k + 1);
        if parts[k] is None {
            assert(duration_segment(parts, spaces, k) =~= Seq::<char>::empty());
            assert(duration_text_from(parts, spaces, k) =~= duration_text_from(parts, spaces, k + 1));
        }
    }
}

/// A present group: digits `d`, the unit of group `k`, white space `w`, then
/// a digit or the end.
proof fn lemma_present_group(s: Seq<char>, i: int, d: Seq<char>, k: int, w: Seq<char>)
    requires
        0 <= i,
        0 <= k < 4,
        d.len() > 0,
        forall|x: int| 0 <= x < d.len() ==> is_digit(#[trigger] d[x]),
        forall|x: int| 0 <= x < w.len() ==> is_white_space(#[trigger] w[x]),
        i + d.len() + duration_unit(k).len() + w.len() <= s.len(),
        s.subrange(i, i + d.len() + duration_unit(k).len() + w.len()) == d + duration_unit(k)
            + w,
        ({
            let e = i + d.len() + duration_unit(k).len() + w.len();
            e == s.len() || is_digit(s[e])
        }),
    ensures
        duration_group(s, i, k) == Some(
            (i, i + d.len(), i + d.len() + duration_unit(k).len() + w.len()),
        ),
        s.subrange(i, i + d.len()) == d,
{
    let u = duration_unit(k);
    let nd = d.len() as int;
    let t = d + u + w;
    let e = i + nd + u.len() + w.len();
    assert forall|x: int| i <= x < e implies s[x] == t[x - i] by {
        assert(s.subrange(i, e)[x - i] == s[x]);
    }
    assert(all_digits(s, i, i + nd)) by {
        assert forall|x: int| i <= x < i + nd implies is_digit(#[trigger] s[x]) by {
            assert(s[x] == t[x - i]);
            assert(t[x - i] == d[x - i]);
        }
    }
    assert(s[i + nd] == t[nd]);
    assert(t[nd] == u[0]);
    lemma_digits_end_at(s, i, i + nd);
    assert(s.subrange(i + nd, i + nd + u.len()) =~= u) by {
        assert forall|x: int| 0 <= x < u.len() implies s.subrange(i + nd, i + nd + u.len())[x]
            == u[x] by {
            assert(s[i + nd + x] == t[nd + x]);
        }
    }
    let a = i + nd + u.len();
    assert forall|x: int| a <= x < e implies is_white_space(#[trigger] s[x]) by {
        assert(s[x] == t[x - i]);
        assert(t[x - i] == w[x - a]);
    }
    lemma_spaces_end_at(s, a, e);
    assert(s.subrange(i, i + nd) =~= d) by {
        assert forall|x: int| 0 <= x < nd implies s.subrange(i, i + nd)[x] == d[x] by {
            assert(s[i + x] == t[x]);
        }
    }
}

/// Where the number and unit of a later group `kn` follow position `i`,
/// group `k` is not taken there.
proof fn lemma_absent_group(s: Seq<char>, i: int, dn: Seq<char>, k: int, kn: int)
    requires
        0 <= i,
        0 <= k < kn < 4,
        dn.len() > 0,
        forall|x: int| 0 <= x < dn.len() ==> is_digit(#[trigger] dn[x]),
        i + dn.len() + duration_unit(kn).len() <= s.len(),
        s.subrange(i, i + dn.len() + duration_unit(kn).len()) == dn + duration_unit(kn),
    ensures
        match duration_group(s, i, k) {
            Some((a, b, j)) => duration_groups_from(s, j, (k + 1) as nat) is None,
            None => true,
        },
{
    let un = duration_unit(kn);
    let nd = dn.len() as int;
    let t = dn + un;
    let e = i + nd + un.len();
    assert forall|x: int| i <= x < e implies s[x] == t[x - i] by {
        assert(s.subrange(i, e)[x - i] == s[x]);
    }
    assert(all_digits(s, i, i + nd)) by {
        assert forall|x: int| i <= x < i + nd implies is_digit(#[trigger] s[x]) by {
            assert(s[x] == t[x - i]);
            assert(t[x - i] == dn[x - i]);
        }
    }
    assert(s[i + nd] == t[nd]);
    assert(t[nd] == un[0]);
    lemma_digits_end_at(s, i, i + nd);
    if k == 1 && kn == 3 {
        // `m` taken from `ms` leaves an `s` that no later group matches.
        let j = i + nd + 1;
        assert(s[j] == t[nd + 1]);
        assert(s[j] == 's');
        assert(s.subrange(i + nd, i + nd + 1) =~= seq!['m']);
        lemma_spaces_end_at(s, j, j);
        assert(duration_group(s, i, k) == Some((i, i + nd, j)));
        lemma_digits_end_at(s, j, j);
        assert(duration_group(s, j, 2) is None);
        assert(duration_group(s, j, 3) is None);
        assert(duration_groups_from(s, j, 4) is None);
        assert(duration_groups_from(s, j, 3) is None);
        assert(duration_groups_from(s, j, 2) is None);
    } else {
        let u = duration_unit(k);
        if i + nd + u.len() <= s.len() {
            assert(s.subrange(i + nd, i + nd + u.len())[0] == s[i + nd]);
        }
        assert(u[0] != un[0]);
        assert(duration_group(s, i, k) is None);
    }
}

/// Groups `k..4` of a duration written part by part, read after any text
/// `pre`: each present part is found, with its number.
#[verifier::spinoff_prover]
#[verifier::rlimit(40)]
proof fn lemma_groups_of_parts(
    pre: Seq<char>,
    parts: Seq<Option<Seq<char>>>,
    spaces: Seq<Seq<char>>,
    k: int,
)
    requires
        well_formed_parts(parts, spaces),
        0 <= k <= 4,
    ensures
        ({
            let s = pre + duration_text_from(parts, spaces, k);
            duration_groups_from(s, pre.len() as int, k as nat) matches Some(g) && g.len() == 4 - k
                && forall|n: int|
                0 <= n < 4 - k ==> group_value(s, #[trigger] g[n]) == part_value(parts[k + n])
        }),
    decreases 4 - k,
{
    let rest = duration_text_from(parts, spaces, k);
    let s = pre + rest;
    let i = pre.len() as int;
    if k >= 4 {
        assert(s =~= pre);
        return;
    }
    let seg = duration_segment(parts, spaces, k);
    let after = duration_text_from(parts, spaces, k + 1);
    assert(rest == seg + after);
    let pre2 = pre + seg;
    assert(s =~= pre2 + after);
    lemma_groups_of_parts(pre2, parts, spaces, k + 1);
    let g2 = duration_groups_from(s, pre2.len() as int, (k + 1) as nat)->0;
    lemma_first_present(parts, spaces, k + 1);
    let kn = first_present(parts, k + 1);
    let g = seq![
        match parts[k] {
            Some(d) => Some((i, i + d.len())),
            None => None,
        },
    ] + g2;
    match parts[k] {
        Some(d) => {
            let w = spaces[k];
            let e = pre2.len() as int;
            assert(seg == d + duration_unit(k) + w);
            assert(s.subrange(i, e) =~= seg);
            assert(forall|x: int| 0 <= x < w.len() ==> is_white_space(#[trigger] w[x])) by {
                assert forall|x: int| 0 <= x < w.len() implies is_white_space(#[trigger] w[x]) by {
                    assert(is_white_space(spaces[k][x]));
                }
            }
            if e < s.len() {
                assert(s[e] == after[0]);
                let dn = parts[kn]->0;
                assert(parts[kn] matches Some(x) ==> x.len() > 0);
                assert(after[0] == dn[0]);
                assert(is_digit(dn[0]));
            }
            lemma_present_group(s, i, d, k, w);
            assert(duration_groups_from(s, i, k as nat) == Some(g));
        },
        None => {
            assert(seg =~= Seq::<char>::empty());
            assert(pre2 =~= pre);
            if kn == 4 {
                assert(s =~= pre);
                lemma_digits_end_at(s, i, i);
                assert(duration_group(s, i, k) is None);
            } else {
                let dn = parts[kn]->0;
                assert(parts[kn] matches Some(x) ==> x.len() > 0 && forall|y: int|
                    0 <= y < x.len() ==> is_digit(#[trigger] x[y]));
                let tail = duration_text_from(parts, spaces, kn + 1);
                assert(after == dn + duration_unit(kn) + spaces[kn] + tail);
                let m = dn.len() + duration_unit(kn).len();
                assert(s.subrange(i, i + m) =~= dn + duration_unit(kn));
                lemma_absent_group(s, i, dn, k, kn);
            }
            assert(duration_groups_from(s, i, k as nat) == Some(g));
        },
    }
    assert forall|n: int| 0 <= n < 4 - k implies group_value(s, #[trigger] g[n]) == part_value(
        parts[k + n],
    ) by {
        if n > 0 {
            assert(g[n] == g2[n - 1]);
            assert(group_value(s, g2[n - 1]) == part_value(parts[k + 1 + (n - 1)]));
        } else {
            if let Some(d) = parts[k] {
                assert(s.subrange(i, i + d.len()) == d) by {
                    let w = spaces[k];
                    let e = pre2.len() as int;
                    assert(s.subrange(i, e) =~= seg);
                    assert forall|x: int| 0 <= x < d.len() implies s.subrange(i, i + d.len())[x]
                        == d[x] by {
                        assert(s[i + x] == seg[x]);
                    }
                    assert(s.subrange(i, i + d.len()) =~= d);
                }
            }
        }
    }
}

/// A duration written part by part (hours, minutes, seconds, milliseconds,
/// each optional, each followed by any white space) is read back part by
/// part, and lasts the sum of its parts: `5m 8s` is 308000 milliseconds,
/// `2h3s 1ms` 7203001.
pub proof fn law_duration_of_parts(parts: Seq<Option<Seq<char>>>, spaces: Seq<Seq<char>>)
    requires
        well_formed_parts(parts, spaces),
    ensures
        ({
            let s = duration_text_from(parts, spaces, 0);
            duration_groups(s) matches Some(g) && duration_millis(s, g) == 1000 * (3600
                * part_value(parts[0]) + 60 * part_value(parts[1]) + part_value(parts[2]))
                + part_value(parts[3])
        }),
{
    let s = duration_text_from(parts, spaces, 0);
    lemma_groups_of_parts(Seq::empty(), parts, spaces, 0);
    assert(Seq::<char>::empty() + s =~= s);
    let g = duration_groups(s)->0;
    assert(group_value(s, g[0]) == part_value(parts[0]));
    assert(group_value(s, g[1]) == part_value(parts[1]));
    assert(group_value(s, g[2]) == part_value(parts[2]));
    assert(group_value(s, g[3]) == part_value(parts[3]));
}

} // verus!
