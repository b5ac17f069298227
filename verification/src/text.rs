//! Character classes and small string operations shared by the parsers.
use vstd::prelude::*;

verus! {

/// The Unicode `White_Space` property: the characters that `char::is_whitespace`
/// and the `\s` class of regular expressions accept.
pub open spec fn is_white_space(c: char) -> bool {
    ||| ('\u{9}' <= c && c <= '\u{d}')
    ||| c == ' '
    ||| c == '\u{85}'
    ||| c == '\u{a0}'
    ||| c == '\u{1680}'
    ||| ('\u{2000}' <= c && c <= '\u{200a}')
    ||| c == '\u{2028}'
    ||| c == '\u{2029}'
    ||| c == '\u{202f}'
    ||| c == '\u{205f}'
    ||| c == '\u{3000}'
}

/// An ASCII decimal digit, `[0-9]`.
pub open spec fn is_digit(c: char) -> bool {
    '0' <= c && c <= '9'
}

/// Tests a character for the `White_Space` property.
pub fn is_whitespace_char(c: char) -> (r: bool)
    ensures
        r == is_white_space(c),
{
    ('\u{9}' <= c && c <= '\u{d}') || c == ' ' || c == '\u{85}' || c == '\u{a0}' || c
        == '\u{1680}' || ('\u{2000}' <= c && c <= '\u{200a}') || c == '\u{2028}' || c
        == '\u{2029}' || c == '\u{202f}' || c == '\u{205f}' || c == '\u{3000}'
}

/// Tests a character for being an ASCII decimal digit.
pub fn is_digit_char(c: char) -> (r: bool)
    ensures
        r == is_digit(c),
{
    '0' <= c && c <= '9'
}

/// The characters of a string, in order.
pub fn chars_of(s: &str) -> (v: Vec<char>)
    ensures
        v@ == s@,
{
    let mut v: Vec<char> = Vec::new();
    for c in it: s.chars()
        invariant
            v@ == it.seq().take(it.index() as int),
    {
        v.push(c);
    }
    v
}


/// The number written by a sequence of decimal digits.
pub open spec fn digits_value(d: Seq<char>) -> nat
    decreases d.len(),
{
    if d.len() == 0 {
        0
    } else {
        digits_value(d.drop_last()) * 10 + (d.last() as int - '0' as int) as nat
    }
}

/// `base` raised to the power `e`.
pub open spec fn power(base: nat, e: nat) -> nat
    decreases e,
{
    if e == 0 {
        1
    } else {
        base * power(base, (e - 1) as nat)
    }
}

/// Appending a digit to a number multiplies it by ten and adds the digit:
/// the digits are read in decimal, whatever their count.
pub proof fn law_digits_value_push(d: Seq<char>, c: char)
    requires
        is_digit(c),
    ensures
        digits_value(d.push(c)) == 10 * digits_value(d) + (c as int - '0' as int),
        digits_value(Seq::<char>::empty()) == 0,
{
    assert(d.push(c).drop_last() =~= d);
}

/// The digits `a` followed by the digits `b` are worth `a` shifted left by
/// the length of `b`, plus `b`: `"1000"` is `1 * 10^3 + 0`, `"500"` is
/// `5 * 10^2 + 0`.
pub proof fn law_digits_value_concat(a: Seq<char>, b: Seq<char>)
    requires
        forall|i: int| 0 <= i < b.len() ==> is_digit(#[trigger] b[i]),
    ensures
        digits_value(a + b) == digits_value(a) * power(10, b.len()) + digits_value(b),
    decreases b.len(),
{
    if b.len() == 0 {
        assert(a + b =~= a);
        assert(power(10, b.len()) == 1);
        assert(digits_value(a) * 1 == digits_value(a));
    } else {
        let b0 = b.drop_last();
        let c = b.last();
        assert(is_digit(b[b.len() - 1]));
        assert forall|i: int| 0 <= i < b0.len() implies is_digit(#[trigger] b0[i]) by {
            assert(b0[i] == b[i]);
        }
        law_digits_value_concat(a, b0);
        assert((a + b).drop_last() =~= a + b0);
        assert((a + b).last() == c);
        let va = digits_value(a);
        let p = power(10, b0.len());
        let vb0 = digits_value(b0);
        let dc = (c as int - '0' as int);
        assert(power(10, b.len()) == 10 * p);
        assert(digits_value(a + b) == (va * p + vb0) * 10 + dc);
        assert(digits_value(b) == vb0 * 10 + dc);
        assert((va * p + vb0) * 10 + dc == va * (10 * p) + (vb0 * 10 + dc)) by (nonlinear_arith);
        assert(digits_value(a + b) == va * power(10, b.len()) + digits_value(b));
    }
}

/// The end of the run of digits that starts at `i`.
pub open spec fn digits_end(s: Seq<char>, i: int) -> int
    decreases s.len() - i,
{
    if 0 <= i < s.len() && is_digit(s[i]) {
        digits_end(s, i + 1)
    } else {
        i
    }
}

/// The end of the run of white space that starts at `i`.
pub open spec fn spaces_end(s: Seq<char>, i: int) -> int
    decreases s.len() - i,
{
    if 0 <= i < s.len() && is_white_space(s[i]) {
        spaces_end(s, i + 1)
    } else {
        i
    }
}

/// The end of the run of characters other than white space that starts at `i`.
pub open spec fn word_end(s: Seq<char>, i: int) -> int
    decreases s.len() - i,
{
    if 0 <= i < s.len() && !is_white_space(s[i]) {
        word_end(s, i + 1)
    } else {
        i
    }
}

/// Every character of `s` in `[i, j)` is a digit.
pub open spec fn all_digits(s: Seq<char>, i: int, j: int) -> bool {
    forall|k: int| i <= k < j ==> is_digit(#[trigger] s[k])
}

pub proof fn lemma_digits_end(s: Seq<char>, i: int)
    requires
        0 <= i <= s.len(),
    ensures
        i <= digits_end(s, i) <= s.len(),
        all_digits(s, i, digits_end(s, i)),
        digits_end(s, i) < s.len() ==> !is_digit(s[digits_end(s, i)]),
    decreases s.len() - i,
{
    if i < s.len() && is_digit(s[i]) {
        lemma_digits_end(s, i + 1);
    }
}

pub proof fn lemma_spaces_end(s: Seq<char>, i: int)
    requires
        0 <= i <= s.len(),
    ensures
        i <= spaces_end(s, i) <= s.len(),
        forall|k: int| i <= k < spaces_end(s, i) ==> is_white_space(#[trigger] s[k]),
        spaces_end(s, i) < s.len() ==> !is_white_space(s[spaces_end(s, i)]),
    decreases s.len() - i,
{
    if i < s.len() && is_white_space(s[i]) {
        lemma_spaces_end(s, i + 1);
    }
}

pub proof fn lemma_word_end(s: Seq<char>, i: int)
    requires
        0 <= i <= s.len(),
    ensures
        i <= word_end(s, i) <= s.len(),
        forall|k: int| i <= k < word_end(s, i) ==> !is_white_space(#[trigger] s[k]),
        word_end(s, i) < s.len() ==> is_white_space(s[word_end(s, i)]),
    decreases s.len() - i,
{
    if i < s.len() && !is_white_space(s[i]) {
        lemma_word_end(s, i + 1);
    }
}

/// A run of digits that ends at `e`, where a non-digit or the end follows.
pub proof fn lemma_digits_end_at(s: Seq<char>, j: int, e: int)
    requires
        0 <= j <= e <= s.len(),
        all_digits(s, j, e),
        e == s.len() || !is_digit(s[e]),
    ensures
        digits_end(s, j) == e,
    decreases e - j,
{
    if j < e {
        lemma_digits_end_at(s, j + 1, e);
    }
}

/// A run of white space that ends at `e`, where other text or the end follows.
pub proof fn lemma_spaces_end_at(s: Seq<char>, j: int, e: int)
    requires
        0 <= j <= e <= s.len(),
        forall|k: int| j <= k < e ==> is_white_space(#[trigger] s[k]),
        e == s.len() || !is_white_space(s[e]),
    ensures
        spaces_end(s, j) == e,
    decreases e - j,
{
    if j < e {
        lemma_spaces_end_at(s, j + 1, e);
    }
}

/// Finds the end of the run of digits that starts at `i`.
pub fn scan_digits(s: &Vec<char>, i: usize) -> (j: usize)
    requires
        i <= s@.len(),
    ensures
        j == digits_end(s@, i as int),
{
    let mut j = i;
    while j < s.len() && is_digit_char(s[j])
        invariant
            i <= j <= s@.len(),
            digits_end(s@, i as int) == digits_end(s@, j as int),
        decreases s@.len() - j,
    {
        j = j + 1;
    }
    j
}

/// Finds the end of the run of white space that starts at `i`.
pub fn scan_spaces(s: &Vec<char>, i: usize) -> (j: usize)
    requires
        i <= s@.len(),
    ensures
        j == spaces_end(s@, i as int),
{
    let mut j = i;
    while j < s.len() && is_whitespace_char(s[j])
        invariant
            i <= j <= s@.len(),
            spaces_end(s@, i as int) == spaces_end(s@, j as int),
        decreases s@.len() - j,
    {
        j = j + 1;
    }
    j
}

/// Finds the end of the run of characters other than white space that starts at `i`.
pub fn scan_word(s: &Vec<char>, i: usize) -> (j: usize)
    requires
        i <= s@.len(),
    ensures
        j == word_end(s@, i as int),
{
    let mut j = i;
    while j < s.len() && !is_whitespace_char(s[j])
        invariant
            i <= j <= s@.len(),
            word_end(s@, i as int) == word_end(s@, j as int),
        decreases s@.len() - j,
    {
        j = j + 1;
    }
    j
}

/// The value of the digits `s[i..j]`, or `None` where it exceeds `u64::MAX`.
pub fn digits_to_u64(s: &Vec<char>, i: usize, j: usize) -> (r: Option<u64>)
    requires
        i <= j <= s@.len(),
        all_digits(s@, i as int, j as int),
    ensures
        match r {
            Some(v) => v == digits_value(s@.subrange(i as int, j as int)),
            None => digits_value(s@.subrange(i as int, j as int)) > u64::MAX,
        },
{
    let mut acc: Option<u64> = Some(0);
    let mut k = i;
    while k < j
        invariant
            i <= k <= j <= s@.len(),
            all_digits(s@, i as int, j as int),
            match acc {
                Some(v) => v == digits_value(s@.subrange(i as int, k as int)),
                None => digits_value(s@.subrange(i as int, k as int)) > u64::MAX,
            },
        decreases j - k,
    {
        let c = s[k];
        assert(is_digit(s@[k as int]));
        let ghost prev = s@.subrange(i as int, k as int);
        let ghost next = s@.subrange(i as int, k + 1);
        assert(next.drop_last() =~= prev);
        assert(next.last() == c);
        let d = (c as u32 - '0' as u32) as u64;
        acc = match acc {
            Some(v) => {
                if v <= (u64::MAX - d) / 10 {
                    Some(v * 10 + d)
                } else {
                    None
                }
            },
            None => None,
        };
        k = k + 1;
    }
    acc
}

/// Appends one character to a string (`String::push`).
#[verifier::external_body]
pub fn push_char(s: &mut String, c: char)
    ensures
        final(s)@ == old(s)@.push(c),
{
    s.push(c);
}

/// The string made of the characters `s[i..j]`.
pub fn string_of(s: &Vec<char>, i: usize, j: usize) -> (r: String)
    requires
        i <= j <= s@.len(),
    ensures
        r@ == s@.subrange(i as int, j as int),
{
    let mut r = String::new();
    let mut k = i;
    while k < j
        invariant
            i <= k <= j <= s@.len(),
            r@ == s@.subrange(i as int, k as int),
        decreases j - k,
    {
        push_char(&mut r, s[k]);
        assert(s@.subrange(i as int, k + 1) =~= s@.subrange(i as int, k as int).push(s@[k as int]));
        k = k + 1;
    }
    r
}

/// The words of `s` from position `i` on: its maximal runs of characters
/// other than white space, in order.
pub open spec fn words_from(s: Seq<char>, i: int) -> Seq<Seq<char>>
    decreases s.len() - i,
{
    if 0 <= i < s.len() {
        let a = spaces_end(s, i);
        if a < s.len() {
            let b = word_end(s, a);
            proof {
                lemma_spaces_end(s, i);
                lemma_word_end(s, a);
            }
            seq![s.subrange(a, b)] + words_from(s, b)
        } else {
            Seq::empty()
        }
    } else {
        Seq::empty()
    }
}

/// The words of `s`, as `str::split_whitespace` gives them.
pub open spec fn split_whitespace(s: Seq<char>) -> Seq<Seq<char>> {
    words_from(s, 0)
}

/// The texts of a list of strings.
pub open spec fn texts(v: Seq<String>) -> Seq<Seq<char>> {
    v.map_values(|w: String| w@)
}

/// The words of `s[from..]`, each a string of its own.
pub fn split_words(s: &Vec<char>, from: usize) -> (r: Vec<String>)
    requires
        from <= s@.len(),
    ensures
        texts(r@) == words_from(s@, from as int),
{
    let n = s.len();
    let mut r: Vec<String> = Vec::new();
    let mut i = from;
    while i < n
        invariant
            from <= i <= n == s@.len(),
            words_from(s@, from as int) == texts(r@) + words_from(s@, i as int),
        decreases n - i,
    {
        let a = scan_spaces(s, i);
        proof {
            lemma_spaces_end(s@, i as int);
        }
        if a >= n {
            assert(words_from(s@, i as int) =~= Seq::<Seq<char>>::empty());
            assert(texts(r@) + Seq::<Seq<char>>::empty() =~= texts(r@));
            i = n;
        } else {
            let b = scan_word(s, a);
            proof {
                lemma_word_end(s@, a as int);
            }
            let w = string_of(s, a, b);
            let ghost old_r = r@;
            r.push(w);
            proof {
                assert(texts(r@) =~= texts(old_r).push(w@));
                assert(texts(old_r) + words_from(s@, i as int) =~= texts(r@) + words_from(
                    s@,
                    b as int,
                ));
            }
            i = b;
        }
    }
    assert(words_from(s@, i as int) =~= Seq::<Seq<char>>::empty());
    assert(texts(r@) + Seq::<Seq<char>>::empty() =~= texts(r@));
    r
}

/// A word: some characters, none of them white space.
pub open spec fn is_word(w: Seq<char>) -> bool {
    w.len() > 0 && forall|i: int| 0 <= i < w.len() ==> !is_white_space(#[trigger] w[i])
}

/// Words written one after the other with a single space between them.
pub open spec fn join_words(ws: Seq<Seq<char>>) -> Seq<char>
    decreases ws.len(),
{
    if ws.len() == 0 {
        Seq::empty()
    } else if ws.len() == 1 {
        ws[0]
    } else {
        ws[0] + seq![' '] + join_words(ws.drop_first())
    }
}

/// A run of characters other than white space that ends at `e`, where white
/// space or the end follows.
proof fn lemma_word_end_at(s: Seq<char>, j: int, e: int)
    requires
        0 <= j <= e <= s.len(),
        forall|k: int| j <= k < e ==> !is_white_space(#[trigger] s[k]),
        e == s.len() || is_white_space(s[e]),
    ensures
        word_end(s, j) == e,
    decreases e - j,
{
    if j < e {
        lemma_word_end_at(s, j + 1, e);
    }
}

proof fn lemma_words_of_join(pre: Seq<char>, sp: Seq<char>, ws: Seq<Seq<char>>)
    requires
        forall|i: int| 0 <= i < sp.len() ==> is_white_space(#[trigger] sp[i]),
        forall|k: int| 0 <= k < ws.len() ==> is_word(#[trigger] ws[k]),
    ensures
        words_from(pre + sp + join_words(ws), pre.len() as int) == ws,
    decreases ws.len(),
{
    let s = pre + sp + join_words(ws);
    let i = pre.len() as int;
    if ws.len() == 0 {
        assert(s =~= pre + sp);
        if sp.len() > 0 {
            assert forall|x: int| i <= x < s.len() implies is_white_space(#[trigger] s[x]) by {
                assert(s[x] == sp[x - i]);
            }
            lemma_spaces_end_at(s, i, s.len() as int);
        }
        assert(words_from(s, i) =~= Seq::<Seq<char>>::empty());
    } else {
        let w0 = ws[0];
        let rest = ws.drop_first();
        assert(is_word(ws[0]));
        let sp2: Seq<char> = if rest.len() > 0 {
            seq![' ']
        } else {
            Seq::empty()
        };
        assert(join_words(ws) =~= w0 + sp2 + join_words(rest));
        let pre2 = pre + sp + w0;
        assert(s =~= pre2 + sp2 + join_words(rest));
        let a = i + sp.len();
        let b = a + w0.len();
        assert forall|x: int| i <= x < a implies is_white_space(#[trigger] s[x]) by {
            assert(s[x] == sp[x - i]);
        }
        assert(s[a] == w0[0]);
        lemma_spaces_end_at(s, i, a);
        assert forall|x: int| a <= x < b implies !is_white_space(#[trigger] s[x]) by {
            assert(s[x] == w0[x - a]);
        }
        if b < s.len() {
            assert(rest.len() > 0);
            assert(s[b] == ' ');
        }
        lemma_word_end_at(s, a, b);
        assert(s.subrange(a, b) =~= w0);
        assert forall|k: int| 0 <= k < rest.len() implies is_word(#[trigger] rest[k]) by {
            assert(rest[k] == ws[k + 1]);
        }
        lemma_words_of_join(pre2, sp2, rest);
        assert(words_from(s, i) == seq![w0] + words_from(s, b));
        assert(seq![w0] + rest =~= ws);
    }
}

/// Words written with single spaces between them are split back into the
/// same words, however many there are.
pub proof fn law_split_joined_words(ws: Seq<Seq<char>>)
    requires
        forall|k: int| 0 <= k < ws.len() ==> is_word(#[trigger] ws[k]),
    ensures
        split_whitespace(join_words(ws)) == ws,
{
    lemma_words_of_join(Seq::empty(), Seq::empty(), ws);
    assert(Seq::<char>::empty() + Seq::<char>::empty() + join_words(ws) =~= join_words(ws));
}

/// The words of a command line, split at white space.
pub fn command_words(line: &str) -> (r: Vec<String>)
    ensures
        texts(r@) == split_whitespace(line@),
{
    let c = chars_of(line);
    split_words(&c, 0)
}

/// `p` is a prefix of `s`.
pub open spec fn starts_with(s: Seq<char>, p: Seq<char>) -> bool {
    p.len() <= s.len() && s.subrange(0, p.len() as int) == p
}

/// Tests whether `p` is a prefix of the characters `s`.
pub fn has_prefix(s: &Vec<char>, p: &str) -> (r: bool)
    ensures
        r == starts_with(s@, p@),
{
    let pc = chars_of(p);
    if pc.len() > s.len() {
        return false;
    }
    let mut k: usize = 0;
    while k < pc.len()
        invariant
            k <= pc@.len() <= s@.len(),
            pc@ == p@,
            s@.subrange(0, k as int) == pc@.subrange(0, k as int),
        decreases pc@.len() - k,
    {
        if s[k] != pc[k] {
            assert(s@.subrange(0, pc@.len() as int)[k as int] != pc@[k as int]);
            return false;
        }
        assert(s@.subrange(0, k + 1) =~= s@.subrange(0, k as int).push(s@[k as int]));
        assert(pc@.subrange(0, k + 1) =~= pc@.subrange(0, k as int).push(pc@[k as int]));
        k = k + 1;
    }
    assert(pc@.subrange(0, k as int) =~= pc@);
    true
}

/// The length of `s[..n]` once white space is taken off its end.
pub open spec fn trimmed_len(s: Seq<char>, n: int) -> int
    decreases n,
{
    if 0 < n <= s.len() && is_white_space(s[n - 1]) {
        trimmed_len(s, n - 1)
    } else {
        n
    }
}

/// `s` without the white space at its end, as `str::trim_end` gives it.
pub open spec fn trim_end(s: Seq<char>) -> Seq<char> {
    s.subrange(0, trimmed_len(s, s.len() as int))
}

proof fn lemma_trimmed_len_prefix(s: Seq<char>, t: Seq<char>, k: int)
    requires
        0 <= k <= s.len() <= t.len(),
        t.subrange(0, s.len() as int) == s,
    ensures
        trimmed_len(t, k) == trimmed_len(s, k),
    decreases k,
{
    if k > 0 {
        assert(t[k - 1] == t.subrange(0, s.len() as int)[k - 1]);
        lemma_trimmed_len_prefix(s, t, k - 1);
    }
}

proof fn lemma_trimmed_len_spaces(t: Seq<char>, a: int, k: int)
    requires
        0 <= a <= k <= t.len(),
        forall|i: int| a <= i < t.len() ==> is_white_space(#[trigger] t[i]),
    ensures
        trimmed_len(t, k) == trimmed_len(t, a),
    decreases k,
{
    if k > a {
        lemma_trimmed_len_spaces(t, a, k - 1);
    }
}

/// White space added at the end of a text leaves it unchanged once its end
/// is trimmed: a line read with its line break gives the same move as without.
pub proof fn law_trim_end_ignores_trailing_space(s: Seq<char>, w: Seq<char>)
    requires
        forall|i: int| 0 <= i < w.len() ==> is_white_space(#[trigger] w[i]),
    ensures
        trim_end(s + w) == trim_end(s),
{
    let t = s + w;
    assert(t.subrange(0, s.len() as int) =~= s);
    assert forall|i: int| s.len() <= i < t.len() implies is_white_space(#[trigger] t[i]) by {
        assert(t[i] == w[i - s.len()]);
    }
    lemma_trimmed_len_spaces(t, s.len() as int, t.len() as int);
    lemma_trimmed_len_prefix(s, t, s.len() as int);
    let n = trimmed_len(s, s.len() as int);
    lemma_trimmed_len_bounds(s, s.len() as int);
    assert(t.subrange(0, n) =~= s.subrange(0, n));
}

proof fn lemma_trimmed_len_bounds(s: Seq<char>, k: int)
    requires
        0 <= k <= s.len(),
    ensures
        0 <= trimmed_len(s, k) <= k,
    decreases k,
{
    if k > 0 {
        lemma_trimmed_len_bounds(s, k - 1);
    }
}

proof fn lemma_trimmed_len_tail(s: Seq<char>, k: int)
    requires
        0 <= k <= s.len(),
    ensures
        forall|i: int| trimmed_len(s, k) <= i < k ==> is_white_space(#[trigger] s[i]),
        trimmed_len(s, k) > 0 ==> !is_white_space(s[trimmed_len(s, k) - 1]),
    decreases k,
{
    lemma_trimmed_len_bounds(s, k);
    if k > 0 && is_white_space(s[k - 1]) {
        lemma_trimmed_len_tail(s, k - 1);
    }
}

/// Trimming the end takes off white space and nothing else, and all of it:
/// the text is the trimmed text followed by white space only, the trimmed
/// text does not end in white space, and a text that does not end in white
/// space is left as it is.
pub proof fn law_trim_end_removes_only_white_space(s: Seq<char>)
    ensures
        trim_end(s).len() <= s.len(),
        s == trim_end(s) + s.subrange(trim_end(s).len() as int, s.len() as int),
        forall|i: int|
            trim_end(s).len() <= i < s.len() ==> is_white_space(#[trigger] s[i]),
        trim_end(s).len() > 0 ==> !is_white_space(trim_end(s).last()),
        s.len() == 0 || !is_white_space(s.last()) ==> trim_end(s) == s,
{
    let n = trimmed_len(s, s.len() as int);
    lemma_trimmed_len_bounds(s, s.len() as int);
    lemma_trimmed_len_tail(s, s.len() as int);
    let t = s.subrange(0, n);
    assert(t.len() == n);
    assert(s =~= t + s.subrange(n, s.len() as int));
    if n > 0 {
        assert(t.last() == s[n - 1]);
    }
    if s.len() == 0 || !is_white_space(s.last()) {
        assert(t =~= s);
    }
}

/// The characters of `s` without the white space at its end.
pub fn trim_end_string(s: &str) -> (r: String)
    ensures
        r@ == trim_end(s@),
{
    let c = chars_of(s);
    let mut n = c.len();
    while n > 0 && is_whitespace_char(c[n - 1])
        invariant
            n <= c@.len(),
            c@ == s@,
            trimmed_len(s@, s@.len() as int) == trimmed_len(s@, n as int),
        decreases n,
    {
        n = n - 1;
    }
    string_of(&c, 0, n)
}

} // verus!
