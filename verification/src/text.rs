//! Character-level text helpers shared by the parsers and the resolver.
//!
//! All parsing in this crate works on `Vec<char>` so that every step can be
//! specified over `Seq<char>`, the view Verus gives to strings.

use vstd::prelude::*;

verus! {

/// Relies on str::chars: yields the characters of the string in order. A
/// string occupies at most `isize::MAX` bytes and each character at least
/// one, which bounds the count.
#[verifier::external_body]
pub fn str_chars(s: &str) -> (r: Vec<char>)
    ensures
        r@ == s@,
        r@.len() <= usize::MAX / 2,
{
    s.chars().collect()
}

/// Relies on String implementing FromIterator<char>: collects the characters
/// into a string holding exactly them, in order.
#[verifier::external_body]
pub fn chars_string(v: &Vec<char>) -> (r: String)
    ensures
        r@ == v@,
{
    v.iter().collect()
}

/// The ASCII whitespace characters this crate's trimming recognises.
pub open spec fn is_space_char(c: char) -> bool {
    c == ' ' || c == '\t' || c == '\n' || c == '\r' || c == '\u{000B}' || c == '\u{000C}'
}

/// Index of the first non-space character at or after `i`, or `s.len()`.
pub open spec fn first_non_space(s: Seq<char>, i: int) -> int
    decreases s.len() - i,
{
    if i < 0 || i >= s.len() {
        s.len() as int
    } else if !is_space_char(s[i]) {
        i
    } else {
        first_non_space(s, i + 1)
    }
}

/// One past the last non-space character at an index below `j`, or 0.
pub open spec fn last_non_space_end(s: Seq<char>, j: int) -> int
    decreases j,
{
    if j <= 0 || j > s.len() {
        0
    } else if !is_space_char(s[j - 1]) {
        j
    } else {
        last_non_space_end(s, j - 1)
    }
}

/// The string with leading and trailing whitespace removed.
pub open spec fn trim_spec(s: Seq<char>) -> Seq<char> {
    let a = first_non_space(s, 0);
    let b = last_non_space_end(s, s.len() as int);
    if a <= b {
        s.subrange(a, b)
    } else {
        Seq::empty()
    }
}

proof fn lemma_first_non_space_bounds(s: Seq<char>, i: int)
    requires
        0 <= i <= s.len(),
    ensures
        i <= first_non_space(s, i) <= s.len(),
        forall|k: int| i <= k < first_non_space(s, i) ==> is_space_char(s[k]),
        first_non_space(s, i) < s.len() ==> !is_space_char(s[first_non_space(s, i)]),
    decreases s.len() - i,
{
    if i < s.len() && is_space_char(s[i]) {
        lemma_first_non_space_bounds(s, i + 1);
    }
}

proof fn lemma_last_non_space_bounds(s: Seq<char>, j: int)
    requires
        0 <= j <= s.len(),
    ensures
        0 <= last_non_space_end(s, j) <= j,
        forall|k: int| last_non_space_end(s, j) <= k < j ==> is_space_char(s[k]),
        last_non_space_end(s, j) > 0 ==> !is_space_char(s[last_non_space_end(s, j) - 1]),
    decreases j,
{
    if j > 0 && is_space_char(s[j - 1]) {
        lemma_last_non_space_bounds(s, j - 1);
    }
}

/// Copy of `v[from..to]`.
pub fn copy_range(v: &Vec<char>, from: usize, to: usize) -> (r: Vec<char>)
    requires
        from <= to <= v@.len(),
    ensures
        r@ == v@.subrange(from as int, to as int),
{
    let mut r: Vec<char> = Vec::new();
    let mut i: usize = from;
    while i < to
        invariant
            from <= i <= to <= v@.len(),
            r@ == v@.subrange(from as int, i as int),
        decreases to - i,
    {
        r.push(v[i]);
        i = i + 1;
        proof {
            assert(v@.subrange(from as int, i as int) == v@.subrange(from as int, i - 1).push(
                v@[i - 1],
            ));
        }
    }
    r
}

/// Trim whitespace from both ends.
pub fn trim_chars(v: &Vec<char>) -> (r: Vec<char>)
    ensures
        r@ == trim_spec(v@),
        r@.len() <= v@.len(),
{
    let n = v.len();
    let mut a: usize = 0;
    while a < n && is_space(v[a])
        invariant
            0 <= a <= n == v@.len(),
            first_non_space(v@, 0) == first_non_space(v@, a as int),
            forall|k: int| 0 <= k < a ==> is_space_char(v@[k]),
        decreases n - a,
    {
        a = a + 1;
    }
    let mut b: usize = n;
    while b > a && is_space(v[b - 1])
        invariant
            a <= b <= n == v@.len(),
            a as int == first_non_space(v@, 0),
            forall|k: int| 0 <= k < a ==> is_space_char(v@[k]),
            forall|k: int| b <= k < n ==> is_space_char(v@[k]),
            last_non_space_end(v@, n as int) == last_non_space_end(v@, b as int),
        decreases b,
    {
        b = b - 1;
    }
    proof {
        lemma_first_non_space_bounds(v@, 0);
        lemma_last_non_space_bounds(v@, v@.len() as int);
        if b > a {
            assert(last_non_space_end(v@, b as int) == b);
            assert(v@.subrange(a as int, b as int) == trim_spec(v@));
        } else {
            // The loop stopped at b == a, so every character is whitespace.
            if a < n {
                assert(is_space_char(v@[a as int]));
                assert(!is_space_char(v@[first_non_space(v@, 0)]));
                assert(false);
            }
            assert(last_non_space_end(v@, n as int) == 0) by {
                if last_non_space_end(v@, n as int) > 0 {
                    assert(!is_space_char(v@[last_non_space_end(v@, n as int) - 1]));
                }
            }
            assert(v@.subrange(a as int, b as int) =~= trim_spec(v@));
        }
    }
    copy_range(v, a, b)
}

/// Executable twin of `is_space_char`.
pub fn is_space(c: char) -> (r: bool)
    ensures
        r == is_space_char(c),
{
    c == ' ' || c == '\t' || c == '\n' || c == '\r' || c == '\u{000B}' || c == '\u{000C}'
}

/// True when `v` equals the literal `s`.
pub fn eq_str(v: &Vec<char>, s: &str) -> (r: bool)
    ensures
        r == (v@ == s@),
{
    let sv = str_chars(s);
    if v.len() != sv.len() {
        proof {
            assert(v@.len() != sv@.len());
        }
        return false;
    }
    let n = v.len();
    let mut i: usize = 0;
    while i < n
        invariant
            0 <= i <= n,
            n == v@.len() == sv@.len(),
            sv@ == s@,
            forall|k: int| 0 <= k < i ==> v@[k] == sv@[k],
        decreases n - i,
    {
        if v[i] != sv[i] {
            proof {
                assert(v@ != sv@);
            }
            return false;
        }
        i = i + 1;
    }
    proof {
        assert(v@ =~= sv@);
    }
    true
}

/// True when `p` is a prefix of `v` starting at index `from`.
pub fn starts_with_at(v: &Vec<char>, p: &str, from: usize) -> (r: bool)
    requires
        from <= v@.len(),
    ensures
        r == p@.is_prefix_of(v@.skip(from as int)),
{
    let pv = str_chars(p);
    if v.len() - from < pv.len() {
        proof {
            assert(v@.skip(from as int).len() < p@.len());
        }
        return false;
    }
    let n = pv.len();
    let mut i: usize = 0;
    while i < n
        invariant
            0 <= i <= n == pv@.len(),
            pv@ == p@,
            from + n <= v@.len() <= usize::MAX,
            forall|k: int| 0 <= k < i ==> v@[from + k] == pv@[k],
        decreases n - i,
    {
        if v[from + i] != pv[i] {
            proof {
                assert(v@.skip(from as int)[i as int] == v@[from + i]);
                assert(!p@.is_prefix_of(v@.skip(from as int)));
            }
            return false;
        }
        i = i + 1;
    }
    proof {
        assert forall|k: int| 0 <= k < p@.len() implies v@.skip(from as int)[k] == p@[k] by {
            assert(v@.skip(from as int)[k] == v@[from + k]);
        }
        assert(p@.is_prefix_of(v@.skip(from as int)));
    }
    true
}

/// True when `p` is a prefix of `v`.
pub fn starts_with(v: &Vec<char>, p: &str) -> (r: bool)
    ensures
        r == p@.is_prefix_of(v@),
{
    let r = starts_with_at(v, p, 0);
    proof {
        assert(v@.skip(0) == v@);
    }
    r
}

/// The view of each element of a vector of character vectors.
pub open spec fn deep_chars(s: Seq<Vec<char>>) -> Seq<Seq<char>> {
    s.map_values(|l: Vec<char>| l@)
}

/// Least index `j >= i` with `s[j] == c`, if any.
pub open spec fn find_char_from(s: Seq<char>, c: char, i: int) -> Option<int>
    decreases s.len() - i,
{
    if i < 0 || i >= s.len() {
        None
    } else if s[i] == c {
        Some(i)
    } else {
        find_char_from(s, c, i + 1)
    }
}

pub proof fn lemma_find_char_from(s: Seq<char>, c: char, i: int)
    requires
        0 <= i <= s.len(),
    ensures
        match find_char_from(s, c, i) {
            Some(j) => i <= j < s.len() && s[j] == c && forall|k: int| i <= k < j ==> s[k] != c,
            None => forall|k: int| i <= k < s.len() ==> s[k] != c,
        },
    decreases s.len() - i,
{
    if i < s.len() && s[i] != c {
        lemma_find_char_from(s, c, i + 1);
    }
}

/// The line with one trailing carriage return removed.
pub open spec fn strip_cr(l: Seq<char>) -> Seq<char> {
    if l.len() > 0 && l[l.len() - 1] == '\r' {
        l.drop_last()
    } else {
        l
    }
}

/// The lines of `s` from index `i` on: pieces separated by a newline, each
/// with one trailing carriage return removed; nothing after a final newline.
pub open spec fn split_lines_from(s: Seq<char>, i: int) -> Seq<Seq<char>>
    decreases s.len() - i,
{
    if i < 0 || i >= s.len() {
        Seq::empty()
    } else {
        match find_char_from(s, '\n', i) {
            Some(j) => {
                if i <= j < s.len() {
                    seq![strip_cr(s.subrange(i, j))] + split_lines_from(s, j + 1)
                } else {
                    Seq::empty()
                }
            },
            None => seq![strip_cr(s.subrange(i, s.len() as int))],
        }
    }
}

/// The lines of `s`, as `str::lines` cuts them.
pub open spec fn split_lines(s: Seq<char>) -> Seq<Seq<char>> {
    split_lines_from(s, 0)
}

/// Least index `j >= from` with `v[j] == c`, if any.
pub fn find_char_at(v: &Vec<char>, c: char, from: usize) -> (r: Option<usize>)
    requires
        from <= v@.len(),
    ensures
        match r {
            Some(j) => find_char_from(v@, c, from as int) == Some(j as int) && from <= j < v@.len(),
            None => find_char_from(v@, c, from as int) is None,
        },
{
    let n = v.len();
    let mut i: usize = from;
    while i < n
        invariant
            from <= i <= n == v@.len(),
            find_char_from(v@, c, from as int) == find_char_from(v@, c, i as int),
        decreases n - i,
    {
        if v[i] == c {
            return Some(i);
        }
        i = i + 1;
    }
    None
}

/// Remove one trailing carriage return.
pub fn strip_cr_chars(v: Vec<char>) -> (r: Vec<char>)
    ensures
        r@ == strip_cr(v@),
{
    let mut v = v;
    if v.len() > 0 && v[v.len() - 1] == '\r' {
        let g = Ghost(v@);
        v.pop();
        proof {
            assert(v@ == g@.drop_last());
        }
    }
    v
}

/// Split into lines exactly as `split_lines` describes.
pub fn split_lines_chars(v: &Vec<char>) -> (r: Vec<Vec<char>>)
    ensures
        deep_chars(r@) == split_lines(v@),
{
    let n = v.len();
    let mut out: Vec<Vec<char>> = Vec::new();
    let mut i: usize = 0;
    while i < n
        invariant
            0 <= i <= n == v@.len(),
            deep_chars(out@) + split_lines_from(v@, i as int) == split_lines(v@),
        decreases n - i,
    {
        let ghost old_i = i as int;
        let ghost old_out = out@;
        match find_char_at(v, '\n', i) {
            Some(j) => {
                let line = strip_cr_chars(copy_range(v, i, j));
                out.push(line);
                i = j + 1;
                proof {
                    assert(deep_chars(out@) =~= deep_chars(old_out).push(strip_cr(v@.subrange(
                        old_i,
                        j as int,
                    ))));
                    assert(deep_chars(old_out).push(strip_cr(v@.subrange(old_i, j as int)))
                        + split_lines_from(v@, i as int) =~= deep_chars(old_out) + (seq![
                        strip_cr(v@.subrange(old_i, j as int)),
                    ] + split_lines_from(v@, i as int)));
                }
            },
            None => {
                let line = strip_cr_chars(copy_range(v, i, n));
                out.push(line);
                i = n;
                proof {
                    assert(deep_chars(out@) =~= deep_chars(old_out).push(strip_cr(v@.subrange(
                        old_i,
                        n as int,
                    ))));
                    assert(deep_chars(old_out).push(strip_cr(v@.subrange(old_i, n as int)))
                        =~= deep_chars(old_out) + seq![strip_cr(v@.subrange(old_i, n as int))]);
                    assert(split_lines_from(v@, n as int) =~= Seq::<Seq<char>>::empty());
                }
            },
        }
    }
    proof {
        assert(deep_chars(out@) + split_lines_from(v@, i as int) =~= deep_chars(out@));
    }
    out
}

/// A split into lines yields at most one line per character.
pub proof fn lemma_split_lines_count(s: Seq<char>, i: int)
    requires
        0 <= i <= s.len(),
    ensures
        split_lines_from(s, i).len() <= s.len() - i,
    decreases s.len() - i,
{
    if i < s.len() {
        lemma_find_char_from(s, '\n', i);
        match find_char_from(s, '\n', i) {
            Some(j) => {
                lemma_split_lines_count(s, j + 1);
            },
            None => {},
        }
    }
}

/// Least index `j >= i` holding a whitespace character, or `s.len()`.
pub open spec fn first_space(s: Seq<char>, i: int) -> int
    decreases s.len() - i,
{
    if i < 0 || i >= s.len() {
        s.len() as int
    } else if is_space_char(s[i]) {
        i
    } else {
        first_space(s, i + 1)
    }
}

pub proof fn lemma_first_space_bounds(s: Seq<char>, i: int)
    requires
        0 <= i <= s.len(),
    ensures
        i <= first_space(s, i) <= s.len(),
        forall|k: int| i <= k < first_space(s, i) ==> !is_space_char(s[k]),
        first_space(s, i) < s.len() ==> is_space_char(s[first_space(s, i)]),
    decreases s.len() - i,
{
    if i < s.len() && !is_space_char(s[i]) {
        lemma_first_space_bounds(s, i + 1);
    }
}

pub proof fn lemma_first_non_space(s: Seq<char>, i: int)
    requires
        0 <= i <= s.len(),
    ensures
        i <= first_non_space(s, i) <= s.len(),
        forall|k: int| i <= k < first_non_space(s, i) ==> is_space_char(s[k]),
        first_non_space(s, i) < s.len() ==> !is_space_char(s[first_non_space(s, i)]),
    decreases s.len() - i,
{
    if i < s.len() && is_space_char(s[i]) {
        lemma_first_non_space(s, i + 1);
    }
}

/// The whitespace-separated tokens of `s` from index `i` on.
pub open spec fn split_ws_from(s: Seq<char>, i: int) -> Seq<Seq<char>>
    decreases s.len() - i when 0 <= i <= s.len()
{
    let a = first_non_space(s, i);
    if a >= s.len() {
        Seq::empty()
    } else {
        let b = first_space(s, a);
        if i <= a < b <= s.len() {
            seq![s.subrange(a, b)] + split_ws_from(s, b)
        } else {
            Seq::empty()
        }
    }
}

/// The whitespace-separated tokens of `s`.
pub open spec fn split_ws(s: Seq<char>) -> Seq<Seq<char>> {
    split_ws_from(s, 0)
}

/// Split into whitespace-separated tokens exactly as `split_ws` describes.
pub fn split_ws_chars(v: &Vec<char>) -> (r: Vec<Vec<char>>)
    ensures
        deep_chars(r@) == split_ws(v@),
{
    let n = v.len();
    let mut out: Vec<Vec<char>> = Vec::new();
    let mut i: usize = 0;
    while i < n
        invariant
            0 <= i <= n == v@.len(),
            deep_chars(out@) + split_ws_from(v@, i as int) == split_ws(v@),
        decreases n - i,
    {
        if is_space(v[i]) {
            proof {
                assert(first_non_space(v@, i as int) == first_non_space(v@, i + 1));
            }
            i = i + 1;
        } else {
            let ghost old_i = i as int;
            let ghost old_out = out@;
            let mut j: usize = i;
            while j < n && !is_space(v[j])
                invariant
                    old_i <= j <= n == v@.len(),
                    first_space(v@, old_i) == first_space(v@, j as int),
                decreases n - j,
            {
                j = j + 1;
            }
            proof {
                lemma_first_space_bounds(v@, j as int);
                assert(first_space(v@, old_i) == j);
                assert(first_non_space(v@, old_i) == old_i);
            }
            let tok = copy_range(v, i, j);
            out.push(tok);
            i = j;
            proof {
                assert(deep_chars(out@) =~= deep_chars(old_out).push(v@.subrange(old_i, i as int)));
                assert(deep_chars(old_out).push(v@.subrange(old_i, i as int)) + split_ws_from(
                    v@,
                    i as int,
                ) =~= deep_chars(old_out) + (seq![v@.subrange(old_i, i as int)] + split_ws_from(
                    v@,
                    i as int,
                )));
            }
        }
    }
    proof {
        lemma_first_non_space(v@, i as int);
        assert(split_ws_from(v@, i as int) =~= Seq::<Seq<char>>::empty());
        assert(deep_chars(out@) + split_ws_from(v@, i as int) =~= deep_chars(out@));
    }
    out
}

/// Decimal digits.
pub open spec fn is_digit(c: char) -> bool {
    '0' <= c && c <= '9'
}

pub open spec fn digit_val(c: char) -> int {
    c as u32 - '0' as u32
}

pub open spec fn all_digits(s: Seq<char>) -> bool {
    forall|k: int| 0 <= k < s.len() ==> is_digit(#[trigger] s[k])
}

/// The numeric value of a digit string, most significant digit first.
pub open spec fn digits_val(s: Seq<char>) -> int
    decreases s.len(),
{
    if s.len() == 0 {
        0
    } else {
        digits_val(s.drop_last()) * 10 + digit_val(s[s.len() - 1])
    }
}

pub proof fn lemma_digits_val_nonneg(s: Seq<char>)
    requires
        all_digits(s),
    ensures
        digits_val(s) >= 0,
    decreases s.len(),
{
    if s.len() > 0 {
        assert(all_digits(s.drop_last())) by {
            assert(forall|k: int|
                0 <= k < s.len() - 1 ==> is_digit(#[trigger] s.drop_last()[k]) == is_digit(s[k]));
        }
        lemma_digits_val_nonneg(s.drop_last());
        assert(digit_val(s[s.len() - 1]) >= 0);
    }
}

/// Parse a non-empty all-digit string into a `u64`; `None` when the text is
/// not such a string or its value does not fit.
pub fn parse_u64(v: &Vec<char>) -> (r: Option<u64>)
    ensures
        match r {
            Some(x) => v@.len() > 0 && all_digits(v@) && x == digits_val(v@),
            None => v@.len() == 0 || !all_digits(v@) || digits_val(v@) > u64::MAX,
        },
{
    let n = v.len();
    if n == 0 {
        return None;
    }
    let mut acc: u64 = 0;
    let mut i: usize = 0;
    while i < n
        invariant
            0 <= i <= n == v@.len(),
            all_digits(v@.subrange(0, i as int)),
            acc == digits_val(v@.subrange(0, i as int)),
        decreases n - i,
    {
        let c = v[i];
        if !('0' <= c && c <= '9') {
            return None;
        }
        let d: u64 = (c as u32 - 48) as u64;
        proof {
            assert(d == digit_val(v@[i as int]));
            assert(d <= 9);
        }
        if acc > (u64::MAX - d) / 10 {
            proof {
                let pre = v@.subrange(0, i + 1);
                assert(pre.drop_last() =~= v@.subrange(0, i as int));
                assert(digits_val(pre) == acc * 10 + d);
                assert(digits_val(pre) > u64::MAX);
                lemma_digits_prefix_exceeds(v@, i + 1);
            }
            return None;
        }
        let ghost old_acc = acc;
        acc = acc * 10 + d;
        i = i + 1;
        proof {
            let pre = v@.subrange(0, i as int);
            assert(pre.drop_last() =~= v@.subrange(0, i - 1));
            assert(pre[pre.len() - 1] == v@[i - 1]);
            assert(acc == digits_val(pre));
            assert(all_digits(pre)) by {
                assert(forall|k: int|
                    0 <= k < i - 1 ==> #[trigger] pre[k] == v@.subrange(0, i - 1)[k]);
            }
        }
    }
    proof {
        assert(v@.subrange(0, n as int) =~= v@);
    }
    Some(acc)
}

/// Once a digit prefix exceeds `u64::MAX`, the whole digit string does too.
proof fn lemma_digits_prefix_exceeds(s: Seq<char>, i: int)
    requires
        0 <= i <= s.len(),
        digits_val(s.subrange(0, i)) > u64::MAX,
        all_digits(s.subrange(0, i)),
    ensures
        !all_digits(s) || digits_val(s) > u64::MAX,
    decreases s.len() - i,
{
    if i == s.len() {
        assert(s.subrange(0, i) =~= s);
    } else {
        if all_digits(s) {
            let pre = s.subrange(0, i + 1);
            assert(pre.drop_last() =~= s.subrange(0, i));
            assert(is_digit(s[i]));
            assert(digit_val(s[i]) >= 0);
            assert(digits_val(pre) == digits_val(s.subrange(0, i)) * 10 + digit_val(s[i]));
            assert(digits_val(pre) > u64::MAX);
            assert(all_digits(pre)) by {
                assert(forall|k: int| 0 <= k < i + 1 ==> #[trigger] pre[k] == s[k]);
            }
            lemma_digits_prefix_exceeds(s, i + 1);
        }
    }
}

/// The decimal rendering of a non-negative integer, no leading zeros.
pub open spec fn dec_of(x: int) -> Seq<char>
    decreases x,
{
    if x < 0 {
        Seq::empty()
    } else if x < 10 {
        seq![((48 + x) as u8) as char]
    } else {
        dec_of(x / 10) + seq![((48 + (x % 10)) as u8) as char]
    }
}

/// Append the decimal rendering of `x`.
pub fn push_dec_u64(x: u64, out: &mut Vec<char>)
    ensures
        final(out)@ == old(out)@ + dec_of(x as int),
    decreases x,
{
    if x < 10 {
        let c: char = ((48 + (x as u8)) as u8) as char;
        out.push(c);
        proof {
            assert(out@ =~= old(out)@ + dec_of(x as int));
        }
    } else {
        push_dec_u64(x / 10, out);
        let d: u8 = (x % 10) as u8;
        let c: char = (48 + d) as char;
        out.push(c);
        proof {
            assert(out@ =~= old(out)@ + dec_of(x as int));
        }
    }
}

/// The decimal rendering of a `u64`.
pub fn u64_dec(x: u64) -> (r: Vec<char>)
    ensures
        r@ == dec_of(x as int),
{
    let mut out: Vec<char> = Vec::new();
    push_dec_u64(x, &mut out);
    proof {
        assert(out@ =~= dec_of(x as int));
    }
    out
}

/// ASCII upper-casing of one character.
pub open spec fn upper_char(c: char) -> char {
    if 'a' <= c && c <= 'z' {
        ((c as u8) - 32) as char
    } else {
        c
    }
}

/// ASCII lower-casing of one character.
pub open spec fn lower_char(c: char) -> char {
    if 'A' <= c && c <= 'Z' {
        ((c as u8) + 32) as char
    } else {
        c
    }
}

pub open spec fn upper_seq(s: Seq<char>) -> Seq<char> {
    s.map_values(|c: char| upper_char(c))
}

pub open spec fn lower_seq(s: Seq<char>) -> Seq<char> {
    s.map_values(|c: char| lower_char(c))
}

/// ASCII upper-case copy.
pub fn to_upper_chars(v: &Vec<char>) -> (r: Vec<char>)
    ensures
        r@ == upper_seq(v@),
{
    let n = v.len();
    let mut out: Vec<char> = Vec::new();
    let mut i: usize = 0;
    while i < n
        invariant
            0 <= i <= n == v@.len(),
            out@ =~= upper_seq(v@.subrange(0, i as int)),
        decreases n - i,
    {
        let c = v[i];
        let u: char = if 'a' <= c && c <= 'z' {
            ((c as u8) - 32) as char
        } else {
            c
        };
        out.push(u);
        i = i + 1;
        proof {
            assert(out@ =~= upper_seq(v@.subrange(0, i as int)));
        }
    }
    proof {
        assert(v@.subrange(0, n as int) =~= v@);
    }
    out
}

/// ASCII lower-case copy.
pub fn to_lower_chars(v: &Vec<char>) -> (r: Vec<char>)
    ensures
        r@ == lower_seq(v@),
{
    let n = v.len();
    let mut out: Vec<char> = Vec::new();
    let mut i: usize = 0;
    while i < n
        invariant
            0 <= i <= n == v@.len(),
            out@ =~= lower_seq(v@.subrange(0, i as int)),
        decreases n - i,
    {
        let c = v[i];
        let u: char = if 'A' <= c && c <= 'Z' {
            ((c as u8) + 32) as char
        } else {
            c
        };
        out.push(u);
        i = i + 1;
        proof {
            assert(out@ =~= lower_seq(v@.subrange(0, i as int)));
        }
    }
    proof {
        assert(v@.subrange(0, n as int) =~= v@);
    }
    out
}

/// Case-insensitive ASCII equality of two character strings.
pub open spec fn eq_ignore_case_spec(a: Seq<char>, b: Seq<char>) -> bool {
    lower_seq(a) == lower_seq(b)
}

pub fn eq_ignore_case(a: &Vec<char>, b: &Vec<char>) -> (r: bool)
    ensures
        r == eq_ignore_case_spec(a@, b@),
{
    let la = to_lower_chars(a);
    let lb = to_lower_chars(b);
    if la.len() != lb.len() {
        proof {
            assert(lower_seq(a@).len() != lower_seq(b@).len());
        }
        return false;
    }
    let n = la.len();
    let mut i: usize = 0;
    while i < n
        invariant
            0 <= i <= n == la@.len() == lb@.len(),
            la@ == lower_seq(a@),
            lb@ == lower_seq(b@),
            forall|k: int| 0 <= k < i ==> la@[k] == lb@[k],
        decreases n - i,
    {
        if la[i] != lb[i] {
            return false;
        }
        i = i + 1;
    }
    proof {
        assert(la@ =~= lb@);
    }
    true
}

/// `p` occurs as a contiguous substring of `s` starting at `j`.
pub open spec fn occurs_at(s: Seq<char>, p: Seq<char>, j: int) -> bool {
    0 <= j && j + p.len() <= s.len() && s.subrange(j, j + p.len()) == p
}

/// Least index `j >= i` where `p` occurs in `s`, if any.
pub open spec fn find_sub_from(s: Seq<char>, p: Seq<char>, i: int) -> Option<int>
    decreases s.len() - i,
{
    if i < 0 || i + p.len() > s.len() {
        None
    } else if occurs_at(s, p, i) {
        Some(i)
    } else if i < s.len() {
        find_sub_from(s, p, i + 1)
    } else {
        None
    }
}

/// Least index at which `p` occurs in `v`, if any.
pub fn find_sub(v: &Vec<char>, p: &Vec<char>) -> (r: Option<usize>)
    ensures
        match r {
            Some(j) => find_sub_from(v@, p@, 0) == Some(j as int) && j + p@.len() <= v@.len(),
            None => find_sub_from(v@, p@, 0) is None,
        },
{
    let n = v.len();
    let m = p.len();
    if m > n {
        return None;
    }
    let mut i: usize = 0;
    while i <= n - m
        invariant
            0 <= i <= n - m + 1,
            m <= n == v@.len(),
            m == p@.len(),
            find_sub_from(v@, p@, 0) == find_sub_from(v@, p@, i as int),
        decreases n - m + 1 - i,
    {
        let mut k: usize = 0;
        let mut matched = true;
        while k < m
            invariant
                0 <= k <= m,
                i + m <= n == v@.len(),
                m == p@.len(),
                matched == (forall|t: int| 0 <= t < k ==> v@[i + t] == p@[t]),
            decreases m - k,
        {
            if v[i + k] != p[k] {
                matched = false;
                k = m;
            } else {
                k = k + 1;
            }
        }
        if matched {
            proof {
                assert(v@.subrange(i as int, i + m) =~= p@);
                assert(occurs_at(v@, p@, i as int));
            }
            return Some(i);
        }
        proof {
            if occurs_at(v@, p@, i as int) {
                assert(forall|t: int|
                    0 <= t < m ==> #[trigger] v@.subrange(i as int, i + m)[t] == v@[i + t]);
                assert(false);
            }
        }
        i = i + 1;
    }
    proof {
        assert(find_sub_from(v@, p@, i as int) is None);
    }
    None
}

} // verus!

