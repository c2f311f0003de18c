//! Character-level utilities: decimal rendering, zero-padding, whitespace
//! trimming, path-separator sanitizing, and lexicographic comparison.

use vstd::prelude::*;
use vstd::string::*;

verus! {

/// The characters treated as trimmable whitespace: the ASCII whitespace set.
pub open spec fn is_space_char(c: char) -> bool {
    c == ' ' || c == '\t' || c == '\n' || c == '\r' || c == '\u{000B}' || c == '\u{000C}'
}

/// The decimal digit character for `d` (0 through 9).
pub open spec fn digit_char(d: int) -> char {
    if d == 0 {
        '0'
    } else if d == 1 {
        '1'
    } else if d == 2 {
        '2'
    } else if d == 3 {
        '3'
    } else if d == 4 {
        '4'
    } else if d == 5 {
        '5'
    } else if d == 6 {
        '6'
    } else if d == 7 {
        '7'
    } else if d == 8 {
        '8'
    } else {
        '9'
    }
}

/// The decimal rendering of `n`, most significant digit first, no sign,
/// no leading zeros (except for the single digit of zero itself).
pub open spec fn dec_chars(n: nat) -> Seq<char>
    decreases n,
{
    if n < 10 {
        seq![digit_char(n as int)]
    } else {
        dec_chars(n / 10) + seq![digit_char((n % 10) as int)]
    }
}

/// The decimal rendering of `n` left-padded with `c` to at least `width`
/// characters; a number whose natural rendering is already `width` or more
/// characters long is rendered in full, never truncated.
pub open spec fn pad_chars(n: nat, c: char, width: nat) -> Seq<char> {
    let d = dec_chars(n);
    if d.len() >= width {
        d
    } else {
        Seq::new((width - d.len()) as nat, |i: int| c) + d
    }
}

/// Relies on `String::from_iter` for `char`: collecting characters yields
/// the string made of exactly those characters, in order.
#[verifier::external_body]
pub(crate) fn chars_to_string(v: &Vec<char>) -> (r: String)
    ensures
        r@ == v@,
{
    v.iter().collect()
}

/// The characters of `s`, in order, as a vector.
pub(crate) fn to_chars(s: &str) -> (r: Vec<char>)
    ensures
        r@ == s@,
{
    let n = s.unicode_len();
    let mut out: Vec<char> = Vec::new();
    let mut i: usize = 0;
    while i < n
        invariant
            n == s@.len(),
            0 <= i <= n,
            out@ == s@.subrange(0, i as int),
        decreases n - i,
    {
        let c = s.get_char(i);
        out.push(c);
        i = i + 1;
        proof {
            assert(out@ =~= s@.subrange(0, i as int));
        }
    }
    proof {
        assert(out@ =~= s@);
    }
    out
}

fn digit_of(d: usize) -> (c: char)
    requires
        d < 10,
    ensures
        c == digit_char(d as int),
{
    match d {
        0 => '0',
        1 => '1',
        2 => '2',
        3 => '3',
        4 => '4',
        5 => '5',
        6 => '6',
        7 => '7',
        8 => '8',
        _ => '9',
    }
}

/// Appends the decimal rendering of `n` to `out`.
pub(crate) fn push_dec_chars(out: &mut Vec<char>, n: usize)
    ensures
        final(out)@ == old(out)@ + dec_chars(n as nat),
    decreases n,
{
    if n < 10 {
        out.push(digit_of(n));
        proof {
            assert(out@ =~= old(out)@ + dec_chars(n as nat));
        }
    } else {
        push_dec_chars(out, n / 10);
        out.push(digit_of(n % 10));
        proof {
            assert(out@ =~= old(out)@ + dec_chars(n as nat));
        }
    }
}

/// Renders `number` in decimal, left-padded with `pad_char` to at least
/// `width` characters; wider numbers are rendered in full (no truncation).
pub fn pad(number: usize, pad_char: char, width: usize) -> (r: String)
    ensures
        r@ == pad_chars(number as nat, pad_char, width as nat),
{
    let v = pad_chars_exec(number, pad_char, width);
    chars_to_string(&v)
}

/// The character vector form of `pad`.
pub(crate) fn pad_chars_exec(number: usize, pad_char: char, width: usize) -> (r: Vec<char>)
    ensures
        r@ == pad_chars(number as nat, pad_char, width as nat),
{
    let mut digits: Vec<char> = Vec::new();
    push_dec_chars(&mut digits, number);
    if digits.len() >= width {
        digits
    } else {
        let pad_count = width - digits.len();
        let mut out: Vec<char> = Vec::new();
        let mut i: usize = 0;
        while i < pad_count
            invariant
                0 <= i <= pad_count,
                out@ == Seq::new(i as nat, |k: int| pad_char),
            decreases pad_count - i,
        {
            out.push(pad_char);
            i = i + 1;
            proof {
                assert(out@ =~= Seq::new(i as nat, |k: int| pad_char));
            }
        }
        out.append(&mut digits);
        proof {
            assert(out@ =~= pad_chars(number as nat, pad_char, width as nat));
        }
        out
    }
}

/// `s` without its leading whitespace characters.
pub open spec fn trim_start_chars(s: Seq<char>) -> Seq<char>
    decreases s.len(),
{
    if s.len() > 0 && is_space_char(s[0]) {
        trim_start_chars(s.drop_first())
    } else {
        s
    }
}

/// `s` without its trailing whitespace characters.
pub open spec fn trim_end_chars(s: Seq<char>) -> Seq<char>
    decreases s.len(),
{
    if s.len() > 0 && is_space_char(s.last()) {
        trim_end_chars(s.drop_last())
    } else {
        s
    }
}

/// `s` without leading and trailing whitespace.
pub open spec fn trim_chars(s: Seq<char>) -> Seq<char> {
    trim_end_chars(trim_start_chars(s))
}

/// Every path separator of `s` replaced by a hyphen.
pub open spec fn replace_sep_chars(s: Seq<char>) -> Seq<char> {
    s.map_values(|c: char| if c == '/' { '-' } else { c })
}

/// A filename body made filesystem-safe: whitespace is trimmed from both
/// ends, then every `/` is replaced by `-` so the rendered name cannot
/// introduce unintended subdirectories.
pub open spec fn sanitize_chars(s: Seq<char>) -> Seq<char> {
    replace_sep_chars(trim_chars(s))
}

proof fn lemma_trim_start_skip(s: Seq<char>, i: int)
    requires
        0 <= i <= s.len(),
        forall|k: int| 0 <= k < i ==> is_space_char(s[k]),
        i == s.len() || !is_space_char(s[i]),
    ensures
        trim_start_chars(s) == s.skip(i),
    decreases i,
{
    if i == 0 {
        assert(s.skip(0) =~= s);
    } else {
        assert(is_space_char(s[0]));
        lemma_trim_start_skip(s.drop_first(), i - 1);
        assert(s.drop_first().skip(i - 1) =~= s.skip(i));
    }
}

proof fn lemma_trim_end_take(s: Seq<char>, j: int)
    requires
        0 <= j <= s.len(),
        forall|k: int| j <= k < s.len() ==> is_space_char(s[k]),
        j == 0 || !is_space_char(s[j - 1]),
    ensures
        trim_end_chars(s) == s.take(j),
    decreases s.len(),
{
    if j == s.len() {
        assert(s.take(j) =~= s);
    } else {
        assert(is_space_char(s.last()));
        lemma_trim_end_take(s.drop_last(), j);
        assert(s.drop_last().take(j) =~= s.take(j));
    }
}

/// `v` without leading and trailing whitespace characters.
pub(crate) fn trim_chars_exec(v: &Vec<char>) -> (r: Vec<char>)
    ensures
        r@ == trim_chars(v@),
{
    let n = v.len();
    let mut i: usize = 0;
    while i < n && is_space_exec(v[i])
        invariant
            n == v@.len(),
            0 <= i <= n,
            forall|k: int| 0 <= k < i ==> is_space_char(v@[k]),
        decreases n - i,
    {
        i = i + 1;
    }
    proof {
        lemma_trim_start_skip(v@, i as int);
    }
    let mut j: usize = n;
    while j > i && is_space_exec(v[j - 1])
        invariant
            n == v@.len(),
            i <= j <= n,
            forall|k: int| j <= k < n ==> is_space_char(v@[k]),
        decreases j,
    {
        j = j - 1;
    }
    proof {
        if j == i {
            // the whole remainder was whitespace, or it is empty
            lemma_trim_end_take(v@.skip(i as int), 0);
        } else {
            assert(!is_space_char(v@.skip(i as int)[j - i - 1]));
            lemma_trim_end_take(v@.skip(i as int), j - i);
        }
        assert(v@.skip(i as int).take(j - i) =~= v@.subrange(i as int, j as int));
    }
    let mut out: Vec<char> = Vec::new();
    let mut k: usize = i;
    while k < j
        invariant
            i <= k <= j <= v@.len(),
            out@ == v@.subrange(i as int, k as int),
        decreases j - k,
    {
        out.push(v[k]);
        k = k + 1;
        proof {
            assert(out@ =~= v@.subrange(i as int, k as int));
        }
    }
    out
}

fn is_space_exec(c: char) -> (r: bool)
    ensures
        r == is_space_char(c),
{
    c == ' ' || c == '\t' || c == '\n' || c == '\r' || c == '\u{000B}' || c == '\u{000C}'
}

/// `v` with every `/` replaced by `-`.
pub(crate) fn replace_sep_exec(v: &Vec<char>) -> (r: Vec<char>)
    ensures
        r@ == replace_sep_chars(v@),
{
    let mut out: Vec<char> = Vec::new();
    let mut i: usize = 0;
    while i < v.len()
        invariant
            0 <= i <= v@.len(),
            out@.len() == i,
            forall|k: int| 0 <= k < i ==> out@[k] == (if v@[k] == '/' {
                '-'
            } else {
                v@[k]
            }),
        decreases v@.len() - i,
    {
        let c = v[i];
        if c == '/' {
            out.push('-');
        } else {
            out.push(c);
        }
        i = i + 1;
    }
    proof {
        assert(out@ =~= replace_sep_chars(v@));
    }
    out
}

/// Trims leading and trailing whitespace, then replaces every path
/// separator (`/`) with a hyphen.
pub fn sanitize(raw: &str) -> (r: String)
    ensures
        r@ == sanitize_chars(raw@),
{
    let v = to_chars(raw);
    let trimmed = trim_chars_exec(&v);
    let replaced = replace_sep_exec(&trimmed);
    chars_to_string(&replaced)
}

/// Lexicographic order on character sequences by code point, the order in
/// which directory listings are returned.
pub open spec fn lex_le(a: Seq<char>, b: Seq<char>) -> bool
    decreases a.len(),
{
    if a.len() == 0 {
        true
    } else if b.len() == 0 {
        false
    } else if (a[0] as u32) < (b[0] as u32) {
        true
    } else if (b[0] as u32) < (a[0] as u32) {
        false
    } else {
        lex_le(a.drop_first(), b.drop_first())
    }
}

/// The lexicographic order is total: of any two sequences, one is less
/// than or equal to the other.
pub proof fn lemma_lex_total(a: Seq<char>, b: Seq<char>)
    ensures
        lex_le(a, b) || lex_le(b, a),
    decreases a.len(),
{
    if a.len() > 0 && b.len() > 0 && !((a[0] as u32) < (b[0] as u32)) && !((b[0] as u32) < (
    a[0] as u32)) {
        lemma_lex_total(a.drop_first(), b.drop_first());
    }
}

/// The lexicographic order is transitive.
pub proof fn lemma_lex_trans(a: Seq<char>, b: Seq<char>, c: Seq<char>)
    requires
        lex_le(a, b),
        lex_le(b, c),
    ensures
        lex_le(a, c),
    decreases a.len(),
{
    if a.len() > 0 && b.len() > 0 && c.len() > 0 && (a[0] as u32) == (b[0] as u32) && (
    b[0] as u32) == (c[0] as u32) {
        lemma_lex_trans(a.drop_first(), b.drop_first(), c.drop_first());
    }
}

/// Compares two strings in lexicographic code-point order.
pub(crate) fn lex_le_str(a: &str, b: &str) -> (r: bool)
    ensures
        r == lex_le(a@, b@),
{
    let na = a.unicode_len();
    let nb = b.unicode_len();
    let n = if na < nb {
        na
    } else {
        nb
    };
    let mut i: usize = 0;
    proof {
        assert(a@.skip(0) =~= a@);
        assert(b@.skip(0) =~= b@);
    }
    loop
        invariant
            na == a@.len(),
            nb == b@.len(),
            n == if na < nb {
                na
            } else {
                nb
            },
            0 <= i <= n,
            lex_le(a@, b@) == lex_le(a@.skip(i as int), b@.skip(i as int)),
            lex_le(b@, a@) == lex_le(b@.skip(i as int), a@.skip(i as int)),
        decreases n - i,
    {
        if i >= n {
            proof {
                if na <= nb {
                    assert(a@.skip(i as int).len() == 0);
                } else {
                    assert(b@.skip(i as int).len() == 0);
                    assert(a@.skip(i as int).len() > 0);
                }
            }
            return na <= nb;
        }
        let ca = a.get_char(i);
        let cb = b.get_char(i);
        if (ca as u32) < (cb as u32) {
            return true;
        }
        if (cb as u32) < (ca as u32) {
            return false;
        }
        proof {
            assert(a@.skip(i as int).drop_first() =~= a@.skip(i as int + 1));
            assert(b@.skip(i as int).drop_first() =~= b@.skip(i as int + 1));
        }
        i = i + 1;
    }
}

/// Whether `c` is a decimal digit.
pub open spec fn is_digit_char(c: char) -> bool {
    48 <= c as u32 && c as u32 <= 57
}

/// The numeric value of a decimal digit character.
pub open spec fn digit_val(c: char) -> nat {
    ((c as u32) - 48) as nat
}

/// The number denoted by a sequence of decimal digit characters, most
/// significant digit first.
pub open spec fn digits_value(s: Seq<char>) -> nat
    decreases s.len(),
{
    if s.len() == 0 {
        0
    } else {
        digits_value(s.drop_last()) * 10 + digit_val(s.last())
    }
}

/// Whether every character of `s` is a decimal digit.
pub open spec fn all_digit_chars(s: Seq<char>) -> bool {
    forall|i: int| 0 <= i < s.len() ==> is_digit_char(s[i])
}

/// The non-negative integer a string denotes: defined exactly when the
/// string is non-empty, consists of decimal digits only, and its value
/// fits in `usize`.
pub open spec fn parse_usize_chars(s: Seq<char>) -> Option<usize> {
    if s.len() > 0 && all_digit_chars(s) && digits_value(s) <= usize::MAX {
        Some(digits_value(s) as usize)
    } else {
        None
    }
}

proof fn lemma_digits_value_prefix_le(s: Seq<char>, j: int)
    requires
        0 <= j <= s.len(),
    ensures
        digits_value(s.take(j)) <= digits_value(s),
    decreases s.len() - j,
{
    if j == s.len() {
        assert(s.take(j) =~= s);
    } else {
        assert(s.take(j + 1).drop_last() =~= s.take(j));
        assert(digits_value(s.take(j + 1)) == digits_value(s.take(j)) * 10 + digit_val(
            s.take(j + 1).last(),
        ));
        lemma_digits_value_prefix_le(s, j + 1);
    }
}

/// Parses a non-negative decimal integer; yields nothing for an empty
/// input, a non-digit character, or a value that does not fit in `usize`.
pub(crate) fn parse_usize_exec(v: &Vec<char>) -> (r: Option<usize>)
    ensures
        r == parse_usize_chars(v@),
{
    if v.len() == 0 {
        return None;
    }
    let mut value: usize = 0;
    let mut i: usize = 0;
    while i < v.len()
        invariant
            0 < v@.len(),
            0 <= i <= v@.len(),
            all_digit_chars(v@.take(i as int)),
            value == digits_value(v@.take(i as int)),
        decreases v@.len() - i,
    {
        let c = v[i];
        let u = c as u32;
        if !(48 <= u && u <= 57) {
            proof {
                assert(!is_digit_char(v@[i as int]));
            }
            return None;
        }
        let d = (u - 48) as usize;
        proof {
            assert(v@.take(i as int + 1).drop_last() =~= v@.take(i as int));
            assert(digits_value(v@.take(i as int + 1)) == value * 10 + d);
        }
        if value > (usize::MAX - d) / 10 {
            proof {
                let big = digits_value(v@.take(i as int + 1));
                assert(value >= (usize::MAX - d) / 10 + 1);
                assert(value * 10 >= ((usize::MAX - d) / 10 + 1) * 10) by (nonlinear_arith)
                    requires
                        value >= (usize::MAX - d) / 10 + 1,
                ;
                assert(((usize::MAX - d) / 10) * 10 + 10 > usize::MAX - d) by (nonlinear_arith);
                assert(big > usize::MAX);
                lemma_digits_value_prefix_le(v@, i as int + 1);
                assert(digits_value(v@) > usize::MAX);
            }
            return None;
        }
        proof {
            assert(value <= (usize::MAX - d) / 10);
            assert(value * 10 <= ((usize::MAX - d) / 10) * 10) by (nonlinear_arith)
                requires
                    value <= (usize::MAX - d) / 10,
            ;
            assert(((usize::MAX - d) / 10) * 10 <= usize::MAX - d) by (nonlinear_arith);
        }
        value = value * 10 + d;
        i = i + 1;
    }
    proof {
        assert(v@.take(i as int) =~= v@);
    }
    Some(value)
}

/// `s` with every non-overlapping occurrence of `pat`, found left to
/// right, removed.
pub open spec fn remove_pattern(s: Seq<char>, pat: Seq<char>) -> Seq<char>
    decreases s.len(),
{
    if pat.len() == 0 || s.len() < pat.len() {
        s
    } else if s.subrange(0, pat.len() as int) == pat {
        remove_pattern(s.skip(pat.len() as int), pat)
    } else {
        seq![s[0]] + remove_pattern(s.drop_first(), pat)
    }
}

pub(crate) fn window_eq(v: &Vec<char>, i: usize, pat: &Vec<char>) -> (r: bool)
    requires
        i + pat@.len() <= v@.len(),
    ensures
        r == (v@.subrange(i as int, i as int + pat@.len() as int) == pat@),
{
    let plen = pat.len();
    let vlen = v.len();
    let mut k: usize = 0;
    while k < plen
        invariant
            plen == pat@.len(),
            vlen == v@.len(),
            i + pat@.len() <= v@.len(),
            0 <= k <= pat@.len(),
            forall|j: int| 0 <= j < k ==> v@[i + j] == pat@[j],
        decreases pat@.len() - k,
    {
        if v[i + k] != pat[k] {
            proof {
                assert(v@.subrange(i as int, i as int + pat@.len() as int)[k as int] != pat@[
                    k as int]);
            }
            return false;
        }
        k = k + 1;
    }
    proof {
        assert(v@.subrange(i as int, i as int + pat@.len() as int) =~= pat@);
    }
    true
}

/// Removes every non-overlapping occurrence of `pat` from `v`, scanning
/// left to right.
pub(crate) fn remove_pattern_exec(v: &Vec<char>, pat: &Vec<char>) -> (r: Vec<char>)
    requires
        pat@.len() > 0,
    ensures
        r@ == remove_pattern(v@, pat@),
{
    let mut out: Vec<char> = Vec::new();
    let mut i: usize = 0;
    proof {
        assert(v@.skip(0) =~= v@);
        assert(out@ + remove_pattern(v@, pat@) =~= remove_pattern(v@, pat@));
    }
    while i < v.len()
        invariant
            pat@.len() > 0,
            0 <= i <= v@.len(),
            remove_pattern(v@, pat@) == out@ + remove_pattern(v@.skip(i as int), pat@),
        decreases v@.len() - i,
    {
        if pat.len() <= v.len() - i && window_eq(v, i, pat) {
            proof {
                let t = v@.skip(i as int);
                assert(t.subrange(0, pat@.len() as int) =~= v@.subrange(
                    i as int,
                    i as int + pat@.len() as int,
                ));
                assert(t.skip(pat@.len() as int) =~= v@.skip(i as int + pat@.len() as int));
            }
            i = i + pat.len();
        } else {
            let c = v[i];
            proof {
                let t = v@.skip(i as int);
                if i + pat@.len() <= v@.len() {
                    assert(t.subrange(0, pat@.len() as int) =~= v@.subrange(
                        i as int,
                        i as int + pat@.len() as int,
                    ));
                    assert(t.subrange(0, pat@.len() as int) != pat@);
                    assert(t.drop_first() =~= v@.skip(i as int + 1));
                    assert(remove_pattern(t, pat@) == seq![c] + remove_pattern(
                        v@.skip(i as int + 1),
                        pat@,
                    ));
                } else {
                    // the remainder is shorter than the pattern: it stays as it is
                    assert(remove_pattern(t, pat@) == t);
                    assert(t.drop_first() =~= v@.skip(i as int + 1));
                    assert(remove_pattern(t.drop_first(), pat@) == t.drop_first());
                    assert(remove_pattern(t, pat@) =~= seq![c] + remove_pattern(
                        v@.skip(i as int + 1),
                        pat@,
                    ));
                }
                assert(out@ + remove_pattern(v@.skip(i as int), pat@) =~= out@.push(c)
                    + remove_pattern(v@.skip(i as int + 1), pat@));
            }
            out.push(c);
            i = i + 1;
        }
    }
    proof {
        assert(v@.skip(i as int).len() == 0);
        assert(remove_pattern(v@.skip(i as int), pat@) == v@.skip(i as int));
        assert(out@ + remove_pattern(v@.skip(i as int), pat@) =~= out@);
    }
    out
}

/// ASCII lowercase of one character: `A` through `Z` map to their
/// lowercase forms, every other character stays as it is.
pub open spec fn lower_char(c: char) -> char {
    if 65 <= c as u32 && c as u32 <= 90 {
        (((c as u32) + 32) as char)
    } else {
        c
    }
}

/// ASCII lowercase applied to every character.
pub open spec fn lower_chars(s: Seq<char>) -> Seq<char> {
    s.map_values(|c: char| lower_char(c))
}

fn lower_char_exec(c: char) -> (r: char)
    ensures
        r == lower_char(c),
{
    let u = c as u32;
    if 65 <= u && u <= 90 {
        ((u + 32) as u8) as char
    } else {
        c
    }
}

/// ASCII-lowercases every character of `v`.
pub(crate) fn lower_chars_exec(v: &Vec<char>) -> (r: Vec<char>)
    ensures
        r@ == lower_chars(v@),
{
    let mut out: Vec<char> = Vec::new();
    let mut i: usize = 0;
    while i < v.len()
        invariant
            0 <= i <= v@.len(),
            out@.len() == i,
            forall|k: int| 0 <= k < i ==> out@[k] == lower_char(v@[k]),
        decreases v@.len() - i,
    {
        out.push(lower_char_exec(v[i]));
        i = i + 1;
    }
    proof {
        assert(out@ =~= lower_chars(v@));
    }
    out
}

/// Whether the character sequences of two vectors are equal.
pub(crate) fn chars_eq(a: &Vec<char>, b: &Vec<char>) -> (r: bool)
    ensures
        r == (a@ == b@),
{
    if a.len() != b.len() {
        return false;
    }
    let mut i: usize = 0;
    while i < a.len()
        invariant
            a@.len() == b@.len(),
            0 <= i <= a@.len(),
            forall|k: int| 0 <= k < i ==> a@[k] == b@[k],
        decreases a@.len() - i,
    {
        if a[i] != b[i] {
            return false;
        }
        i = i + 1;
    }
    proof {
        assert(a@ =~= b@);
    }
    true
}

} // verus!
