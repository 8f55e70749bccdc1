//! Text: character-wise comparison and search, trimming, the decimal rendering and
//! reading of integers, and the lowercase form that the standard library gives.

use vstd::prelude::*;

verus! {

/// Appends a character to a string (`String::push`).
#[verifier::external_body]
pub fn push_char(s: &mut String, c: char)
    ensures
        final(s)@ == old(s)@.push(c),
{
    s.push(c);
}

/// Character-wise equality of two string slices.
pub fn str_eq(a: &str, b: &str) -> (r: bool)
    ensures
        r == (a@ == b@),
{
    let n = a.unicode_len();
    if n != b.unicode_len() {
        return false;
    }
    let mut i: usize = 0;
    while i < n
        invariant
            n == a@.len(),
            n == b@.len(),
            i <= n,
            forall|k: int| 0 <= k < i ==> a@[k] == b@[k],
        decreases n - i,
    {
        if a.get_char(i) != b.get_char(i) {
            return false;
        }
        i = i + 1;
    }
    assert(a@ =~= b@);
    true
}

/// The decimal digit for `d < 10`.
pub open spec fn digit_char(d: nat) -> char {
    (48 + d) as char
}

/// The decimal text of a number, as `{}` writes it.
pub open spec fn decimal(n: nat) -> Seq<char>
    decreases n,
{
    if n < 10 {
        seq![digit_char(n)]
    } else {
        decimal(n / 10).push(digit_char(n % 10))
    }
}

/// Writes `n` in decimal (`usize::to_string`).
pub fn usize_to_string(n: usize) -> (r: String)
    ensures
        r@ == decimal(n as nat),
    decreases n,
{
    let d: u8 = (n % 10) as u8;
    let c: char = (48u8 + d) as char;
    if n < 10 {
        let mut s = String::new();
        push_char(&mut s, c);
        assert(s@ =~= seq![digit_char(n as nat)]);
        s
    } else {
        let mut s = usize_to_string(n / 10);
        push_char(&mut s, c);
        s
    }
}

/// Writes `n` in decimal (`u64::to_string`).
pub fn u64_to_string(n: u64) -> (r: String)
    ensures
        r@ == decimal(n as nat),
    decreases n,
{
    let d: u8 = (n % 10) as u8;
    let c: char = (48u8 + d) as char;
    if n < 10 {
        let mut s = String::new();
        push_char(&mut s, c);
        assert(s@ =~= seq![digit_char(n as nat)]);
        s
    } else {
        let mut s = u64_to_string(n / 10);
        push_char(&mut s, c);
        s
    }
}

/// The lowercase form of a text, as `str::to_lowercase` gives it. It depends on the
/// text alone.
pub uninterp spec fn lowercase(s: Seq<char>) -> Seq<char>;

/// The lowercase form of `s` (`str::to_lowercase`), named by `lowercase`.
#[verifier::external_body]
pub(crate) fn to_lowercase(s: &str) -> (r: String)
    ensures
        r@ == lowercase(s@),
{
    s.to_lowercase()
}

/// `t` stands at the end of `s`.
pub open spec fn ends_with(s: Seq<char>, t: Seq<char>) -> bool {
    t.len() <= s.len() && s.skip(s.len() - t.len()) == t
}

/// Whether `t` stands at the end of `s`, character by character.
pub fn str_ends_with(s: &str, t: &str) -> (r: bool)
    ensures
        r == ends_with(s@, t@),
{
    let n = s.unicode_len();
    let m = t.unicode_len();
    if m > n {
        return false;
    }
    let off = n - m;
    let mut i: usize = 0;
    while i < m
        invariant
            n == s@.len(),
            m == t@.len(),
            off == n - m,
            i <= m,
            forall|k: int| 0 <= k < i ==> s@[off + k] == t@[k],
        decreases m - i,
    {
        if s.get_char(off + i) != t.get_char(i) {
            assert(s@.skip(off as int)[i as int] != t@[i as int]);
            return false;
        }
        i = i + 1;
    }
    assert(s@.skip(off as int) =~= t@);
    true
}

/// The characters of `s`.
pub fn chars_of(s: &str) -> (r: Vec<char>)
    ensures
        r@ == s@,
{
    let n = s.unicode_len();
    let mut out: Vec<char> = Vec::new();
    let mut i: usize = 0;
    while i < n
        invariant
            n == s@.len(),
            i <= n,
            out@ == s@.take(i as int),
        decreases n - i,
    {
        out.push(s.get_char(i));
        assert(s@.take(i + 1) =~= s@.take(i as int).push(s@[i as int]));
        i = i + 1;
    }
    assert(s@.take(n as int) =~= s@);
    out
}

/// The text made of the characters `cs`.
pub fn string_of(cs: &Vec<char>) -> (r: String)
    ensures
        r@ == cs@,
{
    let mut out = String::new();
    let mut i: usize = 0;
    while i < cs.len()
        invariant
            i <= cs@.len(),
            out@ == cs@.take(i as int),
        decreases cs@.len() - i,
    {
        push_char(&mut out, cs[i]);
        assert(cs@.take(i + 1) =~= cs@.take(i as int).push(cs@[i as int]));
        i = i + 1;
    }
    assert(cs@.take(cs@.len() as int) =~= cs@);
    out
}

/// `s` without its last character (`String::pop`); unchanged when empty.
pub fn without_last(s: &String) -> (r: String)
    ensures
        r@ == (if s@.len() == 0 { s@ } else { s@.drop_last() }),
{
    let n = s.as_str().unicode_len();
    if n == 0 {
        return s.clone();
    }
    let head = s.as_str().substring_char(0, n - 1);
    assert(s@.subrange(0, n - 1) =~= s@.drop_last());
    String::from_str(head)
}

/// An ASCII decimal digit.
pub open spec fn is_ascii_digit(c: char) -> bool {
    '0' <= c && c <= '9'
}

/// The value of a run of decimal digits.
pub open spec fn digits_value(d: Seq<char>) -> int
    decreases d.len(),
{
    if d.len() == 0 {
        0
    } else {
        digits_value(d.drop_last()) * 10 + (d.last() as int - 48)
    }
}

/// The digits of an unsigned number, after an optional `+`.
pub open spec fn unsigned_digits(s: Seq<char>) -> Seq<char> {
    if s.len() > 0 && s[0] == '+' {
        s.drop_first()
    } else {
        s
    }
}

/// The `usize` that `s` writes, as `str::parse::<usize>` reads it: an optional `+`,
/// then at least one decimal digit and nothing else, of a value that fits.
pub open spec fn parsed_usize(s: Seq<char>) -> Option<int> {
    let d = unsigned_digits(s);
    if d.len() > 0 && (forall|i: int| 0 <= i < d.len() ==> is_ascii_digit(d[i])) && digits_value(d)
        <= usize::MAX {
        Some(digits_value(d))
    } else {
        None
    }
}

/// A run of digits is worth at least as much as any of its prefixes, and nothing
/// negative.
proof fn lemma_digits_value_prefix(d: Seq<char>, k: int)
    requires
        0 <= k <= d.len(),
        forall|i: int| 0 <= i < d.len() ==> is_ascii_digit(d[i]),
    ensures
        0 <= digits_value(d.take(k)) <= digits_value(d),
    decreases d.len(),
{
    if k < d.len() {
        lemma_digits_value_prefix(d.drop_last(), k);
        assert(d.drop_last().take(k) =~= d.take(k));
    } else {
        assert(d.take(k) =~= d);
        if d.len() > 0 {
            lemma_digits_value_prefix(d.drop_last(), d.len() - 1);
            assert(d.drop_last().take(d.len() - 1) =~= d.drop_last());
        }
    }
}

/// Reads a `usize` as `str::parse::<usize>` does; `None` where it gives an error.
pub fn parse_usize(s: &str) -> (r: Option<usize>)
    ensures
        match parsed_usize(s@) {
            Some(v) => 0 <= v <= usize::MAX && r == Some(v as usize),
            None => r is None,
        },
{
    let n = s.unicode_len();
    let mut start: usize = 0;
    if n > 0 && s.get_char(0) == '+' {
        start = 1;
    }
    let ghost d = unsigned_digits(s@);
    assert(d =~= s@.skip(start as int));
    if start >= n {
        return None;
    }
    let mut v: usize = 0;
    let mut i: usize = start;
    while i < n
        invariant
            n == s@.len(),
            start <= i <= n,
            d == s@.skip(start as int),
            d == unsigned_digits(s@),
            forall|k: int| 0 <= k < i - start ==> is_ascii_digit(d[k]),
            v == digits_value(d.take(i - start)),
        decreases n - i,
    {
        let c = s.get_char(i);
        if !('0' <= c && c <= '9') {
            assert(!is_ascii_digit(d[i - start]));
            return None;
        }
        let digit: usize = ((c as u32) - 48) as usize;
        let k = i - start;
        assert(d.take(k + 1).drop_last() =~= d.take(k as int));
        assert(d.take(k + 1).last() == c);
        match v.checked_mul(10) {
            Some(w) => match w.checked_add(digit) {
                Some(x) => {
                    v = x;
                },
                None => {
                    proof {
                        if forall|q: int| 0 <= q < d.len() ==> is_ascii_digit(d[q]) {
                            lemma_digits_value_prefix(d, k + 1);
                        }
                    }
                    return None;
                },
            },
            None => {
                proof {
                    if forall|q: int| 0 <= q < d.len() ==> is_ascii_digit(d[q]) {
                        lemma_digits_value_prefix(d, k + 1);
                        lemma_digits_value_prefix(d.take(k + 1), k as int);
                    }
                }
                return None;
            },
        }
        i = i + 1;
    }
    assert(d.take(n - start) =~= d);
    proof {
        lemma_digits_value_prefix(d, 0);
    }
    Some(v)
}

/// A white-space character: the Unicode `White_Space` property, which
/// `char::is_whitespace` tests.
pub open spec fn is_white_space(c: char) -> bool {
    ||| ('\u{9}' <= c && c <= '\u{d}')
    ||| c == ' '
    ||| c == '\u{85}'
    ||| c == '\u{a0}'
    ||| c == '\u{1680}'
    ||| ('\u{2000}' <= c && c <= '\u{200a}')
    ||| c == '\u{2028}'
    ||| c == '\u{2029}'
    ||| c == '\u{202f}'
    ||| c == '\u{205f}'
    ||| c == '\u{3000}'
}

fn char_is_white_space(c: char) -> (r: bool)
    ensures
        r == is_white_space(c),
{
    ('\u{9}' <= c && c <= '\u{d}') || c == ' ' || c == '\u{85}' || c == '\u{a0}' || c == '\u{1680}'
        || ('\u{2000}' <= c && c <= '\u{200a}') || c == '\u{2028}' || c == '\u{2029}' || c
        == '\u{202f}' || c == '\u{205f}' || c == '\u{3000}'
}

/// `s` without its leading white space.
pub open spec fn trim_start_spec(s: Seq<char>) -> Seq<char>
    decreases s.len(),
{
    if s.len() > 0 && is_white_space(s[0]) {
        trim_start_spec(s.drop_first())
    } else {
        s
    }
}

/// `s` without its trailing white space.
pub open spec fn trim_end_spec(s: Seq<char>) -> Seq<char>
    decreases s.len(),
{
    if s.len() > 0 && is_white_space(s.last()) {
        trim_end_spec(s.drop_last())
    } else {
        s
    }
}

/// A text without its leading and trailing white space, as `str::trim` gives it.
pub open spec fn trimmed(s: Seq<char>) -> Seq<char> {
    trim_end_spec(trim_start_spec(s))
}

proof fn lemma_trim_start_skip(s: Seq<char>, i: int)
    requires
        0 <= i <= s.len(),
        forall|k: int| 0 <= k < i ==> is_white_space(s[k]),
    ensures
        trim_start_spec(s) == trim_start_spec(s.skip(i)),
    decreases i,
{
    if i > 0 {
        assert(s.skip(1) =~= s.drop_first());
        assert(s.drop_first().skip(i - 1) =~= s.skip(i));
        lemma_trim_start_skip(s.drop_first(), i - 1);
    } else {
        assert(s.skip(0) =~= s);
    }
}

proof fn lemma_trim_end_take(s: Seq<char>, j: int)
    requires
        0 <= j <= s.len(),
        forall|k: int| j <= k < s.len() ==> is_white_space(s[k]),
    ensures
        trim_end_spec(s) == trim_end_spec(s.take(j)),
    decreases s.len() - j,
{
    if j < s.len() {
        assert(s.drop_last().take(j) =~= s.take(j));
        lemma_trim_end_take(s.drop_last(), j);
    } else {
        assert(s.take(j) =~= s);
    }
}

/// `s` without leading and trailing white space, as `str::trim` gives it.
pub fn trim(s: &str) -> (r: String)
    ensures
        r@ == trimmed(s@),
{
    let n = s.unicode_len();
    let mut i: usize = 0;
    while i < n && char_is_white_space(s.get_char(i))
        invariant
            n == s@.len(),
            i <= n,
            forall|k: int| 0 <= k < i ==> is_white_space(s@[k]),
        decreases n - i,
    {
        i = i + 1;
    }
    proof {
        lemma_trim_start_skip(s@, i as int);
    }
    let ghost rest = s@.skip(i as int);
    assert(trim_start_spec(rest) == rest);
    let mut j: usize = n;
    while j > i && char_is_white_space(s.get_char(j - 1))
        invariant
            n == s@.len(),
            i <= j <= n,
            forall|k: int| j <= k < n ==> is_white_space(s@[k]),
        decreases j,
    {
        j = j - 1;
    }
    proof {
        let m = (j - i) as int;
        assert forall|k: int| m <= k < rest.len() implies is_white_space(rest[k]) by {
            assert(rest[k] == s@[k + i]);
        }
        lemma_trim_end_take(rest, m);
        if m > 0 {
            assert(rest.take(m).last() == s@[j - 1]);
        }
        assert(rest.take(m) =~= s@.subrange(i as int, j as int));
    }
    String::from_str(s.substring_char(i, j))
}

/// The pieces of `s` between the separators `sep`, in order (one piece more than there
/// are separators), as `str::split` gives them.
pub open spec fn split_on(s: Seq<char>, sep: char) -> Seq<Seq<char>>
    decreases s.len(),
{
    if s.len() == 0 {
        seq![seq![]]
    } else {
        let p = split_on(s.drop_last(), sep);
        if s.last() == sep {
            p.push(seq![])
        } else {
            p.update(p.len() - 1, p.last().push(s.last()))
        }
    }
}

/// The texts of a sequence of strings.
pub open spec fn texts_of(v: Seq<String>) -> Seq<Seq<char>> {
    v.map_values(|x: String| x@)
}

/// The pieces of `s` between the commas, each trimmed: `" 1, 2 ,3"` gives `1`, `2`
/// and `3`, and an empty piece stays.
pub open spec fn comma_items(s: Seq<char>) -> Seq<Seq<char>> {
    split_on(s, ',').map_values(|p: Seq<char>| trimmed(p))
}

/// The texts that are not empty, in order.
pub open spec fn non_empty(ps: Seq<Seq<char>>) -> Seq<Seq<char>>
    decreases ps.len(),
{
    if ps.len() == 0 {
        seq![]
    } else if ps.last().len() == 0 {
        non_empty(ps.drop_last())
    } else {
        non_empty(ps.drop_last()).push(ps.last())
    }
}

/// The pieces of `s` between commas, each trimmed (`s.split(',').map(str::trim)`).
pub fn split_commas_trimmed(s: &str) -> (r: Vec<String>)
    ensures
        texts_of(r@) == comma_items(s@),
{
    let n = s.unicode_len();
    let mut pieces: Vec<String> = Vec::new();
    let mut cur: String = String::new();
    let mut i: usize = 0;
    while i < n
        invariant
            n == s@.len(),
            i <= n,
            texts_of(pieces@).push(cur@) == split_on(s@.take(i as int), ','),
        decreases n - i,
    {
        let c = s.get_char(i);
        let ghost before = texts_of(pieces@);
        let ghost cur_before = cur@;
        assert(s@.take(i + 1).drop_last() =~= s@.take(i as int));
        assert(s@.take(i + 1).last() == c);
        if c == ',' {
            pieces.push(cur);
            cur = String::new();
            assert(texts_of(pieces@) =~= before.push(cur_before));
            assert(texts_of(pieces@).push(cur@) =~= split_on(s@.take(i + 1), ','));
        } else {
            push_char(&mut cur, c);
            assert(texts_of(pieces@).push(cur@) =~= before.push(cur_before).update(
                before.len() as int,
                cur_before.push(c),
            ));
        }
        i = i + 1;
    }
    pieces.push(cur);
    assert(s@.take(n as int) =~= s@);
    let ghost raw = texts_of(pieces@);
    assert(raw == split_on(s@, ','));
    let mut out: Vec<String> = Vec::new();
    let mut k: usize = 0;
    while k < pieces.len()
        invariant
            k <= pieces@.len(),
            raw == texts_of(pieces@),
            texts_of(out@) == raw.take(k as int).map_values(|p: Seq<char>| trimmed(p)),
        decreases pieces@.len() - k,
    {
        let t = trim(pieces[k].as_str());
        let ghost before = texts_of(out@);
        out.push(t);
        assert(texts_of(out@) =~= raw.take(k + 1).map_values(|p: Seq<char>| trimmed(p))) by {
            assert(texts_of(out@) =~= before.push(trimmed(raw[k as int])));
        }
        k = k + 1;
    }
    assert(raw.take(pieces@.len() as int) =~= raw);
    out
}

/// The items of a comma-separated list: the trimmed pieces between the commas, without
/// the empty ones.
pub fn list_items(s: &str) -> (r: Vec<String>)
    ensures
        texts_of(r@) == non_empty(comma_items(s@)),
{
    let pieces = split_commas_trimmed(s);
    let ghost ps = texts_of(pieces@);
    let mut out: Vec<String> = Vec::new();
    let mut k: usize = 0;
    while k < pieces.len()
        invariant
            k <= pieces@.len(),
            ps == texts_of(pieces@),
            texts_of(out@) == non_empty(ps.take(k as int)),
        decreases pieces@.len() - k,
    {
        assert(ps.take(k + 1).drop_last() =~= ps.take(k as int));
        let ghost before = texts_of(out@);
        if pieces[k].as_str().unicode_len() > 0 {
            out.push(pieces[k].clone());
            assert(texts_of(out@) =~= before.push(ps[k as int]));
        }
        k = k + 1;
    }
    assert(ps.take(pieces@.len() as int) =~= ps);
    out
}

/// A separator between the numbers of a row: a comma or white space.
pub open spec fn is_field_separator(c: char) -> bool {
    c == ',' || is_white_space(c)
}

/// The pieces of `s` between field separators, in order, empty ones included.
pub open spec fn split_fields(s: Seq<char>) -> Seq<Seq<char>>
    decreases s.len(),
{
    if s.len() == 0 {
        seq![seq![]]
    } else {
        let p = split_fields(s.drop_last());
        if is_field_separator(s.last()) {
            p.push(seq![])
        } else {
            p.update(p.len() - 1, p.last().push(s.last()))
        }
    }
}

/// The rows of a file of numbers: its lines, trimmed, without the empty ones and the
/// comments (lines that start with `#`), each cut into its non-empty fields.
pub open spec fn data_rows(content: Seq<char>) -> Seq<Seq<Seq<char>>> {
    rows_of(split_on(content, '\n').map_values(|l: Seq<char>| trimmed(l)))
}

/// The rows of trimmed lines: the lines that are neither empty nor comments, cut into
/// their non-empty fields.
pub open spec fn rows_of(lines: Seq<Seq<char>>) -> Seq<Seq<Seq<char>>>
    decreases lines.len(),
{
    if lines.len() == 0 {
        seq![]
    } else {
        let rest = rows_of(lines.drop_last());
        let l = lines.last();
        if l.len() == 0 || l[0] == '#' {
            rest
        } else {
            rest.push(non_empty(split_fields(l)))
        }
    }
}

fn char_is_field_separator(c: char) -> (r: bool)
    ensures
        r == is_field_separator(c),
{
    c == ',' || char_is_white_space(c)
}

/// The non-empty fields of a line, separated by commas or white space.
fn line_fields(s: &str) -> (r: Vec<String>)
    ensures
        texts_of(r@) == non_empty(split_fields(s@)),
{
    let n = s.unicode_len();
    let mut pieces: Vec<String> = Vec::new();
    let mut cur: String = String::new();
    let mut i: usize = 0;
    while i < n
        invariant
            n == s@.len(),
            i <= n,
            texts_of(pieces@).push(cur@) == split_fields(s@.take(i as int)),
        decreases n - i,
    {
        let c = s.get_char(i);
        let ghost before = texts_of(pieces@);
        let ghost cur_before = cur@;
        assert(s@.take(i + 1).drop_last() =~= s@.take(i as int));
        assert(s@.take(i + 1).last() == c);
        if char_is_field_separator(c) {
            pieces.push(cur);
            cur = String::new();
            assert(texts_of(pieces@) =~= before.push(cur_before));
            assert(texts_of(pieces@).push(cur@) =~= split_fields(s@.take(i + 1)));
        } else {
            push_char(&mut cur, c);
            assert(texts_of(pieces@).push(cur@) =~= before.push(cur_before).update(
                before.len() as int,
                cur_before.push(c),
            ));
        }
        i = i + 1;
    }
    let ghost whole = texts_of(pieces@).push(cur@);
    pieces.push(cur);
    assert(s@.take(n as int) =~= s@);
    assert(texts_of(pieces@) =~= whole);
    let ghost ps = texts_of(pieces@);
    assert(ps == split_fields(s@));
    let mut out: Vec<String> = Vec::new();
    let mut k: usize = 0;
    while k < pieces.len()
        invariant
            k <= pieces@.len(),
            ps == texts_of(pieces@),
            texts_of(out@) == non_empty(ps.take(k as int)),
        decreases pieces@.len() - k,
    {
        assert(ps.take(k + 1).drop_last() =~= ps.take(k as int));
        let ghost before = texts_of(out@);
        if pieces[k].as_str().unicode_len() > 0 {
            out.push(pieces[k].clone());
            assert(texts_of(out@) =~= before.push(ps[k as int]));
        }
        k = k + 1;
    }
    assert(ps.take(pieces@.len() as int) =~= ps);
    out
}

/// The rows of fields of a file of numbers, as `data_rows` says.
pub fn data_file_rows(content: &str) -> (r: Vec<Vec<String>>)
    ensures
        r@.map_values(|row: Vec<String>| texts_of(row@)) == data_rows(content@),
{
    let n = content.unicode_len();
    let mut lines: Vec<String> = Vec::new();
    let mut cur: String = String::new();
    let mut i: usize = 0;
    while i < n
        invariant
            n == content@.len(),
            i <= n,
            texts_of(lines@).push(cur@) == split_on(content@.take(i as int), '\n'),
        decreases n - i,
    {
        let c = content.get_char(i);
        let ghost before = texts_of(lines@);
        let ghost cur_before = cur@;
        assert(content@.take(i + 1).drop_last() =~= content@.take(i as int));
        assert(content@.take(i + 1).last() == c);
        if c == '\n' {
            lines.push(cur);
            cur = String::new();
            assert(texts_of(lines@) =~= before.push(cur_before));
            assert(texts_of(lines@).push(cur@) =~= split_on(content@.take(i + 1), '\n'));
        } else {
            push_char(&mut cur, c);
            assert(texts_of(lines@).push(cur@) =~= before.push(cur_before).update(
                before.len() as int,
                cur_before.push(c),
            ));
        }
        i = i + 1;
    }
    let ghost whole = texts_of(lines@).push(cur@);
    lines.push(cur);
    assert(content@.take(n as int) =~= content@);
    assert(texts_of(lines@) =~= whole);
    assert(texts_of(lines@) == split_on(content@, '\n'));
    let ghost ls = texts_of(lines@).map_values(|l: Seq<char>| trimmed(l));
    let mut out: Vec<Vec<String>> = Vec::new();
    let mut k: usize = 0;
    while k < lines.len()
        invariant
            k <= lines@.len(),
            ls == texts_of(lines@).map_values(|l: Seq<char>| trimmed(l)),
            out@.map_values(|row: Vec<String>| texts_of(row@)) == rows_of(ls.take(k as int)),
        decreases lines@.len() - k,
    {
        assert(ls.take(k + 1).drop_last() =~= ls.take(k as int));
        let ghost before = out@.map_values(|row: Vec<String>| texts_of(row@));
        let t = trim(lines[k].as_str());
        assert(t@ == ls[k as int]);
        if t.as_str().unicode_len() > 0 && t.as_str().get_char(0) != '#' {
            let fields = line_fields(t.as_str());
            out.push(fields);
            assert(out@.map_values(|row: Vec<String>| texts_of(row@)) =~= before.push(
                non_empty(split_fields(t@)),
            ));
        }
        k = k + 1;
    }
    assert(ls.take(lines@.len() as int) =~= ls);
    out
}

} // verus!
