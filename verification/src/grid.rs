//! The grid of an atlas, read off its file name: a trailing path segment of
//! the form `<name>_<cols>x<rows>.<ext>` names `cols` columns and `rows` rows.

use vstd::prelude::*;

verus! {

/// The index of the first `c` in `s`, or the length of `s` where there is none.
pub open spec fn first_pos(s: Seq<char>, c: char) -> int
    decreases s.len(),
{
    if s.len() == 0 || s[0] == c {
        0
    } else {
        1 + first_pos(s.drop_first(), c)
    }
}

/// The index of the last `c` in `s`, or -1 where there is none.
pub open spec fn last_pos(s: Seq<char>, c: char) -> int
    decreases s.len(),
{
    if s.len() == 0 {
        -1
    } else if s.last() == c {
        s.len() - 1
    } else {
        last_pos(s.drop_last(), c)
    }
}

/// `path` without the separators and the `.` segments at its end.
pub open spec fn trimmed(path: Seq<char>) -> Seq<char>
    decreases path.len(),
{
    if path.len() > 0 && path.last() == '/' {
        trimmed(path.drop_last())
    } else if path.len() > 1 && path.last() == '.' && path[path.len() - 2] == '/' {
        trimmed(path.take(path.len() - 2))
    } else {
        path
    }
}

/// The last segment of `path`: what stands behind the last `/` once the
/// separators and `.` segments at the end are set aside.
pub open spec fn file_name(path: Seq<char>) -> Seq<char> {
    let path = trimmed(path);
    path.skip(last_pos(path, '/') + 1)
}

/// A file name without its extension: what stands before the last `.`; the
/// whole name where it has no `.` or only a leading one.
pub open spec fn file_stem(name: Seq<char>) -> Seq<char> {
    let dot = last_pos(name, '.');
    if dot <= 0 {
        name
    } else {
        name.take(dot)
    }
}

/// The part of a stem behind its last `_`.
pub open spec fn grid_token(stem: Seq<char>) -> Seq<char> {
    stem.skip(last_pos(stem, '_') + 1)
}

/// Whether `c` is a decimal digit.
pub open spec fn is_digit(c: char) -> bool {
    '0' <= c <= '9'
}

/// The number that a run of decimal digits writes.
pub open spec fn decimal_value(digits: Seq<char>) -> nat
    decreases digits.len(),
{
    if digits.len() == 0 {
        0
    } else {
        10 * decimal_value(digits.drop_last()) + ((digits.last() as u32 - '0' as u32) as nat)
    }
}

/// Whether `s` holds decimal digits only.
pub open spec fn all_digits(s: Seq<char>) -> bool {
    forall|i: int| 0 <= i < s.len() ==> is_digit(#[trigger] s[i])
}

/// `s` without a leading `+`.
pub open spec fn unsigned(s: Seq<char>) -> Seq<char> {
    if s.len() > 0 && s[0] == '+' {
        s.skip(1)
    } else {
        s
    }
}

/// The unsigned 8-bit number that `s` writes: an optional `+`, then one digit
/// or more, the value no greater than 255.
pub open spec fn parse_u8(s: Seq<char>) -> Option<u8> {
    let digits = unsigned(s);
    if digits.len() > 0 && all_digits(digits) && decimal_value(digits) <= 255 {
        Some(decimal_value(digits) as u8)
    } else {
        None
    }
}

/// The columns and rows that a token `<cols>x<rows>` names. What follows a
/// second `x` is not read.
pub open spec fn token_grid(token: Seq<char>) -> Option<(u8, u8)> {
    let x = first_pos(token, 'x');
    if x == token.len() {
        None
    } else {
        let rest = token.skip(x + 1);
        match (parse_u8(token.take(x)), parse_u8(rest.take(first_pos(rest, 'x')))) {
            (Some(cols), Some(rows)) => Some((cols, rows)),
            _ => None,
        }
    }
}

/// The grid that the file name of `path` names, and one column by one row
/// where it names none.
pub open spec fn grid_of(path: Seq<char>) -> (u8, u8) {
    match token_grid(grid_token(file_stem(file_name(path)))) {
        Some(grid) => grid,
        None => (1, 1),
    }
}

/// An index with no `c` before it, where `c` stands or `s` ends, is the first position of `c`.
pub proof fn lemma_first_pos(s: Seq<char>, c: char, i: int)
    requires
        0 <= i <= s.len(),
        forall|j: int| 0 <= j < i ==> s[j] != c,
        i == s.len() || s[i] == c,
    ensures
        first_pos(s, c) == i,
    decreases s.len(),
{
    if s.len() > 0 && s[0] != c {
        lemma_first_pos(s.drop_first(), c, i - 1);
    }
}

/// An index with no `c` behind it, where `c` stands or which is -1, is the last position of `c`.
pub proof fn lemma_last_pos(s: Seq<char>, c: char, i: int)
    requires
        -1 <= i < s.len(),
        forall|j: int| i < j < s.len() ==> s[j] != c,
        i == -1 || s[i] == c,
    ensures
        last_pos(s, c) == i,
    decreases s.len(),
{
    if s.len() > 0 && s.last() != c {
        lemma_last_pos(s.drop_last(), c, i);
    }
}

/// The value of a run of digits grows with each digit appended.
proof fn lemma_decimal_value_grows(digits: Seq<char>, n: int)
    requires
        0 <= n <= digits.len(),
        all_digits(digits),
    ensures
        decimal_value(digits.take(n)) <= decimal_value(digits),
    decreases digits.len() - n,
{
    if n < digits.len() {
        lemma_decimal_value_grows(digits, n + 1);
        assert(digits.take(n + 1).drop_last() =~= digits.take(n));
    } else {
        assert(digits.take(n) =~= digits);
    }
}

/// The characters of `s`.
fn chars_of(s: &str) -> (v: Vec<char>)
    ensures
        v@ == s@,
{
    let mut v: Vec<char> = Vec::new();
    for c in iter: s.chars()
        invariant
            iter.seq() == s@,
            v@ == iter.seq().take(iter.index()),
    {
        v.push(c);
        assert(v@ =~= iter.seq().take(iter.index() + 1));
    }
    assert(v@ =~= s@);
    v
}

/// The length of `s` without the separators and the `.` segments at its end.
fn trimmed_len(s: &Vec<char>) -> (n: usize)
    ensures
        n <= s.len(),
        s@.take(n as int) == trimmed(s@),
{
    let mut n: usize = s.len();
    assert(s@.take(n as int) =~= s@);
    while n > 0 && (s[n - 1] == '/' || (n > 1 && s[n - 1] == '.' && s[n - 2] == '/'))
        invariant
            n <= s.len(),
            trimmed(s@.take(n as int)) == trimmed(s@),
        decreases n,
    {
        let ghost head = s@.take(n as int);
        if s[n - 1] == '/' {
            n -= 1;
            assert(head.drop_last() =~= s@.take(n as int));
        } else {
            n -= 2;
            assert(head.take(head.len() - 2) =~= s@.take(n as int));
        }
    }
    n
}

/// A copy of the characters of `s` from `from` up to `to`.
fn part(s: &Vec<char>, from: usize, to: usize) -> (v: Vec<char>)
    requires
        from <= to <= s.len(),
    ensures
        v@ == s@.subrange(from as int, to as int),
{
    let mut v: Vec<char> = Vec::new();
    let mut i: usize = from;
    while i < to
        invariant
            from <= i <= to <= s.len(),
            v@ == s@.subrange(from as int, i as int),
        decreases to - i,
    {
        v.push(s[i]);
        i += 1;
        assert(v@ =~= s@.subrange(from as int, i as int));
    }
    v
}

/// The index of the first `c` in `s`, or the length of `s`.
fn find_first(s: &Vec<char>, c: char) -> (i: usize)
    ensures
        i == first_pos(s@, c),
        i <= s.len(),
{
    let mut i: usize = 0;
    while i < s.len() && s[i] != c
        invariant
            i <= s.len(),
            forall|j: int| 0 <= j < i ==> s@[j] != c,
        decreases s.len() - i,
    {
        i += 1;
    }
    proof {
        lemma_first_pos(s@, c, i as int);
    }
    i
}

/// The index behind the last `c` in `s`, or 0 where there is none.
fn behind_last(s: &Vec<char>, c: char) -> (i: usize)
    ensures
        i == last_pos(s@, c) + 1,
        i <= s.len(),
{
    let mut i: usize = s.len();
    while i > 0 && s[i - 1] != c
        invariant
            i <= s.len(),
            forall|j: int| i <= j < s.len() ==> s@[j] != c,
        decreases i,
    {
        i -= 1;
    }
    proof {
        lemma_last_pos(s@, c, i as int - 1);
    }
    i
}

/// Reads an unsigned 8-bit number as [`parse_u8`] defines it.
pub fn parse_u8_chars(s: &Vec<char>) -> (r: Option<u8>)
    ensures
        r == parse_u8(s@),
{
    let start: usize = if s.len() > 0 && s[0] == '+' {
        1
    } else {
        0
    };
    let ghost digits = unsigned(s@);
    assert(s@.skip(0) =~= s@);
    if start == s.len() {
        return None;
    }
    let mut value: u32 = 0;
    let mut i: usize = start;
    while i < s.len()
        invariant
            start <= i <= s.len(),
            digits == s@.skip(start as int),
            digits == unsigned(s@),
            all_digits(digits.take(i - start)),
            value == decimal_value(digits.take(i - start)),
            value <= 255,
        decreases s.len() - i,
    {
        let c = s[i];
        assert(digits[i - start] == c);
        if c < '0' || c > '9' {
            assert(!is_digit(digits[i - start]));
            return None;
        }
        let d: u32 = c as u32 - '0' as u32;
        let next: u32 = 10 * value + d;
        proof {
            let longer = digits.take(i - start + 1);
            assert(longer.drop_last() =~= digits.take(i - start));
            assert(longer.last() == c);
            assert forall|j: int| 0 <= j < longer.len() implies is_digit(#[trigger] longer[j]) by {
                if j < i - start {
                    assert(longer[j] == digits.take(i - start)[j]);
                }
            }
        }
        if next > 255 {
            proof {
                if all_digits(digits) {
                    lemma_decimal_value_grows(digits, i - start + 1);
                }
            }
            return None;
        }
        value = next;
        i += 1;
    }
    assert(digits.take(i - start) =~= digits);
    Some(value as u8)
}

/// Reads the grid that a token names, as [`token_grid`] defines it.
pub fn parse_token(token: &Vec<char>) -> (r: Option<(u8, u8)>)
    ensures
        r == token_grid(token@),
{
    let x = find_first(token, 'x');
    if x == token.len() {
        return None;
    }
    let cols_text = part(token, 0, x);
    let rest = part(token, x + 1, token.len());
    let rows_text = part(&rest, 0, find_first(&rest, 'x'));
    match (parse_u8_chars(&cols_text), parse_u8_chars(&rows_text)) {
        (Some(cols), Some(rows)) => Some((cols, rows)),
        _ => None,
    }
}

/// The grid of the atlas at `path`: the columns and rows that its file name
/// gives as `<name>_<cols>x<rows>.<ext>`, and 1 by 1 where the name gives none
/// or gives numbers that do not fit in eight bits.
pub fn infer_grid(path: &str) -> (r: (u8, u8))
    ensures
        r == grid_of(path@),
{
    let chars = chars_of(path);
    let head = part(&chars, 0, trimmed_len(&chars));
    let name = part(&head, behind_last(&head, '/'), head.len());
    let dot = behind_last(&name, '.');
    let stem = if dot <= 1 {
        name
    } else {
        part(&name, 0, dot - 1)
    };
    let token = part(&stem, behind_last(&stem, '_'), stem.len());
    match parse_token(&token) {
        Some(grid) => grid,
        None => (1, 1),
    }
}

} // verus!
