//! Strings and numbers: characters of a string, decimal numbers, splitting,
//! joining and trimming.

use vstd::prelude::*;
use vstd::string::*;
use vstd::utf8::*;

verus! {

/// `String::push` of the standard library: the character is appended at the
/// end and the rest of the string is left as it was. Taken from the method's
/// documentation; the body of the standard library is not verified here.
pub assume_specification[ String::push ](s: &mut String, ch: char)
    ensures
        final(s)@ == old(s)@.push(ch),
;

/// Whether the standard library classifies `c` as alphabetic or numeric
/// (`char::is_alphanumeric`). The classification follows the Unicode tables
/// built into the standard library and is not written out here.
pub uninterp spec fn alphanumeric(c: char) -> bool;

/// `char::is_alphanumeric` of the standard library: the result is the
/// classification named by [`alphanumeric`], a function of the character
/// alone.
pub assume_specification[ char::is_alphanumeric ](c: char) -> (r: bool)
    ensures
        r == alphanumeric(c),
;

/// Whether the standard library classifies `c` as white space
/// (`char::is_whitespace`): the characters that Unicode marks `White_Space`.
/// The list is the standard library's and is not written out here.
pub uninterp spec fn whitespace(c: char) -> bool;

/// `char::is_whitespace` of the standard library: the result is the
/// classification named by [`whitespace`], a function of the character alone.
pub assume_specification[ char::is_whitespace ](c: char) -> (r: bool)
    ensures
        r == whitespace(c),
;

/// The characters of `s`, in order.
pub fn chars_of(s: &str) -> (v: Vec<char>)
    ensures
        v@ == s@,
{
    let mut v: Vec<char> = Vec::new();
    for c in it: s.chars()
        invariant
            v@ == it.seq().take(it.index() as int),
            it.seq() == s@,
    {
        v.push(c);
    }
    v
}

/// The string made of the characters `v[from..to]`.
pub fn string_of(v: &Vec<char>, from: usize, to: usize) -> (s: String)
    requires
        from <= to <= v.len(),
    ensures
        s@ == v@.subrange(from as int, to as int),
{
    let mut s = String::new();
    let mut i: usize = from;
    while i < to
        invariant
            from <= i <= to <= v.len(),
            s@ == v@.subrange(from as int, i as int),
        decreases to - i,
    {
        s.push(v[i]);
        i += 1;
    }
    s
}

/// Whether two strings hold the same characters.
pub fn str_eq(a: &str, b: &str) -> (r: bool)
    ensures
        r == (a@ == b@),
{
    let x = a.as_bytes();
    let y = b.as_bytes();
    proof {
        encode_utf8_decode_utf8(a@);
        encode_utf8_decode_utf8(b@);
    }
    if x.len() != y.len() {
        return false;
    }
    let mut i: usize = 0;
    while i < x.len()
        invariant
            i <= x.len(),
            x.len() == y.len(),
            forall|j: int| 0 <= j < i ==> x@[j] == y@[j],
            x@ == a.spec_bytes(),
            y@ == b.spec_bytes(),
            decode_utf8(a.spec_bytes()) == a@,
            decode_utf8(b.spec_bytes()) == b@,
        decreases x.len() - i,
    {
        if x[i] != y[i] {
            return false;
        }
        i += 1;
    }
    assert(x@ =~= y@);
    true
}

/// The character that writes the digit `d`.
pub open spec fn digit_char(d: int) -> char {
    if d == 0 {
        '0'
    } else if d == 1 {
        '1'
    } else if d == 2 {
        '2'
    } else if d == 3 {
        '3'
    } else if d == 4 {
        '4'
    } else if d == 5 {
        '5'
    } else if d == 6 {
        '6'
    } else if d == 7 {
        '7'
    } else if d == 8 {
        '8'
    } else {
        '9'
    }
}

/// The decimal digits of `n`, most significant first, without leading zeros.
pub open spec fn digits(n: nat) -> Seq<char>
    decreases n,
{
    if n < 10 {
        seq![digit_char(n as int)]
    } else {
        digits(n / 10).push(digit_char((n % 10) as int))
    }
}

/// `n` written in decimal, with a leading `-` if it is negative.
pub open spec fn decimal_text(n: int) -> Seq<char> {
    if n < 0 {
        seq!['-'] + digits((-n) as nat)
    } else {
        digits(n as nat)
    }
}

fn digit(d: u32) -> (c: char)
    requires
        d < 10,
    ensures
        c == digit_char(d as int),
{
    if d == 0 {
        '0'
    } else if d == 1 {
        '1'
    } else if d == 2 {
        '2'
    } else if d == 3 {
        '3'
    } else if d == 4 {
        '4'
    } else if d == 5 {
        '5'
    } else if d == 6 {
        '6'
    } else if d == 7 {
        '7'
    } else if d == 8 {
        '8'
    } else {
        '9'
    }
}

fn push_digits(s: &mut String, n: u32)
    ensures
        final(s)@ == old(s)@ + digits(n as nat),
    decreases n,
{
    if n >= 10 {
        push_digits(s, n / 10);
    }
    s.push(digit(n % 10));
}

/// Writes `n` in decimal.
pub fn decimal(n: i32) -> (s: String)
    ensures
        s@ == decimal_text(n as int),
{
    let mut s = String::new();
    if n < 0 {
        s.push('-');
        let magnitude: u32 = if n == i32::MIN {
            2147483648u32
        } else {
            (-n) as u32
        };
        push_digits(&mut s, magnitude);
    } else {
        push_digits(&mut s, n as u32);
    }
    s
}

/// Whether `c` is one of `0` to `9`.
pub open spec fn is_digit(c: char) -> bool {
    '0' <= c && c <= '9'
}

/// The number that the digit `c` writes.
pub open spec fn digit_value(c: char) -> int {
    c as int - '0' as int
}

/// Whether `s` holds digits only.
pub open spec fn all_digits(s: Seq<char>) -> bool {
    forall|i: int| 0 <= i < s.len() ==> is_digit(#[trigger] s[i])
}

/// The number that the digits `s` write in decimal.
pub open spec fn number(s: Seq<char>) -> int
    decreases s.len(),
{
    if s.len() == 0 {
        0
    } else {
        number(s.drop_last()) * 10 + digit_value(s.last())
    }
}

/// The 32-bit signed integer that `s` writes: an optional `+` or `-`, then
/// at least one digit and nothing else, with a value that fits.
pub open spec fn parse_int(s: Seq<char>) -> Option<int> {
    let signed = s.len() > 0 && (s[0] == '-' || s[0] == '+');
    let body = if signed {
        s.skip(1)
    } else {
        s
    };
    let n = if s.len() > 0 && s[0] == '-' {
        -number(body)
    } else {
        number(body)
    };
    if body.len() > 0 && all_digits(body) && -2147483648 <= n <= 2147483647 {
        Some(n)
    } else {
        None
    }
}

/// More digits never write a smaller number.
pub proof fn lemma_number_grows(s: Seq<char>, k: int)
    requires
        all_digits(s),
        0 <= k <= s.len(),
    ensures
        0 <= number(s.take(k)) <= number(s),
    decreases s.len(),
{
    if s.len() == 0 {
    } else if k == s.len() {
        assert(s.take(k) =~= s);
        lemma_number_grows(s.drop_last(), k - 1);
    } else {
        lemma_number_grows(s.drop_last(), k);
        assert(s.drop_last().take(k) =~= s.take(k));
    }
}

/// The digits of a number are digits, and write that number.
pub proof fn lemma_digits_write_number(n: nat)
    ensures
        digits(n).len() > 0,
        all_digits(digits(n)),
        number(digits(n)) == n,
        digits(n)[0] != '-',
        digits(n)[0] != '+',
    decreases n,
{
    let s = digits(n);
    if n < 10 {
        assert(number(s.drop_last()) == 0);
    } else {
        lemma_digits_write_number(n / 10);
        assert(s.drop_last() =~= digits(n / 10));
    }
}

/// Reading what `decimal_text` wrote gives the number back, for every number
/// of 32 bits.
pub proof fn lemma_parse_undoes_decimal(n: int)
    requires
        -2147483648 <= n <= 2147483647,
    ensures
        parse_int(decimal_text(n)) == Some(n),
{
    let s = decimal_text(n);
    if n < 0 {
        lemma_digits_write_number((-n) as nat);
        assert(s.skip(1) =~= digits((-n) as nat));
    } else {
        lemma_digits_write_number(n as nat);
    }
}

/// Reads a 32-bit signed integer written in decimal.
pub fn parse_i32(s: &str) -> (r: Option<i32>)
    ensures
        r.is_some() == parse_int(s@).is_some(),
        r.is_some() ==> r.unwrap() == parse_int(s@).unwrap(),
{
    let v = chars_of(s);
    let negative = v.len() > 0 && v[0] == '-';
    let first: usize = if v.len() > 0 && (v[0] == '-' || v[0] == '+') {
        1
    } else {
        0
    };
    let ghost body = v@.skip(first as int);
    if first == v.len() {
        return None;
    }
    let mut acc: i64 = 0;
    let mut i: usize = first;
    while i < v.len()
        invariant
            first <= i <= v.len(),
            v@ == s@,
            body == v@.skip(first as int),
            body == if s@.len() > 0 && (s@[0] == '-' || s@[0] == '+') {
                s@.skip(1)
            } else {
                s@
            },
            all_digits(body.take(i - first)),
            acc == number(body.take(i - first)),
            0 <= acc <= 2147483648,
        decreases v.len() - i,
    {
        let c = v[i];
        if !('0' <= c && c <= '9') {
            assert(!is_digit(body[i - first]));
            return None;
        }
        let d: i64 = (c as u32 - '0' as u32) as i64;
        proof {
            let next = body.take(i - first + 1);
            assert(next.drop_last() =~= body.take(i - first));
        }
        acc = acc * 10 + d;
        i += 1;
        if acc > 2147483648 {
            proof {
                if all_digits(body) {
                    lemma_number_grows(body, i - first);
                }
            }
            return None;
        }
    }
    assert(body.take(i - first) =~= body);
    if negative {
        Some((-acc) as i32)
    } else if acc == 2147483648 {
        None
    } else {
        Some(acc as i32)
    }
}

/// First position from `i` on that holds `c`, or the length of `s`.
pub open spec fn next_of(s: Seq<char>, c: char, i: int) -> int
    decreases s.len() - i,
{
    if 0 <= i < s.len() && s[i] != c {
        next_of(s, c, i + 1)
    } else {
        i
    }
}

/// `next_of` stops between `i` and the end, on `c` if before the end, and
/// passes no `c` on its way.
pub proof fn lemma_next_of(s: Seq<char>, c: char, i: int)
    requires
        0 <= i <= s.len(),
    ensures
        i <= next_of(s, c, i) <= s.len(),
        next_of(s, c, i) < s.len() ==> s[next_of(s, c, i)] == c,
        forall|k: int| i <= k < next_of(s, c, i) ==> s[k] != c,
    decreases s.len() - i,
{
    if i < s.len() && s[i] != c {
        lemma_next_of(s, c, i + 1);
    }
}

/// Position of the first `c` in `v[i..]`, or the length of `v`.
pub fn find_from(v: &Vec<char>, c: char, i: usize) -> (j: usize)
    requires
        i <= v.len(),
    ensures
        j == next_of(v@, c, i as int),
        i <= j <= v.len(),
{
    let mut j = i;
    while j < v.len() && v[j] != c
        invariant
            i <= j <= v.len(),
            next_of(v@, c, j as int) == next_of(v@, c, i as int),
        decreases v.len() - j,
    {
        j += 1;
    }
    j
}

/// The pieces of `s[i..]` between occurrences of `sep`. There is always at
/// least one piece; pieces may be empty.
pub open spec fn pieces(s: Seq<char>, sep: char, i: int) -> Seq<Seq<char>>
    decreases s.len() - i,
{
    let e = next_of(s, sep, i);
    if 0 <= i <= e < s.len() {
        seq![s.subrange(i, e)] + pieces(s, sep, e + 1)
    } else {
        seq![s.subrange(i, s.len() as int)]
    }
}

/// Splits `s` at every `sep`.
pub fn split(s: &str, sep: char) -> (parts: Vec<String>)
    ensures
        parts.deep_view() == pieces(s@, sep, 0),
{
    let v = chars_of(s);
    let mut parts: Vec<String> = Vec::new();
    let mut i: usize = 0;
    loop
        invariant
            v@ == s@,
            i <= v.len(),
            parts.deep_view() + pieces(v@, sep, i as int) == pieces(v@, sep, 0),
        decreases v.len() - i,
    {
        let e = find_from(&v, sep, i);
        parts.push(string_of(&v, i, e));
        if e < v.len() {
            i = e + 1;
        } else {
            return parts;
        }
    }
}

/// For each character of `s`, whether it is white space.
pub open spec fn spaces(s: Seq<char>) -> Seq<bool> {
    Seq::new(s.len(), |i: int| whitespace(s[i]))
}

/// Whether position `i` is marked in `marks`; a position without a mark
/// counts as not marked.
pub open spec fn marked(marks: Seq<bool>, i: int) -> bool {
    0 <= i < marks.len() && marks[i]
}

/// First position from `i` on that is not marked as white space, but not
/// beyond `limit`.
pub open spec fn solid_start(space: Seq<bool>, limit: int, i: int) -> int
    decreases limit - i,
{
    if 0 <= i < limit && marked(space, i) {
        solid_start(space, limit, i + 1)
    } else {
        i
    }
}

/// The position after the last one before `j` that is not marked as white
/// space, but not less than `from`.
pub open spec fn solid_end(space: Seq<bool>, from: int, j: int) -> int
    decreases j,
{
    if 0 <= from < j && marked(space, j - 1) {
        solid_end(space, from, j - 1)
    } else {
        j
    }
}

/// `s` without the characters at its start and at its end that are marked
/// as white space in `space`.
pub open spec fn trimmed_with(s: Seq<char>, space: Seq<bool>) -> Seq<char> {
    let a = solid_start(space, s.len() as int, 0);
    s.subrange(a, solid_end(space, a, s.len() as int))
}

/// `s` without the white space at its start and at its end.
pub open spec fn trimmed(s: Seq<char>) -> Seq<char> {
    trimmed_with(s, spaces(s))
}

/// Marks the characters that are white space.
pub fn spaces_of(v: &Vec<char>) -> (space: Vec<bool>)
    ensures
        space@ == spaces(v@),
{
    let mut space: Vec<bool> = Vec::new();
    let mut i: usize = 0;
    while i < v.len()
        invariant
            i <= v.len(),
            space.len() == i,
            forall|k: int| 0 <= k < i ==> space[k] == spaces(v@)[k],
        decreases v.len() - i,
    {
        space.push(v[i].is_whitespace());
        i += 1;
    }
    space
}

/// The bounds of what is left of `limit` characters when those at the start
/// and at the end that are marked as white space in `space` are taken off.
pub fn solid_bounds(space: &Vec<bool>, limit: usize) -> (r: (usize, usize))
    ensures
        r.0 == solid_start(space@, limit as int, 0),
        r.1 == solid_end(space@, r.0 as int, limit as int),
        r.0 <= r.1 <= limit,
{
    let mut a: usize = 0;
    while a < limit && a < space.len() && space[a]
        invariant
            a <= limit,
            solid_start(space@, limit as int, a as int) == solid_start(space@, limit as int, 0),
        decreases limit - a,
    {
        a += 1;
    }
    let mut b: usize = limit;
    while a < b && b - 1 < space.len() && space[b - 1]
        invariant
            a <= b <= limit,
            solid_end(space@, a as int, b as int) == solid_end(space@, a as int, limit as int),
        decreases b,
    {
        b -= 1;
    }
    (a, b)
}

/// Removes from the characters `v` those at the start and at the end that
/// are marked as white space in `space`.
pub fn trim_classified(v: &Vec<char>, space: &Vec<bool>) -> (r: String)
    ensures
        r@ == trimmed_with(v@, space@),
{
    let (a, b) = solid_bounds(space, v.len());
    string_of(v, a, b)
}

/// Removes the white space at both ends of `s`.
pub fn trim(s: &str) -> (r: String)
    ensures
        r@ == trimmed(s@),
{
    let v = chars_of(s);
    let space = spaces_of(&v);
    trim_classified(&v, &space)
}

/// The words of `words` with a single space between neighbours.
pub open spec fn spaced(words: Seq<Seq<char>>) -> Seq<char>
    decreases words.len(),
{
    if words.len() == 0 {
        Seq::empty()
    } else if words.len() == 1 {
        words[0]
    } else {
        spaced(words.drop_last()) + seq![' '] + words.last()
    }
}

/// Joins `words[from..]` with single spaces.
pub fn join_from(words: &[String], from: usize) -> (s: String)
    requires
        from <= words.len(),
    ensures
        s@ == spaced(words.deep_view().skip(from as int)),
{
    let ghost all = words.deep_view().skip(from as int);
    let mut s = String::new();
    let mut i: usize = from;
    while i < words.len()
        invariant
            from <= i <= words.len(),
            all == words.deep_view().skip(from as int),
            s@ == spaced(all.take(i - from)),
        decreases words.len() - i,
    {
        proof {
            let next = all.take(i - from + 1);
            assert(next.drop_last() =~= all.take(i - from));
        }
        if i > from {
            s.push(' ');
        }
        s.append(words[i].as_str());
        i += 1;
    }
    assert(all.take(i - from) =~= all);
    s
}

} // verus!
