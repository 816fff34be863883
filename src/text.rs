use vstd::prelude::*;
use vstd::string::*;

verus! {

/// The decimal digit for `d < 10`.
pub open spec fn digit_char(d: nat) -> char {
    seq!['0', '1', '2', '3', '4', '5', '6', '7', '8', '9'][d as int]
}

/// The decimal writing of `n`: no sign, no leading zeros.
pub open spec fn decimal_of(n: nat) -> Seq<char>
    decreases n,
{
    if n < 10 {
        seq![digit_char(n)]
    } else {
        decimal_of(n / 10).push(digit_char(n % 10))
    }
}

/// Relies on `ToString` through `Display` for `u32`: the plain decimal digits.
#[verifier::external_body]
pub(crate) fn decimal_string(n: u32) -> (r: String)
    ensures
        r@ == decimal_of(n as nat),
{
    n.to_string()
}


/// Unicode's White_Space property, which `char::is_whitespace` tests.
pub open spec fn white_space(c: char) -> bool {
    let n = c as u32;
    ||| n == 0x20
    ||| 0x09 <= n <= 0x0d
    ||| n == 0x85
    ||| n == 0xa0
    ||| n == 0x1680
    ||| 0x2000 <= n <= 0x200a
    ||| n == 0x2028
    ||| n == 0x2029
    ||| n == 0x202f
    ||| n == 0x205f
    ||| n == 0x3000
}

/// The pieces of `s` between occurrences of `sep`, empty pieces included.
pub open spec fn split_on(s: Seq<char>, sep: char) -> Seq<Seq<char>>
    decreases s.len(),
{
    if s.len() == 0 {
        seq![seq![]]
    } else {
        let r = split_on(s.drop_last(), sep);
        if s.last() == sep {
            r.push(seq![])
        } else {
            r.update(r.len() - 1, r.last().push(s.last()))
        }
    }
}

/// The maximal runs of non-white-space characters of `s`, in order.
pub open spec fn words(s: Seq<char>) -> Seq<Seq<char>>
    decreases s.len(),
{
    if s.len() == 0 {
        seq![]
    } else {
        let r = words(s.drop_last());
        let c = s.last();
        if white_space(c) {
            r
        } else if s.len() >= 2 && !white_space(s[s.len() - 2]) && r.len() > 0 {
            r.update(r.len() - 1, r.last().push(c))
        } else {
            r.push(seq![c])
        }
    }
}

/// `s` without its leading white space.
pub open spec fn trim_start(s: Seq<char>) -> Seq<char>
    decreases s.len(),
{
    if s.len() > 0 && white_space(s[0]) {
        trim_start(s.drop_first())
    } else {
        s
    }
}

/// `s` without its trailing white space.
pub open spec fn trim_end(s: Seq<char>) -> Seq<char>
    decreases s.len(),
{
    if s.len() > 0 && white_space(s.last()) {
        trim_end(s.drop_last())
    } else {
        s
    }
}

/// `s` without leading and trailing white space.
pub open spec fn trim(s: Seq<char>) -> Seq<char> {
    trim_end(trim_start(s))
}

/// Whether `s` begins with `#`.
pub open spec fn is_comment(s: Seq<char>) -> bool {
    s.len() > 0 && s[0] == '#'
}

/// The value of a string of decimal digits.
pub open spec fn digits_value(s: Seq<char>) -> nat
    decreases s.len(),
{
    if s.len() == 0 {
        0
    } else {
        digits_value(s.drop_last()) * 10 + (s.last() as u32 - '0' as u32) as nat
    }
}

/// Whether every character of `s` is an ASCII digit.
pub open spec fn all_digits(s: Seq<char>) -> bool {
    forall|i: int| 0 <= i < s.len() ==> '0' <= #[trigger] s[i] <= '9'
}

/// The `u32` that `s` writes in decimal, with an optional leading `+`, if it fits.
pub open spec fn u32_of(s: Seq<char>) -> Option<u32> {
    let t = if s.len() > 0 && s[0] == '+' { s.drop_first() } else { s };
    if t.len() > 0 && all_digits(t) && digits_value(t) <= u32::MAX {
        Some(digits_value(t) as u32)
    } else {
        None
    }
}

/// The values of a list of strings.
pub open spec fn strings_view(v: Seq<String>) -> Seq<Seq<char>> {
    v.map_values(|s: String| s@)
}

/// Relies on `str::split` with a `char` pattern: the pieces between separators.
#[verifier::external_body]
pub(crate) fn split_char(s: &str, sep: char) -> (r: Vec<String>)
    ensures
        strings_view(r@) == split_on(s@, sep),
{
    s.split(sep).map(|p| p.to_string()).collect()
}

/// Relies on `str::split_whitespace`: the runs between White_Space characters.
#[verifier::external_body]
pub(crate) fn split_words(s: &str) -> (r: Vec<String>)
    ensures
        strings_view(r@) == words(s@),
{
    s.split_whitespace().map(|p| p.to_string()).collect()
}

/// Relies on `str::trim`: leading and trailing White_Space removed.
#[verifier::external_body]
pub(crate) fn trim_str(s: &str) -> (r: &str)
    ensures
        r@ == trim(s@),
{
    s.trim()
}

/// Relies on `FromStr` for `u32`: optional `+`, then decimal digits, no overflow.
#[verifier::external_body]
pub(crate) fn parse_u32(s: &str) -> (r: Option<u32>)
    ensures
        r == u32_of(s@),
{
    s.parse::<u32>().ok()
}

/// Whether the text begins with `#`.
pub fn starts_with_hash(s: &str) -> (r: bool)
    ensures
        r == is_comment(s@),
{
    s.unicode_len() > 0 && s.get_char(0) == '#'
}


/// Copies of the strings of `v` from position `from` on.
pub fn strings_from(v: &Vec<String>, from: usize) -> (r: Vec<String>)
    requires
        from <= v@.len(),
    ensures
        strings_view(r@) == strings_view(v@).subrange(from as int, v@.len() as int),
{
    let mut r: Vec<String> = Vec::new();
    let mut j: usize = from;
    while j < v.len()
        invariant
            from <= j <= v@.len(),
            strings_view(r@) == strings_view(v@).subrange(from as int, j as int),
        decreases v@.len() - j,
    {
        let ghost prev = r@;
        let c = v[j].clone();
        assert(c@ == v@[j as int]@);
        r.push(c);
        assert(r@ == prev.push(c));
        let ghost a = strings_view(r@);
        let ghost b = strings_view(v@).subrange(from as int, j + 1);
        assert(strings_view(prev).len() == prev.len());
        assert(prev.len() == j - from);
        assert(a.len() == b.len());
        assert forall|k: int| 0 <= k < a.len() implies a[k] == b[k] by {
            if k < a.len() - 1 {
                assert(a[k] == strings_view(prev)[k]);
            }
        }
        assert(a =~= b);
        j = j + 1;
    }
    r
}


/// The number that a field writes, or 0 where it writes none.
pub open spec fn number_or_zero(s: Seq<char>) -> u32 {
    match u32_of(s) {
        Some(n) => n,
        None => 0,
    }
}

/// The fields of a line of a colon-separated file, once trimmed.
pub open spec fn colon_fields(line: Seq<char>) -> Seq<Seq<char>> {
    split_on(trim(line), ':')
}

/// Whether a trimmed line is neither blank nor a comment.
pub open spec fn is_content_line(line: Seq<char>) -> bool {
    trim(line).len() > 0 && !is_comment(trim(line))
}

/// Reads a numeric field; what is not a `u32` counts as 0.
pub fn field_number(s: &str) -> (r: u32)
    ensures
        r == number_or_zero(s@),
{
    match parse_u32(s) {
        Some(n) => n,
        None => 0,
    }
}


/// Whether `c` occurs in `s`.
pub open spec fn has_char(s: Seq<char>, c: char) -> bool {
    exists|i: int| 0 <= i < s.len() && s[i] == c
}

/// The position of the first `c` in `s` (the length of `s` where there is none).
pub open spec fn first_index_of(s: Seq<char>, c: char) -> int
    decreases s.len(),
{
    if s.len() == 0 {
        0
    } else if s[0] == c {
        0
    } else {
        1 + first_index_of(s.drop_first(), c)
    }
}

/// Relies on `str::split_once` with a `char` pattern: the text before and after
/// the first occurrence, or nothing where it does not occur.
#[verifier::external_body]
pub(crate) fn split_once_char(s: &str, sep: char) -> (r: Option<(String, String)>)
    ensures
        r is Some <==> has_char(s@, sep),
        r is Some ==> {
            &&& r->Some_0.0@ == s@.take(first_index_of(s@, sep))
            &&& r->Some_0.1@ == s@.skip(first_index_of(s@, sep) + 1)
        },
{
    s.split_once(sep).map(|(a, b)| (a.to_string(), b.to_string()))
}


/// Appends copies of the strings of `src` from position `from` on.
pub fn push_strings_from(dst: &mut Vec<String>, src: &Vec<String>, from: usize)
    requires
        from <= src@.len(),
    ensures
        strings_view(final(dst)@) == strings_view(old(dst)@) + strings_view(src@).subrange(
            from as int,
            src@.len() as int,
        ),
{
    let tail = strings_from(src, from);
    let ghost start = strings_view(dst@);
    let mut j: usize = 0;
    while j < tail.len()
        invariant
            j <= tail@.len(),
            start == strings_view(old(dst)@),
            strings_view(dst@) == start + strings_view(tail@).take(j as int),
        decreases tail@.len() - j,
    {
        let ghost prev = dst@;
        let c = tail[j].clone();
        dst.push(c);
        assert(dst@ == prev.push(c));
        let ghost a = strings_view(dst@);
        let ghost b = start + strings_view(tail@).take(j + 1);
        assert(strings_view(prev).len() == prev.len());
        assert(a.len() == b.len());
        assert forall|k: int| 0 <= k < a.len() implies a[k] == b[k] by {
            if k < a.len() - 1 {
                assert(a[k] == strings_view(prev)[k]);
            }
        }
        assert(a =~= b);
        j = j + 1;
    }
    assert(strings_view(tail@).take(tail@.len() as int) == strings_view(tail@));
}


/// Relies on `ToString` through `Display` for `usize`: the plain decimal digits.
#[verifier::external_body]
pub(crate) fn decimal_string_usize(n: usize) -> (r: String)
    ensures
        r@ == decimal_of(n as nat),
{
    n.to_string()
}

} // verus!
