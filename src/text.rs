//! Character-level helpers on strings: whitespace, prefixes, substring search,
//! and shell-style word splitting.
use vstd::prelude::*;
use vstd::string::StringSliceAdditionalSpecFns;

verus! {

/// The characters that carry the Unicode `White_Space` property.
pub open spec fn is_white_space(c: char) -> bool {
    let u = c as u32;
    (0x09 <= u && u <= 0x0d) || u == 0x20 || u == 0x85 || u == 0xa0 || u == 0x1680 || (0x2000
        <= u && u <= 0x200a) || u == 0x2028 || u == 0x2029 || u == 0x202f || u == 0x205f || u
        == 0x3000
}

/// Whether `c` is whitespace, with the meaning of `char::is_whitespace`.
pub fn is_whitespace(c: char) -> (r: bool)
    ensures
        r == is_white_space(c),
{
    let u = c as u32;
    (0x09 <= u && u <= 0x0d) || u == 0x20 || u == 0x85 || u == 0xa0 || u == 0x1680 || (0x2000
        <= u && u <= 0x200a) || u == 0x2028 || u == 0x2029 || u == 0x202f || u == 0x205f || u
        == 0x3000
}

/// Whether the last character of `s` is whitespace.
pub open spec fn ends_in_white_space(s: Seq<char>) -> bool {
    s.len() > 0 && is_white_space(s.last())
}

pub fn ends_with_whitespace(s: &str) -> (r: bool)
    ensures
        r == ends_in_white_space(s@),
{
    let n = s.unicode_len();
    if n == 0 {
        false
    } else {
        is_whitespace(s.get_char(n - 1))
    }
}

/// `p` is a prefix of `s`.
pub open spec fn has_prefix(s: Seq<char>, p: Seq<char>) -> bool {
    p.len() <= s.len() && s.take(p.len() as int) == p
}

pub fn starts_with(s: &str, p: &str) -> (r: bool)
    ensures
        r == has_prefix(s@, p@),
{
    let n = s.unicode_len();
    let m = p.unicode_len();
    if m > n {
        return false;
    }
    let mut i: usize = 0;
    while i < m
        invariant
            m == p@.len(),
            n == s@.len(),
            m <= n,
            i <= m,
            s@.take(i as int) == p@.take(i as int),
        decreases m - i,
    {
        if s.get_char(i) != p.get_char(i) {
            assert(s@.take(m as int)[i as int] != p@[i as int]);
            return false;
        }
        assert(s@.take(i + 1) =~= s@.take(i as int).push(s@[i as int]));
        assert(p@.take(i + 1) =~= p@.take(i as int).push(p@[i as int]));
        i = i + 1;
    }
    assert(p@.take(m as int) =~= p@);
    true
}

/// What remains of `s` after its prefix `p`, if `p` is a prefix of `s`.
pub fn strip_prefix<'a>(s: &'a str, p: &str) -> (r: Option<&'a str>)
    ensures
        r is Some <==> has_prefix(s@, p@),
        r matches Some(rest) ==> rest@ == s@.skip(p@.len() as int),
{
    if starts_with(s, p) {
        let n = s.unicode_len();
        let m = p.unicode_len();
        Some(s.substring_char(m, n))
    } else {
        None
    }
}

/// The bytes `p` stand in `h` from index `i` on.
pub open spec fn occurs_at(h: Seq<u8>, p: Seq<u8>, i: int) -> bool {
    0 <= i && i + p.len() <= h.len() && h.subrange(i, i + p.len()) == p
}

/// The greatest index not above `n` at which `p` stands in `h`.
pub open spec fn last_occurrence_upto(h: Seq<u8>, p: Seq<u8>, n: int) -> Option<int>
    decreases n + 1,
{
    if n < 0 {
        None
    } else if occurs_at(h, p, n) {
        Some(n)
    } else {
        last_occurrence_upto(h, p, n - 1)
    }
}

/// The greatest index at which `p` stands in `h`.
pub open spec fn last_occurrence(h: Seq<u8>, p: Seq<u8>) -> Option<int> {
    last_occurrence_upto(h, p, h.len() - p.len())
}

/// The byte index of the last occurrence of `pat` in `hay`, as `str::rfind` gives it.
pub fn rfind(hay: &str, pat: &str) -> (r: Option<usize>)
    ensures
        r matches Some(i) ==> last_occurrence(hay.spec_bytes(), pat.spec_bytes()) == Some(i as int),
        r is None ==> last_occurrence(hay.spec_bytes(), pat.spec_bytes()) is None,
{
    let h = hay.as_bytes();
    let p = pat.as_bytes();
    let hl = h.len();
    let pl = p.len();
    if pl > hl {
        return None;
    }
    let mut i: usize = hl - pl;
    loop
        invariant
            h@ == hay.spec_bytes(),
            p@ == pat.spec_bytes(),
            hl == h@.len(),
            pl == p@.len(),
            i + pl <= hl,
            last_occurrence(h@, p@) == last_occurrence_upto(h@, p@, i as int),
        decreases i,
    {
        let mut j: usize = 0;
        let mut same = true;
        assert(h@.subrange(i as int, i as int) =~= p@.take(0));
        while j < pl
            invariant
                h@ == hay.spec_bytes(),
                p@ == pat.spec_bytes(),
                hl == h@.len(),
                pl == p@.len(),
                i + pl <= hl,
                j <= pl,
                same == (h@.subrange(i as int, i + j) == p@.take(j as int)),
            decreases pl - j,
        {
            if same {
                if h[i + j] != p[j] {
                    assert(h@.subrange(i as int, i + j + 1)[j as int] != p@.take(j + 1)[j as int]);
                    same = false;
                } else {
                    assert(h@.subrange(i as int, i + j + 1) =~= h@.subrange(i as int, i + j).push(h@[i + j]));
                    assert(p@.take(j + 1) =~= p@.take(j as int).push(p@[j as int]));
                }
            } else {
                assert(h@.subrange(i as int, i + j + 1).take(j as int) =~= h@.subrange(i as int, i + j));
                assert(p@.take(j + 1).take(j as int) =~= p@.take(j as int));
            }
            j = j + 1;
        }
        assert(p@.take(pl as int) =~= p@);
        if same {
            return Some(i);
        }
        if i == 0 {
            assert(last_occurrence_upto(h@, p@, -1) is None);
            return None;
        }
        i = i - 1;
    }
}

/// The words that `shell_words::split` makes of a line, or `None` where it
/// reports an unclosed quote or escape.
pub uninterp spec fn shell_split(line: Seq<char>) -> Option<Seq<Seq<char>>>;

/// The views of a sequence of strings.
pub open spec fn strings_view(v: Seq<String>) -> Seq<Seq<char>> {
    v.map_values(|s: String| s@)
}

#[verifier::external_type_specification]
#[verifier::external_body]
pub struct ExParseError(shell_words::ParseError);

/// Relies on `shell_words::split`: POSIX-style word splitting with quotes and
/// escapes, failing on a quote left open. The words depend on the line alone.
#[verifier::external_body]
fn split_words(line: &str) -> (r: Result<Vec<String>, shell_words::ParseError>)
    ensures
        r matches Ok(words) ==> shell_split(line@) == Some(strings_view(words@)),
        r is Err ==> shell_split(line@) is None,
{
    shell_words::split(line)
}

/// A line could not be split into words: a quote or escape was left open.
#[derive(Debug, Clone, Copy, PartialEq, Eq)]
pub struct TokenizeError;

/// Splits a line into shell words.
pub fn tokenize(line: &str) -> (r: Result<Vec<String>, TokenizeError>)
    ensures
        r matches Ok(words) ==> shell_split(line@) == Some(strings_view(words@)),
        r is Err <==> shell_split(line@) is None,
{
    match split_words(line) {
        Ok(words) => Ok(words),
        Err(_) => Err(TokenizeError),
    }
}

} // verus!
