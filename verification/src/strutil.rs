//! Verified string routines: searching for a character, splitting on a
//! separator, substring containment, file-name extraction and the three-line
//! header prefix of a host document.
use vstd::prelude::*;
use vstd::string::*;

verus! {

/// The first position at or after `i` holding `c`, or `s.len()` if none does.
pub open spec fn find_from(s: Seq<char>, c: char, i: int) -> int
    decreases s.len() - i when 0 <= i <= s.len()
{
    if i >= s.len() {
        s.len() as int
    } else if s[i] == c {
        i
    } else {
        find_from(s, c, i + 1)
    }
}

/// `find_from` points at the first occurrence: nothing before it matches,
/// and it matches unless it is the end.
pub proof fn lemma_find_from(s: Seq<char>, c: char, from: int)
    requires
        0 <= from <= s.len(),
    ensures
        from <= find_from(s, c, from) <= s.len(),
        find_from(s, c, from) < s.len() ==> s[find_from(s, c, from)] == c,
        forall|j: int| from <= j < find_from(s, c, from) ==> s[j] != c,
    decreases s.len() - from,
{
    if from < s.len() && s[from] != c {
        lemma_find_from(s, c, from + 1);
    }
}

/// A position that matches, with no match before it, is what `find_from`
/// returns; if nothing from `from` on matches, `find_from` returns the end.
pub proof fn lemma_find_from_at(s: Seq<char>, c: char, from: int, i: int)
    requires
        0 <= from <= i <= s.len(),
        forall|j: int| from <= j < i ==> s[j] != c,
        i < s.len() ==> s[i] == c,
    ensures
        find_from(s, c, from) == i,
    decreases i - from,
{
    if from < i {
        lemma_find_from_at(s, c, from + 1, i);
    }
}

/// The first position at or after `from` holding `c`, or the length if none
/// does.
pub fn find_char(s: &str, c: char, from: usize) -> (r: usize)
    requires
        from <= s@.len(),
    ensures
        r == find_from(s@, c, from as int),
{
    let n = s.unicode_len();
    let mut i = from;
    while i < n
        invariant
            from <= i <= n,
            n == s@.len(),
            forall|j: int| from <= j < i ==> s@[j] != c,
        decreases n - i,
    {
        if s.get_char(i) == c {
            proof {
                lemma_find_from_at(s@, c, from as int, i as int);
            }
            return i;
        }
        i = i + 1;
    }
    proof {
        lemma_find_from_at(s@, c, from as int, n as int);
    }
    n
}

/// The pieces of `s` between occurrences of `sep`, in order. A string
/// without the separator is one piece; every separator ends a piece, so
/// `n` separators give `n + 1` pieces.
pub open spec fn spec_split(s: Seq<char>, sep: char) -> Seq<Seq<char>>
    decreases s.len()
    via spec_split_decreases
{
    if find_from(s, sep, 0) == s.len() {
        seq![s]
    } else {
        seq![s.take(find_from(s, sep, 0))] + spec_split(s.skip(find_from(s, sep, 0) + 1), sep)
    }
}

#[via_fn]
proof fn spec_split_decreases(s: Seq<char>, sep: char) {
    lemma_find_from(s, sep, 0);
}

/// Splits `s` on `sep`.
pub fn split_str(s: &str, sep: char) -> (r: Vec<String>)
    ensures
        r@.len() == spec_split(s@, sep).len(),
        forall|i: int| 0 <= i < r@.len() ==> r@[i]@ == spec_split(s@, sep)[i],
    decreases s@.len(),
{
    let n = s.unicode_len();
    let j = find_char(s, sep, 0);
    proof {
        lemma_find_from(s@, sep, 0);
    }
    if j == n {
        let mut v: Vec<String> = Vec::new();
        v.push(s.to_owned());
        assert(spec_split(s@, sep) == seq![s@]);
        v
    } else {
        let head = s.substring_char(0, j);
        let rest = s.substring_char(j + 1, n);
        let mut r = split_str(rest, sep);
        r.insert(0, head.to_owned());
        proof {
            assert(rest@ =~= s@.skip(j as int + 1));
            assert(head@ =~= s@.take(j as int));
            assert(spec_split(s@, sep) == seq![s@.take(j as int)] + spec_split(
                s@.skip(j as int + 1),
                sep,
            ));
        }
        r
    }
}

/// `needle` occurs contiguously somewhere inside `hay`.
pub open spec fn contains_seq(hay: Seq<char>, needle: Seq<char>) -> bool {
    exists|i: int|
        0 <= i <= hay.len() - needle.len() && #[trigger] hay.subrange(i, i + needle.len() as int)
            == needle
}

/// Whether `hay` matches `needle` starting at position `i`.
fn match_at(hay: &str, needle: &str, i: usize) -> (r: bool)
    requires
        i + needle@.len() <= hay@.len(),
        hay@.len() <= usize::MAX,
    ensures
        r == (hay@.subrange(i as int, i as int + needle@.len() as int) == needle@),
{
    let n = needle.unicode_len();
    let mut j: usize = 0;
    while j < n
        invariant
            j <= n,
            n == needle@.len(),
            i + n <= hay@.len(),
            hay@.len() <= usize::MAX,
            forall|k: int| 0 <= k < j ==> hay@[i + k] == needle@[k],
        decreases n - j,
    {
        if s_get(hay, i + j) != s_get(needle, j) {
            proof {
                assert(hay@.subrange(i as int, i as int + n as int)[j as int] == hay@[i + j]);
            }
            return false;
        }
        j = j + 1;
    }
    proof {
        assert(hay@.subrange(i as int, i as int + n as int) =~= needle@);
    }
    true
}

/// One character of `s`.
fn s_get(s: &str, i: usize) -> (c: char)
    requires
        i < s@.len(),
    ensures
        c == s@[i as int],
{
    s.get_char(i)
}

/// Whether `needle` occurs contiguously inside `hay`.
pub fn contains_sub(hay: &str, needle: &str) -> (r: bool)
    ensures
        r == contains_seq(hay@, needle@),
{
    let h = hay.unicode_len();
    let n = needle.unicode_len();
    if n > h {
        assert(!contains_seq(hay@, needle@));
        return false;
    }
    let mut i: usize = 0;
    while i <= h - n
        invariant
            n <= h,
            h == hay@.len(),
            n == needle@.len(),
            0 <= i <= h - n + 1,
            forall|k: int| 0 <= k < i ==> #[trigger] hay@.subrange(k, k + n as int) != needle@,
        decreases h - n - i + 1,
    {
        if match_at(hay, needle, i) {
            return true;
        }
        if i == h - n {
            return false;
        }
        i = i + 1;
    }
    false
}

/// Splitting always yields at least one piece.
pub proof fn lemma_split_min_len(s: Seq<char>, sep: char)
    ensures
        spec_split(s, sep).len() >= 1,
{
    if find_from(s, sep, 0) == s.len() {
    } else {
    }
}

/// When splitting yields two or more pieces, the text ends with the
/// separator followed by the last piece.
pub proof fn lemma_split_last_suffix(s: Seq<char>, sep: char)
    ensures
        ({
            let parts = spec_split(s, sep);
            parts.len() >= 2 ==> {
                &&& parts.last().len() + 1 <= s.len()
                &&& s.skip(s.len() - parts.last().len() - 1) == seq![sep] + parts.last()
            }
        }),
    decreases s.len(),
{
    lemma_find_from(s, sep, 0);
    let i = find_from(s, sep, 0);
    if i < s.len() {
        let rest = s.skip(i + 1);
        let parts = spec_split(s, sep);
        let rparts = spec_split(rest, sep);
        lemma_split_min_len(rest, sep);
        assert(parts == seq![s.take(i)] + rparts);
        assert(parts.last() == rparts.last());
        lemma_split_last_suffix(rest, sep);
        if rparts.len() >= 2 {
            let m = rparts.last().len() as int;
            assert(s.skip(s.len() - m - 1) =~= rest.skip(rest.len() - m - 1));
        } else {
            assert(rparts.len() == 1);
            let ri = find_from(rest, sep, 0);
            lemma_find_from(rest, sep, 0);
            if ri == rest.len() {
                assert(rparts == seq![rest]);
            } else {
                lemma_split_min_len(rest.skip(ri + 1), sep);
                assert(rparts == seq![rest.take(ri)] + spec_split(rest.skip(ri + 1), sep));
                assert(false);
            }
            assert(parts.last() == rest);
            assert(s[i] == sep);
            assert(s.skip(s.len() - rest.len() - 1) =~= seq![sep] + rest);
        }
    }
}

/// A path separator: the forward slash of Unix paths or the backslash of
/// Windows paths.
pub open spec fn is_path_sep(c: char) -> bool {
    c == '/' || c == '\\'
}

/// The position of the last path separator, or -1 if none occurs.
pub open spec fn last_sep_index(s: Seq<char>) -> int
    decreases s.len(),
{
    if s.len() == 0 {
        -1
    } else if is_path_sep(s.last()) {
        s.len() - 1
    } else {
        last_sep_index(s.drop_last())
    }
}

/// A separator position with no separator after it is what
/// `last_sep_index` returns; if no separator occurs at all, it returns -1.
pub proof fn lemma_last_sep_index_at(s: Seq<char>, i: int)
    requires
        -1 <= i < s.len(),
        i >= 0 ==> is_path_sep(s[i]),
        forall|j: int| i < j < s.len() ==> !is_path_sep(s[j]),
    ensures
        last_sep_index(s) == i,
    decreases s.len(),
{
    if s.len() > 0 {
        if i == s.len() - 1 {
        } else {
            assert(!is_path_sep(s.last()));
            assert(forall|j: int| 0 <= j < s.len() - 1 ==> s.drop_last()[j] == s[j]);
            lemma_last_sep_index_at(s.drop_last(), i);
        }
    }
}

/// The part of a path after its last separator, or the whole path if it
/// has none.
pub open spec fn spec_file_name(p: Seq<char>) -> Seq<char> {
    p.skip(last_sep_index(p) + 1)
}

/// The file name of a path: what follows the last `/` or `\\`.
pub fn file_name_of(p: &str) -> (r: String)
    ensures
        r@ == spec_file_name(p@),
{
    let n = p.unicode_len();
    let mut i = n;
    while i > 0
        invariant
            i <= n,
            n == p@.len(),
            forall|j: int| i <= j < n ==> !is_path_sep(p@[j]),
        decreases i,
    {
        let c = p.get_char(i - 1);
        if c == '/' || c == '\\' {
            proof {
                lemma_last_sep_index_at(p@, i - 1);
            }
            let r = p.substring_char(i, n);
            assert(r@ =~= spec_file_name(p@));
            return r.to_owned();
        }
        i = i - 1;
    }
    proof {
        lemma_last_sep_index_at(p@, -1);
    }
    assert(p@.skip(0) =~= p@);
    p.to_owned()
}

/// Where the opaque header of a host document ends: just before its third
/// newline, or at the end of a text with fewer newlines. The header is the
/// first three lines kept verbatim, so splitting the text on newlines,
/// taking three lines and joining them again yields exactly this prefix.
pub open spec fn header_end(s: Seq<char>) -> int {
    let a = find_from(s, '\n', 0);
    if a == s.len() {
        a
    } else {
        let b = find_from(s, '\n', a + 1);
        if b == s.len() {
            b
        } else {
            find_from(s, '\n', b + 1)
        }
    }
}

/// The first three lines of a host document, verbatim, without a trailing
/// newline.
pub open spec fn header_of(s: Seq<char>) -> Seq<char> {
    s.take(header_end(s))
}

/// The bounds of `header_end`.
pub proof fn lemma_header_end(s: Seq<char>)
    ensures
        0 <= header_end(s) <= s.len(),
{
    lemma_find_from(s, '\n', 0);
    let a = find_from(s, '\n', 0);
    if a < s.len() {
        lemma_find_from(s, '\n', a + 1);
        let b = find_from(s, '\n', a + 1);
        if b < s.len() {
            lemma_find_from(s, '\n', b + 1);
        }
    }
}

/// Extracts the first three lines of a host document, verbatim.
pub fn take_header(s: &str) -> (h: String)
    ensures
        h@ == header_of(s@),
{
    let n = s.unicode_len();
    let a = find_char(s, '\n', 0);
    proof {
        lemma_find_from(s@, '\n', 0);
    }
    if a == n {
        assert(s@.take(n as int) =~= s@);
        return s.to_owned();
    }
    let b = find_char(s, '\n', a + 1);
    proof {
        lemma_find_from(s@, '\n', a as int + 1);
    }
    if b == n {
        assert(s@.take(n as int) =~= s@);
        return s.to_owned();
    }
    let c = find_char(s, '\n', b + 1);
    proof {
        lemma_find_from(s@, '\n', b as int + 1);
    }
    let r = s.substring_char(0, c);
    assert(r@ =~= header_of(s@));
    r.to_owned()
}

} // verus!
