//! Character-level scanning primitives shared by the grammar and the parser.
//!
//! All positions are character indices into the input sequence. Each spec
//! function has an executable counterpart proved to compute exactly it.

use vstd::prelude::*;

verus! {

/// Horizontal whitespace: what may separate tokens within a line.
pub open spec fn is_hspace(c: char) -> bool {
    c == ' ' || c == '\t'
}

/// Any whitespace, including line breaks.
pub open spec fn is_wspace(c: char) -> bool {
    c == ' ' || c == '\t' || c == '\n' || c == '\r'
}

/// A character that ends a line.
pub open spec fn is_line_break(c: char) -> bool {
    c == '\n' || c == '\r'
}

/// First position at or after `i` that does not hold whitespace.
pub open spec fn skip_wspace(s: Seq<char>, i: int) -> int
    recommends
        0 <= i <= s.len(),
    decreases s.len() - i when 0 <= i <= s.len()
{
    if i < s.len() && is_wspace(s[i]) {
        skip_wspace(s, i + 1)
    } else {
        i
    }
}

/// First position at or after `i` that does not hold horizontal whitespace.
pub open spec fn skip_hspace(s: Seq<char>, i: int) -> int
    recommends
        0 <= i <= s.len(),
    decreases s.len() - i when 0 <= i <= s.len()
{
    if i < s.len() && is_hspace(s[i]) {
        skip_hspace(s, i + 1)
    } else {
        i
    }
}

/// First position at or after `i` holding a line break, or the length.
pub open spec fn find_line_end(s: Seq<char>, i: int) -> int
    recommends
        0 <= i <= s.len(),
    decreases s.len() - i when 0 <= i <= s.len()
{
    if i < s.len() && !is_line_break(s[i]) {
        find_line_end(s, i + 1)
    } else {
        i
    }
}

/// First position at or after `i` holding `c`, or the length.
pub open spec fn find_char(s: Seq<char>, i: int, c: char) -> int
    recommends
        0 <= i <= s.len(),
    decreases s.len() - i when 0 <= i <= s.len()
{
    if i < s.len() && s[i] != c {
        find_char(s, i + 1, c)
    } else {
        i
    }
}

pub proof fn lemma_skip_wspace_bounds(s: Seq<char>, i: int)
    requires
        0 <= i <= s.len(),
    ensures
        i <= skip_wspace(s, i) <= s.len(),
        forall|k: int| i <= k < skip_wspace(s, i) ==> is_wspace(s[k]),
        skip_wspace(s, i) < s.len() ==> !is_wspace(s[skip_wspace(s, i)]),
    decreases s.len() - i,
{
    if i < s.len() && is_wspace(s[i]) {
        lemma_skip_wspace_bounds(s, i + 1);
    }
}

pub proof fn lemma_skip_hspace_bounds(s: Seq<char>, i: int)
    requires
        0 <= i <= s.len(),
    ensures
        i <= skip_hspace(s, i) <= s.len(),
        forall|k: int| i <= k < skip_hspace(s, i) ==> is_hspace(s[k]),
        skip_hspace(s, i) < s.len() ==> !is_hspace(s[skip_hspace(s, i)]),
    decreases s.len() - i,
{
    if i < s.len() && is_hspace(s[i]) {
        lemma_skip_hspace_bounds(s, i + 1);
    }
}

pub proof fn lemma_find_line_end_bounds(s: Seq<char>, i: int)
    requires
        0 <= i <= s.len(),
    ensures
        i <= find_line_end(s, i) <= s.len(),
        forall|k: int| i <= k < find_line_end(s, i) ==> !is_line_break(s[k]),
        find_line_end(s, i) < s.len() ==> is_line_break(s[find_line_end(s, i)]),
    decreases s.len() - i,
{
    if i < s.len() && !is_line_break(s[i]) {
        lemma_find_line_end_bounds(s, i + 1);
    }
}

pub proof fn lemma_find_char_bounds(s: Seq<char>, i: int, c: char)
    requires
        0 <= i <= s.len(),
    ensures
        i <= find_char(s, i, c) <= s.len(),
        forall|k: int| i <= k < find_char(s, i, c) ==> s[k] != c,
        find_char(s, i, c) < s.len() ==> s[find_char(s, i, c)] == c,
    decreases s.len() - i,
{
    if i < s.len() && s[i] != c {
        lemma_find_char_bounds(s, i + 1, c);
    }
}

/// The scan results are determined by where the scanned class ends; these
/// inversions let a caller that knows the characters compute the results.
pub proof fn lemma_skip_wspace_at(s: Seq<char>, i: int, j: int)
    requires
        0 <= i <= j <= s.len(),
        forall|k: int| i <= k < j ==> is_wspace(s[k]),
        j < s.len() ==> !is_wspace(s[j]),
    ensures
        skip_wspace(s, i) == j,
    decreases j - i,
{
    if i < j {
        lemma_skip_wspace_at(s, i + 1, j);
    }
}

pub proof fn lemma_skip_hspace_at(s: Seq<char>, i: int, j: int)
    requires
        0 <= i <= j <= s.len(),
        forall|k: int| i <= k < j ==> is_hspace(s[k]),
        j < s.len() ==> !is_hspace(s[j]),
    ensures
        skip_hspace(s, i) == j,
    decreases j - i,
{
    if i < j {
        lemma_skip_hspace_at(s, i + 1, j);
    }
}

pub proof fn lemma_find_line_end_at(s: Seq<char>, i: int, j: int)
    requires
        0 <= i <= j <= s.len(),
        forall|k: int| i <= k < j ==> !is_line_break(s[k]),
        j < s.len() ==> is_line_break(s[j]),
    ensures
        find_line_end(s, i) == j,
    decreases j - i,
{
    if i < j {
        lemma_find_line_end_at(s, i + 1, j);
    }
}

pub proof fn lemma_find_char_at(s: Seq<char>, i: int, j: int, c: char)
    requires
        0 <= i <= j <= s.len(),
        forall|k: int| i <= k < j ==> s[k] != c,
        j < s.len() ==> s[j] == c,
    ensures
        find_char(s, i, c) == j,
    decreases j - i,
{
    if i < j {
        lemma_find_char_at(s, i + 1, j, c);
    }
}

/// Executable test for horizontal whitespace.
pub fn hspace_char(c: char) -> (r: bool)
    ensures
        r == is_hspace(c),
{
    c == ' ' || c == '\t'
}

/// Executable test for whitespace.
pub fn wspace_char(c: char) -> (r: bool)
    ensures
        r == is_wspace(c),
{
    c == ' ' || c == '\t' || c == '\n' || c == '\r'
}

/// Executable test for a line break.
pub fn line_break_char(c: char) -> (r: bool)
    ensures
        r == is_line_break(c),
{
    c == '\n' || c == '\r'
}

/// Advance past whitespace.
pub fn scan_wspace(s: &str, i: usize) -> (r: usize)
    requires
        i <= s@.len(),
    ensures
        r == skip_wspace(s@, i as int),
        i <= r <= s@.len(),
{
    let n: usize = s.unicode_len();
    let mut j: usize = i;
    while j < n && wspace_char(s.get_char(j))
        invariant
            i <= j <= n,
            n == s@.len(),
            skip_wspace(s@, i as int) == skip_wspace(s@, j as int),
        decreases n - j,
    {
        j = j + 1;
    }
    j
}

/// Advance past horizontal whitespace.
pub fn scan_hspace(s: &str, i: usize) -> (r: usize)
    requires
        i <= s@.len(),
    ensures
        r == skip_hspace(s@, i as int),
        i <= r <= s@.len(),
{
    let n: usize = s.unicode_len();
    let mut j: usize = i;
    while j < n && hspace_char(s.get_char(j))
        invariant
            i <= j <= n,
            n == s@.len(),
            skip_hspace(s@, i as int) == skip_hspace(s@, j as int),
        decreases n - j,
    {
        j = j + 1;
    }
    j
}

/// Advance to the end of the current line.
pub fn scan_line_end(s: &str, i: usize) -> (r: usize)
    requires
        i <= s@.len(),
    ensures
        r == find_line_end(s@, i as int),
        i <= r <= s@.len(),
{
    let n: usize = s.unicode_len();
    let mut j: usize = i;
    while j < n && !line_break_char(s.get_char(j))
        invariant
            i <= j <= n,
            n == s@.len(),
            find_line_end(s@, i as int) == find_line_end(s@, j as int),
        decreases n - j,
    {
        j = j + 1;
    }
    j
}

/// Advance to the next occurrence of `c`.
pub fn scan_to_char(s: &str, i: usize, c: char) -> (r: usize)
    requires
        i <= s@.len(),
    ensures
        r == find_char(s@, i as int, c),
        i <= r <= s@.len(),
{
    let n: usize = s.unicode_len();
    let mut j: usize = i;
    while j < n && s.get_char(j) != c
        invariant
            i <= j <= n,
            n == s@.len(),
            find_char(s@, i as int, c) == find_char(s@, j as int, c),
        decreases n - j,
    {
        j = j + 1;
    }
    j
}

} // verus!
