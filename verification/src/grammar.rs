//! The annotation grammar, stated as spec functions over character sequences.
//!
//! The grammar recognizes, inside arbitrary surrounding text:
//! - a comment sequence: optional whitespace, `--`, not followed by `>`,
//!   then horizontal whitespace;
//! - a boundary marker: comment sequence + `#` (not `##`), with an optional
//!   trailing title captured to the end of the line;
//! - a section tag: comment sequence + `##`, same title capture;
//! - a keybinding in one of two forms, tried in this order:
//!   1. two-line declaration: a comment line holding the description (not
//!      starting with `#`, `!` or `"`), then the keys inside the nearest
//!      quote pair after the next `(`, scanning to the matching `)`;
//!   2. inline form: comment sequence + quoted keys + description to the end
//!      of the line;
//! - a section: section tag, then keybindings and filler lines until a
//!   boundary, another section tag, or the end of input;
//! - a document: lines are skipped until the first boundary marker (whose
//!   capture is the document title), then sections and filler until a second
//!   boundary marker or the end of input.
//!
//! All positions are character indices. A recognizer returns `None` where the
//! form does not match, otherwise the position after everything it consumed
//! (including trailing whitespace, as the source grammar is
//! whitespace-tolerant) together with what it captured.
//!
//! Captured keys and descriptions are trimmed of surrounding whitespace, and
//! an entry whose keys trim to nothing is not a keybinding: `keys` is always
//! a non-empty trimmed string.

use vstd::prelude::*;

use crate::scan::find_char;
use crate::scan::find_line_end;
use crate::scan::is_hspace;
use crate::scan::is_line_break;
use crate::scan::is_wspace;
use crate::scan::lemma_find_char_bounds;
use crate::scan::lemma_find_line_end_bounds;
use crate::scan::lemma_skip_hspace_bounds;
use crate::scan::lemma_skip_wspace_bounds;
use crate::scan::skip_hspace;
use crate::scan::skip_wspace;

verus! {

/// Mathematical model of one keybinding.
pub ghost struct KeybindView {
    pub keys: Seq<char>,
    pub description: Seq<char>,
}

/// Mathematical model of one section: a title and its keybindings in
/// appearance order.
pub ghost struct SectionView {
    pub title: Option<Seq<char>>,
    pub keybinds: Seq<KeybindView>,
}

/// Mathematical model of a parsed document: a title and its sections in
/// appearance order.
pub ghost struct DocView {
    pub title: Option<Seq<char>>,
    pub sections: Seq<SectionView>,
}

/// `s` without leading whitespace.
pub open spec fn trim_start(s: Seq<char>) -> Seq<char>
    decreases s.len(),
{
    if s.len() > 0 && is_wspace(s[0]) {
        trim_start(s.drop_first())
    } else {
        s
    }
}

/// `s` without trailing whitespace.
pub open spec fn trim_end(s: Seq<char>) -> Seq<char>
    decreases s.len(),
{
    if s.len() > 0 && is_wspace(s.last()) {
        trim_end(s.drop_last())
    } else {
        s
    }
}

/// `s` without surrounding whitespace.
pub open spec fn trimmed(s: Seq<char>) -> Seq<char> {
    trim_end(trim_start(s))
}

/// Comment sequence: optional whitespace, `--` not followed by `>`, then
/// horizontal whitespace. Returns the position after it.
pub open spec fn comment_seq(s: Seq<char>, i: int) -> Option<int>
    recommends
        0 <= i <= s.len(),
{
    let j = skip_wspace(s, i);
    if j + 2 <= s.len() && s[j] == '-' && s[j + 1] == '-' && !(j + 2 < s.len() && s[j + 2] == '>') {
        Some(skip_hspace(s, j + 2))
    } else {
        None
    }
}

/// The rest of the current line, provided the line ends with `'\n'`; returns
/// the position after that line break and the captured text.
pub open spec fn line_capture(s: Seq<char>, k: int) -> Option<(int, Seq<char>)>
    recommends
        0 <= k <= s.len(),
{
    let e = find_line_end(s, k);
    if e < s.len() && s[e] == '\n' {
        Some((e + 1, s.subrange(k, e)))
    } else {
        None
    }
}

/// An empty capture means no title.
pub open spec fn opt_title(cap: Seq<char>) -> Option<Seq<char>> {
    if cap.len() == 0 {
        None
    } else {
        Some(cap)
    }
}

/// After a marker: horizontal whitespace, then an optional title captured to
/// the end of the line (only when the line ends with `'\n'`; otherwise
/// nothing more is consumed), then trailing whitespace.
pub open spec fn marker_title(s: Seq<char>, k: int) -> (int, Option<Seq<char>>)
    recommends
        0 <= k <= s.len(),
{
    let k2 = skip_hspace(s, k);
    match line_capture(s, k2) {
        Some((p, cap)) => (skip_wspace(s, p), opt_title(cap)),
        None => (skip_wspace(s, k2), None),
    }
}

/// Boundary marker: comment sequence + `#`, not `##`, with title capture.
pub open spec fn boundary(s: Seq<char>, i: int) -> Option<(int, Option<Seq<char>>)>
    recommends
        0 <= i <= s.len(),
{
    match comment_seq(s, i) {
        Some(j) => {
            if j + 2 <= s.len() && s[j] == '#' && s[j + 1] == '#' {
                None
            } else if j < s.len() && s[j] == '#' {
                Some(marker_title(s, j + 1))
            } else {
                None
            }
        },
        None => None,
    }
}

/// Section tag: comment sequence + `##`, with title capture.
pub open spec fn section_tag(s: Seq<char>, i: int) -> Option<(int, Option<Seq<char>>)>
    recommends
        0 <= i <= s.len(),
{
    match comment_seq(s, i) {
        Some(j) => {
            if j + 2 <= s.len() && s[j] == '#' && s[j + 1] == '#' {
                Some(marker_title(s, j + 2))
            } else {
                None
            }
        },
        None => None,
    }
}

/// Description line of a two-line declaration: a comment line that does not
/// start with the boundary marker, the ignore marker, or a quote.
pub open spec fn keybind_description(s: Seq<char>, i: int) -> Option<(int, Seq<char>)>
    recommends
        0 <= i <= s.len(),
{
    match comment_seq(s, i) {
        Some(j) => {
            if j < s.len() && (s[j] == '#' || s[j] == '!' || s[j] == '"') {
                None
            } else {
                line_capture(s, j)
            }
        },
        None => None,
    }
}

/// Keys of a two-line declaration: scan to the first `(`, then the nearest
/// quote pair, then the closing `)` (so the argument list may span lines).
/// The capture is returned untrimmed.
pub open spec fn keybind_definition(s: Seq<char>, i: int) -> Option<(int, Seq<char>)>
    recommends
        0 <= i <= s.len(),
{
    let p = find_char(s, i, '(');
    if p < s.len() {
        let q = skip_hspace(s, p + 1);
        if q < s.len() && s[q] == '"' {
            let r = find_char(s, q + 1, '"');
            if r < s.len() {
                let t = find_char(s, r + 1, ')');
                if t < s.len() {
                    Some((t + 1, s.subrange(q + 1, r)))
                } else {
                    None
                }
            } else {
                None
            }
        } else {
            None
        }
    } else {
        None
    }
}

/// Two-line declaration: description line, then the keys definition. Both
/// fields are trimmed; keys that trim to nothing do not form a keybinding.
pub open spec fn keybind_declaration(s: Seq<char>, i: int) -> Option<(int, KeybindView)>
    recommends
        0 <= i <= s.len(),
{
    match keybind_description(s, i) {
        Some((p, d)) => match keybind_definition(s, p) {
            Some((p2, k)) => {
                let kt = trimmed(k);
                if kt.len() == 0 {
                    None
                } else {
                    Some((p2, KeybindView { keys: kt, description: trimmed(d) }))
                }
            },
            None => None,
        },
        None => None,
    }
}

/// Inline form: comment sequence + quoted keys + description to the end of
/// the line. Both fields are trimmed; keys that trim to nothing do not form
/// a keybinding.
pub open spec fn keybind_comment(s: Seq<char>, i: int) -> Option<(int, KeybindView)>
    recommends
        0 <= i <= s.len(),
{
    match comment_seq(s, i) {
        Some(j) => {
            if j < s.len() && (s[j] == '#' || s[j] == '!') {
                None
            } else if j < s.len() && s[j] == '"' {
                let r = find_char(s, j + 1, '"');
                if r < s.len() {
                    let q = skip_hspace(s, r + 1);
                    match line_capture(s, q) {
                        Some((p, d)) => {
                            let kt = trimmed(s.subrange(j + 1, r));
                            if kt.len() == 0 {
                                None
                            } else {
                                Some((p, KeybindView { keys: kt, description: trimmed(d) }))
                            }
                        },
                        None => None,
                    }
                } else {
                    None
                }
            } else {
                None
            }
        },
        None => None,
    }
}

/// One step inside a section: a keybinding in either form (the two-line
/// declaration is tried first), or a filler line, consumed and discarded.
/// `None` only at the end of input.
pub open spec fn section_inner(s: Seq<char>, i: int) -> Option<(int, Option<KeybindView>)>
    recommends
        0 <= i <= s.len(),
{
    let j = skip_wspace(s, i);
    match keybind_declaration(s, j) {
        Some((p, kb)) => Some((skip_wspace(s, p), Some(kb))),
        None => match keybind_comment(s, j) {
            Some((p, kb)) => Some((skip_wspace(s, p), Some(kb))),
            None => {
                if j < s.len() {
                    let e = find_line_end(s, j);
                    let p = if e < s.len() {
                        e + 1
                    } else {
                        e
                    };
                    Some((skip_wspace(s, p), None))
                } else {
                    None
                }
            },
        },
    }
}

/// A section stops, without consuming input, where a boundary marker or
/// another section tag comes next, or at the end of input.
pub open spec fn stop_at(s: Seq<char>, i: int) -> bool
    recommends
        0 <= i <= s.len(),
{
    boundary(s, i) is Some || section_tag(s, i) is Some || skip_wspace(s, i) == s.len()
}

/// The keybindings of a section body, in appearance order, together with the
/// position where the section stops.
pub open spec fn section_items(s: Seq<char>, i: int) -> (int, Seq<KeybindView>)
    recommends
        0 <= i <= s.len(),
    decreases s.len() - i when 0 <= i <= s.len()
{
    if stop_at(s, i) {
        (i, Seq::empty())
    } else {
        match section_inner(s, i) {
            Some((p, item)) => {
                if i < p <= s.len() {
                    let rest = section_items(s, p);
                    match item {
                        Some(kb) => (rest.0, seq![kb] + rest.1),
                        None => rest,
                    }
                } else {
                    (i, Seq::empty())
                }
            },
            None => (i, Seq::empty()),
        }
    }
}

/// A whole section: tag, then body.
pub open spec fn section(s: Seq<char>, i: int) -> Option<(int, SectionView)>
    recommends
        0 <= i <= s.len(),
{
    match section_tag(s, i) {
        Some((j, title)) => {
            let items = section_items(s, j);
            Some((skip_wspace(s, items.0), SectionView { title, keybinds: items.1 }))
        },
        None => None,
    }
}

/// The sections of a document, after the opening boundary marker: sections
/// and filler lines until a closing boundary marker or the end of input.
/// Returns the position after the close, the sections in appearance order,
/// and whether a closing marker was actually present (its absence is
/// tolerated, not an error).
pub open spec fn doc_items(s: Seq<char>, i: int) -> (int, Seq<SectionView>, bool)
    recommends
        0 <= i <= s.len(),
    decreases s.len() - i when 0 <= i <= s.len()
{
    match boundary(s, i) {
        Some((p, _)) => (p, Seq::empty(), true),
        None => {
            if skip_wspace(s, i) == s.len() {
                (s.len() as int, Seq::empty(), false)
            } else {
                match section(s, i) {
                    Some((p, sec)) => {
                        if i < p <= s.len() {
                            let rest = doc_items(s, p);
                            (rest.0, seq![sec] + rest.1, rest.2)
                        } else {
                            (i, Seq::empty(), false)
                        }
                    },
                    None => {
                        let j = skip_wspace(s, i);
                        let e = find_line_end(s, j);
                        let p = if e < s.len() {
                            skip_wspace(s, e + 1)
                        } else {
                            e
                        };
                        if i < p <= s.len() {
                            doc_items(s, p)
                        } else {
                            (i, Seq::empty(), false)
                        }
                    },
                }
            }
        },
    }
}

/// Scan for the opening boundary marker, line by line. `None` means no
/// opening boundary marker exists anywhere in the input: the single hard
/// parse failure.
pub open spec fn find_open(s: Seq<char>, i: int) -> Option<(int, Option<Seq<char>>)>
    recommends
        0 <= i <= s.len(),
    decreases s.len() - i when 0 <= i <= s.len()
{
    match boundary(s, i) {
        Some(r) => Some(r),
        None => {
            let e = find_line_end(s, i);
            if i <= e < s.len() {
                find_open(s, e + 1)
            } else {
                None
            }
        },
    }
}

/// Result of parsing a whole input: where parsing stopped, the document, and
/// whether a closing boundary marker was present.
pub ghost struct DocParse {
    pub end: int,
    pub doc: DocView,
    pub closed: bool,
}

/// The document denoted by an input text, or `None` where the input holds no
/// opening boundary marker.
pub open spec fn parse_document(s: Seq<char>) -> Option<DocParse> {
    match find_open(s, 0) {
        Some((p, title)) => {
            let items = doc_items(s, p);
            Some(
                DocParse {
                    end: skip_wspace(s, items.0),
                    doc: DocView { title, sections: items.1 },
                    closed: items.2,
                },
            )
        },
        None => None,
    }
}

pub proof fn lemma_comment_seq_bounds(s: Seq<char>, i: int)
    requires
        0 <= i <= s.len(),
        comment_seq(s, i) is Some,
    ensures
        i + 2 <= comment_seq(s, i).unwrap() <= s.len(),
{
    lemma_skip_wspace_bounds(s, i);
    let j = skip_wspace(s, i);
    lemma_skip_hspace_bounds(s, j + 2);
}

pub proof fn lemma_line_capture_bounds(s: Seq<char>, k: int)
    requires
        0 <= k <= s.len(),
        line_capture(s, k) is Some,
    ensures
        k < line_capture(s, k).unwrap().0 <= s.len(),
{
    lemma_find_line_end_bounds(s, k);
}

pub proof fn lemma_marker_title_bounds(s: Seq<char>, k: int)
    requires
        0 <= k <= s.len(),
    ensures
        k <= marker_title(s, k).0 <= s.len(),
{
    lemma_skip_hspace_bounds(s, k);
    let k2 = skip_hspace(s, k);
    if line_capture(s, k2) is Some {
        lemma_line_capture_bounds(s, k2);
        lemma_skip_wspace_bounds(s, line_capture(s, k2).unwrap().0);
    } else {
        lemma_skip_wspace_bounds(s, k2);
    }
}

pub proof fn lemma_boundary_bounds(s: Seq<char>, i: int)
    requires
        0 <= i <= s.len(),
        boundary(s, i) is Some,
    ensures
        i < boundary(s, i).unwrap().0 <= s.len(),
{
    lemma_comment_seq_bounds(s, i);
    let j = comment_seq(s, i).unwrap();
    lemma_marker_title_bounds(s, j + 1);
}

pub proof fn lemma_section_tag_bounds(s: Seq<char>, i: int)
    requires
        0 <= i <= s.len(),
        section_tag(s, i) is Some,
    ensures
        i < section_tag(s, i).unwrap().0 <= s.len(),
{
    lemma_comment_seq_bounds(s, i);
    let j = comment_seq(s, i).unwrap();
    lemma_marker_title_bounds(s, j + 2);
}

pub proof fn lemma_keybind_description_bounds(s: Seq<char>, i: int)
    requires
        0 <= i <= s.len(),
        keybind_description(s, i) is Some,
    ensures
        i < keybind_description(s, i).unwrap().0 <= s.len(),
{
    lemma_comment_seq_bounds(s, i);
    let j = comment_seq(s, i).unwrap();
    lemma_line_capture_bounds(s, j);
}

pub proof fn lemma_keybind_definition_bounds(s: Seq<char>, i: int)
    requires
        0 <= i <= s.len(),
        keybind_definition(s, i) is Some,
    ensures
        i < keybind_definition(s, i).unwrap().0 <= s.len(),
{
    lemma_find_char_bounds(s, i, '(');
    let p = find_char(s, i, '(');
    lemma_skip_hspace_bounds(s, p + 1);
    let q = skip_hspace(s, p + 1);
    lemma_find_char_bounds(s, q + 1, '"');
    let r = find_char(s, q + 1, '"');
    lemma_find_char_bounds(s, r + 1, ')');
}

pub proof fn lemma_keybind_declaration_bounds(s: Seq<char>, i: int)
    requires
        0 <= i <= s.len(),
        keybind_declaration(s, i) is Some,
    ensures
        i < keybind_declaration(s, i).unwrap().0 <= s.len(),
{
    lemma_keybind_description_bounds(s, i);
    let p = keybind_description(s, i).unwrap().0;
    lemma_keybind_definition_bounds(s, p);
}

pub proof fn lemma_keybind_comment_bounds(s: Seq<char>, i: int)
    requires
        0 <= i <= s.len(),
        keybind_comment(s, i) is Some,
    ensures
        i < keybind_comment(s, i).unwrap().0 <= s.len(),
{
    lemma_comment_seq_bounds(s, i);
    let j = comment_seq(s, i).unwrap();
    lemma_find_char_bounds(s, j + 1, '"');
    let r = find_char(s, j + 1, '"');
    lemma_skip_hspace_bounds(s, r + 1);
    let q = skip_hspace(s, r + 1);
    lemma_line_capture_bounds(s, q);
}

pub proof fn lemma_section_inner_bounds(s: Seq<char>, i: int)
    requires
        0 <= i <= s.len(),
        section_inner(s, i) is Some,
    ensures
        i < section_inner(s, i).unwrap().0 <= s.len(),
{
    lemma_skip_wspace_bounds(s, i);
    let j = skip_wspace(s, i);
    if keybind_declaration(s, j) is Some {
        lemma_keybind_declaration_bounds(s, j);
        lemma_skip_wspace_bounds(s, keybind_declaration(s, j).unwrap().0);
    } else if keybind_comment(s, j) is Some {
        lemma_keybind_comment_bounds(s, j);
        lemma_skip_wspace_bounds(s, keybind_comment(s, j).unwrap().0);
    } else {
        lemma_find_line_end_bounds(s, j);
        let e = find_line_end(s, j);
        if e < s.len() {
            lemma_skip_wspace_bounds(s, e + 1);
        } else {
            lemma_skip_wspace_bounds(s, e);
        }
    }
}

pub proof fn lemma_section_items_bounds(s: Seq<char>, i: int)
    requires
        0 <= i <= s.len(),
    ensures
        i <= section_items(s, i).0 <= s.len(),
    decreases s.len() - i,
{
    if !stop_at(s, i) {
        match section_inner(s, i) {
            Some((p, item)) => {
                lemma_section_inner_bounds(s, i);
                if i < p <= s.len() {
                    lemma_section_items_bounds(s, p);
                }
            },
            None => {},
        }
    }
}

pub proof fn lemma_section_bounds(s: Seq<char>, i: int)
    requires
        0 <= i <= s.len(),
        section(s, i) is Some,
    ensures
        i < section(s, i).unwrap().0 <= s.len(),
{
    lemma_section_tag_bounds(s, i);
    let j = section_tag(s, i).unwrap().0;
    lemma_section_items_bounds(s, j);
    lemma_skip_wspace_bounds(s, section_items(s, j).0);
}

/// Text whose ends hold no whitespace is its own trim.
pub proof fn lemma_trimmed_id(t: Seq<char>)
    requires
        t.len() == 0 || (!is_wspace(t[0]) && !is_wspace(t.last())),
    ensures
        trimmed(t) == t,
{
    assert(trim_start(t) == t);
    assert(trim_end(t) == t);
}

pub proof fn lemma_trim_start_first(s: Seq<char>)
    ensures
        trim_start(s).len() > 0 ==> !is_wspace(trim_start(s)[0]),
    decreases s.len(),
{
    if s.len() > 0 && is_wspace(s[0]) {
        lemma_trim_start_first(s.drop_first());
    }
}

pub proof fn lemma_trim_end_last(s: Seq<char>)
    ensures
        trim_end(s).len() > 0 ==> !is_wspace(trim_end(s).last()),
    decreases s.len(),
{
    if s.len() > 0 && is_wspace(s.last()) {
        lemma_trim_end_last(s.drop_last());
    }
}

pub proof fn lemma_trim_end_first(s: Seq<char>)
    ensures
        trim_end(s).len() > 0 ==> trim_end(s)[0] == s[0],
    decreases s.len(),
{
    if s.len() > 0 && is_wspace(s.last()) {
        lemma_trim_end_first(s.drop_last());
    }
}

/// Trimming is idempotent.
pub proof fn lemma_trimmed_idem(s: Seq<char>)
    ensures
        trimmed(trimmed(s)) == trimmed(s),
{
    let a = trim_start(s);
    let b = trim_end(a);
    lemma_trim_start_first(s);
    lemma_trim_end_last(a);
    lemma_trim_end_first(a);
    if b.len() > 0 {
        assert(!is_wspace(b[0]));
        assert(!is_wspace(b.last()));
    }
    lemma_trimmed_id(b);
}

/// What every captured title satisfies: a present title is non-empty and
/// does not start with whitespace (an all-whitespace capture is normalized
/// to no title).
pub open spec fn title_invariant(t: Option<Seq<char>>) -> bool {
    match t {
        None => true,
        Some(x) => x.len() > 0 && !is_wspace(x[0]),
    }
}

/// What every extracted keybinding satisfies: the keys are a non-empty
/// trimmed string, and the description is trimmed.
pub open spec fn keybind_invariant(kb: KeybindView) -> bool {
    kb.keys.len() > 0 && kb.keys == trimmed(kb.keys) && kb.description == trimmed(kb.description)
}

pub open spec fn section_invariant(sec: SectionView) -> bool {
    title_invariant(sec.title) && (forall|j: int|
        0 <= j < sec.keybinds.len() ==> keybind_invariant(#[trigger] sec.keybinds[j]))
}

/// The data-model invariant of every parsed document.
pub open spec fn doc_invariant(d: DocView) -> bool {
    title_invariant(d.title) && (forall|i: int|
        0 <= i < d.sections.len() ==> section_invariant(#[trigger] d.sections[i]))
}

pub proof fn lemma_marker_title_invariant(s: Seq<char>, k: int)
    requires
        0 <= k <= s.len(),
    ensures
        title_invariant(marker_title(s, k).1),
{
    lemma_skip_hspace_bounds(s, k);
    let k2 = skip_hspace(s, k);
    lemma_find_line_end_bounds(s, k2);
    let e = find_line_end(s, k2);
    if e < s.len() && s[e] == '\n' {
        let cap = s.subrange(k2, e);
        if cap.len() > 0 {
            assert(cap[0] == s[k2]);
            assert(!is_hspace(s[k2]));
            assert(!is_line_break(s[k2]));
        }
    }
}

pub proof fn lemma_keybind_declaration_invariant(s: Seq<char>, i: int)
    requires
        0 <= i <= s.len(),
        keybind_declaration(s, i) is Some,
    ensures
        keybind_invariant(keybind_declaration(s, i).unwrap().1),
{
    let (p, d) = keybind_description(s, i).unwrap();
    let (_p2, k) = keybind_definition(s, p).unwrap();
    lemma_trimmed_idem(k);
    lemma_trimmed_idem(d);
}

pub proof fn lemma_keybind_comment_invariant(s: Seq<char>, i: int)
    requires
        0 <= i <= s.len(),
        keybind_comment(s, i) is Some,
    ensures
        keybind_invariant(keybind_comment(s, i).unwrap().1),
{
    let j = comment_seq(s, i).unwrap();
    let r = find_char(s, j + 1, '"');
    lemma_trimmed_idem(s.subrange(j + 1, r));
    let q = skip_hspace(s, r + 1);
    let (_p, d) = line_capture(s, q).unwrap();
    lemma_trimmed_idem(d);
}

pub proof fn lemma_section_inner_invariant(s: Seq<char>, i: int)
    requires
        0 <= i <= s.len(),
        section_inner(s, i) is Some,
        section_inner(s, i).unwrap().1 is Some,
    ensures
        keybind_invariant(section_inner(s, i).unwrap().1.unwrap()),
{
    lemma_skip_wspace_bounds(s, i);
    let j = skip_wspace(s, i);
    if keybind_declaration(s, j) is Some {
        lemma_keybind_declaration_invariant(s, j);
    } else if keybind_comment(s, j) is Some {
        lemma_keybind_comment_invariant(s, j);
    }
}

pub proof fn lemma_section_items_invariant(s: Seq<char>, i: int)
    requires
        0 <= i <= s.len(),
    ensures
        forall|j: int|
            0 <= j < section_items(s, i).1.len() ==> keybind_invariant(
                #[trigger] section_items(s, i).1[j],
            ),
    decreases s.len() - i,
{
    if !stop_at(s, i) {
        match section_inner(s, i) {
            Some((p, item)) => {
                lemma_section_inner_bounds(s, i);
                if i < p <= s.len() {
                    lemma_section_items_invariant(s, p);
                    match item {
                        Some(kb) => {
                            lemma_section_inner_invariant(s, i);
                            let rest = section_items(s, p).1;
                            assert(section_items(s, i).1 == seq![kb] + rest);
                            assert forall|j: int|
                                0 <= j < section_items(s, i).1.len() implies keybind_invariant(
                                #[trigger] section_items(s, i).1[j],
                            ) by {
                                assert(section_items(s, i).1[j] == (seq![kb] + rest)[j]);
                                if j == 0 {
                                    assert((seq![kb] + rest)[0] == kb);
                                } else {
                                    assert((seq![kb] + rest)[j] == rest[j - 1]);
                                    assert(keybind_invariant(rest[j - 1]));
                                }
                            }
                        },
                        None => {
                            assert(section_items(s, i).1 == section_items(s, p).1);
                            assert forall|j: int|
                                0 <= j < section_items(s, i).1.len() implies keybind_invariant(
                                #[trigger] section_items(s, i).1[j],
                            ) by {
                                assert(section_items(s, i).1[j] == section_items(s, p).1[j]);
                                assert(keybind_invariant(section_items(s, p).1[j]));
                            }
                        },
                    }
                }
            },
            None => {},
        }
    }
}

pub proof fn lemma_section_invariant(s: Seq<char>, i: int)
    requires
        0 <= i <= s.len(),
        section(s, i) is Some,
    ensures
        section_invariant(section(s, i).unwrap().1),
{
    let (j, _title) = section_tag(s, i).unwrap();
    lemma_comment_seq_bounds(s, i);
    lemma_marker_title_invariant(s, comment_seq(s, i).unwrap() + 2);
    lemma_section_tag_bounds(s, i);
    lemma_section_items_invariant(s, j);
}

pub proof fn lemma_doc_items_invariant(s: Seq<char>, i: int)
    requires
        0 <= i <= s.len(),
    ensures
        forall|j: int|
            0 <= j < doc_items(s, i).1.len() ==> section_invariant(#[trigger] doc_items(s, i).1[j]),
    decreases s.len() - i,
{
    match boundary(s, i) {
        Some(_) => {},
        None => {
            if skip_wspace(s, i) != s.len() {
                match section(s, i) {
                    Some((p, sec)) => {
                        lemma_section_bounds(s, i);
                        if i < p <= s.len() {
                            lemma_section_invariant(s, i);
                            lemma_doc_items_invariant(s, p);
                            let rest = doc_items(s, p).1;
                            assert(doc_items(s, i).1 == seq![sec] + rest);
                            assert forall|j: int|
                                0 <= j < doc_items(s, i).1.len() implies section_invariant(
                                #[trigger] doc_items(s, i).1[j],
                            ) by {
                                assert(doc_items(s, i).1[j] == (seq![sec] + rest)[j]);
                                if j == 0 {
                                    assert((seq![sec] + rest)[0] == sec);
                                } else {
                                    assert((seq![sec] + rest)[j] == rest[j - 1]);
                                    assert(section_invariant(rest[j - 1]));
                                }
                            }
                        }
                    },
                    None => {
                        lemma_skip_wspace_bounds(s, i);
                        let j = skip_wspace(s, i);
                        lemma_find_line_end_bounds(s, j);
                        let e = find_line_end(s, j);
                        let p = if e < s.len() {
                            skip_wspace(s, e + 1)
                        } else {
                            e
                        };
                        if e < s.len() {
                            lemma_skip_wspace_bounds(s, e + 1);
                        }
                        if i < p <= s.len() {
                            lemma_doc_items_invariant(s, p);
                            assert(doc_items(s, i).1 == doc_items(s, p).1);
                            assert forall|k: int|
                                0 <= k < doc_items(s, i).1.len() implies section_invariant(
                                #[trigger] doc_items(s, i).1[k],
                            ) by {
                                assert(doc_items(s, i).1[k] == doc_items(s, p).1[k]);
                                assert(section_invariant(doc_items(s, p).1[k]));
                            }
                        }
                    },
                }
            }
        },
    }
}

pub proof fn lemma_find_open_invariant(s: Seq<char>, i: int)
    requires
        0 <= i <= s.len(),
        find_open(s, i) is Some,
    ensures
        title_invariant(find_open(s, i).unwrap().1),
    decreases s.len() - i,
{
    match boundary(s, i) {
        Some(_) => {
            lemma_comment_seq_bounds(s, i);
            lemma_marker_title_invariant(s, comment_seq(s, i).unwrap() + 1);
        },
        None => {
            lemma_find_line_end_bounds(s, i);
            let e = find_line_end(s, i);
            if i <= e < s.len() {
                lemma_find_open_invariant(s, e + 1);
            }
        },
    }
}

/// Every document the parser yields satisfies the data-model invariant: a
/// present title is non-empty and does not start with whitespace, keys are
/// non-empty trimmed strings, and descriptions are trimmed.
pub proof fn lemma_parse_document_invariant(s: Seq<char>)
    requires
        parse_document(s) is Some,
    ensures
        doc_invariant(parse_document(s).unwrap().doc),
{
    lemma_find_open_invariant(s, 0);
    let (p, _title) = find_open(s, 0).unwrap();
    lemma_find_open_bounds_weak(s, 0);
    lemma_doc_items_invariant(s, p);
}

/// The opening scan never leaves the input.
proof fn lemma_find_open_bounds_weak(s: Seq<char>, i: int)
    requires
        0 <= i <= s.len(),
        find_open(s, i) is Some,
    ensures
        0 <= find_open(s, i).unwrap().0 <= s.len(),
    decreases s.len() - i,
{
    match boundary(s, i) {
        Some(_) => {
            lemma_boundary_bounds(s, i);
        },
        None => {
            lemma_find_line_end_bounds(s, i);
            let e = find_line_end(s, i);
            if i <= e < s.len() {
                lemma_find_open_bounds_weak(s, e + 1);
            }
        },
    }
}

} // verus!
