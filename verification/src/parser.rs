//! The executable parser: recognizers over `&str`, each proved to compute
//! exactly the corresponding grammar spec function.
//!
//! Every recognizer takes the full input and a character position, and
//! reports either failure or the new position with what was captured. The
//! public entry points report positions as the remaining input text, so a
//! caller can see where recognition stopped.

use vstd::prelude::*;

use crate::error::Error;
use crate::grammar::DocView;
use crate::grammar::KeybindView;
use crate::grammar::SectionView;
use crate::grammar::boundary;
use crate::grammar::comment_seq;
use crate::grammar::doc_invariant;
use crate::grammar::doc_items;
use crate::grammar::lemma_parse_document_invariant;
use crate::grammar::find_open;
use crate::grammar::keybind_comment;
use crate::grammar::keybind_declaration;
use crate::grammar::keybind_definition;
use crate::grammar::keybind_description;
use crate::grammar::lemma_boundary_bounds;
use crate::grammar::lemma_comment_seq_bounds;
use crate::grammar::lemma_keybind_comment_bounds;
use crate::grammar::lemma_keybind_definition_bounds;
use crate::grammar::lemma_keybind_description_bounds;
use crate::grammar::lemma_section_bounds;
use crate::grammar::lemma_section_inner_bounds;
use crate::grammar::lemma_section_tag_bounds;
use crate::grammar::line_capture;
use crate::grammar::marker_title;
use crate::grammar::parse_document;
use crate::grammar::section;
use crate::grammar::section_inner;
use crate::grammar::section_items;
use crate::grammar::section_tag;
use crate::grammar::stop_at;
use crate::grammar::trim_end;
use crate::grammar::trim_start;
use crate::grammar::trimmed;
use crate::scan::lemma_skip_wspace_bounds;
use crate::scan::scan_hspace;
use crate::scan::scan_line_end;
use crate::scan::scan_to_char;
use crate::scan::scan_wspace;
use crate::scan::wspace_char;
use crate::token::Tokens;
use vstd::string::StrSliceExecFns;

verus! {

/// One lexical item of the annotated source, by kind.
#[derive(Debug, Clone)]
pub enum Token {
    Title(String),
    Section(String),
    Keybind { description: String, keys: String },
    Text(String),
}

/// A keybinding as extracted by the parser: keys, then description.
#[derive(Debug, Clone, Default, PartialEq, Eq)]
pub struct KeybindToken(pub String, pub String);

impl View for KeybindToken {
    type V = KeybindView;

    open spec fn view(&self) -> KeybindView {
        KeybindView { keys: self.0@, description: self.1@ }
    }
}

/// A section as extracted by the parser.
#[derive(Debug, Clone, Default, PartialEq, Eq)]
pub struct Section {
    pub title: Option<String>,
    pub keybinds: Vec<KeybindToken>,
}

/// The view of an optional text capture.
pub open spec fn opt_view(o: Option<String>) -> Option<Seq<char>> {
    match o {
        Some(t) => Some(t@),
        None => None,
    }
}

impl View for Section {
    type V = SectionView;

    open spec fn view(&self) -> SectionView {
        SectionView {
            title: opt_view(self.title),
            keybinds: self.keybinds@.map_values(|kb: KeybindToken| kb@),
        }
    }
}

/// A whole parsed document.
#[derive(Debug, Clone, Default, PartialEq, Eq)]
pub struct Parsed {
    pub title: Option<String>,
    pub sections: Vec<Section>,
}

impl View for Parsed {
    type V = DocView;

    open spec fn view(&self) -> DocView {
        DocView {
            title: opt_view(self.title),
            sections: self.sections@.map_values(|sec: Section| sec@),
        }
    }
}

/// The input text from the remaining position onward.
fn rest_of(s: &str, p: usize) -> (r: String)
    requires
        p <= s@.len(),
    ensures
        r@ == s@.subrange(p as int, s@.len() as int),
{
    let n: usize = s.unicode_len();
    s.substring_char(p, n).to_owned()
}

/// Positions delimiting `s[a..b]` without surrounding whitespace.
fn trim_range(s: &str, a: usize, b: usize) -> (r: (usize, usize))
    requires
        a <= b <= s@.len(),
    ensures
        a <= r.0 <= r.1 <= b,
        s@.subrange(r.0 as int, r.1 as int) == trimmed(s@.subrange(a as int, b as int)),
{
    let mut x: usize = a;
    while x < b && wspace_char(s.get_char(x))
        invariant
            a <= x <= b <= s@.len(),
            trim_start(s@.subrange(a as int, b as int)) == trim_start(
                s@.subrange(x as int, b as int),
            ),
        decreases b - x,
    {
        proof {
            assert(s@.subrange(x as int, b as int).drop_first() =~= s@.subrange(
                x as int + 1,
                b as int,
            ));
        }
        x = x + 1;
    }
    proof {
        assert(trim_start(s@.subrange(x as int, b as int)) == s@.subrange(x as int, b as int));
    }
    let mut y: usize = b;
    while y > x && wspace_char(s.get_char(y - 1))
        invariant
            a <= x <= y <= b <= s@.len(),
            trim_end(s@.subrange(x as int, b as int)) == trim_end(s@.subrange(x as int, y as int)),
        decreases y - x,
    {
        proof {
            assert(s@.subrange(x as int, y as int).drop_last() =~= s@.subrange(
                x as int,
                y as int - 1,
            ));
        }
        y = y - 1;
    }
    proof {
        assert(trim_end(s@.subrange(x as int, y as int)) == s@.subrange(x as int, y as int));
    }
    (x, y)
}

/// `s[a..b]` without surrounding whitespace, as an owned string.
fn trimmed_sub(s: &str, a: usize, b: usize) -> (r: String)
    requires
        a <= b <= s@.len(),
    ensures
        r@ == trimmed(s@.subrange(a as int, b as int)),
{
    let (x, y) = trim_range(s, a, b);
    s.substring_char(x, y).to_owned()
}

/// `t` without surrounding whitespace.
fn trim_string(t: &String) -> (r: String)
    ensures
        r@ == trimmed(t@),
{
    let ts = t.as_str();
    let n: usize = ts.unicode_len();
    proof {
        assert(ts@.subrange(0, ts@.len() as int) =~= ts@);
    }
    trimmed_sub(ts, 0, n)
}

/// Recognize a comment sequence starting at `i`.
fn comment_seq_x(s: &str, i: usize) -> (r: Option<usize>)
    requires
        i <= s@.len(),
    ensures
        match r {
            Some(j) => comment_seq(s@, i as int) == Some(j as int) && i <= j <= s@.len(),
            None => comment_seq(s@, i as int) is None,
        },
{
    let n: usize = s.unicode_len();
    let j = scan_wspace(s, i);
    if n - j >= 2 && s.get_char(j) == '-' && s.get_char(j + 1) == '-' && !(n - j > 2 && s.get_char(
        j + 2,
    ) == '>') {
        let k = scan_hspace(s, j + 2);
        proof {
            lemma_comment_seq_bounds(s@, i as int);
        }
        Some(k)
    } else {
        None
    }
}

/// Recognize the rest of a line ending in `'\n'`, returning the position
/// after the line break and the captured text.
fn line_capture_x(s: &str, k: usize) -> (r: Option<(usize, String)>)
    requires
        k <= s@.len(),
    ensures
        match r {
            Some((p, cap)) => line_capture(s@, k as int) == Some((p as int, cap@)) && k < p
                <= s@.len(),
            None => line_capture(s@, k as int) is None,
        },
{
    let n: usize = s.unicode_len();
    let e = scan_line_end(s, k);
    if e < n && s.get_char(e) == '\n' {
        let cap = s.substring_char(k, e).to_owned();
        Some((e + 1, cap))
    } else {
        None
    }
}

/// Recognize the optional title after a marker; always succeeds.
fn marker_title_x(s: &str, k: usize) -> (r: (usize, Option<String>))
    requires
        k <= s@.len(),
    ensures
        marker_title(s@, k as int) == (r.0 as int, opt_view(r.1)),
        k <= r.0 <= s@.len(),
{
    let k2 = scan_hspace(s, k);
    match line_capture_x(s, k2) {
        Some((p, cap)) => {
            let q = scan_wspace(s, p);
            let title = if cap.as_str().is_empty() {
                None
            } else {
                Some(cap)
            };
            (q, title)
        },
        None => (scan_wspace(s, k2), None),
    }
}

/// Recognize a boundary marker starting at `i`.
fn boundary_x(s: &str, i: usize) -> (r: Option<(usize, Option<String>)>)
    requires
        i <= s@.len(),
    ensures
        match r {
            Some((p, t)) => boundary(s@, i as int) == Some((p as int, opt_view(t))) && i < p
                <= s@.len(),
            None => boundary(s@, i as int) is None,
        },
{
    let n: usize = s.unicode_len();
    match comment_seq_x(s, i) {
        Some(j) => {
            if n - j >= 2 && s.get_char(j) == '#' && s.get_char(j + 1) == '#' {
                None
            } else if j < n && s.get_char(j) == '#' {
                let (p, t) = marker_title_x(s, j + 1);
                proof {
                    lemma_boundary_bounds(s@, i as int);
                }
                Some((p, t))
            } else {
                None
            }
        },
        None => None,
    }
}

/// Recognize a section tag starting at `i`.
fn section_tag_x(s: &str, i: usize) -> (r: Option<(usize, Option<String>)>)
    requires
        i <= s@.len(),
    ensures
        match r {
            Some((p, t)) => section_tag(s@, i as int) == Some((p as int, opt_view(t))) && i < p
                <= s@.len(),
            None => section_tag(s@, i as int) is None,
        },
{
    let n: usize = s.unicode_len();
    match comment_seq_x(s, i) {
        Some(j) => {
            if n - j >= 2 && s.get_char(j) == '#' && s.get_char(j + 1) == '#' {
                let (p, t) = marker_title_x(s, j + 2);
                proof {
                    lemma_section_tag_bounds(s@, i as int);
                }
                Some((p, t))
            } else {
                None
            }
        },
        None => None,
    }
}

/// Recognize the description line of a two-line declaration.
fn keybind_description_x(s: &str, i: usize) -> (r: Option<(usize, String)>)
    requires
        i <= s@.len(),
    ensures
        match r {
            Some((p, d)) => keybind_description(s@, i as int) == Some((p as int, d@)) && i < p
                <= s@.len(),
            None => keybind_description(s@, i as int) is None,
        },
{
    let n: usize = s.unicode_len();
    match comment_seq_x(s, i) {
        Some(j) => {
            if j < n && (s.get_char(j) == '#' || s.get_char(j) == '!' || s.get_char(j) == '"') {
                None
            } else {
                match line_capture_x(s, j) {
                    Some((p, d)) => {
                        proof {
                            lemma_keybind_description_bounds(s@, i as int);
                        }
                        Some((p, d))
                    },
                    None => None,
                }
            }
        },
        None => None,
    }
}

/// Recognize the keys definition of a two-line declaration; the capture is
/// returned untrimmed.
fn keybind_definition_x(s: &str, i: usize) -> (r: Option<(usize, String)>)
    requires
        i <= s@.len(),
    ensures
        match r {
            Some((p, k)) => keybind_definition(s@, i as int) == Some((p as int, k@)) && i < p
                <= s@.len(),
            None => keybind_definition(s@, i as int) is None,
        },
{
    let n: usize = s.unicode_len();
    let p = scan_to_char(s, i, '(');
    if p < n {
        let q = scan_hspace(s, p + 1);
        if q < n && s.get_char(q) == '"' {
            let r2 = scan_to_char(s, q + 1, '"');
            if r2 < n {
                let t = scan_to_char(s, r2 + 1, ')');
                if t < n {
                    let keys = s.substring_char(q + 1, r2).to_owned();
                    proof {
                        lemma_keybind_definition_bounds(s@, i as int);
                    }
                    Some((t + 1, keys))
                } else {
                    None
                }
            } else {
                None
            }
        } else {
            None
        }
    } else {
        None
    }
}

/// Recognize a two-line declaration; both fields trimmed, keys non-empty.
fn keybind_declaration_x(s: &str, i: usize) -> (r: Option<(usize, KeybindToken)>)
    requires
        i <= s@.len(),
    ensures
        match r {
            Some((p, kb)) => keybind_declaration(s@, i as int) == Some((p as int, kb@)) && i < p
                <= s@.len(),
            None => keybind_declaration(s@, i as int) is None,
        },
{
    match keybind_description_x(s, i) {
        Some((p, d)) => match keybind_definition_x(s, p) {
            Some((p2, k)) => {
                let kt = trim_string(&k);
                if kt.as_str().is_empty() {
                    None
                } else {
                    Some((p2, KeybindToken(kt, trim_string(&d))))
                }
            },
            None => None,
        },
        None => None,
    }
}

/// Recognize an inline keybinding; both fields trimmed, keys non-empty.
fn keybind_comment_x(s: &str, i: usize) -> (r: Option<(usize, KeybindToken)>)
    requires
        i <= s@.len(),
    ensures
        match r {
            Some((p, kb)) => keybind_comment(s@, i as int) == Some((p as int, kb@)) && i < p
                <= s@.len(),
            None => keybind_comment(s@, i as int) is None,
        },
{
    let n: usize = s.unicode_len();
    match comment_seq_x(s, i) {
        Some(j) => {
            if j < n && (s.get_char(j) == '#' || s.get_char(j) == '!') {
                None
            } else if j < n && s.get_char(j) == '"' {
                let r2 = scan_to_char(s, j + 1, '"');
                if r2 < n {
                    let q = scan_hspace(s, r2 + 1);
                    match line_capture_x(s, q) {
                        Some((p, d)) => {
                            let kt = trimmed_sub(s, j + 1, r2);
                            if kt.as_str().is_empty() {
                                None
                            } else {
                                proof {
                                    lemma_keybind_comment_bounds(s@, i as int);
                                }
                                Some((p, KeybindToken(kt, trim_string(&d))))
                            }
                        },
                        None => None,
                    }
                } else {
                    None
                }
            } else {
                None
            }
        },
        None => None,
    }
}

/// One step inside a section: a keybinding in either form, or one consumed
/// filler line. `None` only at the end of input.
fn section_inner_x(s: &str, i: usize) -> (r: Option<(usize, Option<KeybindToken>)>)
    requires
        i <= s@.len(),
    ensures
        match r {
            Some((p, item)) => section_inner(s@, i as int) == Some(
                (
                    p as int,
                    match item {
                        Some(kb) => Some(kb@),
                        None => None,
                    },
                ),
            ) && i < p <= s@.len(),
            None => section_inner(s@, i as int) is None,
        },
{
    let n: usize = s.unicode_len();
    let j = scan_wspace(s, i);
    match keybind_declaration_x(s, j) {
        Some((p, kb)) => {
            let q = scan_wspace(s, p);
            proof {
                lemma_section_inner_bounds(s@, i as int);
            }
            Some((q, Some(kb)))
        },
        None => match keybind_comment_x(s, j) {
            Some((p, kb)) => {
                let q = scan_wspace(s, p);
                proof {
                    lemma_section_inner_bounds(s@, i as int);
                }
                Some((q, Some(kb)))
            },
            None => {
                if j < n {
                    let e = scan_line_end(s, j);
                    let p = if e < n {
                        e + 1
                    } else {
                        e
                    };
                    let q = scan_wspace(s, p);
                    proof {
                        lemma_section_inner_bounds(s@, i as int);
                    }
                    Some((q, None))
                } else {
                    None
                }
            },
        },
    }
}

/// Whether a section stops at `i` without consuming input.
fn stop_at_x(s: &str, i: usize) -> (r: bool)
    requires
        i <= s@.len(),
    ensures
        r == stop_at(s@, i as int),
{
    let n: usize = s.unicode_len();
    if boundary_x(s, i).is_some() {
        true
    } else if section_tag_x(s, i).is_some() {
        true
    } else {
        scan_wspace(s, i) == n
    }
}

/// The body of a section: keybindings until a stop.
fn section_items_x(s: &str, i: usize) -> (r: (usize, Vec<KeybindToken>))
    requires
        i <= s@.len(),
    ensures
        section_items(s@, i as int).0 == r.0 as int,
        section_items(s@, i as int).1 == r.1@.map_values(|kb: KeybindToken| kb@),
        i <= r.0 <= s@.len(),
{
    let n: usize = s.unicode_len();
    let mut pos: usize = i;
    let mut acc: Vec<KeybindToken> = Vec::new();
    loop
        invariant
            i <= pos <= n,
            n == s@.len(),
            section_items(s@, i as int).0 == section_items(s@, pos as int).0,
            section_items(s@, i as int).1 == acc@.map_values(|kb: KeybindToken| kb@)
                + section_items(s@, pos as int).1,
        decreases n - pos,
    {
        if stop_at_x(s, pos) {
            proof {
                assert(section_items(s@, pos as int) == (pos as int, Seq::<KeybindView>::empty()));
                assert(acc@.map_values(|kb: KeybindToken| kb@) + Seq::<KeybindView>::empty()
                    =~= acc@.map_values(|kb: KeybindToken| kb@));
            }
            return (pos, acc);
        }
        match section_inner_x(s, pos) {
            Some((p, item)) => {
                proof {
                    lemma_section_inner_bounds(s@, pos as int);
                }
                match item {
                    Some(kb) => {
                        proof {
                            let ghost old_acc = acc@;
                            let ghost kbv = kb@;
                            assert(section_items(s@, pos as int).1 == seq![kbv] + section_items(
                                s@,
                                p as int,
                            ).1);
                            assert(old_acc.map_values(|kb: KeybindToken| kb@).push(kbv) + section_items(
                                s@,
                                p as int,
                            ).1 =~= old_acc.map_values(|kb: KeybindToken| kb@) + (seq![kbv]
                                + section_items(s@, p as int).1));
                            assert(old_acc.push(kb).map_values(|kb: KeybindToken| kb@)
                                =~= old_acc.map_values(|kb: KeybindToken| kb@).push(kbv));
                        }
                        acc.push(kb);
                    },
                    None => {},
                }
                pos = p;
            },
            None => {
                // unreachable: away from a stop there is always at least a
                // filler line to consume
                proof {
                    lemma_skip_wspace_bounds(s@, pos as int);
                    assert(false);
                }
            },
        }
    }
}

/// A whole section: tag, then body.
fn section_x(s: &str, i: usize) -> (r: Option<(usize, Section)>)
    requires
        i <= s@.len(),
    ensures
        match r {
            Some((p, sec)) => section(s@, i as int) == Some((p as int, sec@)) && i < p <= s@.len(),
            None => section(s@, i as int) is None,
        },
{
    match section_tag_x(s, i) {
        Some((j, title)) => {
            let (p, kbs) = section_items_x(s, j);
            let q = scan_wspace(s, p);
            proof {
                lemma_section_bounds(s@, i as int);
            }
            Some((q, Section { title, keybinds: kbs }))
        },
        None => None,
    }
}

/// The sections of a document after the opening boundary marker, up to the
/// closing marker or the end of input; reports whether a close was present.
fn doc_items_x(s: &str, i: usize) -> (r: (usize, Vec<Section>, bool))
    requires
        i <= s@.len(),
    ensures
        doc_items(s@, i as int).0 == r.0 as int,
        doc_items(s@, i as int).1 == r.1@.map_values(|sec: Section| sec@),
        doc_items(s@, i as int).2 == r.2,
        i <= r.0 <= s@.len(),
{
    let n: usize = s.unicode_len();
    let mut pos: usize = i;
    let mut acc: Vec<Section> = Vec::new();
    loop
        invariant
            i <= pos <= n,
            n == s@.len(),
            doc_items(s@, i as int).0 == doc_items(s@, pos as int).0,
            doc_items(s@, i as int).1 == acc@.map_values(|sec: Section| sec@) + doc_items(
                s@,
                pos as int,
            ).1,
            doc_items(s@, i as int).2 == doc_items(s@, pos as int).2,
        decreases n - pos,
    {
        match boundary_x(s, pos) {
            Some((p, _t)) => {
                proof {
                    assert(acc@.map_values(|sec: Section| sec@) + Seq::<SectionView>::empty()
                        =~= acc@.map_values(|sec: Section| sec@));
                }
                return (p, acc, true);
            },
            None => {},
        }
        let j = scan_wspace(s, pos);
        if j == n {
            proof {
                assert(acc@.map_values(|sec: Section| sec@) + Seq::<SectionView>::empty()
                    =~= acc@.map_values(|sec: Section| sec@));
            }
            return (n, acc, false);
        }
        match section_x(s, pos) {
            Some((p, sec)) => {
                proof {
                    let ghost old_acc = acc@;
                    let ghost sv = sec@;
                    assert(doc_items(s@, pos as int).1 == seq![sv] + doc_items(s@, p as int).1);
                    assert(old_acc.map_values(|sec: Section| sec@).push(sv) + doc_items(
                        s@,
                        p as int,
                    ).1 =~= old_acc.map_values(|sec: Section| sec@) + (seq![sv] + doc_items(
                        s@,
                        p as int,
                    ).1));
                    assert(old_acc.push(sec).map_values(|sec: Section| sec@) =~= old_acc.map_values(
                        |sec: Section| sec@,
                    ).push(sv));
                }
                acc.push(sec);
                pos = p;
            },
            None => {
                let e = scan_line_end(s, j);
                let p = if e < n {
                    scan_wspace(s, e + 1)
                } else {
                    e
                };
                pos = p;
            },
        }
    }
}

/// Scan line by line for the opening boundary marker.
fn find_open_x(s: &str, i: usize) -> (r: Option<(usize, Option<String>)>)
    requires
        i <= s@.len(),
    ensures
        match r {
            Some((p, t)) => find_open(s@, i as int) == Some((p as int, opt_view(t))) && i < p
                <= s@.len(),
            None => find_open(s@, i as int) is None,
        },
{
    let n: usize = s.unicode_len();
    let mut pos: usize = i;
    loop
        invariant
            i <= pos <= n,
            n == s@.len(),
            find_open(s@, i as int) == find_open(s@, pos as int),
        decreases n - pos,
    {
        match boundary_x(s, pos) {
            Some((p, t)) => {
                return Some((p, t));
            },
            None => {},
        }
        let e = scan_line_end(s, pos);
        if e < n {
            pos = e + 1;
        } else {
            return None;
        }
    }
}

/// Parse a whole input into a document: the title captured by the first
/// boundary marker and every section up to the closing marker or the end of
/// input. Fails exactly where no opening boundary marker exists; a missing
/// closing marker is tolerated. Returns the unconsumed input alongside.
pub fn parse_entry(input: &str) -> (r: Result<(String, Parsed), Error>)
    ensures
        match r {
            Ok((rem, parsed)) => parse_document(input@) is Some && {
                let dp = parse_document(input@).unwrap();
                rem@ == input@.subrange(dp.end, input@.len() as int) && parsed@ == dp.doc
            },
            Err(_) => parse_document(input@) is None,
        },
{
    match find_open_x(input, 0) {
        Some((p, title)) => {
            let (q, sections, _closed) = doc_items_x(input, p);
            proof {
                lemma_skip_wspace_bounds(input@, q as int);
            }
            let end = scan_wspace(input, q);
            let rem = rest_of(input, end);
            Ok((rem, Parsed { title, sections }))
        },
        None => Err(Error::new("no opening boundary marker found in input")),
    }
}

/// Holds an input text and parses it on demand.
#[derive(Debug, Clone, Default, PartialEq, Eq)]
pub struct Parser {
    input: String,
}

impl View for Parser {
    type V = Seq<char>;

    closed spec fn view(&self) -> Seq<char> {
        self.input@
    }
}

impl Parser {
    pub fn new(input: String) -> (r: Self)
        ensures
            r@ == input@,
    {
        Parser { input }
    }

    /// Parse the held input into an owned document. Fails exactly where the
    /// input holds no opening boundary marker; the document returned
    /// satisfies the data-model invariant.
    pub fn parse(self) -> (r: Result<Tokens, Error>)
        ensures
            match r {
                Ok(tokens) => parse_document(self@) is Some && tokens@ == parse_document(
                    self@,
                ).unwrap().doc && doc_invariant(tokens@),
                Err(_) => parse_document(self@) is None,
            },
    {
        let ghost input_view = self.input@;
        let res = parse_entry(self.input.as_str());
        match res {
            Ok((_rem, parsed)) => {
                proof {
                    lemma_parse_document_invariant(input_view);
                }
                Ok(Tokens::from(parsed))
            },
            Err(e) => Err(e),
        }
    }
}

/// Recognize a comment sequence at the start of the input; returns the
/// remaining input.
pub fn parse_hs_comment_seq(input: &str) -> (r: Result<(String, ()), Error>)
    ensures
        match r {
            Ok((rem, _)) => comment_seq(input@, 0) is Some && rem@ == input@.subrange(
                comment_seq(input@, 0).unwrap(),
                input@.len() as int,
            ),
            Err(_) => comment_seq(input@, 0) is None,
        },
{
    match comment_seq_x(input, 0) {
        Some(j) => Ok((rest_of(input, j), ())),
        None => Err(Error::new("not a comment sequence")),
    }
}

/// Recognize a boundary marker at the start of the input; returns the
/// remaining input and the captured title, if any.
pub fn parse_boundary(input: &str) -> (r: Result<(String, Option<String>), Error>)
    ensures
        match r {
            Ok((rem, t)) => boundary(input@, 0) is Some && {
                let (p, ts) = boundary(input@, 0).unwrap();
                rem@ == input@.subrange(p, input@.len() as int) && opt_view(t) == ts
            },
            Err(_) => boundary(input@, 0) is None,
        },
{
    match boundary_x(input, 0) {
        Some((p, t)) => Ok((rest_of(input, p), t)),
        None => Err(Error::new("not a boundary marker")),
    }
}

/// Recognize a section tag at the start of the input; returns the remaining
/// input and the captured title, if any.
pub fn parse_section_tag(input: &str) -> (r: Result<(String, Option<String>), Error>)
    ensures
        match r {
            Ok((rem, t)) => section_tag(input@, 0) is Some && {
                let (p, ts) = section_tag(input@, 0).unwrap();
                rem@ == input@.subrange(p, input@.len() as int) && opt_view(t) == ts
            },
            Err(_) => section_tag(input@, 0) is None,
        },
{
    match section_tag_x(input, 0) {
        Some((p, t)) => Ok((rest_of(input, p), t)),
        None => Err(Error::new("not a section tag")),
    }
}

/// Recognize the keys definition of a two-line declaration; the capture is
/// returned untrimmed.
pub fn parse_keybind_definition(input: &str) -> (r: Result<(String, String), Error>)
    ensures
        match r {
            Ok((rem, k)) => keybind_definition(input@, 0) is Some && {
                let (p, ks) = keybind_definition(input@, 0).unwrap();
                rem@ == input@.subrange(p, input@.len() as int) && k@ == ks
            },
            Err(_) => keybind_definition(input@, 0) is None,
        },
{
    match keybind_definition_x(input, 0) {
        Some((p, k)) => Ok((rest_of(input, p), k)),
        None => Err(Error::new("not a keys definition")),
    }
}

/// Recognize the description line of a two-line declaration; the capture is
/// returned untrimmed.
pub fn parse_keybind_description(input: &str) -> (r: Result<(String, String), Error>)
    ensures
        match r {
            Ok((rem, d)) => keybind_description(input@, 0) is Some && {
                let (p, ds) = keybind_description(input@, 0).unwrap();
                rem@ == input@.subrange(p, input@.len() as int) && d@ == ds
            },
            Err(_) => keybind_description(input@, 0) is None,
        },
{
    match keybind_description_x(input, 0) {
        Some((p, d)) => Ok((rest_of(input, p), d)),
        None => Err(Error::new("not a keybind description")),
    }
}

/// Recognize a two-line declaration at the start of the input.
pub fn parse_keybind_declaration(input: &str) -> (r: Result<(String, KeybindToken), Error>)
    ensures
        match r {
            Ok((rem, kb)) => keybind_declaration(input@, 0) is Some && {
                let (p, kbs) = keybind_declaration(input@, 0).unwrap();
                rem@ == input@.subrange(p, input@.len() as int) && kb@ == kbs
            },
            Err(_) => keybind_declaration(input@, 0) is None,
        },
{
    match keybind_declaration_x(input, 0) {
        Some((p, kb)) => Ok((rest_of(input, p), kb)),
        None => Err(Error::new("not a two-line keybind declaration")),
    }
}

/// Recognize an inline keybinding at the start of the input.
pub fn parse_keybind_comment(input: &str) -> (r: Result<(String, KeybindToken), Error>)
    ensures
        match r {
            Ok((rem, kb)) => keybind_comment(input@, 0) is Some && {
                let (p, kbs) = keybind_comment(input@, 0).unwrap();
                rem@ == input@.subrange(p, input@.len() as int) && kb@ == kbs
            },
            Err(_) => keybind_comment(input@, 0) is None,
        },
{
    match keybind_comment_x(input, 0) {
        Some((p, kb)) => Ok((rest_of(input, p), kb)),
        None => Err(Error::new("not an inline keybind")),
    }
}

/// Recognize a whole section at the start of the input.
pub fn parse_section(input: &str) -> (r: Result<(String, Section), Error>)
    ensures
        match r {
            Ok((rem, sec)) => section(input@, 0) is Some && {
                let (p, secs) = section(input@, 0).unwrap();
                rem@ == input@.subrange(p, input@.len() as int) && sec@ == secs
            },
            Err(_) => section(input@, 0) is None,
        },
{
    match section_x(input, 0) {
        Some((p, sec)) => Ok((rest_of(input, p), sec)),
        None => Err(Error::new("not a section")),
    }
}

} // verus!
