//! Rendering a document back into annotated source text, in the two-line
//! declaration form, and the proof that parsing the rendered text yields
//! the document back.
//!
//! The round trip holds for well-formed documents: titles that are
//! non-empty, do not start with whitespace and hold no line break; trimmed
//! descriptions that do not start with the boundary marker, the ignore
//! marker or a quote; and trimmed, non-empty keys free of quotes. These are
//! exactly the shapes the parser itself produces, narrowed by the leading
//! characters that the grammar reserves for its markers.

use vstd::prelude::*;

use crate::grammar::DocParse;
use crate::grammar::DocView;
use crate::grammar::KeybindView;
use crate::grammar::SectionView;
use crate::grammar::boundary;
use crate::grammar::comment_seq;
use crate::grammar::doc_items;
use crate::grammar::find_open;
use crate::grammar::keybind_declaration;
use crate::grammar::keybind_definition;
use crate::grammar::keybind_description;
use crate::grammar::lemma_trimmed_id;
use crate::grammar::line_capture;
use crate::grammar::marker_title;
use crate::grammar::opt_title;
use crate::grammar::parse_document;
use crate::grammar::section;
use crate::grammar::section_inner;
use crate::grammar::section_items;
use crate::grammar::section_tag;
use crate::grammar::stop_at;
use crate::grammar::trimmed;
use crate::scan::is_line_break;
use crate::scan::is_wspace;
use crate::scan::lemma_find_char_at;
use crate::scan::lemma_find_line_end_at;
use crate::scan::lemma_skip_hspace_at;
use crate::scan::lemma_skip_wspace_at;
use crate::scan::skip_wspace;
use crate::token::Tokens;
use vstd::string::StringExecFns;

verus! {

/// An optional title as rendered after a marker: one space, then the text.
pub open spec fn render_title(t: Option<Seq<char>>) -> Seq<char> {
    match t {
        Some(x) => seq![' '] + x,
        None => Seq::empty(),
    }
}

/// One keybinding in the two-line form: a comment line with the
/// description, then the keys quoted inside parentheses.
pub open spec fn render_keybind(kb: KeybindView) -> Seq<char> {
    seq!['-', '-', ' '] + kb.description + seq!['\n', '(', '"'] + kb.keys + seq!['"', ')', '\n']
}

/// A run of keybindings, one after the other.
pub open spec fn render_keybinds(kbs: Seq<KeybindView>) -> Seq<char>
    decreases kbs.len(),
{
    if kbs.len() == 0 {
        Seq::empty()
    } else {
        render_keybind(kbs.first()) + render_keybinds(kbs.drop_first())
    }
}

/// A section: its tag line, then its keybindings.
pub open spec fn render_section(sec: SectionView) -> Seq<char> {
    seq!['-', '-', ' ', '#', '#'] + render_title(sec.title) + seq!['\n'] + render_keybinds(
        sec.keybinds,
    )
}

/// A run of sections, one after the other.
pub open spec fn render_sections(ss: Seq<SectionView>) -> Seq<char>
    decreases ss.len(),
{
    if ss.len() == 0 {
        Seq::empty()
    } else {
        render_section(ss.first()) + render_sections(ss.drop_first())
    }
}

/// The closing boundary marker line.
pub open spec fn close_marker() -> Seq<char> {
    seq!['-', '-', ' ', '#', '\n']
}

/// A whole document: opening boundary marker with the title, the sections,
/// and a closing boundary marker.
pub open spec fn render_doc(d: DocView) -> Seq<char> {
    seq!['-', '-', ' ', '#'] + render_title(d.title) + seq!['\n'] + render_sections(d.sections)
        + close_marker()
}

/// Text that stays on one line.
pub open spec fn plain_text(t: Seq<char>) -> bool {
    forall|k: int| 0 <= k < t.len() ==> !is_line_break(#[trigger] t[k])
}

/// A title the round trip preserves: non-empty, not starting with
/// whitespace, on one line.
pub open spec fn title_ok(t: Option<Seq<char>>) -> bool {
    match t {
        None => true,
        Some(x) => x.len() > 0 && !is_wspace(x[0]) && plain_text(x),
    }
}

/// A description the round trip preserves: on one line, trimmed, and not
/// starting with a character the grammar reserves (`#`, `!`, `"`).
pub open spec fn desc_ok(d: Seq<char>) -> bool {
    plain_text(d) && (d.len() > 0 ==> !is_wspace(d[0]) && !is_wspace(d.last()) && d[0] != '#'
        && d[0] != '!' && d[0] != '"')
}

/// Keys the round trip preserves: non-empty, trimmed, on one line, free of
/// quotes.
pub open spec fn keys_ok(k: Seq<char>) -> bool {
    k.len() > 0 && !is_wspace(k[0]) && !is_wspace(k.last()) && plain_text(k) && (forall|i: int|
        0 <= i < k.len() ==> k[i] != '"')
}

pub open spec fn keybind_ok(kb: KeybindView) -> bool {
    keys_ok(kb.keys) && desc_ok(kb.description)
}

pub open spec fn section_ok(sec: SectionView) -> bool {
    title_ok(sec.title) && (forall|i: int|
        0 <= i < sec.keybinds.len() ==> keybind_ok(#[trigger] sec.keybinds[i]))
}

pub open spec fn doc_ok(d: DocView) -> bool {
    title_ok(d.title) && (forall|i: int|
        0 <= i < d.sections.len() ==> section_ok(#[trigger] d.sections[i]))
}

pub proof fn lemma_render_keybinds_push(kbs: Seq<KeybindView>, kb: KeybindView)
    ensures
        render_keybinds(kbs.push(kb)) == render_keybinds(kbs) + render_keybind(kb),
    decreases kbs.len(),
{
    if kbs.len() == 0 {
        assert(kbs.push(kb).first() == kb);
        assert(kbs.push(kb).drop_first() =~= Seq::<KeybindView>::empty());
        assert(render_keybinds(Seq::<KeybindView>::empty()) == Seq::<char>::empty());
        assert(render_keybind(kb) + Seq::<char>::empty() =~= render_keybind(kb));
        assert(Seq::<char>::empty() + render_keybind(kb) =~= render_keybind(kb));
    } else {
        assert(kbs.push(kb).first() == kbs.first());
        assert(kbs.push(kb).drop_first() =~= kbs.drop_first().push(kb));
        lemma_render_keybinds_push(kbs.drop_first(), kb);
        assert((render_keybind(kbs.first()) + render_keybinds(kbs.drop_first())) + render_keybind(
            kb,
        ) =~= render_keybind(kbs.first()) + (render_keybinds(kbs.drop_first()) + render_keybind(
            kb,
        )));
    }
}

pub proof fn lemma_render_sections_push(ss: Seq<SectionView>, sec: SectionView)
    ensures
        render_sections(ss.push(sec)) == render_sections(ss) + render_section(sec),
    decreases ss.len(),
{
    if ss.len() == 0 {
        assert(ss.push(sec).first() == sec);
        assert(ss.push(sec).drop_first() =~= Seq::<SectionView>::empty());
        assert(render_sections(Seq::<SectionView>::empty()) == Seq::<char>::empty());
        assert(render_section(sec) + Seq::<char>::empty() =~= render_section(sec));
        assert(Seq::<char>::empty() + render_section(sec) =~= render_section(sec));
    } else {
        assert(ss.push(sec).first() == ss.first());
        assert(ss.push(sec).drop_first() =~= ss.drop_first().push(sec));
        lemma_render_sections_push(ss.drop_first(), sec);
        assert((render_section(ss.first()) + render_sections(ss.drop_first())) + render_section(
            sec,
        ) =~= render_section(ss.first()) + (render_sections(ss.drop_first()) + render_section(
            sec,
        )));
    }
}

/// Reading one character of a known suffix.
proof fn lemma_suffix_index(s: Seq<char>, p: int, t: Seq<char>, m: int)
    requires
        0 <= p,
        p + t.len() == s.len(),
        s.subrange(p, s.len() as int) == t,
        0 <= m < t.len(),
    ensures
        s[p + m] == t[m],
{
    assert(s.subrange(p, s.len() as int)[m] == s[p + m]);
}

/// A known suffix made of two parts gives the second part as the suffix at
/// the split point.
proof fn lemma_suffix_split(s: Seq<char>, p: int, a: Seq<char>, b: Seq<char>)
    requires
        0 <= p,
        s.subrange(p, s.len() as int) == a + b,
        p + a.len() + b.len() == s.len(),
    ensures
        s.subrange(p + a.len(), s.len() as int) == b,
{
    assert(s.subrange(p + a.len(), s.len() as int) =~= b) by {
        assert forall|m: int| 0 <= m < b.len() implies s.subrange(p + a.len(), s.len() as int)[m]
            == b[m] by {
            assert(s.subrange(p + a.len(), s.len() as int)[m] == s[p + a.len() + m]);
            assert(s.subrange(p, s.len() as int)[a.len() + m] == s[p + a.len() + m]);
            assert((a + b)[a.len() + m] == b[m]);
        }
    }
}

/// At a position holding a rendered keybinding followed by a line that
/// starts with the comment marker, the parser recognizes exactly that
/// keybinding, and no stop condition fires.
proof fn lemma_keybind_at(s: Seq<char>, p: int, kb: KeybindView, rest: Seq<char>)
    requires
        keybind_ok(kb),
        0 <= p,
        s.subrange(p, s.len() as int) == render_keybind(kb) + rest,
        p + render_keybind(kb).len() + rest.len() == s.len(),
        rest.len() > 0,
        rest[0] == '-',
    ensures
        section_inner(s, p) == Some((p + render_keybind(kb).len(), Some(kb))),
        !stop_at(s, p),
{
    let rk = render_keybind(kb);
    let d = kb.description;
    let k = kb.keys;
    let dl = d.len() as int;
    let kl = k.len() as int;
    assert(rk.len() == dl + kl + 9);
    assert forall|m: int| 0 <= m < rk.len() + rest.len() implies s[p + m] == #[trigger] (rk
        + rest)[m] by {
        assert(s.subrange(p, s.len() as int)[m] == s[p + m]);
    }
    assert(s[p] == '-') by {
        assert((rk + rest)[0] == rk[0]);
    }
    assert(s[p + 1] == '-') by {
        assert((rk + rest)[1] == rk[1]);
    }
    assert(s[p + 2] == ' ') by {
        assert((rk + rest)[2] == rk[2]);
    }
    assert forall|j: int| 0 <= j < dl implies s[p + 3 + j] == #[trigger] d[j] by {
        assert((rk + rest)[3 + j] == rk[3 + j]);
        assert(rk[3 + j] == d[j]);
    }
    assert(s[p + 3 + dl] == '\n') by {
        assert((rk + rest)[3 + dl] == rk[3 + dl]);
    }
    assert(s[p + 4 + dl] == '(') by {
        assert((rk + rest)[4 + dl] == rk[4 + dl]);
    }
    assert(s[p + 5 + dl] == '"') by {
        assert((rk + rest)[5 + dl] == rk[5 + dl]);
    }
    assert forall|j: int| 0 <= j < kl implies s[p + 6 + dl + j] == #[trigger] k[j] by {
        assert((rk + rest)[6 + dl + j] == rk[6 + dl + j]);
        assert(rk[6 + dl + j] == k[j]);
    }
    assert(s[p + 6 + dl + kl] == '"') by {
        assert((rk + rest)[6 + dl + kl] == rk[6 + dl + kl]);
    }
    assert(s[p + 7 + dl + kl] == ')') by {
        assert((rk + rest)[7 + dl + kl] == rk[7 + dl + kl]);
    }
    assert(s[p + 8 + dl + kl] == '\n') by {
        assert((rk + rest)[8 + dl + kl] == rk[8 + dl + kl]);
    }
    assert(s[p + rk.len()] == '-') by {
        assert((rk + rest)[rk.len() as int] == rest[0]);
    }
    // the comment sequence at the head of the description line
    lemma_skip_wspace_at(s, p, p);
    if dl > 0 {
        assert(s[p + 3 + 0] == d[0]);
    }
    lemma_skip_hspace_at(s, p + 2, p + 3);
    assert(comment_seq(s, p) == Some(p + 3));
    // the description line, captured to its line break
    assert forall|m: int| p + 3 <= m < p + 3 + dl implies !is_line_break(#[trigger] s[m]) by {
        assert(s[p + 3 + (m - p - 3)] == d[m - p - 3]);
    }
    lemma_find_line_end_at(s, p + 3, p + 3 + dl);
    assert(line_capture(s, p + 3) == Some((p + 4 + dl, s.subrange(p + 3, p + 3 + dl))));
    assert(s.subrange(p + 3, p + 3 + dl) =~= d);
    assert(keybind_description(s, p) == Some((p + 4 + dl, d)));
    // the keys definition on the following line
    let q0 = p + 4 + dl;
    lemma_find_char_at(s, q0, q0, '(');
    lemma_skip_hspace_at(s, q0 + 1, q0 + 1);
    assert forall|m: int| q0 + 2 <= m < q0 + 2 + kl implies #[trigger] s[m] != '"' by {
        assert(s[p + 6 + dl + (m - p - 6 - dl)] == k[m - p - 6 - dl]);
    }
    assert(s[q0 + 2 + kl] == '"');
    lemma_find_char_at(s, q0 + 2, q0 + 2 + kl, '"');
    lemma_find_char_at(s, q0 + 3 + kl, q0 + 3 + kl, ')');
    assert(keybind_definition(s, q0) == Some((q0 + 4 + kl, s.subrange(q0 + 2, q0 + 2 + kl))));
    assert(s.subrange(q0 + 2, q0 + 2 + kl) =~= k);
    lemma_trimmed_id(k);
    lemma_trimmed_id(d);
    assert(keybind_declaration(s, p) == Some((p + rk.len() - 1, kb)));
    // the entry ends before its final line break, which the surrounding
    // whitespace skip consumes
    lemma_skip_wspace_at(s, p + rk.len() - 1, p + rk.len());
    lemma_skip_wspace_at(s, p + rk.len(), p + rk.len());
    assert(section_inner(s, p) == Some((p + rk.len(), Some(kb))));
    // the line is neither marker, and input remains: no stop fires
    assert(boundary(s, p) is None);
    assert(section_tag(s, p) is None);
    assert(skip_wspace(s, p) != s.len());
    assert(!stop_at(s, p));
}

/// A run of rendered keybindings, ending where a stop condition fires on a
/// line starting with the comment marker, parses to exactly those
/// keybindings.
proof fn lemma_keybinds_at(s: Seq<char>, p: int, kbs: Seq<KeybindView>, rest: Seq<char>)
    requires
        forall|i: int| 0 <= i < kbs.len() ==> keybind_ok(#[trigger] kbs[i]),
        0 <= p,
        s.subrange(p, s.len() as int) == render_keybinds(kbs) + rest,
        p + render_keybinds(kbs).len() + rest.len() == s.len(),
        rest.len() > 0,
        rest[0] == '-',
        stop_at(s, p + render_keybinds(kbs).len()),
    ensures
        section_items(s, p) == (p + render_keybinds(kbs).len(), kbs),
    decreases kbs.len(),
{
    if kbs.len() == 0 {
        assert(render_keybinds(kbs).len() == 0);
        assert(stop_at(s, p));
        assert(kbs =~= Seq::<KeybindView>::empty());
    } else {
        let kb = kbs.first();
        let rk = render_keybind(kb);
        let tail = render_keybinds(kbs.drop_first()) + rest;
        assert(render_keybinds(kbs) == rk + render_keybinds(kbs.drop_first()));
        assert(s.subrange(p, s.len() as int) == rk + tail) by {
            assert((rk + render_keybinds(kbs.drop_first())) + rest =~= rk + (render_keybinds(
                kbs.drop_first(),
            ) + rest));
        }
        assert(tail[0] == '-') by {
            if kbs.drop_first().len() == 0 {
                assert(render_keybinds(kbs.drop_first()).len() == 0);
                assert(tail[0] == rest[0]);
            } else {
                let kb2 = kbs.drop_first().first();
                assert(render_keybinds(kbs.drop_first()) == render_keybind(kb2) + render_keybinds(
                    kbs.drop_first().drop_first(),
                ));
                assert(render_keybind(kb2)[0] == '-');
                assert(tail[0] == render_keybinds(kbs.drop_first())[0]);
            }
        }
        assert(kbs[0] == kb);
        assert(keybind_ok(kb));
        lemma_keybind_at(s, p, kb, tail);
        let p2 = p + rk.len();
        lemma_suffix_split(s, p, rk, tail);
        assert forall|i: int| 0 <= i < kbs.drop_first().len() implies keybind_ok(
            #[trigger] kbs.drop_first()[i],
        ) by {
            assert(kbs.drop_first()[i] == kbs[i + 1]);
        }
        lemma_keybinds_at(s, p2, kbs.drop_first(), rest);
        assert(section_items(s, p) == (
            section_items(s, p2).0,
            seq![kb] + section_items(s, p2).1,
        ));
        assert(seq![kb] + kbs.drop_first() =~= kbs);
    }
}

/// A rendered section tag followed by a line starting with the comment
/// marker parses to its title; it is not a boundary marker.
proof fn lemma_tag_at(s: Seq<char>, p: int, title: Option<Seq<char>>, tail: Seq<char>)
    requires
        title_ok(title),
        0 <= p,
        s.subrange(p, s.len() as int) == (seq!['-', '-', ' ', '#', '#'] + render_title(title)
            + seq!['\n']) + tail,
        p + 6 + render_title(title).len() + tail.len() == s.len(),
        tail.len() > 0,
        tail[0] == '-',
    ensures
        section_tag(s, p) == Some((p + 6 + render_title(title).len(), title)),
        boundary(s, p) is None,
{
    let head = seq!['-', '-', ' ', '#', '#'] + render_title(title) + seq!['\n'];
    let hl = head.len() as int;
    let t = head + tail;
    assert(hl == 6 + render_title(title).len());
    assert forall|m: int| 0 <= m < t.len() implies s[p + m] == #[trigger] t[m] by {
        lemma_suffix_index(s, p, t, m);
    }
    assert(s[p] == '-') by {
        assert(t[0] == head[0]);
    }
    assert(s[p + 1] == '-') by {
        assert(t[1] == head[1]);
    }
    assert(s[p + 2] == ' ') by {
        assert(t[2] == head[2]);
    }
    assert(s[p + 3] == '#') by {
        assert(t[3] == head[3]);
    }
    assert(s[p + 4] == '#') by {
        assert(t[4] == head[4]);
    }
    assert(s[p + hl] == '-') by {
        assert(t[hl] == tail[0]);
    }
    lemma_skip_wspace_at(s, p, p);
    lemma_skip_hspace_at(s, p + 2, p + 3);
    assert(comment_seq(s, p) == Some(p + 3));
    match title {
        Some(x) => {
            let xl = x.len() as int;
            assert(render_title(title) == seq![' '] + x);
            assert(s[p + 5] == ' ') by {
                assert(t[5] == head[5]);
                assert(head[5] == (seq![' '] + x)[0]);
            }
            assert forall|j: int| 0 <= j < xl implies s[p + 6 + j] == #[trigger] x[j] by {
                assert(t[6 + j] == head[6 + j]);
                assert(head[6 + j] == (seq![' '] + x)[1 + j]);
            }
            assert(s[p + 6 + xl] == '\n') by {
                assert(t[6 + xl] == head[6 + xl]);
            }
            lemma_skip_hspace_at(s, p + 5, p + 6);
            assert forall|m: int| p + 6 <= m < p + 6 + xl implies !is_line_break(
                #[trigger] s[m],
            ) by {
                assert(s[p + 6 + (m - p - 6)] == x[m - p - 6]);
            }
            lemma_find_line_end_at(s, p + 6, p + 6 + xl);
            assert(line_capture(s, p + 6) == Some((p + 7 + xl, s.subrange(p + 6, p + 6 + xl))));
            assert(s.subrange(p + 6, p + 6 + xl) =~= x);
            lemma_skip_wspace_at(s, p + 7 + xl, p + 7 + xl);
            assert(opt_title(x) == Some(x));
            assert(marker_title(s, p + 5) == (p + 7 + xl, Some(x)));
            assert(p + 7 + xl == p + hl);
        },
        None => {
            assert(render_title(title).len() == 0);
            assert(s[p + 5] == '\n') by {
                assert(t[5] == head[5]);
            }
            lemma_skip_hspace_at(s, p + 5, p + 5);
            lemma_find_line_end_at(s, p + 5, p + 5);
            assert(line_capture(s, p + 5) == Some((p + 6, s.subrange(p + 5, p + 5))));
            assert(s.subrange(p + 5, p + 5) =~= Seq::<char>::empty());
            lemma_skip_wspace_at(s, p + 6, p + 6);
            assert(marker_title(s, p + 5) == (p + 6, Option::<Seq<char>>::None));
        },
    }
    assert(section_tag(s, p) == Some((p + hl, title)));
    assert(boundary(s, p) is None);
}

/// The closing boundary marker at the end of the input parses as a
/// boundary, consuming everything.
proof fn lemma_close_at(s: Seq<char>, p: int)
    requires
        0 <= p,
        p + 5 == s.len(),
        s.subrange(p, s.len() as int) == close_marker(),
    ensures
        boundary(s, p) == Some((s.len() as int, Option::<Seq<char>>::None)),
{
    let t = close_marker();
    assert forall|m: int| 0 <= m < t.len() implies s[p + m] == #[trigger] t[m] by {
        lemma_suffix_index(s, p, t, m);
    }
    assert(s[p] == '-') by {
        assert(t[0] == '-');
    }
    assert(s[p + 1] == '-') by {
        assert(t[1] == '-');
    }
    assert(s[p + 2] == ' ') by {
        assert(t[2] == ' ');
    }
    assert(s[p + 3] == '#') by {
        assert(t[3] == '#');
    }
    assert(s[p + 4] == '\n') by {
        assert(t[4] == '\n');
    }
    lemma_skip_wspace_at(s, p, p);
    lemma_skip_hspace_at(s, p + 2, p + 3);
    assert(comment_seq(s, p) == Some(p + 3));
    lemma_skip_hspace_at(s, p + 4, p + 4);
    lemma_find_line_end_at(s, p + 4, p + 4);
    assert(line_capture(s, p + 4) == Some((p + 5, s.subrange(p + 4, p + 4))));
    assert(s.subrange(p + 4, p + 4) =~= Seq::<char>::empty());
    lemma_skip_wspace_at(s, p + 5, p + 5);
    assert(marker_title(s, p + 4) == (p + 5, Option::<Seq<char>>::None));
}

/// A rendered section, followed by a stop on a line starting with the
/// comment marker, parses to exactly that section.
proof fn lemma_section_at(s: Seq<char>, p: int, sec: SectionView, rest: Seq<char>)
    requires
        section_ok(sec),
        0 <= p,
        s.subrange(p, s.len() as int) == render_section(sec) + rest,
        p + render_section(sec).len() + rest.len() == s.len(),
        rest.len() > 0,
        rest[0] == '-',
        stop_at(s, p + render_section(sec).len()),
    ensures
        section(s, p) == Some((p + render_section(sec).len(), sec)),
        boundary(s, p) is None,
        skip_wspace(s, p) == p,
        p < s.len(),
{
    let head = seq!['-', '-', ' ', '#', '#'] + render_title(sec.title) + seq!['\n'];
    let hl = head.len() as int;
    let kbs_text = render_keybinds(sec.keybinds);
    let tail = kbs_text + rest;
    assert(render_section(sec) == head + kbs_text) by {
        assert(seq!['-', '-', ' ', '#', '#'] + render_title(sec.title) + seq!['\n'] + kbs_text
            =~= head + kbs_text);
    }
    assert(s.subrange(p, s.len() as int) == head + tail) by {
        assert((head + kbs_text) + rest =~= head + (kbs_text + rest));
    }
    assert(tail[0] == '-') by {
        if sec.keybinds.len() == 0 {
            assert(kbs_text.len() == 0);
            assert(tail[0] == rest[0]);
        } else {
            let kb = sec.keybinds.first();
            assert(kbs_text == render_keybind(kb) + render_keybinds(sec.keybinds.drop_first()));
            assert(render_keybind(kb)[0] == '-');
            assert(tail[0] == kbs_text[0]);
        }
    }
    lemma_tag_at(s, p, sec.title, tail);
    let p2 = p + hl;
    lemma_suffix_split(s, p, head, tail);
    lemma_keybinds_at(s, p2, sec.keybinds, rest);
    assert(s[p + render_section(sec).len()] == rest[0]) by {
        lemma_suffix_index(s, p, render_section(sec) + rest, render_section(sec).len() as int);
        assert((render_section(sec) + rest)[render_section(sec).len() as int] == rest[0]);
    }
    lemma_skip_wspace_at(s, p + render_section(sec).len(), p + render_section(sec).len());
    assert(section(s, p) == Some((p + render_section(sec).len(), sec)));
    assert(s[p] == '-') by {
        lemma_suffix_index(s, p, render_section(sec) + rest, 0);
        assert((render_section(sec) + rest)[0] == head[0]);
    }
    lemma_skip_wspace_at(s, p, p);
}

/// A rendered run of sections followed by the closing marker parses to
/// exactly those sections, with the close seen.
proof fn lemma_sections_at(s: Seq<char>, p: int, ss: Seq<SectionView>)
    requires
        forall|i: int| 0 <= i < ss.len() ==> section_ok(#[trigger] ss[i]),
        0 <= p,
        s.subrange(p, s.len() as int) == render_sections(ss) + close_marker(),
        p + render_sections(ss).len() + 5 == s.len(),
    ensures
        doc_items(s, p) == (s.len() as int, ss, true),
    decreases ss.len(),
{
    if ss.len() == 0 {
        assert(render_sections(ss).len() == 0);
        assert(s.subrange(p, s.len() as int) =~= close_marker()) by {
            assert(render_sections(ss) + close_marker() =~= close_marker());
        }
        lemma_close_at(s, p);
        assert(ss =~= Seq::<SectionView>::empty());
    } else {
        let sec = ss.first();
        let rs = render_section(sec);
        let rest = render_sections(ss.drop_first()) + close_marker();
        assert(render_sections(ss) == rs + render_sections(ss.drop_first()));
        assert(s.subrange(p, s.len() as int) == rs + rest) by {
            assert((rs + render_sections(ss.drop_first())) + close_marker() =~= rs
                + (render_sections(ss.drop_first()) + close_marker()));
        }
        assert(rest[0] == '-') by {
            if ss.drop_first().len() == 0 {
                assert(render_sections(ss.drop_first()).len() == 0);
                assert(rest[0] == close_marker()[0]);
            } else {
                let sec2 = ss.drop_first().first();
                assert(render_sections(ss.drop_first()) == render_section(sec2) + render_sections(
                    ss.drop_first().drop_first(),
                ));
                assert(render_section(sec2)[0] == '-') by {
                    let head2 = seq!['-', '-', ' ', '#', '#'] + render_title(sec2.title)
                        + seq!['\n'];
                    assert(render_section(sec2)[0] == head2[0]);
                }
                assert(rest[0] == render_sections(ss.drop_first())[0]);
            }
        }
        let p2 = p + rs.len();
        lemma_suffix_split(s, p, rs, rest);
        assert forall|i: int| 0 <= i < ss.drop_first().len() implies section_ok(
            #[trigger] ss.drop_first()[i],
        ) by {
            assert(ss.drop_first()[i] == ss[i + 1]);
        }
        // the stop after this section: the next tag, or the close
        if ss.drop_first().len() == 0 {
            assert(s.subrange(p2, s.len() as int) =~= close_marker()) by {
                assert(render_sections(ss.drop_first()) + close_marker() =~= close_marker());
            }
            lemma_close_at(s, p2);
            assert(stop_at(s, p2));
        } else {
            let sec2 = ss.drop_first().first();
            let head2 = seq!['-', '-', ' ', '#', '#'] + render_title(sec2.title) + seq!['\n'];
            let tail2 = render_keybinds(sec2.keybinds) + (render_sections(
                ss.drop_first().drop_first(),
            ) + close_marker());
            assert(s.subrange(p2, s.len() as int) == head2 + tail2) by {
                assert(render_sections(ss.drop_first()) == render_section(sec2) + render_sections(
                    ss.drop_first().drop_first(),
                ));
                assert(render_section(sec2) == head2 + render_keybinds(sec2.keybinds)) by {
                    assert(seq!['-', '-', ' ', '#', '#'] + render_title(sec2.title) + seq!['\n']
                        + render_keybinds(sec2.keybinds) =~= head2 + render_keybinds(
                        sec2.keybinds,
                    ));
                }
                assert(((head2 + render_keybinds(sec2.keybinds)) + render_sections(
                    ss.drop_first().drop_first(),
                )) + close_marker() =~= head2 + tail2);
            }
            assert(tail2[0] == '-') by {
                if sec2.keybinds.len() == 0 {
                    assert(render_keybinds(sec2.keybinds).len() == 0);
                    if ss.drop_first().drop_first().len() == 0 {
                        assert(render_sections(ss.drop_first().drop_first()).len() == 0);
                        assert(tail2[0] == close_marker()[0]);
                    } else {
                        let sec3 = ss.drop_first().drop_first().first();
                        assert(render_sections(ss.drop_first().drop_first()) == render_section(
                            sec3,
                        ) + render_sections(ss.drop_first().drop_first().drop_first()));
                        assert(render_section(sec3)[0] == '-') by {
                            let head3 = seq!['-', '-', ' ', '#', '#'] + render_title(sec3.title)
                                + seq!['\n'];
                            assert(render_section(sec3)[0] == head3[0]);
                        }
                        assert(tail2[0] == render_sections(ss.drop_first().drop_first())[0]);
                    }
                } else {
                    let kb2 = sec2.keybinds.first();
                    assert(render_keybinds(sec2.keybinds) == render_keybind(kb2) + render_keybinds(
                        sec2.keybinds.drop_first(),
                    ));
                    assert(render_keybind(kb2)[0] == '-');
                    assert(tail2[0] == render_keybinds(sec2.keybinds)[0]);
                }
            }
            assert(ss.drop_first()[0] == sec2);
            assert(section_ok(sec2));
            lemma_tag_at(s, p2, sec2.title, tail2);
            assert(stop_at(s, p2));
        }
        assert(ss[0] == sec);
        assert(section_ok(sec));
        lemma_section_at(s, p, sec, rest);
        lemma_sections_at(s, p2, ss.drop_first());
        assert(doc_items(s, p) == (
            doc_items(s, p2).0,
            seq![sec] + doc_items(s, p2).1,
            doc_items(s, p2).2,
        ));
        assert(seq![sec] + ss.drop_first() =~= ss);
    }
}

/// Round trip: rendering a well-formed document in the two-line form and
/// re-parsing the text yields the document back, closed by its boundary
/// marker, with nothing left over.
pub proof fn lemma_render_parse_round_trip(d: DocView)
    requires
        doc_ok(d),
    ensures
        parse_document(render_doc(d)) == Some(
            DocParse { end: render_doc(d).len() as int, doc: d, closed: true },
        ),
{
    let s = render_doc(d);
    let head = seq!['-', '-', ' ', '#'] + render_title(d.title) + seq!['\n'];
    let hl = head.len() as int;
    let tail = render_sections(d.sections) + close_marker();
    assert(s == head + tail) by {
        assert(seq!['-', '-', ' ', '#'] + render_title(d.title) + seq!['\n'] + render_sections(
            d.sections,
        ) + close_marker() =~= head + tail);
    }
    assert(s.subrange(0, s.len() as int) == head + tail) by {
        assert(s.subrange(0, s.len() as int) =~= s);
    }
    assert forall|m: int| 0 <= m < s.len() implies s[m] == #[trigger] (head + tail)[m] by {
        lemma_suffix_index(s, 0, head + tail, m);
    }
    assert(s[0] == '-') by {
        assert((head + tail)[0] == head[0]);
    }
    assert(s[1] == '-') by {
        assert((head + tail)[1] == head[1]);
    }
    assert(s[2] == ' ') by {
        assert((head + tail)[2] == head[2]);
    }
    assert(s[3] == '#') by {
        assert((head + tail)[3] == head[3]);
    }
    assert(tail[0] == '-') by {
        if d.sections.len() == 0 {
            assert(render_sections(d.sections).len() == 0);
            assert(tail[0] == close_marker()[0]);
        } else {
            let sec = d.sections.first();
            assert(render_sections(d.sections) == render_section(sec) + render_sections(
                d.sections.drop_first(),
            ));
            assert(render_section(sec)[0] == '-') by {
                let head2 = seq!['-', '-', ' ', '#', '#'] + render_title(sec.title) + seq!['\n'];
                assert(render_section(sec)[0] == head2[0]);
            }
            assert(tail[0] == render_sections(d.sections)[0]);
        }
    }
    assert(s[hl] == '-') by {
        assert((head + tail)[hl] == tail[0]);
    }
    lemma_skip_wspace_at(s, 0, 0);
    lemma_skip_hspace_at(s, 2, 3);
    assert(comment_seq(s, 0) == Some(3int));
    match d.title {
        Some(x) => {
            let xl = x.len() as int;
            assert(render_title(d.title) == seq![' '] + x);
            assert(s[4] == ' ') by {
                assert((head + tail)[4] == head[4]);
                assert(head[4] == (seq![' '] + x)[0]);
            }
            assert forall|j: int| 0 <= j < xl implies s[5 + j] == #[trigger] x[j] by {
                assert((head + tail)[5 + j] == head[5 + j]);
                assert(head[5 + j] == (seq![' '] + x)[1 + j]);
            }
            assert(s[5 + xl] == '\n') by {
                assert((head + tail)[5 + xl] == head[5 + xl]);
            }
            lemma_skip_hspace_at(s, 4, 5);
            assert forall|m: int| 5 <= m < 5 + xl implies !is_line_break(#[trigger] s[m]) by {
                assert(s[5 + (m - 5)] == x[m - 5]);
            }
            lemma_find_line_end_at(s, 5, 5 + xl);
            assert(line_capture(s, 5) == Some((6 + xl, s.subrange(5, 5 + xl))));
            assert(s.subrange(5, 5 + xl) =~= x);
            lemma_skip_wspace_at(s, 6 + xl, 6 + xl);
            assert(marker_title(s, 4) == (6 + xl, Some(x)));
            assert(6 + xl == hl);
        },
        None => {
            assert(render_title(d.title).len() == 0);
            assert(s[4] == '\n') by {
                assert((head + tail)[4] == head[4]);
            }
            lemma_skip_hspace_at(s, 4, 4);
            lemma_find_line_end_at(s, 4, 4);
            assert(line_capture(s, 4) == Some((5int, s.subrange(4, 4))));
            assert(s.subrange(4, 4) =~= Seq::<char>::empty());
            lemma_skip_wspace_at(s, 5, 5);
            assert(marker_title(s, 4) == (5int, Option::<Seq<char>>::None));
        },
    }
    assert(boundary(s, 0) == Some((hl, d.title)));
    assert(find_open(s, 0) == Some((hl, d.title)));
    lemma_suffix_split(s, 0, head, tail);
    lemma_sections_at(s, hl, d.sections);
    assert(doc_items(s, hl) == (s.len() as int, d.sections, true));
    assert(skip_wspace(s, s.len() as int) == s.len());
    assert(parse_document(s) == Some(
        DocParse { end: s.len() as int, doc: DocView { title: d.title, sections: d.sections }, closed: true },
    ));
    assert(DocView { title: d.title, sections: d.sections } == d);
}

/// A well-formed document with its sections and keybindings renders and
/// re-parses to the same counts, in the same order: N section tags each
/// followed by K keybinding entries yield exactly N sections of K
/// keybindings.
pub proof fn lemma_render_parse_counts(d: DocView)
    requires
        doc_ok(d),
    ensures
        parse_document(render_doc(d)) is Some,
        parse_document(render_doc(d)).unwrap().doc.sections.len() == d.sections.len(),
        forall|i: int|
            0 <= i < d.sections.len() ==> parse_document(
                render_doc(d),
            ).unwrap().doc.sections[i].keybinds.len() == d.sections[i].keybinds.len(),
{
    lemma_render_parse_round_trip(d);
}

/// Boundary leniency: an input whose opening boundary marker is found never
/// fails to parse, whether or not a closing marker follows; the only hard
/// failure is the absence of any opening marker.
pub proof fn lemma_missing_close_tolerated(s: Seq<char>)
    ensures
        parse_document(s) is Some <==> find_open(s, 0) is Some,
{
}

/// Render a document into annotated source text, using the two-line form
/// for every keybinding.
pub fn render_document(doc: &Tokens) -> (r: String)
    ensures
        r@ == render_doc(doc@),
{
    let mut out = String::new();
    out.append("-- #");
    match &doc.title {
        Some(t) => {
            out.append(" ");
            out.append(t.as_str());
        },
        None => {},
    }
    out.append("\n");
    let ghost head = seq!['-', '-', ' ', '#'] + render_title(doc@.title) + seq!['\n'];
    proof {
        reveal_strlit("-- #");
        reveal_strlit(" ");
        reveal_strlit("\n");
        assert("-- #"@ =~= seq!['-', '-', ' ', '#']);
        assert(" "@ =~= seq![' ']);
        assert("\n"@ =~= seq!['\n']);
        assert(out@ =~= head);
    }
    let mut si: usize = 0;
    while si < doc.sections.len()
        invariant
            si <= doc.sections.len(),
            head == seq!['-', '-', ' ', '#'] + render_title(doc@.title) + seq!['\n'],
            out@ == head + render_sections(doc@.sections.take(si as int)),
        decreases doc.sections.len() - si,
    {
        out.append("-- ##");
        match &doc.sections[si].title {
            Some(t) => {
                out.append(" ");
                out.append(t.as_str());
            },
            None => {},
        }
        out.append("\n");
        let ghost sec_head = seq!['-', '-', ' ', '#', '#'] + render_title(
            doc@.sections[si as int].title,
        ) + seq!['\n'];
        proof {
            reveal_strlit("-- ##");
            reveal_strlit(" ");
            reveal_strlit("\n");
            assert("-- ##"@ =~= seq!['-', '-', ' ', '#', '#']);
            assert(" "@ =~= seq![' ']);
            assert("\n"@ =~= seq!['\n']);
            assert(out@ =~= head + render_sections(doc@.sections.take(si as int)) + sec_head);
        }
        let mut ki: usize = 0;
        while ki < doc.sections[si].keybinds.len()
            invariant
                si < doc.sections.len(),
                ki <= doc.sections@[si as int].keybinds@.len(),
                sec_head == seq!['-', '-', ' ', '#', '#'] + render_title(
                    doc@.sections[si as int].title,
                ) + seq!['\n'],
                out@ == head + render_sections(doc@.sections.take(si as int)) + sec_head
                    + render_keybinds(doc@.sections[si as int].keybinds.take(ki as int)),
            decreases doc.sections@[si as int].keybinds@.len() - ki,
        {
            out.append("-- ");
            out.append(doc.sections[si].keybinds[ki].description.as_str());
            out.append("\n(\"");
            out.append(doc.sections[si].keybinds[ki].keys.as_str());
            out.append("\")\n");
            proof {
                reveal_strlit("-- ");
                reveal_strlit("\n(\"");
                reveal_strlit("\")\n");
                assert("-- "@ =~= seq!['-', '-', ' ']);
                assert("\n(\""@ =~= seq!['\n', '(', '"']);
                assert("\")\n"@ =~= seq!['"', ')', '\n']);
                let ghost kbs = doc@.sections[si as int].keybinds;
                assert(kbs.take(ki as int + 1) =~= kbs.take(ki as int).push(kbs[ki as int]));
                lemma_render_keybinds_push(kbs.take(ki as int), kbs[ki as int]);
                assert(kbs[ki as int] == doc.sections@[si as int].keybinds@[ki as int]@);
                assert(out@ =~= head + render_sections(doc@.sections.take(si as int)) + sec_head
                    + render_keybinds(kbs.take(ki as int + 1)));
            }
            ki = ki + 1;
        }
        proof {
            let ghost kbs = doc@.sections[si as int].keybinds;
            assert(kbs.take(ki as int) =~= kbs);
            assert(doc@.sections.take(si as int + 1) =~= doc@.sections.take(si as int).push(
                doc@.sections[si as int],
            ));
            lemma_render_sections_push(doc@.sections.take(si as int), doc@.sections[si as int]);
            assert(sec_head + render_keybinds(kbs) =~= render_section(doc@.sections[si as int]));
            assert(out@ =~= head + render_sections(doc@.sections.take(si as int + 1)));
        }
        si = si + 1;
    }
    out.append("-- #\n");
    proof {
        reveal_strlit("-- #\n");
        assert("-- #\n"@ =~= seq!['-', '-', ' ', '#', '\n']);
        assert(doc@.sections.take(si as int) =~= doc@.sections);
        assert(out@ =~= render_doc(doc@));
    }
    out
}

} // verus!
