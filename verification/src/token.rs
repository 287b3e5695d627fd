//! The owned document model: what a successful parse hands to callers, and
//! the flattened form the query engine searches.

use vstd::prelude::*;

use crate::grammar::DocView;
use crate::grammar::KeybindView;
use crate::grammar::SectionView;
use crate::parser::KeybindToken;
use crate::parser::Parsed;
use crate::parser::opt_view;

verus! {

/// A single keybinding: a key combination and its description.
#[derive(Debug, Clone, Default, PartialEq, Eq)]
pub struct Keybind {
    pub keys: String,
    pub description: String,
}

impl View for Keybind {
    type V = KeybindView;

    open spec fn view(&self) -> KeybindView {
        KeybindView { keys: self.keys@, description: self.description@ }
    }
}

impl Keybind {
    pub fn new(keys: &str, desc: &str) -> (r: Self)
        ensures
            r@ == (KeybindView { keys: keys@, description: desc@ }),
    {
        Keybind { keys: keys.to_owned(), description: desc.to_owned() }
    }
}

/// A named group of keybindings, in appearance order.
#[derive(Debug, Clone, Default, PartialEq, Eq)]
pub struct Section {
    pub title: Option<String>,
    pub keybinds: Vec<Keybind>,
}

impl View for Section {
    type V = SectionView;

    open spec fn view(&self) -> SectionView {
        SectionView {
            title: opt_view(self.title),
            keybinds: self.keybinds@.map_values(|kb: Keybind| kb@),
        }
    }
}

/// A whole parsed document: title and sections in appearance order.
#[derive(Debug, Clone, Default, PartialEq, Eq)]
pub struct Tokens {
    pub title: Option<String>,
    pub sections: Vec<Section>,
}

impl View for Tokens {
    type V = DocView;

    open spec fn view(&self) -> DocView {
        DocView {
            title: opt_view(self.title),
            sections: self.sections@.map_values(|sec: Section| sec@),
        }
    }
}

/// The keybindings of consecutive sections, concatenated in document order.
pub open spec fn flatten_sections(ss: Seq<SectionView>) -> Seq<KeybindView>
    decreases ss.len(),
{
    if ss.len() == 0 {
        Seq::empty()
    } else {
        ss.first().keybinds + flatten_sections(ss.drop_first())
    }
}

/// Every keybinding of a document, in document order.
pub open spec fn flattened(d: DocView) -> Seq<KeybindView> {
    flatten_sections(d.sections)
}

pub proof fn lemma_flatten_sections_push(ss: Seq<SectionView>, sec: SectionView)
    ensures
        flatten_sections(ss.push(sec)) == flatten_sections(ss) + sec.keybinds,
    decreases ss.len(),
{
    if ss.len() == 0 {
        assert(ss.push(sec).first() == sec);
        assert(ss.push(sec).drop_first() =~= Seq::<SectionView>::empty());
        assert(flatten_sections(Seq::<SectionView>::empty()) == Seq::<KeybindView>::empty());
        assert(flatten_sections(ss.push(sec)) == sec.keybinds + Seq::<KeybindView>::empty());
        assert(sec.keybinds + Seq::<KeybindView>::empty() =~= sec.keybinds);
        assert(Seq::<KeybindView>::empty() + sec.keybinds =~= sec.keybinds);
    } else {
        assert(ss.push(sec).first() == ss.first());
        assert(ss.push(sec).drop_first() =~= ss.drop_first().push(sec));
        lemma_flatten_sections_push(ss.drop_first(), sec);
        assert(flatten_sections(ss.push(sec)) == ss.first().keybinds + (flatten_sections(
            ss.drop_first(),
        ) + sec.keybinds));
        assert((ss.first().keybinds + flatten_sections(ss.drop_first())) + sec.keybinds
            =~= ss.first().keybinds + (flatten_sections(ss.drop_first()) + sec.keybinds));
    }
}

pub proof fn lemma_flatten_sections_concat(a: Seq<SectionView>, b: Seq<SectionView>)
    ensures
        flatten_sections(a + b) == flatten_sections(a) + flatten_sections(b),
    decreases b.len(),
{
    if b.len() == 0 {
        assert(a + b =~= a);
        assert(flatten_sections(a) + flatten_sections(b) =~= flatten_sections(a));
    } else {
        assert(b =~= b.drop_last().push(b.last()));
        assert(a + b =~= (a + b.drop_last()).push(b.last()));
        lemma_flatten_sections_concat(a, b.drop_last());
        lemma_flatten_sections_push(a + b.drop_last(), b.last());
        lemma_flatten_sections_push(b.drop_last(), b.last());
        assert((flatten_sections(a) + flatten_sections(b.drop_last())) + b.last().keybinds
            =~= flatten_sections(a) + (flatten_sections(b.drop_last()) + b.last().keybinds));
    }
}

/// The number of keybindings a prefix contributes never exceeds the whole.
pub proof fn lemma_flatten_sections_take_len(ss: Seq<SectionView>, k: int)
    requires
        0 <= k <= ss.len(),
    ensures
        flatten_sections(ss.take(k)).len() <= flatten_sections(ss).len(),
{
    assert(ss =~= ss.take(k) + ss.skip(k));
    lemma_flatten_sections_concat(ss.take(k), ss.skip(k));
}

/// A search entry: a keybinding together with its score, when scored.
#[derive(Debug, Clone, Default, PartialEq, Eq)]
pub struct ScoredKeybind {
    pub keys: String,
    pub description: String,
    pub score: Option<(i64, Vec<usize>)>,
}

/// Mathematical model of a search entry.
pub ghost struct ScoredKeybindView {
    pub keys: Seq<char>,
    pub description: Seq<char>,
    pub score: Option<(i64, Seq<usize>)>,
}

impl View for ScoredKeybind {
    type V = ScoredKeybindView;

    open spec fn view(&self) -> ScoredKeybindView {
        ScoredKeybindView {
            keys: self.keys@,
            description: self.description@,
            score: match self.score {
                Some((sc, ps)) => Some((sc, ps@)),
                None => None,
            },
        }
    }
}

/// The unscored search entries for a run of keybindings.
pub open spec fn unscored(kbs: Seq<KeybindView>) -> Seq<ScoredKeybindView> {
    kbs.map_values(
        |kb: KeybindView| ScoredKeybindView { keys: kb.keys, description: kb.description, score: None },
    )
}

impl ScoredKeybind {
    /// An unscored entry carrying the same keys and description.
    pub fn from(keybind: &Keybind) -> (r: Self)
        ensures
            r@ == (ScoredKeybindView {
                keys: keybind@.keys,
                description: keybind@.description,
                score: None,
            }),
    {
        ScoredKeybind {
            keys: keybind.keys.clone(),
            description: keybind.description.clone(),
            score: None,
        }
    }
}

impl Tokens {
    /// How many sections the document holds.
    pub fn section_count(&self) -> (r: usize)
        ensures
            r == self@.sections.len(),
    {
        self.sections.len()
    }

    /// How many keybindings the document holds, over all sections.
    pub fn keybind_count(&self) -> (r: usize)
        requires
            flattened(self@).len() <= usize::MAX,
        ensures
            r == flattened(self@).len(),
    {
        let mut acc: usize = 0;
        let mut si: usize = 0;
        while si < self.sections.len()
            invariant
                si <= self.sections.len(),
                acc == flatten_sections(self@.sections.take(si as int)).len(),
                flattened(self@).len() <= usize::MAX,
            decreases self.sections.len() - si,
        {
            proof {
                assert(self@.sections.take(si as int + 1) =~= self@.sections.take(
                    si as int,
                ).push(self@.sections[si as int]));
                lemma_flatten_sections_push(
                    self@.sections.take(si as int),
                    self@.sections[si as int],
                );
                lemma_flatten_sections_take_len(self@.sections, si as int + 1);
            }
            acc = acc + self.sections[si].keybinds.len();
            si = si + 1;
        }
        proof {
            assert(self@.sections.take(si as int) =~= self@.sections);
        }
        acc
    }

    /// Every keybinding of every section, in document order, as unscored
    /// search entries.
    pub fn keybinds(&self) -> (r: Vec<ScoredKeybind>)
        ensures
            r@.map_values(|sk: ScoredKeybind| sk@) == unscored(flattened(self@)),
    {
        let mut out: Vec<ScoredKeybind> = Vec::new();
        let mut si: usize = 0;
        while si < self.sections.len()
            invariant
                si <= self.sections.len(),
                out@.map_values(|sk: ScoredKeybind| sk@) == unscored(
                    flatten_sections(self@.sections.take(si as int)),
                ),
            decreases self.sections.len() - si,
        {
            let mut ki: usize = 0;
            while ki < self.sections[si].keybinds.len()
                invariant
                    si < self.sections.len(),
                    ki <= self.sections@[si as int].keybinds@.len(),
                    out@.map_values(|sk: ScoredKeybind| sk@) == unscored(
                        flatten_sections(self@.sections.take(si as int)),
                    ) + unscored(self@.sections[si as int].keybinds.take(ki as int)),
                decreases self.sections@[si as int].keybinds@.len() - ki,
            {
                proof {
                    let ghost kbs = self@.sections[si as int].keybinds;
                    assert(kbs.take(ki as int + 1) =~= kbs.take(ki as int).push(kbs[ki as int]));
                    let ghost prev = out@.map_values(|sk: ScoredKeybind| sk@);
                    let ghost skv = ScoredKeybindView {
                        keys: kbs[ki as int].keys,
                        description: kbs[ki as int].description,
                        score: None,
                    };
                    assert(unscored(kbs.take(ki as int).push(kbs[ki as int])) =~= unscored(
                        kbs.take(ki as int),
                    ).push(skv));
                }
                let entry = ScoredKeybind::from(&self.sections[si].keybinds[ki]);
                proof {
                    let ghost kbs = self@.sections[si as int].keybinds;
                    let ghost prev = out@.map_values(|sk: ScoredKeybind| sk@);
                    assert(out@.push(entry).map_values(|sk: ScoredKeybind| sk@) =~= prev.push(
                        entry@,
                    ));
                    assert(prev.push(entry@) =~= (unscored(
                        flatten_sections(self@.sections.take(si as int)),
                    ) + unscored(kbs.take(ki as int + 1))));
                }
                out.push(entry);
                ki = ki + 1;
            }
            proof {
                let ghost kbs = self@.sections[si as int].keybinds;
                assert(kbs.take(ki as int) =~= kbs);
                assert(self@.sections.take(si as int + 1) =~= self@.sections.take(
                    si as int,
                ).push(self@.sections[si as int]));
                lemma_flatten_sections_push(
                    self@.sections.take(si as int),
                    self@.sections[si as int],
                );
                assert(unscored(
                    flatten_sections(self@.sections.take(si as int)) + kbs,
                ) =~= unscored(flatten_sections(self@.sections.take(si as int))) + unscored(kbs));
            }
            si = si + 1;
        }
        proof {
            assert(self@.sections.take(si as int) =~= self@.sections);
        }
        out
    }

    /// Owned document built from the parser's output; the two describe the
    /// same document.
    pub fn from(parsed: Parsed) -> (r: Tokens)
        ensures
            r@ == parsed@,
    {
        let mut sections: Vec<Section> = Vec::new();
        let mut si: usize = 0;
        while si < parsed.sections.len()
            invariant
                si <= parsed.sections.len(),
                sections@.map_values(|sec: Section| sec@) == parsed.sections@.map_values(
                    |sec: crate::parser::Section| sec@,
                ).take(si as int),
            decreases parsed.sections.len() - si,
        {
            let src = &parsed.sections[si];
            let mut kbs: Vec<Keybind> = Vec::new();
            let mut ki: usize = 0;
            while ki < src.keybinds.len()
                invariant
                    si < parsed.sections.len(),
                    src == &parsed.sections[si as int],
                    ki <= src.keybinds@.len(),
                    kbs@.map_values(|kb: Keybind| kb@) == src.keybinds@.map_values(
                        |kb: KeybindToken| kb@,
                    ).take(ki as int),
                decreases src.keybinds@.len() - ki,
            {
                let kb = Keybind {
                    keys: src.keybinds[ki].0.clone(),
                    description: src.keybinds[ki].1.clone(),
                };
                proof {
                    let ghost mapped = src.keybinds@.map_values(|kb: KeybindToken| kb@);
                    assert(mapped.take(ki as int + 1) =~= mapped.take(ki as int).push(
                        mapped[ki as int],
                    ));
                    assert(kbs@.push(kb).map_values(|kb: Keybind| kb@) =~= kbs@.map_values(
                        |kb: Keybind| kb@,
                    ).push(kb@));
                }
                kbs.push(kb);
                ki = ki + 1;
            }
            let title = match &src.title {
                Some(t) => Some(t.clone()),
                None => None,
            };
            let sec = Section { title, keybinds: kbs };
            proof {
                let ghost mapped = parsed.sections@.map_values(|sec: crate::parser::Section| sec@);
                assert(src.keybinds@.map_values(|kb: KeybindToken| kb@).take(
                    src.keybinds@.len() as int,
                ) =~= src.keybinds@.map_values(|kb: KeybindToken| kb@));
                assert(sec@ == mapped[si as int]);
                assert(mapped.take(si as int + 1) =~= mapped.take(si as int).push(
                    mapped[si as int],
                ));
                assert(sections@.push(sec).map_values(|sec: Section| sec@) =~= sections@.map_values(
                    |sec: Section| sec@,
                ).push(sec@));
            }
            sections.push(sec);
            si = si + 1;
        }
        proof {
            let ghost mapped = parsed.sections@.map_values(|sec: crate::parser::Section| sec@);
            assert(mapped.take(si as int) =~= mapped);
        }
        Tokens { title: parsed.title, sections }
    }
}

} // verus!
