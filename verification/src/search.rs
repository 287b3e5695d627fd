//! The query engine: scores every keybinding against a pattern with a fuzzy
//! matcher, keeps the entries that match, and ranks them by descending score
//! with a stable sort, so entries of equal score keep their document order.
//!
//! An entry is searched as the text `"{keys} {description}"`. The fuzzy
//! score itself comes from an outside matcher and is named, not restated;
//! what the library guarantees is stated around that name: an empty pattern
//! returns the input unchanged and unscored, and every entry shown for a
//! non-empty pattern matches it as an ASCII-case-insensitive subsequence of
//! its search text.

use vstd::prelude::*;

use crate::token::ScoredKeybind;
use crate::token::ScoredKeybindView;

verus! {

/// The character's code, with ASCII uppercase letters mapped to lowercase.
pub open spec fn lower_code(c: char) -> int {
    if 65 <= c as int <= 90 {
        c as int + 32
    } else {
        c as int
    }
}

/// ASCII-case-insensitive character equality.
pub open spec fn ci_eq(a: char, b: char) -> bool {
    lower_code(a) == lower_code(b)
}

/// Whether `pat` embeds into `text` in order, comparing characters
/// ASCII-case-insensitively.
pub open spec fn is_ci_subseq(pat: Seq<char>, text: Seq<char>) -> bool
    decreases text.len(),
{
    if pat.len() == 0 {
        true
    } else if text.len() == 0 {
        false
    } else {
        (ci_eq(pat.first(), text.first()) && is_ci_subseq(pat.drop_first(), text.drop_first()))
            || is_ci_subseq(pat, text.drop_first())
    }
}

/// The text an entry is searched as: keys, one space, description.
pub open spec fn search_text(e: ScoredKeybindView) -> Seq<char> {
    e.keys + seq![' '] + e.description
}

/// What the fuzzy matcher returns for a choice text and a pattern: the score
/// and the matched character positions, or nothing where the pattern does
/// not match. The result depends on the two texts alone.
pub uninterp spec fn fuzzy_rank(choice: Seq<char>, pattern: Seq<char>) -> Option<(i64, Seq<usize>)>;

/// The view of an optional score as the matcher returns it.
pub open spec fn score_view(o: Option<(i64, Vec<usize>)>) -> Option<(i64, Seq<usize>)> {
    match o {
        Some((sc, ps)) => Some((sc, ps@)),
        None => None,
    }
}

/// Relies on fuzzy_matcher's `SkimMatcherV2::fuzzy` under the default
/// configuration: the result is a function of the two texts alone, and a
/// score is only returned when every pattern character is matched, in order,
/// by `eq_ignore_ascii_case` (or exactly, when the pattern holds an ASCII
/// uppercase letter) — so a scored match implies an ASCII-case-insensitive
/// subsequence embedding of the pattern in the choice.
#[verifier::external_body]
fn fuzzy_score(choice: &str, pattern: &str) -> (r: Option<(i64, Vec<usize>)>)
    ensures
        score_view(r) == fuzzy_rank(choice@, pattern@),
        r is Some ==> is_ci_subseq(pattern@, choice@),
{
    fuzzy_matcher::skim::SkimMatcherV2::default().fuzzy(choice, pattern, true)
}

/// The score of a scored entry.
pub open spec fn score_val(e: ScoredKeybindView) -> i64
    recommends
        e.score is Some,
{
    e.score.unwrap().0
}

/// The entry re-scored against a pattern.
pub open spec fn rescore(e: ScoredKeybindView, pat: Seq<char>) -> ScoredKeybindView {
    ScoredKeybindView {
        keys: e.keys,
        description: e.description,
        score: fuzzy_rank(search_text(e), pat),
    }
}

/// The entries that match the pattern, re-scored, in input order.
pub open spec fn kept(entries: Seq<ScoredKeybindView>, pat: Seq<char>) -> Seq<ScoredKeybindView>
    decreases entries.len(),
{
    if entries.len() == 0 {
        Seq::empty()
    } else {
        let e0 = rescore(entries.first(), pat);
        let rest = kept(entries.drop_first(), pat);
        if e0.score is Some {
            seq![e0] + rest
        } else {
            rest
        }
    }
}

/// Insert an entry into a run sorted by descending score, after every entry
/// whose score is at least its own: the stable insertion position.
pub open spec fn insert_desc(e: ScoredKeybindView, s: Seq<ScoredKeybindView>) -> Seq<
    ScoredKeybindView,
>
    decreases s.len(),
{
    if s.len() == 0 {
        seq![e]
    } else if score_val(s.first()) >= score_val(e) {
        seq![s.first()] + insert_desc(e, s.drop_first())
    } else {
        seq![e] + s
    }
}

/// Stable sort by descending score: entries of equal score keep their order.
pub open spec fn insort_desc(s: Seq<ScoredKeybindView>) -> Seq<ScoredKeybindView>
    decreases s.len(),
{
    if s.len() == 0 {
        Seq::empty()
    } else {
        insert_desc(s.last(), insort_desc(s.drop_last()))
    }
}

/// What a search returns: the input unchanged for an empty pattern, else the
/// matching entries re-scored and ranked.
pub open spec fn search_spec(entries: Seq<ScoredKeybindView>, pat: Seq<char>) -> Seq<
    ScoredKeybindView,
> {
    if pat.len() == 0 {
        entries
    } else {
        insort_desc(kept(entries, pat))
    }
}

/// Sorted by descending score.
pub open spec fn sorted_desc(s: Seq<ScoredKeybindView>) -> bool {
    forall|j: int, k: int| 0 <= j < k < s.len() ==> score_val(s[j]) >= score_val(s[k])
}

pub proof fn lemma_kept_push(entries: Seq<ScoredKeybindView>, x: ScoredKeybindView, pat: Seq<char>)
    ensures
        kept(entries.push(x), pat) == if rescore(x, pat).score is Some {
            kept(entries, pat).push(rescore(x, pat))
        } else {
            kept(entries, pat)
        },
    decreases entries.len(),
{
    if entries.len() == 0 {
        assert(entries.push(x).first() == x);
        assert(entries.push(x).drop_first() =~= Seq::<ScoredKeybindView>::empty());
        assert(kept(Seq::<ScoredKeybindView>::empty(), pat) == Seq::<ScoredKeybindView>::empty());
        assert(kept(entries, pat) == Seq::<ScoredKeybindView>::empty());
        if rescore(x, pat).score is Some {
            assert(kept(entries.push(x), pat) == seq![rescore(x, pat)] + Seq::<
                ScoredKeybindView,
            >::empty());
            assert(seq![rescore(x, pat)] + Seq::<ScoredKeybindView>::empty() =~= Seq::<
                ScoredKeybindView,
            >::empty().push(rescore(x, pat)));
        }
    } else {
        assert(entries.push(x).first() == entries.first());
        assert(entries.push(x).drop_first() =~= entries.drop_first().push(x));
        lemma_kept_push(entries.drop_first(), x, pat);
        let e0 = rescore(entries.first(), pat);
        let rest = kept(entries.drop_first(), pat);
        if rescore(x, pat).score is Some {
            if e0.score is Some {
                assert(seq![e0] + rest.push(rescore(x, pat)) =~= (seq![e0] + rest).push(
                    rescore(x, pat),
                ));
            }
        }
    }
}

/// Every element of an insertion result is the inserted entry or one of the
/// run's own.
pub proof fn lemma_insert_desc_elems(e: ScoredKeybindView, s: Seq<ScoredKeybindView>)
    ensures
        insert_desc(e, s).len() == s.len() + 1,
        forall|j: int|
            0 <= j < insert_desc(e, s).len() ==> insert_desc(e, s)[j] == e || s.contains(
                insert_desc(e, s)[j],
            ),
    decreases s.len(),
{
    if s.len() == 0 {
    } else if score_val(s.first()) >= score_val(e) {
        lemma_insert_desc_elems(e, s.drop_first());
        let r = insert_desc(e, s);
        assert forall|j: int| 0 <= j < r.len() implies r[j] == e || s.contains(r[j]) by {
            if j == 0 {
                assert(s[0] == s.first());
                assert(s.contains(s.first()));
            } else {
                let inner = insert_desc(e, s.drop_first());
                assert(r[j] == inner[j - 1]);
                if inner[j - 1] == e {
                } else {
                    let i = choose|i: int|
                        0 <= i < s.drop_first().len() && s.drop_first()[i] == inner[j - 1];
                    assert(s[i + 1] == inner[j - 1]);
                    assert(s.contains(s[i + 1]));
                }
            }
        }
    } else {
        let r = insert_desc(e, s);
        assert forall|j: int| 0 <= j < r.len() implies r[j] == e || s.contains(r[j]) by {
            if j > 0 {
                assert(r[j] == s[j - 1]);
                assert(s.contains(s[j - 1]));
            }
        }
    }
}

/// Inserting into a run sorted by descending score keeps it sorted.
pub proof fn lemma_insert_desc_sorted(e: ScoredKeybindView, s: Seq<ScoredKeybindView>)
    requires
        sorted_desc(s),
    ensures
        sorted_desc(insert_desc(e, s)),
    decreases s.len(),
{
    if s.len() == 0 {
    } else if score_val(s.first()) >= score_val(e) {
        assert(sorted_desc(s.drop_first())) by {
            assert forall|j: int, k: int|
                0 <= j < k < s.drop_first().len() implies score_val(s.drop_first()[j]) >= score_val(
                s.drop_first()[k],
            ) by {
                assert(s.drop_first()[j] == s[j + 1]);
                assert(s.drop_first()[k] == s[k + 1]);
            }
        }
        lemma_insert_desc_sorted(e, s.drop_first());
        lemma_insert_desc_elems(e, s.drop_first());
        let r = insert_desc(e, s);
        let inner = insert_desc(e, s.drop_first());
        assert forall|j: int, k: int| 0 <= j < k < r.len() implies score_val(r[j]) >= score_val(
            r[k],
        ) by {
            if j == 0 {
                assert(r[k] == inner[k - 1]);
                if inner[k - 1] == e {
                } else {
                    let i = choose|i: int|
                        0 <= i < s.drop_first().len() && s.drop_first()[i] == inner[k - 1];
                    assert(s[i + 1] == inner[k - 1]);
                }
            } else {
                assert(r[j] == inner[j - 1]);
                assert(r[k] == inner[k - 1]);
            }
        }
    } else {
        let r = insert_desc(e, s);
        assert forall|j: int, k: int| 0 <= j < k < r.len() implies score_val(r[j]) >= score_val(
            r[k],
        ) by {
            if j == 0 {
                assert(r[k] == s[k - 1]);
                if k - 1 > 0 {
                    assert(score_val(s[0]) >= score_val(s[k - 1]));
                }
            } else {
                assert(r[j] == s[j - 1]);
                assert(r[k] == s[k - 1]);
            }
        }
    }
}

/// The stable sort ranks by descending score.
pub proof fn lemma_insort_desc_sorted(s: Seq<ScoredKeybindView>)
    ensures
        sorted_desc(insort_desc(s)),
    decreases s.len(),
{
    if s.len() > 0 {
        lemma_insort_desc_sorted(s.drop_last());
        lemma_insert_desc_sorted(s.last(), insort_desc(s.drop_last()));
    }
}

/// What a search returns for a non-empty pattern is ranked by descending
/// score.
pub proof fn lemma_search_ranked(entries: Seq<ScoredKeybindView>, pat: Seq<char>)
    requires
        pat.len() > 0,
    ensures
        sorted_desc(search_spec(entries, pat)),
{
    lemma_insort_desc_sorted(kept(entries, pat));
}

/// The exec-side score of an entry known to be scored.
fn entry_score(sk: &ScoredKeybind) -> (r: i64)
    requires
        sk@.score is Some,
    ensures
        r == score_val(sk@),
{
    match &sk.score {
        Some(p) => p.0,
        None => 0,
    }
}

/// Whether the entry's score is at least `esc`.
fn score_at_least(sk: &ScoredKeybind, esc: i64) -> (r: bool)
    requires
        sk@.score is Some,
    ensures
        r == (score_val(sk@) >= esc),
{
    entry_score(sk) >= esc
}

/// Insert a scored entry into a run sorted by descending score, after every
/// entry scoring at least as much: the stable position.
fn insert_sorted(out: &mut Vec<ScoredKeybind>, e: ScoredKeybind)
    requires
        e@.score is Some,
        forall|k: int| 0 <= k < old(out)@.len() ==> old(out)@[k]@.score is Some,
    ensures
        final(out)@.map_values(|sk: ScoredKeybind| sk@) == insert_desc(
            e@,
            old(out)@.map_values(|sk: ScoredKeybind| sk@),
        ),
        forall|k: int| 0 <= k < final(out)@.len() ==> final(out)@[k]@.score is Some,
{
    let esc = entry_score(&e);
    let ghost s0 = out@.map_values(|sk: ScoredKeybind| sk@);
    let mut idx: usize = 0;
    while idx < out.len() && score_at_least(&out[idx], esc)
        invariant
            idx <= out.len(),
            e@.score is Some,
            esc == score_val(e@),
            forall|k: int| 0 <= k < out@.len() ==> out@[k]@.score is Some,
            s0 == out@.map_values(|sk: ScoredKeybind| sk@),
            forall|k: int| 0 <= k < idx ==> score_val(s0[k]) >= esc,
        decreases out@.len() - idx,
    {
        idx = idx + 1;
    }
    proof {
        lemma_insert_desc_at(e@, s0, idx as int);
    }
    out.insert(idx, e);
    proof {
        assert(out@.map_values(|sk: ScoredKeybind| sk@) =~= s0.insert(idx as int, e@));
    }
}

/// The insertion point determines the insertion result.
pub proof fn lemma_insert_desc_at(e: ScoredKeybindView, s: Seq<ScoredKeybindView>, idx: int)
    requires
        0 <= idx <= s.len(),
        forall|k: int| 0 <= k < idx ==> score_val(s[k]) >= score_val(e),
        idx < s.len() ==> score_val(s[idx]) < score_val(e),
    ensures
        insert_desc(e, s) == s.insert(idx, e),
    decreases idx,
{
    if idx == 0 {
        if s.len() == 0 {
            assert(s.insert(0, e) =~= seq![e]);
        } else {
            assert(score_val(s.first()) < score_val(e));
            assert(s.insert(0, e) =~= seq![e] + s);
        }
    } else {
        assert(score_val(s.first()) >= score_val(e));
        assert forall|k: int| 0 <= k < idx - 1 implies score_val(s.drop_first()[k]) >= score_val(
            e,
        ) by {
            assert(s.drop_first()[k] == s[k + 1]);
        }
        if idx - 1 < s.drop_first().len() {
            assert(s.drop_first()[idx - 1] == s[idx]);
        }
        lemma_insert_desc_at(e, s.drop_first(), idx - 1);
        assert(seq![s.first()] + s.drop_first().insert(idx - 1, e) =~= s.insert(idx, e));
    }
}

/// The exec search text of an entry: keys, one space, description.
fn search_text_x(sk: &ScoredKeybind) -> (r: String)
    ensures
        r@ == search_text(sk@),
{
    let mut t = sk.keys.clone();
    t.append(" ");
    t.append(sk.description.as_str());
    proof {
        reveal_strlit(" ");
        assert(" "@ =~= seq![' ']);
        assert(t@ =~= sk@.keys + seq![' '] + sk@.description);
    }
    t
}

/// Score every entry against the pattern, keep the ones that match, and
/// rank them by descending score; entries of equal score keep their input
/// order. An empty pattern returns the input unchanged and unscored; for a
/// non-empty pattern every returned entry is scored, and its search text
/// matches the pattern as an ASCII-case-insensitive subsequence — an entry
/// that does not match this way is never shown.
pub fn filter_tokens(tokens: Vec<ScoredKeybind>, pattern: String) -> (r: Vec<ScoredKeybind>)
    ensures
        r@.map_values(|sk: ScoredKeybind| sk@) == search_spec(
            tokens@.map_values(|sk: ScoredKeybind| sk@),
            pattern@,
        ),
        pattern@.len() == 0 ==> r@ == tokens@,
        pattern@.len() > 0 ==> forall|j: int|
            0 <= j < r@.len() ==> (#[trigger] r@[j]@).score is Some && is_ci_subseq(
                pattern@,
                search_text(r@[j]@),
            ),
{
    if pattern.as_str().is_empty() {
        return tokens;
    }
    let ghost entries = tokens@.map_values(|sk: ScoredKeybind| sk@);
    let mut out: Vec<ScoredKeybind> = Vec::new();
    let mut i: usize = 0;
    while i < tokens.len()
        invariant
            i <= tokens.len(),
            pattern@.len() > 0,
            entries == tokens@.map_values(|sk: ScoredKeybind| sk@),
            out@.map_values(|sk: ScoredKeybind| sk@) == insort_desc(
                kept(entries.take(i as int), pattern@),
            ),
            forall|k: int| 0 <= k < out@.len() ==> out@[k]@.score is Some,
            forall|k: int|
                0 <= k < out@.len() ==> is_ci_subseq(pattern@, search_text(#[trigger] out@[k]@)),
        decreases tokens@.len() - i,
    {
        let text = search_text_x(&tokens[i]);
        let ghost x = entries[i as int];
        proof {
            assert(entries.take(i as int + 1) =~= entries.take(i as int).push(x));
            lemma_kept_push(entries.take(i as int), x, pattern@);
        }
        match fuzzy_score(text.as_str(), pattern.as_str()) {
            Some(sc) => {
                let e = ScoredKeybind {
                    keys: tokens[i].keys.clone(),
                    description: tokens[i].description.clone(),
                    score: Some(sc),
                };
                proof {
                    assert(e@ == rescore(x, pattern@));
                    let ghost q = kept(entries.take(i as int), pattern@);
                    assert(q.push(e@).drop_last() =~= q);
                    assert(q.push(e@).last() == e@);
                    let ghost old_mapped = out@.map_values(|sk: ScoredKeybind| sk@);
                    lemma_insert_desc_elems(e@, old_mapped);
                }
                let ghost old_out = out@;
                insert_sorted(&mut out, e);
                proof {
                    let ghost old_mapped = old_out.map_values(|sk: ScoredKeybind| sk@);
                    assert forall|k: int| 0 <= k < out@.len() implies is_ci_subseq(
                        pattern@,
                        search_text(#[trigger] out@[k]@),
                    ) by {
                        let r2 = out@.map_values(|sk: ScoredKeybind| sk@);
                        assert(r2[k] == out@[k]@);
                        if r2[k] == e@ {
                        } else {
                            assert(old_mapped.contains(r2[k]));
                            let w = choose|w: int|
                                0 <= w < old_mapped.len() && old_mapped[w] == r2[k];
                            assert(old_out[w]@ == r2[k]);
                        }
                    }
                }
            },
            None => {
                proof {
                    assert(kept(entries.take(i as int + 1), pattern@) == kept(
                        entries.take(i as int),
                        pattern@,
                    ));
                }
            },
        }
        i = i + 1;
    }
    proof {
        assert(entries.take(i as int) =~= entries);
        let r2 = out@.map_values(|sk: ScoredKeybind| sk@);
        assert forall|j: int| 0 <= j < out@.len() implies (#[trigger] out@[j]@).score is Some
            && is_ci_subseq(pattern@, search_text(out@[j]@)) by {
            assert(r2[j] == out@[j]@);
        }
    }
    out
}

} // verus!
