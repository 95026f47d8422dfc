//! The `list` command: which unit files are listed, in what order, and how the
//! listing is rendered and paged.

use vstd::prelude::*;
use vstd::multiset::Multiset;
use crate::text::{opt_view, pad_right, pad_right_str, str_eq};
use crate::order::{lex_lt, lex_less, sorted_by_lex, lemma_lex_lt_transitive, lemma_lex_lt_irreflexive, lemma_lex_lt_total};
use crate::unit_file::{strings_view, has_tag, unit_model, parse_unit_file, unit_has_tag};
use crate::paths::{extension, file_name, path_extension, path_file_name};

verus! {

broadcast use vstd::multiset::group_multiset_axioms, vstd::seq_lib::group_to_multiset_ensures;

/// How the listing is written.
pub enum OutputFormat {
    /// A table with one row per unit file (the default).
    Table,
    /// A JSON array of the entries.
    Json,
}

/// Arguments of the `list` command.
pub struct ListArgs {
    /// List only unit files whose `[X-extra]` section has this `Tag`.
    pub filter: Option<String>,
    /// How the listing is written.
    pub output: OutputFormat,
    /// Do not pipe the listing into a pager.
    pub no_pager: bool,
}

/// An entry view: unit file name, state, vendor preset.
pub type EntryView = (Seq<char>, Seq<char>, Seq<char>);

/// One listed unit file.
pub struct UnitFileEntry {
    /// The unit file's name.
    pub unit_file: String,
    /// Its state (`enabled`, `disabled`, `static`).
    pub state: String,
    /// Its vendor preset (`enabled`, `disabled`).
    pub vendor_preset: String,
}

impl View for UnitFileEntry {
    type V = EntryView;

    open spec fn view(&self) -> EntryView {
        (self.unit_file@, self.state@, self.vendor_preset@)
    }
}

/// The views of a sequence of entries.
pub open spec fn entries_view(s: Seq<UnitFileEntry>) -> Seq<EntryView> {
    s.map_values(|e: UnitFileEntry| e@)
}

/// The names of a sequence of entry views.
pub open spec fn entry_names(s: Seq<EntryView>) -> Seq<Seq<char>> {
    s.map_values(|e: EntryView| e.0)
}

/// The entries named `k`.
pub open spec fn named(k: Seq<char>) -> spec_fn(EntryView) -> bool {
    |e: EntryView| e.0 == k
}

/// No entry of `s` is named `k`, so none is kept.
proof fn lemma_filter_none_named(s: Seq<EntryView>, k: Seq<char>)
    requires
        forall|q: int| 0 <= q < s.len() ==> s[q].0 != k,
    ensures
        s.filter(named(k)) == Seq::<EntryView>::empty(),
    decreases s.len(),
{
    reveal(Seq::filter);
    if s.len() > 0 {
        lemma_filter_none_named(s.drop_last(), k);
    }
}

/// Inserting `x` before every entry whose name differs from it (and after the
/// rest) appends `x` to the entries of its own name and leaves the others alone.
proof fn lemma_filter_insert(out: Seq<EntryView>, p: int, x: EntryView, k: Seq<char>)
    requires
        0 <= p <= out.len(),
        forall|q: int| p <= q < out.len() ==> out[q].0 != x.0,
    ensures
        out.insert(p, x).filter(named(k)) == (if x.0 == k {
            out.filter(named(k)).push(x)
        } else {
            out.filter(named(k))
        }),
{
    broadcast use Seq::filter_distributes_over_add, Seq::lemma_filter_push;

    let a = out.subrange(0, p);
    let b = out.subrange(p, out.len() as int);
    assert(out =~= a + b);
    assert(out.insert(p, x) =~= a.push(x) + b);
    assert(out.filter(named(k)) == a.filter(named(k)) + b.filter(named(k)));
    assert(out.insert(p, x).filter(named(k)) == a.push(x).filter(named(k)) + b.filter(named(k)));
    if x.0 == k {
        lemma_filter_none_named(b, k);
        assert(a.filter(named(k)) + Seq::<EntryView>::empty() =~= a.filter(named(k)));
        assert(a.filter(named(k)).push(x) + Seq::<EntryView>::empty() =~= a.filter(named(k)).push(x));
    }
}

/// A stable sort of the entries by unit file name: the result is sorted, and the
/// entries of each name are those of the input, in their input order.
pub fn sort_unit_entries(entries: Vec<UnitFileEntry>) -> (r: Vec<UnitFileEntry>)
    ensures
        sorted_by_lex(entry_names(entries_view(r@))),
        entries_view(r@).to_multiset() == entries_view(entries@).to_multiset(),
        forall|k: Seq<char>| #[trigger]
            entries_view(r@).filter(named(k)) == entries_view(entries@).filter(named(k)),
{
    broadcast use Seq::lemma_filter_push;

    let ghost orig = entries_view(entries@);
    let mut rest = entries;
    let mut out: Vec<UnitFileEntry> = Vec::new();
    let ghost mut done: int = 0;
    assert(entries_view(out@).to_multiset() =~= Multiset::empty());
    assert(orig.skip(0) =~= orig);
    assert forall|k: Seq<char>| #[trigger] entries_view(out@).filter(named(k)) == orig.take(0).filter(named(k)) by {
        reveal(Seq::filter);
        assert(entries_view(out@) =~= orig.take(0));
    }
    while rest.len() > 0
        invariant
            0 <= done <= orig.len(),
            entries_view(rest@) == orig.skip(done),
            sorted_by_lex(entry_names(entries_view(out@))),
            entries_view(out@).to_multiset().add(entries_view(rest@).to_multiset()) == orig.to_multiset(),
            forall|k: Seq<char>| #[trigger] entries_view(out@).filter(named(k)) == orig.take(done).filter(named(k)),
        decreases rest.len(),
    {
        let ghost rv = entries_view(rest@);
        let x = rest.remove(0);
        proof {
            assert(entries_view(rest@) =~= rv.remove(0));
            assert(rv.to_multiset().count(rv[0]) > 0) by {
                assert(rv.contains(rv[0]));
            }
            assert(entries_view(rest@).to_multiset() =~= rv.to_multiset().remove(x@));
            assert(x@ == orig[done]);
            assert(entries_view(rest@) =~= orig.skip(done + 1));
            assert(orig.take(done + 1) =~= orig.take(done).push(x@));
        }
        let mut p: usize = 0;
        while p < out.len() && !lex_less(x.unit_file.as_str(), out[p].unit_file.as_str())
            invariant
                p <= out.len(),
                forall|j: int| 0 <= j < p ==> !lex_lt(x.unit_file@, #[trigger] out@[j].unit_file@),
            decreases out.len() - p,
        {
            p = p + 1;
        }
        let ghost ov = entries_view(out@);
        out.insert(p, x);
        proof {
            assert(entries_view(out@) =~= ov.insert(p as int, x@));
            vstd::seq_lib::to_multiset_insert(ov, p as int, x@);
            let names = entry_names(entries_view(out@));
            let old_names = entry_names(ov);
            assert forall|i: int, j: int| 0 <= i < j < names.len() implies !lex_lt(names[j], names[i]) by {
                if j < p {
                    assert(names[i] == old_names[i] && names[j] == old_names[j]);
                } else if j == p {
                    assert(names[i] == old_names[i]);
                } else if i > p {
                    assert(names[i] == old_names[i - 1] && names[j] == old_names[j - 1]);
                } else if i == p {
                    assert(names[j] == old_names[j - 1]);
                    if lex_lt(names[j], x.unit_file@) {
                        assert(lex_lt(x.unit_file@, old_names[p as int]));
                        lemma_lex_lt_transitive(names[j], x.unit_file@, old_names[p as int]);
                        if j - 1 == p {
                            lemma_lex_lt_irreflexive(old_names[p as int]);
                        } else {
                            assert(!lex_lt(old_names[j - 1], old_names[p as int]));
                        }
                    }
                } else {
                    assert(names[i] == old_names[i] && names[j] == old_names[j - 1]);
                }
            }
            assert forall|q: int| p <= q < ov.len() implies ov[q].0 != x@.0 by {
                assert(ov[q].0 == old_names[q]);
                assert(lex_lt(x.unit_file@, old_names[p as int]));
                if ov[q].0 == x@.0 {
                    if q == p {
                        lemma_lex_lt_irreflexive(x.unit_file@);
                    } else {
                        assert(!lex_lt(old_names[q], old_names[p as int]));
                    }
                }
            }
            assert forall|k: Seq<char>| #[trigger] entries_view(out@).filter(named(k)) == orig.take(done + 1).filter(named(k)) by {
                lemma_filter_insert(ov, p as int, x@, k);
                assert(ov.filter(named(k)) == orig.take(done).filter(named(k)));
                assert(orig.take(done + 1).filter(named(k)) == orig.take(done).push(x@).filter(named(k)));
                assert(named(k)(x@) == (x@.0 == k));
                orig.take(done as int).lemma_filter_push(x@, named(k));
                assert(entries_view(out@).filter(named(k)) == ov.insert(p as int, x@).filter(named(k)));
                if x@.0 == k {
                    assert(orig.take(done + 1).filter(named(k)) == orig.take(done).filter(named(k)).push(x@));
                } else {
                    assert(orig.take(done + 1).filter(named(k)) == orig.take(done).filter(named(k)));
                }
            }
            done = done + 1;
        }
    }
    proof {
        assert(entries_view(rest@).to_multiset() =~= Multiset::empty());
        assert(orig.skip(done).len() == 0);
        assert(orig.take(done) =~= orig);
    }
    out
}

/// A file found under the unit directory, with what the listing needs of it.
pub struct UnitCandidate {
    /// Its path.
    pub path: String,
    /// It is a regular file.
    pub is_file: bool,
    /// Its file name is valid Unicode.
    pub name_is_unicode: bool,
    /// Its lines, when they were read and all could be read.
    pub lines: Option<Vec<String>>,
}

/// A candidate as plain values: path, is-file, Unicode name, lines.
pub type CandidateView = (Seq<char>, bool, bool, Option<Seq<Seq<char>>>);

impl View for UnitCandidate {
    type V = CandidateView;

    open spec fn view(&self) -> CandidateView {
        (
            self.path@,
            self.is_file,
            self.name_is_unicode,
            match self.lines {
                Some(v) => Some(strings_view(v@)),
                None => None,
            },
        )
    }
}

/// A regular file with the extension `service`.
pub open spec fn is_service_file(path: Seq<char>, is_file: bool) -> bool {
    is_file && extension(path) == Some("service"@)
}

/// The name a unit file is listed under: its file name, or `unknown.service`
/// when that is not valid Unicode.
pub open spec fn listed_name(path: Seq<char>, name_is_unicode: bool) -> Seq<char> {
    match file_name(path) {
        Some(n) => if name_is_unicode {
            n
        } else {
            "unknown.service"@
        },
        None => "unknown.service"@,
    }
}

/// Without a filter every unit passes; with one, a unit passes when its lines
/// could be read and its `[X-extra]` section has the filter among its `Tag` values.
pub open spec fn passes_filter(filter: Option<Seq<char>>, lines: Option<Seq<Seq<char>>>) -> bool {
    match filter {
        None => true,
        Some(f) => match lines {
            None => false,
            Some(ls) => has_tag(unit_model(ls), f),
        },
    }
}

/// With a filter and readable lines, a unit passes exactly when the filter is
/// one of the `Tag` values of its `[X-extra]` section, at any position; without
/// a filter every unit passes; with a filter, a unit whose lines could not be
/// read does not.
pub proof fn law_filter_is_tag_membership(f: Seq<char>, ls: Seq<Seq<char>>, lines: Option<Seq<Seq<char>>>)
    ensures
        passes_filter(Some(f), Some(ls)) == (unit_model(ls).dom().contains("X-extra"@)
            && unit_model(ls)["X-extra"@].dom().contains("Tag"@) && exists|i: int|
            0 <= i < unit_model(ls)["X-extra"@]["Tag"@].len()
                && unit_model(ls)["X-extra"@]["Tag"@][i] == f),
        passes_filter(None, lines),
        !passes_filter(Some(f), None),
{
}

/// The `Tag=<w>` line, as a sequence of characters.
pub open spec fn tag_line(w: Seq<char>) -> Seq<char> {
    "Tag"@ + seq!['='] + w
}

/// Reading a `Tag=<f>` line inside the `[X-extra]` section makes the unit
/// pass the filter `f` (whatever tags came before it).
pub proof fn law_tag_line_admits(ls: Seq<Seq<char>>, f: Seq<char>)
    requires
        crate::unit_file::parse_state(ls).1 == Some("X-extra"@),
        crate::unit_file::is_trimmed(f),
    ensures
        passes_filter(Some(f), Some(ls.push(tag_line(f)))),
{
    reveal_strlit("Tag");
    assert("Tag"@ =~= seq!['T', 'a', 'g']);
    crate::unit_file::law_key_value_line_adds_its_value(ls, "X-extra"@, "Tag"@, f);
    let tags = unit_model(ls.push(tag_line(f)))["X-extra"@]["Tag"@];
    assert(tags[tags.len() - 1] == f);
}

/// Later `Tag` lines in the `[X-extra]` section never take a match away: a unit
/// that passes the filter `f` still passes after another `Tag=<w>` line.
pub proof fn law_more_tags_keep_match(ls: Seq<Seq<char>>, f: Seq<char>, w: Seq<char>)
    requires
        crate::unit_file::parse_state(ls).1 == Some("X-extra"@),
        crate::unit_file::is_trimmed(w),
        passes_filter(Some(f), Some(ls)),
    ensures
        passes_filter(Some(f), Some(ls.push(tag_line(w)))),
{
    reveal_strlit("Tag");
    assert("Tag"@ =~= seq!['T', 'a', 'g']);
    crate::unit_file::law_key_value_line_adds_its_value(ls, "X-extra"@, "Tag"@, w);
    let old_tags = unit_model(ls)["X-extra"@]["Tag"@];
    let i = choose|i: int| 0 <= i < old_tags.len() && old_tags[i] == f;
    let tags = unit_model(ls.push(tag_line(w)))["X-extra"@]["Tag"@];
    assert(tags[i] == f);
}

/// The entry of a listed unit file: its name, state `enabled`, preset `enabled`.
pub open spec fn entry_of(c: CandidateView) -> EntryView {
    (listed_name(c.0, c.2), "enabled"@, "enabled"@)
}

/// The entries of the listed candidates, in the order the candidates came.
pub open spec fn selected_entries(cs: Seq<CandidateView>, filter: Option<Seq<char>>) -> Seq<EntryView>
    decreases cs.len(),
{
    if cs.len() == 0 {
        Seq::empty()
    } else {
        let rest = selected_entries(cs.drop_last(), filter);
        let c = cs.last();
        if is_service_file(c.0, c.1) && passes_filter(filter, c.3) {
            rest.push(entry_of(c))
        } else {
            rest
        }
    }
}

/// A filter only narrows the listing: every entry listed with a filter is
/// listed without one, as often.
pub proof fn law_filter_only_narrows(cs: Seq<CandidateView>, f: Seq<char>)
    ensures
        selected_entries(cs, Some(f)).to_multiset().subset_of(selected_entries(cs, None).to_multiset()),
    decreases cs.len(),
{
    if cs.len() > 0 {
        law_filter_only_narrows(cs.drop_last(), f);
        let a = selected_entries(cs.drop_last(), Some(f));
        let b = selected_entries(cs.drop_last(), None);
        let c = cs.last();
        if is_service_file(c.0, c.1) {
            if passes_filter(Some(f), c.3) {
                assert(a.push(entry_of(c)).to_multiset() =~= a.to_multiset().insert(entry_of(c)));
            }
            assert(b.push(entry_of(c)).to_multiset() =~= b.to_multiset().insert(entry_of(c)));
        }
    }
}

/// The selection of `a + b` is the selection of `a` followed by that of `b`.
proof fn lemma_selected_concat(a: Seq<CandidateView>, b: Seq<CandidateView>, f: Option<Seq<char>>)
    ensures
        selected_entries(a + b, f) == selected_entries(a, f) + selected_entries(b, f),
    decreases b.len(),
{
    if b.len() == 0 {
        assert(a + b =~= a);
        assert(selected_entries(a, f) + selected_entries(b, f) =~= selected_entries(a, f));
    } else {
        assert((a + b).drop_last() =~= a + b.drop_last());
        assert((a + b).last() == b.last());
        lemma_selected_concat(a, b.drop_last(), f);
        let sa = selected_entries(a, f);
        let sb = selected_entries(b.drop_last(), f);
        assert((sa + sb).push(entry_of(b.last())) =~= sa + sb.push(entry_of(b.last())));
    }
}

/// Candidates that are a permutation of each other select the same entries,
/// as often.
proof fn lemma_selected_permutation(cs1: Seq<CandidateView>, cs2: Seq<CandidateView>, f: Option<Seq<char>>)
    requires
        cs1.to_multiset() == cs2.to_multiset(),
    ensures
        selected_entries(cs1, f).to_multiset() == selected_entries(cs2, f).to_multiset(),
    decreases cs1.len(),
{
    broadcast use vstd::seq_lib::lemma_multiset_commutative;

    assert(cs1.to_multiset().len() == cs1.len());
    assert(cs2.to_multiset().len() == cs2.len());
    if cs1.len() == 0 {
        assert(cs2.len() == 0);
        assert(cs2 =~= Seq::<CandidateView>::empty());
    } else {
        let x = cs1.last();
        assert(cs1.contains(x)) by {
            assert(cs1[cs1.len() - 1] == x);
        }
        assert(cs1.to_multiset().count(x) > 0);
        assert(cs2.to_multiset().count(x) > 0);
        assert(cs2.contains(x));
        let j = cs2.lemma_contains_to_index(x);
        assert(cs1.drop_last() =~= cs1.remove(cs1.len() - 1));
        assert(cs1.drop_last().to_multiset() =~= cs2.remove(j).to_multiset());
        lemma_selected_permutation(cs1.drop_last(), cs2.remove(j), f);
        let p = cs2.subrange(0, j);
        let q = cs2.subrange(j + 1, cs2.len() as int);
        assert(cs2 =~= p + seq![x] + q);
        assert(cs2.remove(j) =~= p + q);
        lemma_selected_concat(p + seq![x], q, f);
        lemma_selected_concat(p, seq![x], f);
        lemma_selected_concat(p, q, f);
        assert(seq![x].drop_last() =~= Seq::<CandidateView>::empty());
        let sp = selected_entries(p, f);
        let sq = selected_entries(q, f);
        let sx = selected_entries(seq![x], f);
        let sd = selected_entries(cs1.drop_last(), f);
        assert(selected_entries(cs2, f).to_multiset() =~= sp.to_multiset().add(sx.to_multiset()).add(
            sq.to_multiset(),
        ));
        assert(sd.to_multiset() =~= sp.to_multiset().add(sq.to_multiset()));
        if is_service_file(x.0, x.1) && passes_filter(f, x.3) {
            assert(selected_entries(Seq::<CandidateView>::empty(), f) =~= Seq::<EntryView>::empty());
            assert(sx =~= seq![entry_of(x)]);
            assert(selected_entries(cs1, f) == sd.push(entry_of(x)));
            assert(sd.push(entry_of(x)) =~= sd + sx);
        } else {
            assert(selected_entries(Seq::<CandidateView>::empty(), f) =~= Seq::<EntryView>::empty());
            assert(sx =~= Seq::<EntryView>::empty());
        }
        assert(selected_entries(cs1, f).to_multiset() =~= selected_entries(cs2, f).to_multiset());
    }
}

/// Every entry has state and preset `enabled`.
pub open spec fn all_enabled(s: Seq<EntryView>) -> bool {
    forall|i: int| 0 <= i < s.len() ==> s[i].1 == "enabled"@ && s[i].2 == "enabled"@
}

/// Selected entries all have state and preset `enabled`.
proof fn lemma_selected_all_enabled(cs: Seq<CandidateView>, f: Option<Seq<char>>)
    ensures
        all_enabled(selected_entries(cs, f)),
    decreases cs.len(),
{
    if cs.len() > 0 {
        lemma_selected_all_enabled(cs.drop_last(), f);
    }
}

/// Two listings sorted by name, with the same entries, all `enabled`, are equal.
proof fn lemma_sorted_listing_unique(
    x: Seq<EntryView>,
    y: Seq<EntryView>,
)
    requires
        sorted_by_lex(entry_names(x)),
        sorted_by_lex(entry_names(y)),
        all_enabled(x),
        all_enabled(y),
        x.to_multiset() == y.to_multiset(),
    ensures
        x == y,
    decreases x.len(),
{
    assert(x.to_multiset().len() == x.len());
    assert(y.to_multiset().len() == y.len());
    if x.len() == 0 {
        assert(y.len() == 0);
        assert(x =~= y);
    } else {
        assert(y.len() == x.len());
        assert(x.contains(x[0]));
        assert(y.contains(y[0]));
        assert(y.to_multiset().count(y[0]) > 0);
        assert(x.to_multiset().count(y[0]) > 0);
        assert(x.to_multiset().count(x[0]) > 0);
        assert(y.to_multiset().count(x[0]) > 0);
        let i = x.lemma_contains_to_index(y[0]);
        let k = y.lemma_contains_to_index(x[0]);
        assert(entry_names(x)[i] == y[0].0 && entry_names(x)[0] == x[0].0);
        assert(entry_names(y)[k] == x[0].0 && entry_names(y)[0] == y[0].0);
        assert(!lex_lt(y[0].0, x[0].0)) by {
            if i > 0 {
                assert(!lex_lt(entry_names(x)[i], entry_names(x)[0]));
            } else {
                lemma_lex_lt_irreflexive(x[0].0);
            }
        }
        assert(!lex_lt(x[0].0, y[0].0)) by {
            if k > 0 {
                assert(!lex_lt(entry_names(y)[k], entry_names(y)[0]));
            } else {
                lemma_lex_lt_irreflexive(y[0].0);
            }
        }
        if x[0].0 != y[0].0 {
            lemma_lex_lt_total(x[0].0, y[0].0);
        }
        assert(x[0] == y[0]);
        assert(x.drop_first() =~= x.remove(0));
        assert(y.drop_first() =~= y.remove(0));
        assert(x.drop_first().to_multiset() =~= y.drop_first().to_multiset());
        assert(entry_names(x.drop_first()) =~= entry_names(x).drop_first());
        assert(entry_names(y.drop_first()) =~= entry_names(y).drop_first());
        lemma_sorted_listing_unique(x.drop_first(), y.drop_first());
        assert(x =~= y) by {
            assert forall|l: int| 0 <= l < x.len() implies x[l] == y[l] by {
                if l > 0 {
                    assert(x[l] == x.drop_first()[l - 1]);
                    assert(y[l] == y.drop_first()[l - 1]);
                }
            }
        }
    }
}

/// The listing does not depend on the order in which the directory walk yields
/// the files: two listings (as `collect_unit_entries` ensures them) of
/// candidates that are a permutation of each other, with the same filter, are
/// equal.
pub proof fn law_listing_independent_of_walk_order(
    cs1: Seq<CandidateView>,
    cs2: Seq<CandidateView>,
    f: Option<Seq<char>>,
    r1: Seq<EntryView>,
    r2: Seq<EntryView>,
)
    requires
        cs1.to_multiset() == cs2.to_multiset(),
        sorted_by_lex(entry_names(r1)),
        r1.to_multiset() == selected_entries(cs1, f).to_multiset(),
        sorted_by_lex(entry_names(r2)),
        r2.to_multiset() == selected_entries(cs2, f).to_multiset(),
    ensures
        r1 == r2,
{
    lemma_selected_permutation(cs1, cs2, f);
    lemma_selected_all_enabled(cs1, f);
    lemma_selected_all_enabled(cs2, f);
    assert(all_enabled(r1)) by {
        assert forall|i: int| 0 <= i < r1.len() implies r1[i].1 == "enabled"@ && r1[i].2 == "enabled"@ by {
            assert(r1.contains(r1[i]));
            assert(r1.to_multiset().count(r1[i]) > 0);
            let s = selected_entries(cs1, f);
            assert(s.contains(r1[i]));
            let j = s.lemma_contains_to_index(r1[i]);
        }
    }
    assert(all_enabled(r2)) by {
        assert forall|i: int| 0 <= i < r2.len() implies r2[i].1 == "enabled"@ && r2[i].2 == "enabled"@ by {
            assert(r2.contains(r2[i]));
            assert(r2.to_multiset().count(r2[i]) > 0);
            let s = selected_entries(cs2, f);
            assert(s.contains(r2[i]));
            let j = s.lemma_contains_to_index(r2[i]);
        }
    }
    lemma_sorted_listing_unique(r1, r2);
}

/// The views of a sequence of candidates.
pub open spec fn candidates_view(s: Seq<UnitCandidate>) -> Seq<CandidateView> {
    s.map_values(|c: UnitCandidate| c@)
}

/// Whether `path` is a regular file with the extension `service`.
pub fn is_service_candidate(path: &str, is_file: bool) -> (r: bool)
    ensures
        r == is_service_file(path@, is_file),
{
    if !is_file {
        return false;
    }
    match path_extension(path) {
        Some(ext) => str_eq(ext.as_str(), "service"),
        None => false,
    }
}

/// The name a unit file is listed under.
pub fn listed_unit_name(path: &str, name_is_unicode: bool) -> (r: String)
    ensures
        r@ == listed_name(path@, name_is_unicode),
{
    match path_file_name(path) {
        Some(n) => if name_is_unicode {
            n
        } else {
            String::from_str("unknown.service")
        },
        None => String::from_str("unknown.service"),
    }
}

/// Whether a unit with these lines passes the filter.
pub fn unit_matches_filter(filter: &Option<String>, lines: &Option<Vec<String>>) -> (r: bool)
    ensures
        r == passes_filter(
            opt_view(*filter),
            match lines {
                Some(v) => Some(strings_view(v@)),
                None => None,
            },
        ),
{
    match filter {
        None => true,
        Some(f) => match lines {
            None => false,
            Some(ls) => {
                let unit = parse_unit_file(ls);
                unit_has_tag(&unit, f.as_str())
            },
        },
    }
}

/// The entries of the service files among `candidates` that pass the filter,
/// ordered by name.
pub fn collect_unit_entries(candidates: &Vec<UnitCandidate>, filter: &Option<String>) -> (r: Vec<
    UnitFileEntry,
>)
    ensures
        sorted_by_lex(entry_names(entries_view(r@))),
        entries_view(r@).to_multiset() == selected_entries(
            candidates_view(candidates@),
            opt_view(*filter),
        ).to_multiset(),
        forall|k: Seq<char>| #[trigger]
            entries_view(r@).filter(named(k)) == selected_entries(
                candidates_view(candidates@),
                opt_view(*filter),
            ).filter(named(k)),
{
    let ghost fv = opt_view(*filter);
    let ghost cv = candidates_view(candidates@);
    let mut picked: Vec<UnitFileEntry> = Vec::new();
    let mut i: usize = 0;
    assert(cv.take(0) =~= Seq::<CandidateView>::empty());
    assert(entries_view(picked@) =~= Seq::<EntryView>::empty());
    while i < candidates.len()
        invariant
            i <= candidates.len(),
            cv == candidates_view(candidates@),
            fv == (opt_view(*filter)),
            entries_view(picked@) == selected_entries(cv.take(i as int), fv),
        decreases candidates.len() - i,
    {
        let c = &candidates[i];
        proof {
            assert(cv.take(i + 1).drop_last() =~= cv.take(i as int));
            assert(cv.take(i + 1).last() == c@);
        }
        if is_service_candidate(c.path.as_str(), c.is_file) && unit_matches_filter(filter, &c.lines) {
            let e = UnitFileEntry {
                unit_file: listed_unit_name(c.path.as_str(), c.name_is_unicode),
                state: String::from_str("enabled"),
                vendor_preset: String::from_str("enabled"),
            };
            let ghost before = entries_view(picked@);
            picked.push(e);
            assert(entries_view(picked@) =~= before.push(e@));
        }
        i = i + 1;
    }
    assert(cv.take(candidates.len() as int) =~= cv);
    sort_unit_entries(picked)
}

/// The two header lines of the table.
pub open spec fn table_header() -> Seq<char> {
    "UNIT FILE                                      STATE           VENDOR PRESET\n"@
        + "--------------------------------------------------------------------------------\n"@
}

/// One row of the table: the name padded to 45 characters, the state and the
/// preset padded to 15, separated by single spaces.
pub open spec fn table_row(e: EntryView) -> Seq<char> {
    pad_right(e.0, 45) + " "@ + pad_right(e.1, 15) + " "@ + pad_right(e.2, 15) + "\n"@
}

/// The rows of the table, one per entry, in order.
pub open spec fn table_rows(es: Seq<EntryView>) -> Seq<char>
    decreases es.len(),
{
    if es.len() == 0 {
        Seq::empty()
    } else {
        table_rows(es.drop_last()) + table_row(es.last())
    }
}

/// The listing as a table.
pub open spec fn table_text(es: Seq<EntryView>) -> Seq<char> {
    table_header() + table_rows(es)
}

/// The table shows the entries in their order: the table of no entries is the
/// two header lines, and adding an entry at the end adds its row at the end.
/// So the row of entry `i` comes before the row of entry `j` whenever `i < j`.
pub proof fn law_table_rows_follow_entries(es: Seq<EntryView>, e: EntryView)
    ensures
        table_text(Seq::empty()) == table_header(),
        table_text(es.push(e)) == table_text(es) + table_row(e),
{
    assert(es.push(e).drop_last() =~= es);
    assert(table_header() + Seq::<char>::empty() =~= table_header());
    assert(table_header() + (table_rows(es) + table_row(e)) =~= table_header() + table_rows(es) + table_row(e));
}

/// Each row starts with the entry's unit file name, in full.
pub proof fn law_table_row_starts_with_name(e: EntryView)
    ensures
        table_row(e).subrange(0, e.0.len() as int) == e.0,
{
    assert(table_row(e).subrange(0, e.0.len() as int) =~= e.0);
}

/// The listing of `entries` as a table.
pub fn format_table(entries: &Vec<UnitFileEntry>) -> (r: String)
    ensures
        r@ == table_text(entries_view(entries@)),
{
    let ghost ev = entries_view(entries@);
    let mut s = String::from_str(
        "UNIT FILE                                      STATE           VENDOR PRESET\n",
    );
    s.append("--------------------------------------------------------------------------------\n");
    let mut i: usize = 0;
    assert(ev.take(0) =~= Seq::<EntryView>::empty());
    assert(s@ =~= table_text(ev.take(0)));
    while i < entries.len()
        invariant
            i <= entries.len(),
            ev == entries_view(entries@),
            s@ == table_text(ev.take(i as int)),
        decreases entries.len() - i,
    {
        let e = &entries[i];
        let ghost before = s@;
        s.append(pad_right_str(e.unit_file.as_str(), 45).as_str());
        s.append(" ");
        s.append(pad_right_str(e.state.as_str(), 15).as_str());
        s.append(" ");
        s.append(pad_right_str(e.vendor_preset.as_str(), 15).as_str());
        s.append("\n");
        proof {
            assert(ev.take(i + 1).drop_last() =~= ev.take(i as int));
            assert(ev.take(i + 1).last() == e@);
            assert(s@ =~= before + table_row(e@));
            assert(table_text(ev.take(i + 1)) =~= table_text(ev.take(i as int)) + table_row(e@));
        }
        i = i + 1;
    }
    assert(ev.take(entries.len() as int) =~= ev);
    s
}

/// The pager to pipe the listing into.
pub struct PagerCommand {
    /// The program.
    pub program: String,
    /// Its arguments.
    pub args: Vec<String>,
}

/// The pager program: `$PAGER`, else `less` (an unset or non-Unicode variable
/// counts as absent).
pub open spec fn pager_program(pager_var: Option<Seq<char>>) -> Seq<char> {
    match pager_var {
        Some(p) => p,
        None => "less"@,
    }
}

/// The pager's arguments: `-R` for `less`, none otherwise.
pub open spec fn pager_args(program: Seq<char>) -> Seq<Seq<char>> {
    if program == "less"@ {
        seq!["-R"@]
    } else {
        Seq::empty()
    }
}

/// The pager to use: none when paging is switched off or standard output is not
/// a terminal; otherwise `pager_program` with `pager_args`.
pub fn pager_command(no_pager: bool, stdout_is_terminal: bool, pager_var: Option<String>) -> (r:
    Option<PagerCommand>)
    ensures
        r is Some <==> (!no_pager && stdout_is_terminal),
        r matches Some(c) ==> c.program@ == pager_program(
            opt_view(pager_var),
        ) && strings_view(c.args@) == pager_args(c.program@),
{
    if no_pager || !stdout_is_terminal {
        return None;
    }
    let program = match pager_var {
        Some(p) => p,
        None => String::from_str("less"),
    };
    let mut args: Vec<String> = Vec::new();
    if str_eq(program.as_str(), "less") {
        args.push(String::from_str("-R"));
    }
    assert(strings_view(args@) =~= pager_args(program@));
    Some(PagerCommand { program, args })
}

} // verus!
