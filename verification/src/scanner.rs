//! Season and episode discovery: filtering directory entries by kind,
//! ordering them deterministically, and inferring season numbers from
//! directory names. The caller reads the filesystem and hands the
//! observed entries in; the library never touches the disk itself.

use vstd::prelude::*;
use crate::paths::file_name_chars;
use crate::paths::file_name_exec;
use crate::text::chars_eq;
use crate::text::lex_le;
use crate::text::lex_le_str;
use crate::text::lemma_lex_total;
use crate::text::lemma_lex_trans;
use crate::text::lower_chars;
use crate::text::lower_chars_exec;
use crate::text::parse_usize_chars;
use crate::text::parse_usize_exec;
use crate::text::remove_pattern;
use crate::text::remove_pattern_exec;
use crate::text::to_chars;

verus! {

/// What kind of filesystem object a directory entry turned out to be.
#[derive(Clone, Copy, PartialEq, Eq, Structural, Debug)]
pub enum EntryKind {
    /// A directory.
    Directory,
    /// A regular file.
    File,
    /// Anything else.
    Other,
}

/// One directory entry as the caller observed it: its full path string
/// and the kind its metadata reported.
#[derive(Clone, Debug)]
pub struct ScanEntry {
    /// The entry's full path.
    pub path: String,
    /// The kind its metadata reported.
    pub kind: EntryKind,
}

/// The character sequences of a sequence of strings.
pub open spec fn views_of(v: Seq<String>) -> Seq<Seq<char>> {
    v.map_values(|s: String| s@)
}

/// Pairwise lexicographic sortedness, ascending.
pub open spec fn sorted_lex(ps: Seq<Seq<char>>) -> bool {
    forall|i: int, j: int| 0 <= i < j < ps.len() ==> lex_le(ps[i], ps[j])
}

/// The paths of the entries of kind `kind`, in their given order.
pub open spec fn paths_of_kind(es: Seq<ScanEntry>, kind: EntryKind) -> Seq<Seq<char>>
    decreases es.len(),
{
    if es.len() == 0 {
        Seq::empty()
    } else {
        let rest = paths_of_kind(es.drop_last(), kind);
        if es.last().kind == kind {
            rest.push(es.last().path@)
        } else {
            rest
        }
    }
}

fn index_of_min(v: &Vec<String>) -> (m: usize)
    requires
        v@.len() > 0,
    ensures
        0 <= m < v@.len(),
        forall|k: int| 0 <= k < v@.len() ==> lex_le(v@[m as int]@, v@[k]@),
{
    let mut m: usize = 0;
    let mut k: usize = 1;
    proof {
        lemma_lex_total(v@[0]@, v@[0]@);
    }
    while k < v.len()
        invariant
            0 <= m < k <= v@.len(),
            forall|j: int| 0 <= j < k ==> lex_le(v@[m as int]@, v@[j]@),
        decreases v@.len() - k,
    {
        if !lex_le_str(v[m].as_str(), v[k].as_str()) {
            proof {
                lemma_lex_total(v@[m as int]@, v@[k as int]@);
                assert forall|j: int| 0 <= j < k + 1 implies lex_le(v@[k as int]@, v@[j]@) by {
                    if j == k {
                        lemma_lex_total(v@[k as int]@, v@[k as int]@);
                    } else {
                        lemma_lex_trans(v@[k as int]@, v@[m as int]@, v@[j]@);
                    }
                }
            }
            m = k;
        }
        k = k + 1;
    }
    m
}

/// Sorts strings ascending in lexicographic code-point order; the result
/// holds exactly the input strings, as a multiset.
pub(crate) fn sort_paths(input: Vec<String>) -> (r: Vec<String>)
    ensures
        views_of(r@).to_multiset() == views_of(input@).to_multiset(),
        sorted_lex(views_of(r@)),
{
    let ghost orig = views_of(input@);
    let mut rest = input;
    let mut out: Vec<String> = Vec::new();
    proof {
        broadcast use vstd::seq_lib::group_to_multiset_ensures;
        broadcast use vstd::multiset::group_multiset_axioms;

        assert(views_of(out@) =~= Seq::<Seq<char>>::empty());
        assert(views_of(out@).to_multiset().add(views_of(rest@).to_multiset())
            =~= orig.to_multiset());
    }
    while rest.len() > 0
        invariant
            views_of(out@).to_multiset().add(views_of(rest@).to_multiset()) == orig.to_multiset(),
            sorted_lex(views_of(out@)),
            forall|a: int, b: int|
                0 <= a < out@.len() && 0 <= b < rest@.len() ==> lex_le(out@[a]@, rest@[b]@),
        decreases rest@.len(),
    {
        let m = index_of_min(&rest);
        let ghost ov = views_of(out@);
        let ghost rv = views_of(rest@);
        let ghost x = rest@[m as int]@;
        let s = rest.remove(m);
        out.push(s);
        proof {
            broadcast use vstd::seq_lib::group_to_multiset_ensures;
            broadcast use vstd::multiset::group_multiset_axioms;

            assert(views_of(rest@) =~= rv.remove(m as int));
            assert(views_of(out@) =~= ov.push(x));
            assert(rv[m as int] == x);
            assert(rv.contains(x));
            assert(rv.to_multiset().contains(x));
            assert(views_of(out@).to_multiset().add(views_of(rest@).to_multiset())
                =~= orig.to_multiset());
            assert forall|i: int, j: int|
                0 <= i < j < views_of(out@).len() implies lex_le(
                views_of(out@)[i],
                views_of(out@)[j],
            ) by {
                if j == views_of(out@).len() - 1 {
                    assert(lex_le(ov[i], x));
                }
            }
            assert forall|a: int, b: int|
                0 <= a < out@.len() && 0 <= b < rest@.len() implies lex_le(
                out@[a]@,
                rest@[b]@,
            ) by {
                if a == out@.len() - 1 {
                    if b < m {
                        assert(rest@[b]@ == rv[b]);
                    } else {
                        assert(rest@[b]@ == rv[b + 1]);
                    }
                }
            }
        }
    }
    proof {
        broadcast use vstd::seq_lib::group_to_multiset_ensures;
        broadcast use vstd::multiset::group_multiset_axioms;

        assert(views_of(rest@).len() == 0);
        assert(views_of(out@).to_multiset().add(views_of(rest@).to_multiset())
            =~= views_of(out@).to_multiset());
    }
    out
}

fn collect_sorted(entries: &Vec<ScanEntry>, kind: EntryKind) -> (r: Vec<String>)
    ensures
        views_of(r@).to_multiset() == paths_of_kind(entries@, kind).to_multiset(),
        sorted_lex(views_of(r@)),
        paths_of_kind(entries@, kind).no_duplicates() ==> views_of(r@).no_duplicates(),
{
    let mut sel: Vec<String> = Vec::new();
    let mut i: usize = 0;
    proof {
        assert(entries@.take(0) =~= Seq::<ScanEntry>::empty());
        assert(views_of(sel@) =~= paths_of_kind(entries@.take(0), kind));
    }
    while i < entries.len()
        invariant
            0 <= i <= entries@.len(),
            views_of(sel@) == paths_of_kind(entries@.take(i as int), kind),
        decreases entries@.len() - i,
    {
        let e = &entries[i];
        let ghost prev = views_of(sel@);
        let matches_kind = match (e.kind, kind) {
            (EntryKind::Directory, EntryKind::Directory) => true,
            (EntryKind::File, EntryKind::File) => true,
            (EntryKind::Other, EntryKind::Other) => true,
            _ => false,
        };
        if matches_kind {
            sel.push(e.path.clone());
        }
        i = i + 1;
        proof {
            assert(entries@.take(i as int).drop_last() =~= entries@.take(i as int - 1));
            assert(entries@.take(i as int).last() == entries@[i as int - 1]);
            if matches_kind {
                assert(views_of(sel@) =~= prev.push(entries@[i as int - 1].path@));
            }
        }
    }
    proof {
        assert(entries@.take(i as int) =~= entries@);
    }
    let r = sort_paths(sel);
    proof {
        let ps = paths_of_kind(entries@, kind);
        if ps.no_duplicates() {
            ps.lemma_multiset_has_no_duplicates();
            views_of(r@).lemma_multiset_has_no_duplicates_conv();
        }
    }
    r
}

/// The immediate subdirectories among the observed entries, sorted
/// ascending by full path string. The result holds exactly the directory
/// entries' paths; distinct inputs stay distinct, so the listing carries
/// no duplicate paths.
pub fn get_seasons(entries: &Vec<ScanEntry>) -> (r: Vec<String>)
    ensures
        views_of(r@).to_multiset() == paths_of_kind(entries@, EntryKind::Directory).to_multiset(),
        sorted_lex(views_of(r@)),
        paths_of_kind(entries@, EntryKind::Directory).no_duplicates() ==> views_of(
            r@,
        ).no_duplicates(),
{
    collect_sorted(entries, EntryKind::Directory)
}

/// The regular files among the observed entries, sorted ascending by
/// full path string. The result holds exactly the file entries' paths;
/// distinct inputs stay distinct, so the listing carries no duplicate
/// paths.
pub fn get_episodes(entries: &Vec<ScanEntry>) -> (r: Vec<String>)
    ensures
        views_of(r@).to_multiset() == paths_of_kind(entries@, EntryKind::File).to_multiset(),
        sorted_lex(views_of(r@)),
        paths_of_kind(entries@, EntryKind::File).no_duplicates() ==> views_of(r@).no_duplicates(),
{
    collect_sorted(entries, EntryKind::File)
}

/// The word stripped from a season directory's name.
pub open spec fn season_word() -> Seq<char> {
    seq!['s', 'e', 'a', 's', 'o', 'n']
}

/// The lowercased names recognized directly as season zero.
pub open spec fn season_zero_name(s: Seq<char>) -> bool {
    s == seq!['s', 'e', 'a', 's', 'o', 'n', '0'] || s == seq![
        's',
        'e',
        'a',
        's',
        'o',
        'n',
        ' ',
        '0',
    ] || s == seq!['s', 'p', 'e', 'c', 'i', 'a', 'l', 's']
}

/// The season number a directory name denotes: the name is lowercased;
/// the literal forms of season zero ("season0", "season 0", "specials")
/// give zero; otherwise the word "season" and all spaces are removed and
/// the remainder must be a plain non-negative decimal number. Anything
/// else denotes no season at all.
pub open spec fn season_of_name(name: Seq<char>) -> Option<usize> {
    let lower = lower_chars(name);
    if season_zero_name(lower) {
        Some(0)
    } else {
        parse_usize_chars(remove_pattern(remove_pattern(lower, season_word()), seq![' ']))
    }
}

/// The season number derived from a directory path: the rule of
/// `season_of_name` applied to the path's final component.
pub open spec fn spec_derive_season_number(path: Seq<char>) -> Option<usize> {
    season_of_name(file_name_chars(path))
}

/// Derives the season number from a season directory's path, looking at
/// its final component only; an unrecognized name yields nothing, the
/// normal way a non-season directory is skipped.
pub fn derive_season_number(season: &str) -> (r: Option<usize>)
    ensures
        r == spec_derive_season_number(season@),
{
    let v = to_chars(season);
    let name = file_name_exec(&v);
    let lower = lower_chars_exec(&name);
    let lit_zero: Vec<char> = vec!['s', 'e', 'a', 's', 'o', 'n', '0'];
    let lit_zero_sp: Vec<char> = vec!['s', 'e', 'a', 's', 'o', 'n', ' ', '0'];
    let lit_specials: Vec<char> = vec!['s', 'p', 'e', 'c', 'i', 'a', 'l', 's'];
    proof {
        assert(lit_zero@ =~= seq!['s', 'e', 'a', 's', 'o', 'n', '0']);
        assert(lit_zero_sp@ =~= seq!['s', 'e', 'a', 's', 'o', 'n', ' ', '0']);
        assert(lit_specials@ =~= seq!['s', 'p', 'e', 'c', 'i', 'a', 'l', 's']);
    }
    if chars_eq(&lower, &lit_zero) || chars_eq(&lower, &lit_zero_sp) || chars_eq(
        &lower,
        &lit_specials,
    ) {
        Some(0)
    } else {
        let word: Vec<char> = vec!['s', 'e', 'a', 's', 'o', 'n'];
        let space: Vec<char> = vec![' '];
        proof {
            assert(word@ =~= season_word());
            assert(space@ =~= seq![' ']);
        }
        let without_word = remove_pattern_exec(&lower, &word);
        let stripped = remove_pattern_exec(&without_word, &space);
        parse_usize_exec(&stripped)
    }
}

} // verus!
