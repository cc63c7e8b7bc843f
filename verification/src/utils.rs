//! Package discovery: partitioning a site-packages listing into manifest and
//! installed-package directories, sorting both, and pairing them by
//! best-effort name matching.

use vstd::prelude::*;
use vstd::string::*;

use crate::fstree::{node_name, FsNode};
use crate::strutil::{ends_with, eq_str, find_char, find_char_spec, lex_le, str_le};

verus! {

broadcast use vstd::string::group_string_axioms;

/// Does this entry name mark a manifest directory?
pub open spec fn is_manifest_name(name: Seq<char>) -> bool {
    "dist-info"@.is_suffix_of(name)
}

/// The names of the manifest entries, in listing order.
pub open spec fn manifest_names(es: Seq<FsNode>) -> Seq<Seq<char>>
    decreases es,
{
    if es.len() == 0 {
        Seq::empty()
    } else {
        let rest = manifest_names(es.drop_last());
        if is_manifest_name(node_name(es.last())) {
            rest.push(node_name(es.last()))
        } else {
            rest
        }
    }
}

/// The names of the remaining entries, in listing order.
pub open spec fn package_names(es: Seq<FsNode>) -> Seq<Seq<char>>
    decreases es,
{
    if es.len() == 0 {
        Seq::empty()
    } else {
        let rest = package_names(es.drop_last());
        if is_manifest_name(node_name(es.last())) {
            rest
        } else {
            rest.push(node_name(es.last()))
        }
    }
}

/// `x` inserted before the first element that is not below it.
pub open spec fn insert_sorted(x: Seq<char>, s: Seq<Seq<char>>) -> Seq<Seq<char>>
    decreases s,
{
    if s.len() == 0 {
        seq![x]
    } else if lex_le(x, s[0]) {
        seq![x] + s
    } else {
        seq![s[0]] + insert_sorted(x, s.drop_first())
    }
}

/// The listing sorted lexicographically, as an insertion sort.
pub open spec fn sort_lex(s: Seq<Seq<char>>) -> Seq<Seq<char>>
    decreases s,
{
    if s.len() == 0 {
        Seq::empty()
    } else {
        insert_sorted(s.last(), sort_lex(s.drop_last()))
    }
}

proof fn lemma_insert_sorted_at(x: Seq<char>, s: Seq<Seq<char>>, p: int)
    requires
        0 <= p <= s.len(),
        forall|j: int| 0 <= j < p ==> !lex_le(x, #[trigger] s[j]),
        p < s.len() ==> lex_le(x, s[p]),
    ensures
        insert_sorted(x, s) =~= s.take(p) + seq![x] + s.skip(p),
    decreases s.len(),
{
    if s.len() == 0 {
        assert(insert_sorted(x, s) =~= s.take(p) + seq![x] + s.skip(p));
    } else if p == 0 {
        assert(s.take(0) =~= Seq::<Seq<char>>::empty());
        assert(s.skip(0) =~= s);
    } else {
        assert(!lex_le(x, s[0]));
        assert(forall|j: int| 0 <= j < p - 1 ==> !lex_le(x, #[trigger] s.drop_first()[j]));
        lemma_insert_sorted_at(x, s.drop_first(), p - 1);
        assert(seq![s[0]] + (s.drop_first().take(p - 1) + seq![x] + s.drop_first().skip(p - 1))
            =~= s.take(p) + seq![x] + s.skip(p));
    }
}

/// Inserts `x` into the sorted vector `v`, keeping the order.
fn insert_string_sorted(x: String, v: &mut Vec<String>)
    ensures
        final(v).deep_view() == insert_sorted(x@, old(v).deep_view()),
{
    let mut p: usize = 0;
    while p < v.len() && !str_le(x.as_str(), v[p].as_str())
        invariant
            0 <= p <= v@.len(),
            *v == *old(v),
            forall|j: int| 0 <= j < p ==> !lex_le(x@, #[trigger] v.deep_view()[j]),
        decreases v@.len() - p,
    {
        p = p + 1;
    }
    proof {
        lemma_insert_sorted_at(x@, v.deep_view(), p as int);
    }
    let ghost old_dv = v.deep_view();
    v.insert(p, x);
    proof {
        assert(v.deep_view() =~= old_dv.take(p as int) + seq![x@] + old_dv.skip(p as int));
    }
}

/// Sorts a listing of names lexicographically.
pub fn sort_strings(mut v: Vec<String>) -> (r: Vec<String>)
    ensures
        r.deep_view() == sort_lex(v.deep_view()),
{
    let ghost input = v.deep_view();
    let mut r: Vec<String> = Vec::new();
    let n = v.len();
    proof {
        assert(input.take(0) =~= Seq::<Seq<char>>::empty());
        assert(r.deep_view() =~= Seq::<Seq<char>>::empty());
    }
    let mut i: usize = 0;
    while i < n
        invariant
            0 <= i <= n,
            n == v@.len(),
            v.deep_view() == input,
            r.deep_view() == sort_lex(input.take(i as int)),
        decreases n - i,
    {
        let x = v[i].clone();
        insert_string_sorted(x, &mut r);
        proof {
            assert(input.take(i + 1).drop_last() =~= input.take(i as int));
            assert(input.take(i + 1).last() == input[i as int]);
        }
        i = i + 1;
    }
    proof {
        assert(input.take(n as int) =~= input);
    }
    r
}

/// Partitions the immediate entries of a site-packages directory into
/// manifest names and installed-package names, both sorted so that pairing
/// does not depend on the order the filesystem handed them out in.
pub fn get_packages(site_entries: &Vec<FsNode>) -> (r: (Vec<String>, Vec<String>))
    ensures
        r.0.deep_view() == sort_lex(manifest_names(site_entries@)),
        r.1.deep_view() == sort_lex(package_names(site_entries@)),
{
    let mut dist: Vec<String> = Vec::new();
    let mut pkgs: Vec<String> = Vec::new();
    let n = site_entries.len();
    let mut i: usize = 0;
    proof {
        assert(site_entries@.take(0) =~= Seq::<FsNode>::empty());
        assert(dist.deep_view() =~= Seq::<Seq<char>>::empty());
        assert(pkgs.deep_view() =~= Seq::<Seq<char>>::empty());
    }
    while i < n
        invariant
            0 <= i <= n,
            n == site_entries@.len(),
            dist.deep_view() == manifest_names(site_entries@.take(i as int)),
            pkgs.deep_view() == package_names(site_entries@.take(i as int)),
        decreases n - i,
    {
        proof {
            assert(site_entries@.take(i + 1).drop_last() =~= site_entries@.take(i as int));
            assert(site_entries@.take(i + 1).last() == site_entries@[i as int]);
        }
        let name = site_entries[i].name_str();
        let ghost dist_prev = dist.deep_view();
        let ghost pkgs_prev = pkgs.deep_view();
        if ends_with(name, "dist-info") {
            dist.push(name.to_owned());
            proof {
                assert(dist.deep_view() =~= dist_prev.push(name@));
            }
        } else {
            pkgs.push(name.to_owned());
            proof {
                assert(pkgs.deep_view() =~= pkgs_prev.push(name@));
            }
        }
        i = i + 1;
    }
    proof {
        assert(site_entries@.take(n as int) =~= site_entries@);
    }
    (sort_strings(dist), sort_strings(pkgs))
}

/// The sorted manifest names alone.
pub fn get_dist_info_packages(site_entries: &Vec<FsNode>) -> (r: Vec<String>)
    ensures
        r.deep_view() == sort_lex(manifest_names(site_entries@)),
{
    let (dist, _) = get_packages(site_entries);
    dist
}

/// The first directory entry, the conventional place of the Python
/// minor-version folder under an environment's library directory.
pub open spec fn first_dir_spec(es: Seq<FsNode>) -> Option<FsNode>
    decreases es,
{
    if es.len() == 0 {
        None
    } else if es[0] is Dir {
        Some(es[0])
    } else {
        first_dir_spec(es.drop_first())
    }
}

proof fn lemma_first_dir_spec_skip(es: Seq<FsNode>, i: int)
    requires
        0 <= i <= es.len(),
        forall|j: int| 0 <= j < i ==> !(#[trigger] es[j] is Dir),
    ensures
        first_dir_spec(es) == first_dir_spec(es.skip(i)),
    decreases i,
{
    if i > 0 {
        assert(forall|j: int| 0 <= j < i - 1 ==> !(#[trigger] es.drop_first()[j] is Dir));
        lemma_first_dir_spec_skip(es.drop_first(), i - 1);
        assert(es.drop_first().skip(i - 1) =~= es.skip(i));
    } else {
        assert(es.skip(0) =~= es);
    }
}

pub proof fn lemma_first_dir_spec_is_dir(es: Seq<FsNode>)
    ensures
        match first_dir_spec(es) {
            Some(d) => d is Dir,
            None => true,
        },
    decreases es,
{
    if es.len() > 0 && !(es[0] is Dir) {
        lemma_first_dir_spec_is_dir(es.drop_first());
    }
}

pub proof fn lemma_first_dir_spec_mem(es: Seq<FsNode>)
    ensures
        match first_dir_spec(es) {
            Some(d) => exists|i: int| 0 <= i < es.len() && es[i] == d,
            None => true,
        },
    decreases es,
{
    if es.len() > 0 {
        if es[0] is Dir {
            assert(es[0] == es[0]);
        } else {
            lemma_first_dir_spec_mem(es.drop_first());
            match first_dir_spec(es) {
                Some(d) => {
                    let i = choose|i: int|
                        0 <= i < es.drop_first().len() && es.drop_first()[i] == d;
                    assert(es[i + 1] == d);
                },
                None => {},
            }
        }
    }
}

/// The first subdirectory of a library directory's entries.
pub fn get_python_dir<'a>(lib_entries: &'a Vec<FsNode>) -> (r: Option<&'a FsNode>)
    ensures
        match r {
            Some(d) => first_dir_spec(lib_entries@) == Some(*d),
            None => first_dir_spec(lib_entries@) is None,
        },
{
    let mut i: usize = 0;
    while i < lib_entries.len()
        invariant
            0 <= i <= lib_entries@.len(),
            forall|j: int| 0 <= j < i ==> !(#[trigger] lib_entries@[j] is Dir),
        decreases lib_entries@.len() - i,
    {
        if lib_entries[i].is_dir() {
            proof {
                lemma_first_dir_spec_skip(lib_entries@, i as int);
                assert(lib_entries@.skip(i as int)[0] == lib_entries@[i as int]);
            }
            return Some(&lib_entries[i]);
        }
        i = i + 1;
    }
    proof {
        lemma_first_dir_spec_skip(lib_entries@, i as int);
    }
    None
}

/// Does manifest name `di`, stripped of `.dist-info` and cut at its first
/// hyphen, match the package directory name `pkg`?
pub open spec fn manifest_stem_matches(di: Seq<char>, pkg: Seq<char>) -> bool {
    ".dist-info"@.is_suffix_of(di) && {
        let stem = di.take(di.len() - 10);
        let h = find_char_spec(stem, '-');
        h < stem.len() && stem.take(h) == pkg
    }
}

/// The first manifest name matching `pkg`, in listing order.
pub open spec fn first_match(dis: Seq<Seq<char>>, pkg: Seq<char>) -> Option<Seq<char>>
    decreases dis,
{
    if dis.len() == 0 {
        None
    } else if manifest_stem_matches(dis[0], pkg) {
        Some(dis[0])
    } else {
        first_match(dis.drop_first(), pkg)
    }
}

proof fn lemma_first_match_skip(dis: Seq<Seq<char>>, pkg: Seq<char>, i: int)
    requires
        0 <= i <= dis.len(),
        forall|j: int| 0 <= j < i ==> !manifest_stem_matches(#[trigger] dis[j], pkg),
    ensures
        first_match(dis, pkg) == first_match(dis.skip(i), pkg),
    decreases i,
{
    if i > 0 {
        assert(forall|j: int|
            0 <= j < i - 1 ==> !manifest_stem_matches(#[trigger] dis.drop_first()[j], pkg));
        lemma_first_match_skip(dis.drop_first(), pkg, i - 1);
        assert(dis.drop_first().skip(i - 1) =~= dis.skip(i));
    } else {
        assert(dis.skip(0) =~= dis);
    }
}

/// Executable form of the manifest-to-package match test.
fn stem_matches(di: &str, pkg: &str) -> (r: bool)
    ensures
        r == manifest_stem_matches(di@, pkg@),
{
    proof {
        reveal_strlit(".dist-info");
        assert(".dist-info"@.len() == 10);
    }
    if !ends_with(di, ".dist-info") {
        return false;
    }
    let n = di.unicode_len();
    let stem = di.substring_char(0, n - 10);
    proof {
        assert(stem@ =~= di@.take(di@.len() - 10));
    }
    let h = find_char(stem, '-');
    proof {
        crate::strutil::lemma_find_char_spec(stem@, '-');
    }
    if h == stem.unicode_len() {
        return false;
    }
    let name_part = stem.substring_char(0, h);
    proof {
        assert(name_part@ =~= stem@.take(h as int));
    }
    eq_str(name_part, pkg)
}

/// One row of the pairing: an installed-package directory name, a manifest
/// directory name, either possibly absent.
pub open spec fn base_pairs(dis: Seq<Seq<char>>, pkgs: Seq<Seq<char>>) -> Seq<
    (Option<Seq<char>>, Option<Seq<char>>),
> {
    pkgs.map_values(|p: Seq<char>| (Some(p), first_match(dis, p)))
}

/// Is `d` already recorded as some pair's manifest?
pub open spec fn pair_has_manifest(
    pairs: Seq<(Option<Seq<char>>, Option<Seq<char>>)>,
    d: Seq<char>,
) -> bool {
    exists|i: int| 0 <= i < pairs.len() && #[trigger] pairs[i].1 == Some(d)
}

/// Appends a `(None, manifest)` row for every manifest that no earlier row
/// carries.
pub open spec fn add_unmatched(
    pairs: Seq<(Option<Seq<char>>, Option<Seq<char>>)>,
    dis: Seq<Seq<char>>,
) -> Seq<(Option<Seq<char>>, Option<Seq<char>>)>
    decreases dis,
{
    if dis.len() == 0 {
        pairs
    } else {
        let p2 = if pair_has_manifest(pairs, dis[0]) {
            pairs
        } else {
            pairs.push((None, Some(dis[0])))
        };
        add_unmatched(p2, dis.drop_first())
    }
}

/// The full pairing of manifests against installed-package directories.
pub open spec fn package_pairs_spec(dis: Seq<Seq<char>>, pkgs: Seq<Seq<char>>) -> Seq<
    (Option<Seq<char>>, Option<Seq<char>>),
> {
    add_unmatched(base_pairs(dis, pkgs), dis)
}

/// Does some pair already record manifest `d`?
fn pairs_contain_manifest(pairs: &Vec<(Option<String>, Option<String>)>, d: &str) -> (r: bool)
    ensures
        r == pair_has_manifest(pairs.deep_view(), d@),
{
    let mut i: usize = 0;
    while i < pairs.len()
        invariant
            0 <= i <= pairs@.len(),
            forall|j: int| 0 <= j < i ==> #[trigger] pairs.deep_view()[j].1 != Some(d@),
        decreases pairs@.len() - i,
    {
        match &pairs[i].1 {
            Some(m) => {
                if eq_str(m.as_str(), d) {
                    assert(pairs.deep_view()[i as int].1 == Some(d@));
                    return true;
                }
            },
            None => {},
        }
        i = i + 1;
    }
    false
}

/// Pairs each installed-package directory with the first matching manifest
/// directory, then appends every manifest no pair carries, paired with no
/// package. An unmatched package keeps an absent manifest; an unmatched
/// manifest still appears.
pub fn package_pairs(dist_infos: Vec<String>, packages: Vec<String>) -> (r: Vec<
    (Option<String>, Option<String>),
>)
    ensures
        r.deep_view() == package_pairs_spec(dist_infos.deep_view(), packages.deep_view()),
{
    let mut pairs: Vec<(Option<String>, Option<String>)> = Vec::new();
    let ghost dis = dist_infos.deep_view();
    let ghost pkgs = packages.deep_view();
    let n = packages.len();
    let mut i: usize = 0;
    proof {
        assert(pairs.deep_view() =~= base_pairs(dis, pkgs.take(0)));
    }
    while i < n
        invariant
            0 <= i <= n,
            n == packages@.len(),
            dis == dist_infos.deep_view(),
            pkgs == packages.deep_view(),
            pairs.deep_view() == base_pairs(dis, pkgs.take(i as int)),
        decreases n - i,
    {
        let pkg = &packages[i];
        let mut k: usize = 0;
        let dn = dist_infos.len();
        while k < dn && !stem_matches(dist_infos[k].as_str(), pkg.as_str())
            invariant
                0 <= k <= dn,
                dn == dist_infos@.len(),
                dis == dist_infos.deep_view(),
                pkg@ == pkgs[i as int],
                forall|j: int| 0 <= j < k ==> !manifest_stem_matches(#[trigger] dis[j], pkg@),
            decreases dn - k,
        {
            k = k + 1;
        }
        proof {
            lemma_first_match_skip(dis, pkg@, k as int);
            if k < dn {
                assert(dis.skip(k as int)[0] == dis[k as int]);
            }
        }
        let matched: Option<String> = if k < dn {
            Some(dist_infos[k].clone())
        } else {
            None
        };
        proof {
            match &matched {
                Some(m) => {
                    assert(first_match(dis, pkg@) == Some(m@));
                },
                None => {
                    assert(first_match(dis, pkg@) is None);
                },
            }
        }
        let ghost prev = pairs.deep_view();
        pairs.push((Some(pkg.clone()), matched));
        proof {
            assert(pkgs.take(i + 1).drop_last() =~= pkgs.take(i as int));
            assert(pkgs.take(i + 1).last() == pkgs[i as int]);
            assert(base_pairs(dis, pkgs.take(i + 1)) =~= base_pairs(dis, pkgs.take(i as int)).push(
                (Some(pkgs[i as int]), first_match(dis, pkgs[i as int])),
            ));
            assert(pairs.deep_view() =~= prev.push(
                (Some(pkgs[i as int]), first_match(dis, pkgs[i as int])),
            ));
        }
        i = i + 1;
    }
    proof {
        assert(pkgs.take(n as int) =~= pkgs);
    }
    let dn = dist_infos.len();
    let mut k: usize = 0;
    proof {
        assert(dis.skip(0) =~= dis);
    }
    while k < dn
        invariant
            0 <= k <= dn,
            dn == dist_infos@.len(),
            dis == dist_infos.deep_view(),
            add_unmatched(pairs.deep_view(), dis.skip(k as int)) == package_pairs_spec(dis, pkgs),
        decreases dn - k,
    {
        let d = &dist_infos[k];
        proof {
            assert(dis.skip(k as int)[0] == dis[k as int]);
            assert(dis.skip(k as int).drop_first() =~= dis.skip(k + 1));
        }
        if !pairs_contain_manifest(&pairs, d.as_str()) {
            let ghost prev = pairs.deep_view();
            pairs.push((None, Some(d.clone())));
            proof {
                assert(pairs.deep_view() =~= prev.push(
                    (None::<Seq<char>>, Some(dis[k as int])),
                ));
            }
        }
        k = k + 1;
    }
    proof {
        assert(dis.skip(dn as int).len() == 0);
    }
    pairs
}

proof fn lemma_add_unmatched_prefix(
    pairs: Seq<(Option<Seq<char>>, Option<Seq<char>>)>,
    dis: Seq<Seq<char>>,
)
    ensures
        pairs.len() <= add_unmatched(pairs, dis).len(),
        forall|i: int|
            0 <= i < pairs.len() ==> #[trigger] add_unmatched(pairs, dis)[i] == pairs[i],
    decreases dis,
{
    if dis.len() > 0 {
        let p2 = if pair_has_manifest(pairs, dis[0]) {
            pairs
        } else {
            pairs.push((None, Some(dis[0])))
        };
        lemma_add_unmatched_prefix(p2, dis.drop_first());
    }
}

proof fn lemma_add_unmatched_keeps_manifest(
    pairs: Seq<(Option<Seq<char>>, Option<Seq<char>>)>,
    dis: Seq<Seq<char>>,
    d: Seq<char>,
)
    requires
        pair_has_manifest(pairs, d),
    ensures
        pair_has_manifest(add_unmatched(pairs, dis), d),
{
    let i = choose|i: int| 0 <= i < pairs.len() && #[trigger] pairs[i].1 == Some(d);
    lemma_add_unmatched_prefix(pairs, dis);
    assert(add_unmatched(pairs, dis)[i].1 == Some(d));
}

proof fn lemma_add_unmatched_appends(
    pairs: Seq<(Option<Seq<char>>, Option<Seq<char>>)>,
    dis: Seq<Seq<char>>,
    d: Seq<char>,
)
    requires
        dis.contains(d),
        !pair_has_manifest(pairs, d),
    ensures
        exists|j: int|
            0 <= j < add_unmatched(pairs, dis).len() && #[trigger] add_unmatched(pairs, dis)[j]
                == (None::<Seq<char>>, Some(d)),
    decreases dis,
{
    let p2 = if pair_has_manifest(pairs, dis[0]) {
        pairs
    } else {
        pairs.push((None, Some(dis[0])))
    };
    if dis[0] == d {
        assert(!pair_has_manifest(pairs, dis[0]));
        assert(p2[pairs.len() as int] == (None::<Seq<char>>, Some(d)));
        assert(p2[pairs.len() as int].1 == Some(d));
        lemma_add_unmatched_prefix(p2, dis.drop_first());
        assert(add_unmatched(p2, dis.drop_first())[pairs.len() as int] == (
            None::<Seq<char>>,
            Some(d),
        ));
        assert(add_unmatched(pairs, dis) == add_unmatched(p2, dis.drop_first()));
        assert(pairs.len() < add_unmatched(pairs, dis).len());
        assert(add_unmatched(pairs, dis)[pairs.len() as int] == (None::<Seq<char>>, Some(d)));
    } else {
        let i0 = choose|i: int| 0 <= i < dis.len() && dis[i] == d;
        assert(dis.drop_first()[i0 - 1] == d);
        assert(dis.drop_first().contains(d));
        assert(!pair_has_manifest(p2, d)) by {
            if pair_has_manifest(p2, d) {
                let i = choose|i: int| 0 <= i < p2.len() && #[trigger] p2[i].1 == Some(d);
                assert(i < pairs.len() || p2[i] == (None::<Seq<char>>, Some(dis[0])));
            }
        }
        lemma_add_unmatched_appends(p2, dis.drop_first(), d);
        let j = choose|j: int|
            0 <= j < add_unmatched(p2, dis.drop_first()).len() && #[trigger] add_unmatched(
                p2,
                dis.drop_first(),
            )[j] == (None::<Seq<char>>, Some(d));
        assert(add_unmatched(pairs, dis)[j] == (None::<Seq<char>>, Some(d)));
    }
}

/// Law: pairing degrades gracefully. Every installed-package directory keeps
/// its own row, paired with its first matching manifest or with none; and a
/// manifest that no row carries is appended, paired with no package.
pub proof fn lemma_pairing_robustness(dis: Seq<Seq<char>>, pkgs: Seq<Seq<char>>)
    ensures
        package_pairs_spec(dis, pkgs).len() >= pkgs.len(),
        forall|k: int|
            0 <= k < pkgs.len() ==> #[trigger] package_pairs_spec(dis, pkgs)[k] == (
                Some(pkgs[k]),
                first_match(dis, pkgs[k]),
            ),
        forall|k: int|
            0 <= k < dis.len() && !pair_has_manifest(base_pairs(dis, pkgs), #[trigger] dis[k])
                ==> exists|j: int|
                0 <= j < package_pairs_spec(dis, pkgs).len() && #[trigger] package_pairs_spec(
                    dis,
                    pkgs,
                )[j] == (None::<Seq<char>>, Some(dis[k])),
{
    let base = base_pairs(dis, pkgs);
    lemma_add_unmatched_prefix(base, dis);
    assert forall|k: int|
        0 <= k < dis.len() && !pair_has_manifest(base, #[trigger] dis[k]) implies exists|j: int|
        0 <= j < package_pairs_spec(dis, pkgs).len() && #[trigger] package_pairs_spec(dis, pkgs)[j]
            == (None::<Seq<char>>, Some(dis[k])) by {
        assert(dis.contains(dis[k]));
        lemma_add_unmatched_appends(base, dis, dis[k]);
        let j = choose|j: int|
            0 <= j < add_unmatched(base, dis).len() && #[trigger] add_unmatched(base, dis)[j] == (
                None::<Seq<char>>,
                Some(dis[k]),
            );
        assert(package_pairs_spec(dis, pkgs)[j] == (None::<Seq<char>>, Some(dis[k])));
    }
}

pub proof fn lemma_insert_sorted_len(x: Seq<char>, s: Seq<Seq<char>>)
    ensures
        insert_sorted(x, s).len() == s.len() + 1,
    decreases s,
{
    if s.len() > 0 && !lex_le(x, s[0]) {
        lemma_insert_sorted_len(x, s.drop_first());
    }
}

pub proof fn lemma_sort_lex_len(s: Seq<Seq<char>>)
    ensures
        sort_lex(s).len() == s.len(),
    decreases s,
{
    if s.len() > 0 {
        lemma_sort_lex_len(s.drop_last());
        lemma_insert_sorted_len(s.last(), sort_lex(s.drop_last()));
    }
}

pub proof fn lemma_insert_sorted_contains(x: Seq<char>, s: Seq<Seq<char>>)
    ensures
        forall|y: Seq<char>|
            #[trigger] insert_sorted(x, s).contains(y) <==> (y == x || s.contains(y)),
    decreases s,
{
    if s.len() == 0 {
        assert forall|y: Seq<char>|
            #[trigger] insert_sorted(x, s).contains(y) <==> (y == x || s.contains(y)) by {
            assert(insert_sorted(x, s) =~= seq![x]);
            if y == x {
                assert(insert_sorted(x, s)[0] == y);
            }
        }
    } else if lex_le(x, s[0]) {
        assert forall|y: Seq<char>|
            #[trigger] insert_sorted(x, s).contains(y) <==> (y == x || s.contains(y)) by {
            let t = seq![x] + s;
            if t.contains(y) {
                let i = choose|i: int| 0 <= i < t.len() && t[i] == y;
                if i == 0 {
                } else {
                    assert(s[i - 1] == y);
                }
            }
            if y == x {
                assert(t[0] == y);
            }
            if s.contains(y) {
                let i = choose|i: int| 0 <= i < s.len() && s[i] == y;
                assert(t[i + 1] == y);
            }
        }
    } else {
        lemma_insert_sorted_contains(x, s.drop_first());
        assert forall|y: Seq<char>|
            #[trigger] insert_sorted(x, s).contains(y) <==> (y == x || s.contains(y)) by {
            let t = seq![s[0]] + insert_sorted(x, s.drop_first());
            if t.contains(y) {
                let i = choose|i: int| 0 <= i < t.len() && t[i] == y;
                if i == 0 {
                    assert(s[0] == y);
                } else {
                    assert(insert_sorted(x, s.drop_first()).contains(y)) by {
                        assert(insert_sorted(x, s.drop_first())[i - 1] == y);
                    }
                    if y != x {
                        let j = choose|j: int|
                            0 <= j < s.drop_first().len() && s.drop_first()[j] == y;
                        assert(s[j + 1] == y);
                    }
                }
            }
            if y == x {
                assert(insert_sorted(x, s.drop_first()).contains(y));
                let i = choose|i: int|
                    0 <= i < insert_sorted(x, s.drop_first()).len() && insert_sorted(
                        x,
                        s.drop_first(),
                    )[i] == y;
                assert(t[i + 1] == y);
            }
            if s.contains(y) {
                let i = choose|i: int| 0 <= i < s.len() && s[i] == y;
                if i == 0 {
                    assert(t[0] == y);
                } else {
                    assert(s.drop_first()[i - 1] == y);
                    assert(s.drop_first().contains(y));
                    assert(insert_sorted(x, s.drop_first()).contains(y));
                    let j = choose|j: int|
                        0 <= j < insert_sorted(x, s.drop_first()).len() && insert_sorted(
                            x,
                            s.drop_first(),
                        )[j] == y;
                    assert(t[j + 1] == y);
                }
            }
        }
    }
}

pub proof fn lemma_sort_lex_contains(s: Seq<Seq<char>>)
    ensures
        forall|y: Seq<char>| #[trigger] sort_lex(s).contains(y) <==> s.contains(y),
    decreases s,
{
    if s.len() > 0 {
        lemma_sort_lex_contains(s.drop_last());
        lemma_insert_sorted_contains(s.last(), sort_lex(s.drop_last()));
        assert forall|y: Seq<char>| #[trigger] sort_lex(s).contains(y) <==> s.contains(y) by {
            if sort_lex(s).contains(y) {
                if y == s.last() {
                    assert(s[s.len() - 1] == y);
                } else {
                    assert(s.drop_last().contains(y));
                    let i = choose|i: int| 0 <= i < s.drop_last().len() && s.drop_last()[i] == y;
                    assert(s[i] == y);
                }
            }
            if s.contains(y) {
                let i = choose|i: int| 0 <= i < s.len() && s[i] == y;
                if i == s.len() - 1 {
                } else {
                    assert(s.drop_last()[i] == y);
                    assert(s.drop_last().contains(y));
                }
            }
        }
    }
}

pub proof fn lemma_manifest_names_are_manifest(es: Seq<FsNode>)
    ensures
        forall|i: int|
            0 <= i < manifest_names(es).len() ==> is_manifest_name(
                #[trigger] manifest_names(es)[i],
            ),
    decreases es,
{
    if es.len() > 0 {
        lemma_manifest_names_are_manifest(es.drop_last());
        let rest = manifest_names(es.drop_last());
        assert forall|i: int|
            0 <= i < manifest_names(es).len() implies is_manifest_name(
            #[trigger] manifest_names(es)[i],
        ) by {
            if i < rest.len() {
                assert(manifest_names(es)[i] == rest[i]);
            }
        }
    }
}

pub proof fn lemma_package_names_not_manifest(es: Seq<FsNode>)
    ensures
        forall|i: int|
            0 <= i < package_names(es).len() ==> !is_manifest_name(
                #[trigger] package_names(es)[i],
            ),
    decreases es,
{
    if es.len() > 0 {
        lemma_package_names_not_manifest(es.drop_last());
        let rest = package_names(es.drop_last());
        assert forall|i: int|
            0 <= i < package_names(es).len() implies !is_manifest_name(
            #[trigger] package_names(es)[i],
        ) by {
            if i < rest.len() {
                assert(package_names(es)[i] == rest[i]);
            }
        }
    }
}

pub proof fn lemma_first_match_mem(dis: Seq<Seq<char>>, pkg: Seq<char>)
    ensures
        match first_match(dis, pkg) {
            Some(d) => dis.contains(d),
            None => true,
        },
    decreases dis,
{
    if dis.len() > 0 {
        if manifest_stem_matches(dis[0], pkg) {
            assert(dis[0] == dis[0]);
        } else {
            lemma_first_match_mem(dis.drop_first(), pkg);
            match first_match(dis, pkg) {
                Some(d) => {
                    let i = choose|i: int|
                        0 <= i < dis.drop_first().len() && dis.drop_first()[i] == d;
                    assert(dis[i + 1] == d);
                },
                None => {},
            }
        }
    }
}

proof fn lemma_add_unmatched_shape(
    pairs: Seq<(Option<Seq<char>>, Option<Seq<char>>)>,
    dis: Seq<Seq<char>>,
)
    requires
        forall|i: int| 0 <= i < dis.len() ==> is_manifest_name(#[trigger] dis[i]),
        forall|k: int|
            0 <= k < pairs.len() ==> (match #[trigger] pairs[k].1 {
                Some(d) => is_manifest_name(d),
                None => true,
            } && match pairs[k].0 {
                Some(p) => !is_manifest_name(p),
                None => true,
            }),
    ensures
        forall|k: int|
            0 <= k < add_unmatched(pairs, dis).len() ==> (match #[trigger] add_unmatched(
                pairs,
                dis,
            )[k].1 {
                Some(d) => is_manifest_name(d),
                None => true,
            } && match add_unmatched(pairs, dis)[k].0 {
                Some(p) => !is_manifest_name(p),
                None => true,
            }),
    decreases dis,
{
    if dis.len() > 0 {
        let p2 = if pair_has_manifest(pairs, dis[0]) {
            pairs
        } else {
            pairs.push((None, Some(dis[0])))
        };
        assert(forall|i: int|
            0 <= i < dis.drop_first().len() ==> is_manifest_name(
                #[trigger] dis.drop_first()[i],
            ));
        lemma_add_unmatched_shape(p2, dis.drop_first());
    }
}

/// Every pair carries an installed-package name on the left and a manifest
/// name on the right, where present.
pub proof fn lemma_pairs_shape(dis: Seq<Seq<char>>, pkgs: Seq<Seq<char>>)
    requires
        forall|i: int| 0 <= i < dis.len() ==> is_manifest_name(#[trigger] dis[i]),
        forall|i: int| 0 <= i < pkgs.len() ==> !is_manifest_name(#[trigger] pkgs[i]),
    ensures
        forall|k: int|
            0 <= k < package_pairs_spec(dis, pkgs).len() ==> (match #[trigger] package_pairs_spec(
                dis,
                pkgs,
            )[k].1 {
                Some(d) => is_manifest_name(d),
                None => true,
            } && match package_pairs_spec(dis, pkgs)[k].0 {
                Some(p) => !is_manifest_name(p),
                None => true,
            }),
{
    let base = base_pairs(dis, pkgs);
    assert forall|k: int|
        0 <= k < base.len() implies (match #[trigger] base[k].1 {
        Some(d) => is_manifest_name(d),
        None => true,
    } && match base[k].0 {
        Some(p) => !is_manifest_name(p),
        None => true,
    }) by {
        assert(base[k] == (Some(pkgs[k]), first_match(dis, pkgs[k])));
        lemma_first_match_mem(dis, pkgs[k]);
        match first_match(dis, pkgs[k]) {
            Some(d) => {
                let i = choose|i: int| 0 <= i < dis.len() && dis[i] == d;
                assert(is_manifest_name(dis[i]));
            },
            None => {},
        }
    }
    lemma_add_unmatched_shape(base, dis);
}

pub proof fn lemma_manifest_names_complete(es: Seq<FsNode>, i: int)
    requires
        0 <= i < es.len(),
        is_manifest_name(node_name(es[i])),
    ensures
        manifest_names(es).contains(node_name(es[i])),
    decreases es,
{
    if i == es.len() - 1 {
        let m = manifest_names(es);
        assert(m[m.len() - 1] == node_name(es[i]));
    } else {
        assert(es.drop_last()[i] == es[i]);
        lemma_manifest_names_complete(es.drop_last(), i);
        let rest = manifest_names(es.drop_last());
        let j = choose|j: int| 0 <= j < rest.len() && rest[j] == node_name(es[i]);
        assert(manifest_names(es)[j] == node_name(es[i]));
    }
}

/// Every manifest name appears as some pair's manifest in the full pairing.
pub proof fn lemma_every_manifest_paired(dis: Seq<Seq<char>>, pkgs: Seq<Seq<char>>, d: Seq<char>)
    requires
        dis.contains(d),
    ensures
        pair_has_manifest(package_pairs_spec(dis, pkgs), d),
{
    let base = base_pairs(dis, pkgs);
    if pair_has_manifest(base, d) {
        lemma_add_unmatched_keeps_manifest(base, dis, d);
    } else {
        lemma_add_unmatched_appends(base, dis, d);
        let j = choose|j: int|
            0 <= j < add_unmatched(base, dis).len() && #[trigger] add_unmatched(base, dis)[j] == (
                None::<Seq<char>>,
                Some(d),
            );
        assert(package_pairs_spec(dis, pkgs)[j].1 == Some(d));
    }
}

/// Each element at most the next: the order both listings are kept in.
pub open spec fn sorted_lex(s: Seq<Seq<char>>) -> bool {
    forall|i: int, j: int| 0 <= i <= j < s.len() ==> lex_le(#[trigger] s[i], #[trigger] s[j])
}

/// How often `y` occurs in `s`.
pub open spec fn occurrences(s: Seq<Seq<char>>, y: Seq<char>) -> nat
    decreases s,
{
    if s.len() == 0 {
        0
    } else {
        (if s[0] == y {
            1nat
        } else {
            0nat
        }) + occurrences(s.drop_first(), y)
    }
}

proof fn lemma_occurrences_push(s: Seq<Seq<char>>, a: Seq<char>, y: Seq<char>)
    ensures
        occurrences(s.push(a), y) == occurrences(s, y) + (if a == y {
            1nat
        } else {
            0nat
        }),
    decreases s,
{
    if s.len() == 0 {
        assert(s.push(a)[0] == a);
        assert(s.push(a).drop_first() =~= Seq::<Seq<char>>::empty());
        assert(occurrences(Seq::<Seq<char>>::empty(), y) == 0);
    } else {
        assert(s.push(a)[0] == s[0]);
        assert(s.push(a).drop_first() =~= s.drop_first().push(a));
        lemma_occurrences_push(s.drop_first(), a, y);
    }
}

proof fn lemma_insert_sorted_occurrences(x: Seq<char>, s: Seq<Seq<char>>, y: Seq<char>)
    ensures
        occurrences(insert_sorted(x, s), y) == occurrences(s, y) + (if x == y {
            1nat
        } else {
            0nat
        }),
    decreases s,
{
    if s.len() == 0 {
        assert(insert_sorted(x, s)[0] == x);
        assert(insert_sorted(x, s).drop_first() =~= Seq::<Seq<char>>::empty());
        assert(occurrences(Seq::<Seq<char>>::empty(), y) == 0);
        assert(occurrences(s, y) == 0);
    } else if lex_le(x, s[0]) {
        assert((seq![x] + s)[0] == x);
        assert((seq![x] + s).drop_first() =~= s);
    } else {
        assert((seq![s[0]] + insert_sorted(x, s.drop_first()))[0] == s[0]);
        assert((seq![s[0]] + insert_sorted(x, s.drop_first())).drop_first() =~= insert_sorted(
            x,
            s.drop_first(),
        ));
        lemma_insert_sorted_occurrences(x, s.drop_first(), y);
    }
}

proof fn lemma_insert_sorted_sorted(x: Seq<char>, s: Seq<Seq<char>>)
    requires
        sorted_lex(s),
    ensures
        sorted_lex(insert_sorted(x, s)),
    decreases s,
{
    let r = insert_sorted(x, s);
    if s.len() == 0 {
        assert forall|i: int, j: int| 0 <= i <= j < r.len() implies lex_le(
            #[trigger] r[i],
            #[trigger] r[j],
        ) by {
            crate::strutil::lemma_lex_le_total(r[i], r[i]);
        }
    } else if lex_le(x, s[0]) {
        assert forall|i: int, j: int| 0 <= i <= j < r.len() implies lex_le(
            #[trigger] r[i],
            #[trigger] r[j],
        ) by {
            if i == 0 && j == 0 {
                crate::strutil::lemma_lex_le_total(x, x);
            } else if i == 0 {
                assert(r[j] == s[j - 1]);
                assert(lex_le(s[0], s[j - 1]));
                crate::strutil::lemma_lex_le_trans(x, s[0], s[j - 1]);
            } else {
                assert(r[i] == s[i - 1] && r[j] == s[j - 1]);
            }
        }
    } else {
        assert(forall|i: int, j: int|
            0 <= i <= j < s.drop_first().len() ==> lex_le(
                #[trigger] s.drop_first()[i],
                #[trigger] s.drop_first()[j],
            ));
        lemma_insert_sorted_sorted(x, s.drop_first());
        lemma_insert_sorted_contains(x, s.drop_first());
        let t = insert_sorted(x, s.drop_first());
        crate::strutil::lemma_lex_le_total(x, s[0]);
        assert forall|i: int, j: int| 0 <= i <= j < r.len() implies lex_le(
            #[trigger] r[i],
            #[trigger] r[j],
        ) by {
            if i == 0 && j == 0 {
                crate::strutil::lemma_lex_le_total(s[0], s[0]);
            } else if i == 0 {
                assert(r[j] == t[j - 1]);
                assert(t.contains(t[j - 1]));
                if t[j - 1] == x {
                    assert(lex_le(s[0], x));
                } else {
                    let k = choose|k: int|
                        0 <= k < s.drop_first().len() && s.drop_first()[k] == t[j - 1];
                    assert(lex_le(s[0], s[k + 1]));
                }
            } else {
                assert(r[i] == t[i - 1] && r[j] == t[j - 1]);
            }
        }
    }
}

/// Law: the sorted listing is exactly a reordering of its input — it is
/// ordered, and every name occurs as often as it did before.
pub proof fn lemma_sort_lex_is_sorted_permutation(s: Seq<Seq<char>>)
    ensures
        sorted_lex(sort_lex(s)),
        forall|y: Seq<char>| occurrences(#[trigger] sort_lex(s), y) == occurrences(s, y),
    decreases s,
{
    if s.len() == 0 {
    } else {
        lemma_sort_lex_is_sorted_permutation(s.drop_last());
        lemma_insert_sorted_sorted(s.last(), sort_lex(s.drop_last()));
        assert forall|y: Seq<char>| occurrences(#[trigger] sort_lex(s), y) == occurrences(
            s,
            y,
        ) by {
            lemma_insert_sorted_occurrences(s.last(), sort_lex(s.drop_last()), y);
            assert(s.drop_last().push(s.last()) =~= s);
            lemma_occurrences_push(s.drop_last(), s.last(), y);
        }
    }
}

} // verus!
