//! Model of the container directory: the directory that holds every run
//! directory of the application, one per past or present invocation.
//!
//! Retention lives here: cleanup classifies each run directory through the
//! lock protocol, writes the aborted-unexpectedly report into abandoned
//! ones, and deletes the oldest deletion candidates until at most a fixed
//! number remain.  Directories holding crash dumps are evidence and are
//! never deletion candidates; neither are directories of live processes.

use crate::run_dir::{lemma_cleanup_marked_props, DirModel, RunDirectory};
use crate::text::{lemma_lex_lt_connected, lemma_lex_lt_irreflexive, lemma_lex_lt_transitive,
    lex_lt, str_eq, str_lt};
use vstd::prelude::*;

verus! {

/// Mathematical model of the container directory.
#[verifier::ext_equal]
pub ghost struct ContainerModel {
    /// Path segments of the container directory, without the platform
    /// root; the archive builder roots entry paths under the last two.
    pub path: Seq<Seq<char>>,
    /// The run directories it holds, in scan order.
    pub dirs: Seq<DirModel>,
}

impl ContainerModel {
    /// Well-formed: the path is non-empty, every directory is well formed,
    /// and directory names are distinct (they are siblings on disk).
    pub open spec fn wf(self) -> bool {
        &&& self.path.len() > 0
        &&& forall|i: int| 0 <= i < self.dirs.len() ==> (#[trigger] self.dirs[i]).wf()
        &&& distinct_names(self.dirs)
    }

    /// Whether any retained run directory holds crash evidence.
    pub open spec fn any_panic(self) -> bool {
        exists|i: int| 0 <= i < self.dirs.len() && (#[trigger] self.dirs[i]).has_panic()
    }

    /// The directories after cleanup's classification pass: every
    /// abandoned one carries the aborted-unexpectedly report.
    pub open spec fn marked_dirs(self) -> Seq<DirModel> {
        self.dirs.map_values(|d: DirModel| d.cleanup_marked())
    }
}

/// Pairwise distinct directory names.
pub open spec fn distinct_names(dirs: Seq<DirModel>) -> bool {
    forall|i: int, j: int| 0 <= i < j < dirs.len() ==> dirs[i].name != dirs[j].name
}

/// The views of a vector of name strings.
pub open spec fn name_views(v: Seq<String>) -> Seq<Seq<char>> {
    v.map_values(|s: String| s@)
}

/// The directories whose names do not occur in `names`, in order.
pub open spec fn kept_dirs(dirs: Seq<DirModel>, names: Seq<Seq<char>>) -> Seq<DirModel>
    decreases dirs.len(),
{
    if dirs.len() == 0 {
        Seq::empty()
    } else {
        let prefix = kept_dirs(dirs.drop_last(), names);
        if names.contains(dirs.last().name) {
            prefix
        } else {
            prefix.push(dirs.last())
        }
    }
}

/// The names of the deletion candidates among `dirs`, in scan order.
pub open spec fn candidate_names(dirs: Seq<DirModel>) -> Seq<Seq<char>>
    decreases dirs.len(),
{
    if dirs.len() == 0 {
        Seq::empty()
    } else {
        let prefix = candidate_names(dirs.drop_last());
        if dirs.last().is_cleanup_candidate() {
            prefix.push(dirs.last().name)
        } else {
            prefix
        }
    }
}

/// The names of the purgeable directories among `dirs` (crashed, and not
/// owned by a live process), in scan order.
pub open spec fn purgeable_names(dirs: Seq<DirModel>) -> Seq<Seq<char>>
    decreases dirs.len(),
{
    if dirs.len() == 0 {
        Seq::empty()
    } else {
        let prefix = purgeable_names(dirs.drop_last());
        if dirs.last().is_purgeable() {
            prefix.push(dirs.last().name)
        } else {
            prefix
        }
    }
}

/// Whether `x` is the name of some purgeable directory among `dirs`.
pub open spec fn is_purgeable_name(dirs: Seq<DirModel>, x: Seq<char>) -> bool {
    exists|j: int| 0 <= j < dirs.len() && (#[trigger] dirs[j]).is_purgeable() && dirs[j].name == x
}

/// Every purgeable name belongs to some purgeable directory.
pub proof fn lemma_purgeable_names_member(dirs: Seq<DirModel>)
    ensures
        forall|k: int|
            0 <= k < purgeable_names(dirs).len() ==> is_purgeable_name(
                dirs,
                #[trigger] purgeable_names(dirs)[k],
            ),
    decreases dirs.len(),
{
    if dirs.len() > 0 {
        let s = dirs.drop_last();
        let z = dirs.last();
        lemma_purgeable_names_member(s);
        let pn = purgeable_names(s);
        let all = purgeable_names(dirs);
        assert(forall|j: int| 0 <= j < s.len() ==> s[j] == dirs[j]);
        assert forall|k: int| 0 <= k < all.len() implies is_purgeable_name(
            dirs,
            #[trigger] all[k],
        ) by {
            if z.is_purgeable() && k == all.len() - 1 {
                assert(dirs[dirs.len() - 1].is_purgeable() && dirs[dirs.len() - 1].name == all[k]);
            } else {
                assert(is_purgeable_name(s, pn[k]));
                let j = choose|j: int|
                    0 <= j < s.len() && (#[trigger] s[j]).is_purgeable() && s[j].name == pn[k];
                assert(dirs[j].is_purgeable() && dirs[j].name == all[k]);
            }
        }
    }
}

/// The elements of `xs` that do not occur in `names`, in order.
pub open spec fn keep_names(xs: Seq<Seq<char>>, names: Seq<Seq<char>>) -> Seq<Seq<char>>
    decreases xs.len(),
{
    if xs.len() == 0 {
        Seq::empty()
    } else {
        let prefix = keep_names(xs.drop_last(), names);
        if names.contains(xs.last()) {
            prefix
        } else {
            prefix.push(xs.last())
        }
    }
}

/// How many elements of `xs` occur in `names`.
pub open spec fn count_in(xs: Seq<Seq<char>>, names: Seq<Seq<char>>) -> nat
    decreases xs.len(),
{
    if xs.len() == 0 {
        0
    } else {
        count_in(xs.drop_last(), names) + if names.contains(xs.last()) {
            1nat
        } else {
            0nat
        }
    }
}

/// What survives `kept_dirs`: every survivor comes from `dirs`, keeps its
/// relative position, is not named in `names`, and every directory not
/// named in `names` survives.
pub proof fn lemma_kept_dirs_props(dirs: Seq<DirModel>, names: Seq<Seq<char>>)
    requires
        distinct_names(dirs),
    ensures
        ({
            let kept = kept_dirs(dirs, names);
            &&& forall|k: int| 0 <= k < kept.len() ==> dirs.contains(#[trigger] kept[k])
            &&& distinct_names(kept)
            &&& forall|k: int| 0 <= k < kept.len() ==> !names.contains((#[trigger] kept[k]).name)
            &&& forall|j: int|
                0 <= j < dirs.len() && !names.contains((#[trigger] dirs[j]).name)
                    ==> kept.contains(dirs[j])
        }),
    decreases dirs.len(),
{
    if dirs.len() > 0 {
        let s = dirs.drop_last();
        let z = dirs.last();
        assert(distinct_names(s));
        lemma_kept_dirs_props(s, names);
        let prefix = kept_dirs(s, names);
        let kept = kept_dirs(dirs, names);
        assert(forall|x: DirModel| s.contains(x) ==> dirs.contains(x));
        if !names.contains(z.name) {
            assert(kept == prefix.push(z));
            assert(dirs[dirs.len() - 1] == z);
            assert(dirs.contains(z));
            assert forall|k: int, l: int| 0 <= k < l < kept.len() implies kept[k].name
                != kept[l].name by {
                if l == kept.len() - 1 {
                    assert(s.contains(kept[k]));
                    let t = choose|t: int| 0 <= t < s.len() && s[t] == kept[k];
                    assert(dirs[t] == kept[k]);
                    assert(dirs[t].name != dirs[dirs.len() - 1].name);
                }
            }
            assert forall|j: int|
                0 <= j < dirs.len() && !names.contains(
                    (#[trigger] dirs[j]).name,
                ) implies kept.contains(dirs[j]) by {
                if j == dirs.len() - 1 {
                    assert(kept[kept.len() - 1] == dirs[j]);
                } else {
                    assert(s[j] == dirs[j]);
                    assert(prefix.contains(dirs[j]));
                    let t = choose|t: int| 0 <= t < prefix.len() && prefix[t] == dirs[j];
                    assert(kept[t] == dirs[j]);
                }
            }
        } else {
            assert forall|j: int|
                0 <= j < dirs.len() && !names.contains(
                    (#[trigger] dirs[j]).name,
                ) implies kept.contains(dirs[j]) by {
                assert(j != dirs.len() - 1);
                assert(s[j] == dirs[j]);
                assert(prefix.contains(dirs[j]));
            }
        }
    }
}

/// With no names to drop, `kept_dirs` keeps everything.
pub proof fn lemma_kept_dirs_empty(dirs: Seq<DirModel>)
    ensures
        kept_dirs(dirs, Seq::empty()) == dirs,
    decreases dirs.len(),
{
    if dirs.len() > 0 {
        lemma_kept_dirs_empty(dirs.drop_last());
        assert(!Seq::<Seq<char>>::empty().contains(dirs.last().name));
        assert(kept_dirs(dirs, Seq::empty()) =~= dirs);
    }
}

/// Whether `x` is the name of some deletion candidate among `dirs`.
pub open spec fn is_candidate_name(dirs: Seq<DirModel>, x: Seq<char>) -> bool {
    exists|j: int|
        0 <= j < dirs.len() && (#[trigger] dirs[j]).is_cleanup_candidate() && dirs[j].name == x
}

/// The candidate names of directories with distinct names: they are
/// themselves distinct, each belongs to a candidate, and each candidate
/// contributes its name.
pub proof fn lemma_candidate_names_props(dirs: Seq<DirModel>)
    requires
        distinct_names(dirs),
    ensures
        ({
            let cn = candidate_names(dirs);
            &&& cn.no_duplicates()
            &&& forall|j: int|
                0 <= j < dirs.len() && (#[trigger] dirs[j]).is_cleanup_candidate()
                    ==> cn.contains(dirs[j].name)
            &&& forall|k: int| 0 <= k < cn.len() ==> is_candidate_name(dirs, #[trigger] cn[k])
        }),
    decreases dirs.len(),
{
    if dirs.len() > 0 {
        let s = dirs.drop_last();
        let z = dirs.last();
        assert(distinct_names(s));
        lemma_candidate_names_props(s);
        let pn = candidate_names(s);
        let cn = candidate_names(dirs);
        assert(forall|j: int| 0 <= j < s.len() ==> s[j] == dirs[j]);
        if z.is_cleanup_candidate() {
            assert(cn == pn.push(z.name));
            assert(dirs[dirs.len() - 1] == z);
            assert forall|k: int, l: int| 0 <= k < l < cn.len() implies cn[k] != cn[l] by {
                if l == cn.len() - 1 {
                    let j = choose|j: int|
                        0 <= j < s.len() && (#[trigger] s[j]).is_cleanup_candidate() && s[j].name
                            == pn[k];
                    assert(dirs[j].name != dirs[dirs.len() - 1].name);
                }
            }
            assert(cn.no_duplicates()) by {
                assert forall|k: int, l: int|
                    0 <= k < cn.len() && 0 <= l < cn.len() && k != l implies cn[k] != cn[l] by {
                    if k < l {
                        assert(cn[k] != cn[l]);
                    } else {
                        assert(cn[l] != cn[k]);
                    }
                }
            }
            assert forall|k: int| 0 <= k < cn.len() implies is_candidate_name(
                dirs,
                #[trigger] cn[k],
            ) by {
                if k == cn.len() - 1 {
                    assert(dirs[dirs.len() - 1].is_cleanup_candidate() && dirs[dirs.len() - 1].name
                        == cn[k]);
                } else {
                    assert(is_candidate_name(s, pn[k]));
                    let j = choose|j: int|
                        0 <= j < s.len() && (#[trigger] s[j]).is_cleanup_candidate() && s[j].name
                            == pn[k];
                    assert(dirs[j].is_cleanup_candidate() && dirs[j].name == cn[k]);
                }
            }
            assert forall|j: int|
                0 <= j < dirs.len() && (#[trigger] dirs[j]).is_cleanup_candidate() implies cn
                .contains(dirs[j].name) by {
                if j == dirs.len() - 1 {
                    assert(cn[cn.len() - 1] == dirs[j].name);
                } else {
                    assert(s[j] == dirs[j]);
                    assert(pn.contains(dirs[j].name));
                    let t = choose|t: int| 0 <= t < pn.len() && pn[t] == dirs[j].name;
                    assert(cn[t] == dirs[j].name);
                }
            }
        } else {
            assert(cn == pn);
            assert forall|k: int| 0 <= k < cn.len() implies is_candidate_name(
                dirs,
                #[trigger] cn[k],
            ) by {
                assert(is_candidate_name(s, pn[k]));
                let j = choose|j: int|
                    0 <= j < s.len() && (#[trigger] s[j]).is_cleanup_candidate() && s[j].name
                        == pn[k];
                assert(dirs[j].is_cleanup_candidate() && dirs[j].name == cn[k]);
            }
            assert forall|j: int|
                0 <= j < dirs.len() && (#[trigger] dirs[j]).is_cleanup_candidate() implies cn
                .contains(dirs[j].name) by {
                assert(j != dirs.len() - 1);
                assert(s[j] == dirs[j]);
                assert(pn.contains(dirs[j].name));
            }
        }
    }
}

/// The candidates that survive dropping the directories named in `rn` are
/// the candidates whose names survive dropping `rn`.
pub proof fn lemma_candidate_names_kept(dirs: Seq<DirModel>, rn: Seq<Seq<char>>)
    ensures
        candidate_names(kept_dirs(dirs, rn)) == keep_names(candidate_names(dirs), rn),
    decreases dirs.len(),
{
    if dirs.len() > 0 {
        let s = dirs.drop_last();
        let z = dirs.last();
        lemma_candidate_names_kept(s, rn);
        if rn.contains(z.name) {
            assert(kept_dirs(dirs, rn) == kept_dirs(s, rn));
            if z.is_cleanup_candidate() {
                assert(candidate_names(dirs) == candidate_names(s).push(z.name));
                assert(candidate_names(dirs).drop_last() =~= candidate_names(s));
                assert(keep_names(candidate_names(dirs), rn) == keep_names(
                    candidate_names(s),
                    rn,
                ));
            } else {
                assert(candidate_names(dirs) == candidate_names(s));
            }
        } else {
            assert(kept_dirs(dirs, rn) == kept_dirs(s, rn).push(z));
            assert(kept_dirs(dirs, rn).drop_last() =~= kept_dirs(s, rn));
            assert(kept_dirs(dirs, rn).last() == z);
            if z.is_cleanup_candidate() {
                assert(candidate_names(kept_dirs(dirs, rn)) == candidate_names(
                    kept_dirs(s, rn),
                ).push(z.name));
                assert(candidate_names(dirs) == candidate_names(s).push(z.name));
                assert(candidate_names(dirs).drop_last() =~= candidate_names(s));
                assert(keep_names(candidate_names(dirs), rn) == keep_names(
                    candidate_names(s),
                    rn,
                ).push(z.name));
            } else {
                assert(candidate_names(kept_dirs(dirs, rn)) == candidate_names(kept_dirs(s, rn)));
                assert(candidate_names(dirs) == candidate_names(s));
            }
        }
    }
}

/// Kept and counted elements partition a sequence's length.
pub proof fn lemma_keep_names_len(xs: Seq<Seq<char>>, names: Seq<Seq<char>>)
    ensures
        keep_names(xs, names).len() + count_in(xs, names) == xs.len(),
    decreases xs.len(),
{
    if xs.len() > 0 {
        lemma_keep_names_len(xs.drop_last(), names);
    }
}

/// Two name lists that the elements of `xs` cannot tell apart give the
/// same count.
proof fn lemma_count_in_same_membership(xs: Seq<Seq<char>>, a: Seq<Seq<char>>, b: Seq<Seq<char>>)
    requires
        forall|k: int| 0 <= k < xs.len() ==> (a.contains(#[trigger] xs[k]) <==> b.contains(xs[k])),
    ensures
        count_in(xs, a) == count_in(xs, b),
    decreases xs.len(),
{
    if xs.len() > 0 {
        assert(xs.contains(xs.last()));
        assert(forall|k: int| 0 <= k < xs.drop_last().len() ==> xs.drop_last()[k] == xs[k]);
        lemma_count_in_same_membership(xs.drop_last(), a, b);
    }
}

/// When `names` are distinct and all occur among the distinct `xs`, the
/// count of hits is exactly the number of names.
pub proof fn lemma_count_in_exact(xs: Seq<Seq<char>>, names: Seq<Seq<char>>)
    requires
        xs.no_duplicates(),
        names.no_duplicates(),
        forall|i: int| 0 <= i < names.len() ==> xs.contains(#[trigger] names[i]),
    ensures
        count_in(xs, names) == names.len(),
    decreases xs.len(),
{
    broadcast use vstd::seq_lib::group_seq_properties;

    if xs.len() == 0 {
        if names.len() > 0 {
            assert(xs.contains(names[0]));
            assert(false);
        }
    } else {
        let ys = xs.drop_last();
        let w = xs.last();
        assert(ys.no_duplicates());
        assert(!ys.contains(w)) by {
            if ys.contains(w) {
                let t = choose|t: int| 0 <= t < ys.len() && ys[t] == w;
                assert(xs[t] == xs[xs.len() - 1]);
            }
        }
        if !names.contains(w) {
            assert forall|i: int| 0 <= i < names.len() implies ys.contains(#[trigger] names[i]) by {
                assert(xs.contains(names[i]));
                let t = choose|t: int| 0 <= t < xs.len() && xs[t] == names[i];
                assert(t != xs.len() - 1);
                assert(ys[t] == names[i]);
            }
            lemma_count_in_exact(ys, names);
        } else {
            let k = choose|k: int| 0 <= k < names.len() && names[k] == w;
            let names2 = names.remove(k);
            assert(names2.no_duplicates());
            assert(!names2.contains(w)) by {
                if names2.contains(w) {
                    let t = choose|t: int| 0 <= t < names2.len() && names2[t] == w;
                    if t < k {
                        assert(names[t] == names[k]);
                    } else {
                        assert(names[t + 1] == names[k]);
                    }
                }
            }
            assert forall|i: int| 0 <= i < names2.len() implies ys.contains(
                #[trigger] names2[i],
            ) by {
                let orig: int = if i < k {
                    i
                } else {
                    i + 1
                };
                assert(names2[i] == names[orig]);
                assert(names2[i] != w);
                assert(xs.contains(names[orig]));
                let t = choose|t: int| 0 <= t < xs.len() && xs[t] == names[orig];
                assert(t != xs.len() - 1);
                assert(ys[t] == names[orig]);
            }
            lemma_count_in_exact(ys, names2);
            assert forall|t: int| 0 <= t < ys.len() implies (names.contains(#[trigger] ys[t])
                <==> names2.contains(ys[t])) by {
                assert(ys[t] != w);
                if names.contains(ys[t]) {
                    let u = choose|u: int| 0 <= u < names.len() && names[u] == ys[t];
                    assert(u != k);
                    if u < k {
                        assert(names2[u] == ys[t]);
                    } else {
                        assert(names2[u - 1] == ys[t]);
                    }
                }
                if names2.contains(ys[t]) {
                    let u = choose|u: int| 0 <= u < names2.len() && names2[u] == ys[t];
                    if u < k {
                        assert(names[u] == ys[t]);
                    } else {
                        assert(names[u + 1] == ys[t]);
                    }
                }
            }
            lemma_count_in_same_membership(ys, names, names2);
            assert(count_in(xs, names) == count_in(ys, names2) + 1);
        }
    }
}

/// When every directory is a deletion candidate, the candidate names
/// are all the names.
proof fn lemma_candidate_names_all(s: Seq<DirModel>)
    requires
        forall|i: int| 0 <= i < s.len() ==> (#[trigger] s[i]).is_cleanup_candidate(),
    ensures
        candidate_names(s).len() == s.len(),
    decreases s.len(),
{
    if s.len() > 0 {
        assert(forall|i: int|
            0 <= i < s.drop_last().len() ==> (#[trigger] s.drop_last()[i]).is_cleanup_candidate());
        lemma_candidate_names_all(s.drop_last());
        assert(s[s.len() - 1].is_cleanup_candidate());
    }
}

/// Cleanup's classification pass keeps the container well formed and
/// never changes a directory's name, lock state, crash flag, or
/// candidacy.
pub proof fn lemma_marked_dirs_props(m: ContainerModel)
    requires
        m.wf(),
    ensures
        ({
            let mm = m.marked_dirs();
            &&& mm.len() == m.dirs.len()
            &&& forall|j: int| 0 <= j < mm.len() ==> (#[trigger] mm[j]).wf()
            &&& forall|j: int| 0 <= j < mm.len() ==> (#[trigger] mm[j]).name == m.dirs[j].name
            &&& forall|j: int|
                0 <= j < mm.len() ==> (#[trigger] mm[j]).lock_state() == m.dirs[j].lock_state()
            &&& forall|j: int|
                0 <= j < mm.len() ==> (#[trigger] mm[j]).has_panic() == m.dirs[j].has_panic()
            &&& forall|j: int|
                0 <= j < mm.len() ==> (#[trigger] mm[j]).is_cleanup_candidate()
                    == m.dirs[j].is_cleanup_candidate()
            &&& distinct_names(mm)
        }),
{
    let mm = m.marked_dirs();
    assert forall|j: int| 0 <= j < mm.len() implies {
        &&& (#[trigger] mm[j]).wf()
        &&& mm[j].name == m.dirs[j].name
        &&& mm[j].lock_state() == m.dirs[j].lock_state()
        &&& mm[j].has_panic() == m.dirs[j].has_panic()
        &&& mm[j].is_cleanup_candidate() == m.dirs[j].is_cleanup_candidate()
    } by {
        assert(mm[j] == m.dirs[j].cleanup_marked());
        lemma_cleanup_marked_props(m.dirs[j]);
    }
}

/// One run-directory container on disk, as plain values.
pub struct Container {
    /// Path segments of the container directory, without the platform
    /// root; the archive builder roots entry paths under the last two.
    pub path: Vec<String>,
    /// The run directories it holds, in scan order.
    pub dirs: Vec<RunDirectory>,
}

impl View for Container {
    type V = ContainerModel;

    open spec fn view(&self) -> ContainerModel {
        ContainerModel {
            path: name_views(self.path@),
            dirs: self.dirs@.map_values(|d: RunDirectory| d@),
        }
    }
}

/// Whether `x` occurs among `names`.
pub fn name_in(names: &Vec<String>, x: &str) -> (r: bool)
    ensures
        r == name_views(names@).contains(x@),
{
    let ghost nv = name_views(names@);
    let mut i: usize = 0;
    while i < names.len()
        invariant
            nv == name_views(names@),
            i <= names@.len(),
            forall|j: int| 0 <= j < i ==> nv[j] != x@,
        decreases names@.len() - i,
    {
        if str_eq(names[i].as_str(), x) {
            proof {
                assert(nv[i as int] == x@);
            }
            return true;
        }
        i = i + 1;
    }
    false
}

/// Index of a minimal name: no element of `v` is lexicographically
/// smaller than `v[r]`.
fn find_min_name(v: &Vec<String>) -> (r: usize)
    requires
        v@.len() > 0,
    ensures
        r < v@.len(),
        forall|j: int| 0 <= j < v@.len() ==> !lex_lt((#[trigger] v@[j])@, v@[r as int]@),
{
    let mut best: usize = 0;
    let mut j: usize = 1;
    proof {
        lemma_lex_lt_irreflexive(v@[0]@);
    }
    while j < v.len()
        invariant
            best < j,
            j <= v@.len(),
            forall|k: int| 0 <= k < j ==> !lex_lt((#[trigger] v@[k])@, v@[best as int]@),
        decreases v@.len() - j,
    {
        if str_lt(v[j].as_str(), v[best].as_str()) {
            proof {
                assert forall|k: int| 0 <= k < j + 1 implies !lex_lt(
                    (#[trigger] v@[k])@,
                    v@[j as int]@,
                ) by {
                    if k < j && lex_lt(v@[k]@, v@[j as int]@) {
                        lemma_lex_lt_transitive(v@[k]@, v@[j as int]@, v@[best as int]@);
                    }
                    if k == j {
                        lemma_lex_lt_irreflexive(v@[j as int]@);
                    }
                }
            }
            best = j;
        } else {
            proof {
                assert(!lex_lt(v@[j as int]@, v@[best as int]@));
            }
        }
        j = j + 1;
    }
    best
}

impl Container {
    /// Whether any retained run directory holds crash evidence.
    pub fn any_panic(&self) -> (r: bool)
        ensures
            r == self@.any_panic(),
    {
        let mut i: usize = 0;
        while i < self.dirs.len()
            invariant
                i <= self.dirs@.len(),
                forall|j: int| 0 <= j < i ==> !(#[trigger] self@.dirs[j]).has_panic(),
            decreases self.dirs@.len() - i,
        {
            if self.dirs[i].has_panic() {
                proof {
                    assert(self@.dirs[i as int].has_panic());
                }
                return true;
            }
            i = i + 1;
        }
        false
    }

    /// The names of the purgeable run directories (crashed and not live),
    /// in scan order.
    pub fn purgeable_dir_names(&self) -> (r: Vec<String>)
        ensures
            name_views(r@) == purgeable_names(self@.dirs),
    {
        let mut r: Vec<String> = Vec::new();
        let mut i: usize = 0;
        while i < self.dirs.len()
            invariant
                i <= self.dirs@.len(),
                name_views(r@) == purgeable_names(self@.dirs.take(i as int)),
            decreases self.dirs@.len() - i,
        {
            proof {
                assert(self@.dirs.take(i + 1).drop_last() =~= self@.dirs.take(i as int));
                assert(self@.dirs.take(i + 1).last() == self@.dirs[i as int]);
                assert(self@.dirs[i as int] == self.dirs@[i as int]@);
            }
            let d = &self.dirs[i];
            let live = d.lock_file && d.lock_held;
            if d.has_panic() && !live {
                r.push(d.name.clone());
                proof {
                    assert(self@.dirs[i as int].is_purgeable());
                    assert(name_views(r@) =~= purgeable_names(self@.dirs.take(i as int)).push(
                        self@.dirs[i as int].name,
                    ));
                }
            } else {
                proof {
                    assert(!self@.dirs[i as int].is_purgeable());
                }
            }
            i = i + 1;
        }
        proof {
            assert(self@.dirs.take(self.dirs@.len() as int) =~= self@.dirs);
        }
        r
    }

    /// Removes every directory whose name occurs in `names`, keeping the
    /// others in order.
    pub fn remove_dirs_named(&mut self, names: &Vec<String>)
        ensures
            final(self)@.path == old(self)@.path,
            final(self)@.dirs == kept_dirs(old(self)@.dirs, name_views(names@)),
    {
        let ghost nv = name_views(names@);
        let ghost m = old(self)@.dirs;
        let mut i: usize = 0;
        let ghost mut c: int = 0;
        while i < self.dirs.len()
            invariant
                0 <= c <= m.len(),
                self@.path == old(self)@.path,
                nv == name_views(names@),
                self@.dirs =~= kept_dirs(m.take(c), nv) + m.skip(c),
                i as int == kept_dirs(m.take(c), nv).len(),
                i <= self.dirs@.len(),
            decreases self.dirs@.len() - i,
        {
            let ghost before = self@.dirs;
            let ghost kept = kept_dirs(m.take(c), nv);
            proof {
                assert(m.skip(c).len() > 0);
                assert(before[i as int] == m.skip(c)[0]);
                assert(m.skip(c)[0] == m[c]);
                assert(m.take(c + 1).drop_last() =~= m.take(c));
                assert(m.take(c + 1).last() == m[c]);
                assert(self@.dirs[i as int] == self.dirs@[i as int]@);
                assert(m.skip(c).drop_first() =~= m.skip(c + 1));
            }
            if name_in(names, self.dirs[i].name.as_str()) {
                proof {
                    assert(nv.contains(m[c].name));
                    assert(kept_dirs(m.take(c + 1), nv) == kept);
                }
                let _ = self.dirs.remove(i);
                proof {
                    assert(self.dirs@.map_values(|d: RunDirectory| d@) =~= before.remove(i as int));
                    assert(before.remove(i as int) =~= kept + m.skip(c).drop_first());
                    assert(self@.dirs =~= kept_dirs(m.take(c + 1), nv) + m.skip(c + 1));
                }
            } else {
                proof {
                    assert(!nv.contains(m[c].name));
                    assert(kept_dirs(m.take(c + 1), nv) == kept.push(m[c]));
                    assert(kept.push(m[c]) + m.skip(c + 1) =~= kept + m.skip(c));
                    assert(self@.dirs =~= kept_dirs(m.take(c + 1), nv) + m.skip(c + 1));
                }
                i = i + 1;
            }
            proof {
                c = c + 1;
            }
        }
        proof {
            assert(m.skip(m.len() as int) =~= Seq::<DirModel>::empty());
            assert(c == m.len());
            assert(m.take(m.len() as int) =~= m);
            assert(self@.dirs =~= kept_dirs(m, nv));
        }
    }

    /// Retention pass over the container, run at every startup: probe
    /// every run directory, write the aborted-unexpectedly report into
    /// abandoned ones, and delete the oldest deletion candidates (neither
    /// live nor crashed) until at most `keep` of them remain.  Returns the
    /// names of the deleted directories, oldest first.
    pub fn cleanup_dir(&mut self, keep: usize) -> (removed: Vec<String>)
        requires
            old(self)@.wf(),
        ensures
            ({
                let mm = old(self)@.marked_dirs();
                let cn = candidate_names(mm);
                let rn = name_views(removed@);
                &&& final(self)@.path == old(self)@.path
                &&& final(self)@.wf()
                &&& final(self)@.dirs == kept_dirs(mm, rn)
                &&& rn.len() == if cn.len() > keep {
                    (cn.len() - keep) as nat
                } else {
                    0nat
                }
                &&& forall|i: int| 0 <= i < rn.len() ==> is_candidate_name(mm, #[trigger] rn[i])
                &&& forall|i: int, j: int| 0 <= i < j < rn.len() ==> lex_lt(rn[i], rn[j])
                &&& forall|i: int, j: int|
                    0 <= i < rn.len() && 0 <= j < mm.len()
                        && (#[trigger] mm[j]).is_cleanup_candidate() && !rn.contains(mm[j].name)
                        ==> lex_lt(#[trigger] rn[i], mm[j].name)
                &&& forall|j: int|
                    0 <= j < mm.len() && !(#[trigger] mm[j]).is_cleanup_candidate()
                        ==> final(self)@.dirs.contains(mm[j])
                &&& forall|j: int|
                    0 <= j < mm.len() && (#[trigger] mm[j]).has_panic()
                        ==> final(self)@.dirs.contains(mm[j])
                &&& forall|j: int|
                    0 <= j < mm.len() && (#[trigger] mm[j]).lock_state() is Active
                        ==> final(self)@.dirs.contains(mm[j])
                &&& candidate_names(final(self)@.dirs).len() == if cn.len() > keep {
                    keep as nat
                } else {
                    cn.len()
                }
                &&& (forall|j: int|
                    0 <= j < mm.len() ==> (#[trigger] mm[j]).is_cleanup_candidate())
                    ==> final(self)@.dirs.len() == (if mm.len() > keep {
                    keep as nat
                } else {
                    mm.len()
                })
            }),
    {
        let ghost m0 = old(self)@;
        let ghost mm = m0.marked_dirs();

        // Classification pass: every abandoned directory gets the
        // aborted-unexpectedly report (if none exists yet).
        let mut i: usize = 0;
        while i < self.dirs.len()
            invariant
                m0 == old(self)@,
                m0.wf(),
                mm == m0.marked_dirs(),
                i <= self.dirs@.len(),
                self.dirs@.len() == m0.dirs.len(),
                self@.path == m0.path,
                forall|j: int| 0 <= j < i ==> self@.dirs[j] == mm[j],
                forall|j: int| i <= j < m0.dirs.len() ==> (#[trigger] self.dirs@[j])@ == m0.dirs[j],
            decreases self.dirs@.len() - i,
        {
            let ghost pre = self.dirs@;
            let mut d = self.dirs.remove(i);
            proof {
                assert(d@ == m0.dirs[i as int]);
                assert(m0.dirs[i as int].wf());
            }
            if d.lock_file && !d.lock_held {
                d.write_report_aborted_unexpected();
                proof {
                    assert(m0.dirs[i as int].lock_state() is Abandoned);
                    assert(d@ == m0.dirs[i as int].cleanup_marked());
                }
            } else {
                proof {
                    assert(!(m0.dirs[i as int].lock_state() is Abandoned));
                    assert(d@ == m0.dirs[i as int].cleanup_marked());
                }
            }
            self.dirs.insert(i, d);
            proof {
                assert(self.dirs@ =~= pre.update(i as int, self.dirs@[i as int]));
                assert(mm[i as int] == m0.dirs[i as int].cleanup_marked());
                assert(self@.dirs[i as int] == mm[i as int]);
            }
            i = i + 1;
        }
        proof {
            assert(self@.dirs =~= mm);
            lemma_marked_dirs_props(m0);
            lemma_candidate_names_props(mm);
        }
        let ghost cn = candidate_names(mm);

        // Collect the names of the deletion candidates, in scan order.
        let mut cands: Vec<String> = Vec::new();
        let mut c: usize = 0;
        while c < self.dirs.len()
            invariant
                self@.dirs == mm,
                self@.path == m0.path,
                c <= self.dirs@.len(),
                name_views(cands@) == candidate_names(mm.take(c as int)),
            decreases self.dirs@.len() - c,
        {
            proof {
                assert(mm.take(c + 1).drop_last() =~= mm.take(c as int));
                assert(mm.take(c + 1).last() == mm[c as int]);
                assert(self@.dirs[c as int] == (#[trigger] self.dirs@[c as int])@);
            }
            let dref = &self.dirs[c];
            let live = dref.lock_file && dref.lock_held;
            let crashed = dref.has_panic();
            if !live && !crashed {
                cands.push(dref.name.clone());
                proof {
                    assert(mm[c as int].is_cleanup_candidate());
                    assert(name_views(cands@) =~= candidate_names(mm.take(c as int)).push(
                        mm[c as int].name,
                    ));
                }
            } else {
                proof {
                    assert(!mm[c as int].is_cleanup_candidate());
                }
            }
            c = c + 1;
        }
        proof {
            assert(mm.take(mm.len() as int) =~= mm);
            assert(name_views(cands@) == cn);
        }

        // Pick the oldest candidates beyond the cap, oldest first.
        let mut removed: Vec<String> = Vec::new();
        let mut left: usize = if cands.len() > keep {
            cands.len() - keep
        } else {
            0
        };
        while left > 0
            invariant
                self@.dirs == mm,
                self@.path == m0.path,
                m0 == old(self)@,
                mm == m0.marked_dirs(),
                distinct_names(mm),
                cn == candidate_names(mm),
                cn.no_duplicates(),
                forall|k: int| 0 <= k < cn.len() ==> is_candidate_name(mm, #[trigger] cn[k]),
                ({
                    let cv = name_views(cands@);
                    let rn = name_views(removed@);
                    &&& cv.no_duplicates()
                    &&& forall|k: int| 0 <= k < cv.len() ==> cn.contains(#[trigger] cv[k])
                    &&& forall|t: int| 0 <= t < rn.len() ==> cn.contains(#[trigger] rn[t])
                    &&& rn.len() + cv.len() == cn.len()
                    &&& left + rn.len() == if cn.len() > keep {
                        cn.len() - keep
                    } else {
                        0
                    }
                    &&& forall|t: int, u: int| 0 <= t < u < rn.len() ==> lex_lt(rn[t], rn[u])
                    &&& forall|t: int, k: int|
                        0 <= t < rn.len() && 0 <= k < cv.len() ==> lex_lt(
                            #[trigger] rn[t],
                            #[trigger] cv[k],
                        )
                    &&& forall|y: Seq<char>|
                        cn.contains(y) && !rn.contains(y) ==> #[trigger] cv.contains(y)
                }),
            decreases left,
        {
            let ghost cvo = name_views(cands@);
            let ghost rno = name_views(removed@);
            proof {
                assert(cands@.len() > 0);
            }
            let mi = find_min_name(&cands);
            let x = cands.remove(mi);
            let ghost xv = x@;
            removed.push(x);
            left = left - 1;
            proof {
                let cv = name_views(cands@);
                let rn = name_views(removed@);
                assert(cv =~= cvo.remove(mi as int));
                assert(rn =~= rno.push(xv));
                assert(xv == cvo[mi as int]);
                assert(forall|k: int| 0 <= k < cvo.len() ==> !lex_lt(#[trigger] cvo[k], xv));
                assert(forall|k: int|
                    0 <= k < cv.len() ==> #[trigger] cv[k] == if k < mi {
                        cvo[k]
                    } else {
                        cvo[k + 1]
                    });
                assert forall|k: int, l: int|
                    0 <= k < cv.len() && 0 <= l < cv.len() && k != l implies cv[k] != cv[l] by {
                    let k0: int = if k < mi {
                        k
                    } else {
                        k + 1
                    };
                    let l0: int = if l < mi {
                        l
                    } else {
                        l + 1
                    };
                    assert(cv[k] == cvo[k0] && cv[l] == cvo[l0] && k0 != l0);
                }
                assert(cv.no_duplicates());
                assert forall|k: int| 0 <= k < cv.len() implies cv[k] != xv by {
                    let k0: int = if k < mi {
                        k
                    } else {
                        k + 1
                    };
                    assert(cv[k] == cvo[k0] && k0 != mi);
                }
                assert forall|t: int, u: int| 0 <= t < u < rn.len() implies lex_lt(
                    rn[t],
                    rn[u],
                ) by {
                    if u == rn.len() - 1 {
                        assert(cvo.contains(xv));
                        assert(lex_lt(rno[t], xv));
                    }
                }
                assert forall|t: int, k: int|
                    0 <= t < rn.len() && 0 <= k < cv.len() implies lex_lt(
                        #[trigger] rn[t],
                        #[trigger] cv[k],
                    ) by {
                    if t < rn.len() - 1 {
                        let k0: int = if k < mi {
                            k
                        } else {
                            k + 1
                        };
                        assert(cv[k] == cvo[k0]);
                        assert(lex_lt(rno[t], cvo[k0]));
                    } else {
                        assert(rn[t] == xv);
                        assert(!lex_lt(cv[k], xv));
                        assert(cv[k] != xv);
                        lemma_lex_lt_connected(xv, cv[k]);
                    }
                }
                assert forall|y: Seq<char>|
                    cn.contains(y) && !rn.contains(y) implies #[trigger] cv.contains(y) by {
                    assert(!rno.contains(y)) by {
                        if rno.contains(y) {
                            let t = choose|t: int| 0 <= t < rno.len() && rno[t] == y;
                            assert(rn[t] == y);
                        }
                    }
                    assert(cvo.contains(y));
                    assert(y != xv) by {
                        assert(rn[rn.len() - 1] == xv);
                    }
                    let t = choose|t: int| 0 <= t < cvo.len() && cvo[t] == y;
                    assert(t != mi);
                    if t < mi {
                        assert(cv[t] == y);
                    } else {
                        assert(cv[t - 1] == y);
                    }
                }
                assert forall|t: int| 0 <= t < rn.len() implies cn.contains(#[trigger] rn[t]) by {
                    if t == rn.len() - 1 {
                        assert(cn.contains(cvo[mi as int]));
                    }
                }
            }
        }

        // Delete them.
        self.remove_dirs_named(&removed);

        proof {
            let rn = name_views(removed@);
            let kept = kept_dirs(mm, rn);
            lemma_kept_dirs_props(mm, rn);
            assert forall|k: int| 0 <= k < kept.len() implies (#[trigger] kept[k]).wf() by {
                assert(mm.contains(kept[k]));
                let t = choose|t: int| 0 <= t < mm.len() && mm[t] == kept[k];
                assert(mm[t].wf());
            }
            assert(final(self)@.wf());
            assert(rn.no_duplicates()) by {
                assert forall|t: int, u: int|
                    0 <= t < rn.len() && 0 <= u < rn.len() && t != u implies rn[t] != rn[u] by {
                    if t < u {
                        lemma_lex_lt_irreflexive(rn[t]);
                    } else {
                        lemma_lex_lt_irreflexive(rn[u]);
                    }
                }
            }
            assert forall|t: int| 0 <= t < rn.len() implies is_candidate_name(
                mm,
                #[trigger] rn[t],
            ) by {
                assert(cn.contains(rn[t]));
                let k = choose|k: int| 0 <= k < cn.len() && cn[k] == rn[t];
                assert(is_candidate_name(mm, cn[k]));
            }
            assert forall|t: int, j: int|
                0 <= t < rn.len() && 0 <= j < mm.len() && (#[trigger] mm[j]).is_cleanup_candidate()
                    && !rn.contains(mm[j].name) implies lex_lt(#[trigger] rn[t], mm[j].name) by {
                assert(cn.contains(mm[j].name));
                assert(name_views(cands@).contains(mm[j].name));
            }
            assert forall|j: int|
                0 <= j < mm.len() && !(#[trigger] mm[j]).is_cleanup_candidate() implies final(self)@.dirs.contains(mm[j]) by {
                assert(!rn.contains(mm[j].name)) by {
                    if rn.contains(mm[j].name) {
                        let t = choose|t: int| 0 <= t < rn.len() && rn[t] == mm[j].name;
                        assert(is_candidate_name(mm, rn[t]));
                        let j2 = choose|j2: int|
                            0 <= j2 < mm.len() && (#[trigger] mm[j2]).is_cleanup_candidate()
                                && mm[j2].name == rn[t];
                        if j2 != j {
                            assert(mm[j2].name != mm[j].name);
                        }
                    }
                }
            }
            lemma_candidate_names_kept(mm, rn);
            lemma_keep_names_len(cn, rn);
            lemma_count_in_exact(cn, rn);
            if forall|j: int| 0 <= j < mm.len() ==> (#[trigger] mm[j]).is_cleanup_candidate() {
                lemma_candidate_names_all(mm);
                assert forall|k: int| 0 <= k < kept.len() implies (
                #[trigger] kept[k]).is_cleanup_candidate() by {
                    assert(mm.contains(kept[k]));
                    let t = choose|t: int| 0 <= t < mm.len() && mm[t] == kept[k];
                    assert(mm[t].is_cleanup_candidate());
                }
                lemma_candidate_names_all(kept);
            }
        }
        removed
    }
}

} // verus!
