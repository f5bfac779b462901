//! A model of the one directory tree the build works in: the set of paths
//! that currently exist, together with an ordered log of every path the
//! build has written. The surrounding program mirrors each operation onto
//! the real filesystem; the contracts here are what the build logic is
//! proved against.

use vstd::prelude::*;

use crate::strutil::is_prefix_of;
use crate::strutil::is_suffix_of;
use crate::strutil::str_eq;
use crate::strutil::str_ends_with;
use crate::strutil::str_starts_with;

verus! {

/// The files present in the working tree, and the log of writes.
pub struct DirState {
    files: Vec<String>,
    writes: Vec<String>,
}

/// Whether `p` is removed by a sharded cleanup of `base` with `suffix`:
/// either the base path itself, or anything that begins with the base path
/// and ends with the suffix, the two not overlapping — the sharded
/// companions `base.<shard><suffix>` among them.
pub open spec fn matches_clean(p: Seq<char>, base: Seq<char>, suffix: Seq<char>) -> bool {
    p == base || (p.len() >= base.len() + suffix.len() && is_prefix_of(base, p) && is_suffix_of(
        suffix,
        p,
    ))
}

/// Whether `p` is removed by a sharded cleanup of `base` with `suffix`.
pub fn path_matches_clean(p: &str, base: &str, suffix: &str) -> (r: bool)
    ensures
        r == matches_clean(p@, base@, suffix@),
{
    if str_eq(p, base) {
        return true;
    }
    let plen = p.unicode_len();
    let blen = base.unicode_len();
    let slen = suffix.unicode_len();
    if blen >= plen {
        proof {
            if p@.len() == base@.len() && is_prefix_of(base@, p@) {
                assert(p@.subrange(0, base@.len() as int) =~= p@);
            }
        }
        return false;
    }
    if slen > plen - blen {
        return false;
    }
    str_starts_with(p, base) && str_ends_with(p, suffix)
}

/// The character views of a sequence of strings.
pub open spec fn views_of(v: Seq<String>) -> Seq<Seq<char>> {
    v.map_values(|f: String| f@)
}

/// No two elements of `s` are equal.
pub open spec fn distinct(s: Seq<Seq<char>>) -> bool {
    forall|i: int, j: int| 0 <= i < j < s.len() ==> s[i] != s[j]
}

/// Pushing an element that occurs nowhere in a distinct sequence keeps it
/// distinct.
pub proof fn lemma_distinct_push(s: Seq<Seq<char>>, x: Seq<char>)
    requires
        distinct(s),
        forall|i: int| 0 <= i < s.len() ==> s[i] != x,
    ensures
        distinct(s.push(x)),
{
    assert forall|i: int, j: int| 0 <= i < j < s.push(x).len() implies s.push(x)[i] != s.push(
        x,
    )[j] by {
        if j == s.len() {
            assert(s.push(x)[i] == s[i]);
        } else {
            assert(s.push(x)[i] == s[i] && s.push(x)[j] == s[j]);
        }
    }
}

/// Every element of `kv` is some element of the first `i` of `fv` that the
/// cleanup does not match.
spec fn kept_from(
    kv: Seq<Seq<char>>,
    fv: Seq<Seq<char>>,
    i: int,
    base: Seq<char>,
    suffix: Seq<char>,
) -> bool {
    forall|k: int| #![trigger kv[k]]
        0 <= k < kv.len() ==> exists|j: int|
            0 <= j < i && kv[k] == #[trigger] fv[j] && !matches_clean(fv[j], base, suffix)
}

/// Every element of the first `i` of `fv` that the cleanup does not match
/// occurs in `kv`.
spec fn covers(
    kv: Seq<Seq<char>>,
    fv: Seq<Seq<char>>,
    i: int,
    base: Seq<char>,
    suffix: Seq<char>,
) -> bool {
    forall|j: int|
        0 <= j < i && !matches_clean(fv[j], base, suffix) ==> kv.contains(#[trigger] fv[j])
}

impl DirState {
    /// The views of the files present.
    pub closed spec fn file_views(self) -> Seq<Seq<char>> {
        views_of(self.files@)
    }

    /// The set of paths that currently exist.
    pub open spec fn paths(self) -> Set<Seq<char>> {
        Set::new(|p: Seq<char>| self.file_views().contains(p))
    }

    /// The ordered log of every path written so far.
    pub closed spec fn writes_view(self) -> Seq<Seq<char>> {
        views_of(self.writes@)
    }

    /// Each present path is listed once.
    pub closed spec fn wf(self) -> bool {
        distinct(self.file_views())
    }

    /// An empty tree with an empty write log.
    pub fn new() -> (r: DirState)
        ensures
            r.wf(),
            r.paths() == Set::<Seq<char>>::empty(),
            r.writes_view() == Seq::<Seq<char>>::empty(),
    {
        let r = DirState { files: Vec::new(), writes: Vec::new() };
        proof {
            assert(r.paths() =~= Set::<Seq<char>>::empty());
            assert(r.writes_view() =~= Seq::<Seq<char>>::empty());
        }
        r
    }

    /// The ordered log of every path written so far.
    pub fn write_log(&self) -> (r: &Vec<String>)
        ensures
            views_of(r@) == self.writes_view(),
    {
        &self.writes
    }

    /// Whether `p` currently exists.
    pub fn exists_file(&self, p: &str) -> (r: bool)
        ensures
            r == self.paths().contains(p@),
    {
        let mut i: usize = 0;
        while i < self.files.len()
            invariant
                forall|j: int| 0 <= j < i ==> self.file_views()[j] != p@,
                i <= self.files.len(),
            decreases self.files.len() - i,
        {
            if str_eq(self.files[i].as_str(), p) {
                assert(self.file_views()[i as int] == p@);
                return true;
            }
            i = i + 1;
        }
        assert(!self.file_views().contains(p@));
        false
    }

    /// Write `p`: afterwards it exists, and the write is logged. No other
    /// path is touched.
    pub fn write_file(&mut self, p: &str)
        requires
            old(self).wf(),
        ensures
            final(self).wf(),
            final(self).paths() == old(self).paths().insert(p@),
            final(self).writes_view() == old(self).writes_view().push(p@),
    {
        let present = self.exists_file(p);
        if !present {
            self.files.push(String::from_str(p));
        }
        self.writes.push(String::from_str(p));
        proof {
            assert(self.writes_view() =~= old(self).writes_view().push(p@));
            let ofv = old(self).file_views();
            if present {
                assert(ofv.contains(p@));
                assert(self.files@ == old(self).files@);
                assert(self.paths() =~= old(self).paths().insert(p@));
            } else {
                assert(self.file_views() =~= ofv.push(p@));
                assert forall|k: int| 0 <= k < ofv.len() implies ofv[k] != p@ by {
                    assert(!ofv.contains(p@));
                }
                lemma_distinct_push(ofv, p@);
                assert forall|q: Seq<char>| self.paths().contains(q) implies old(
                    self,
                ).paths().insert(p@).contains(q) by {
                    let k = choose|k: int|
                        0 <= k < self.file_views().len() && self.file_views()[k] == q;
                    if k < ofv.len() {
                        assert(ofv[k] == q);
                    } else {
                        assert(q == p@);
                    }
                }
                assert forall|q: Seq<char>|
                    old(self).paths().insert(p@).contains(q) implies self.paths().contains(
                    q,
                ) by {
                    if q == p@ {
                        assert(self.file_views()[ofv.len() as int] == q);
                    } else {
                        let k = choose|k: int| 0 <= k < ofv.len() && ofv[k] == q;
                        assert(self.file_views()[k] == q);
                    }
                }
                assert(self.paths() =~= old(self).paths().insert(p@));
            }
        }
    }

    /// Remove `p` if it exists; removing an absent path changes nothing and
    /// signals no error. The write log is untouched.
    pub fn clean_path(&mut self, p: &str)
        requires
            old(self).wf(),
        ensures
            final(self).wf(),
            final(self).paths() == old(self).paths().remove(p@),
            final(self).writes_view() == old(self).writes_view(),
    {
        let mut i: usize = 0;
        while i < self.files.len()
            invariant
                self == old(self),
                self.wf(),
                forall|j: int| 0 <= j < i ==> self.file_views()[j] != p@,
                i <= self.files.len(),
            decreases self.files.len() - i,
        {
            if str_eq(self.files[i].as_str(), p) {
                let ghost pre = *self;
                self.files.remove(i);
                proof {
                    assert(pre.wf());
                    assert(pre.file_views()[i as int] == p@);
                    assert(forall|j: int| 0 <= j < i ==> pre.file_views()[j] != p@);
                    assert(self.file_views() =~= pre.file_views().remove(i as int));
                    assert forall|q: Seq<char>| self.paths().contains(q) implies old(
                        self,
                    ).paths().remove(p@).contains(q) by {
                        let k = choose|k: int|
                            0 <= k < self.file_views().len() && self.file_views()[k] == q;
                        if k < i {
                            assert(pre.file_views()[k] == q);
                            assert(q != p@);
                        } else {
                            assert(pre.file_views()[k + 1] == q);
                            assert(i < k + 1);
                            assert(q != p@);
                        }
                    }
                    assert forall|q: Seq<char>|
                        old(self).paths().remove(p@).contains(q) implies self.paths().contains(
                        q,
                    ) by {
                        let k = choose|k: int|
                            0 <= k < pre.file_views().len() && pre.file_views()[k] == q;
                        if k < i {
                            assert(self.file_views()[k] == q);
                        } else {
                            assert(k != i);
                            assert(self.file_views()[k - 1] == q);
                        }
                    }
                    assert(self.paths() =~= old(self).paths().remove(p@));
                }
                return ;
            }
            i = i + 1;
        }
        proof {
            assert(!self.file_views().contains(p@));
            assert(self.paths() =~= old(self).paths().remove(p@));
        }
    }

    /// Remove the base path and every sharded companion of it, and nothing
    /// else. Cleaning when nothing matches changes nothing and signals no
    /// error. The write log is untouched.
    pub fn clean_sharded(&mut self, base: &str, suffix: &str)
        requires
            old(self).wf(),
        ensures
            final(self).wf(),
            final(self).paths() == Set::<Seq<char>>::new(
                |p: Seq<char>|
                    old(self).paths().contains(p) && !matches_clean(p, base@, suffix@),
            ),
            final(self).writes_view() == old(self).writes_view(),
    {
        let ghost pre = *self;
        let ghost fv = pre.file_views();
        let mut kept: Vec<String> = Vec::new();
        let mut i: usize = 0;
        while i < self.files.len()
            invariant
                self == old(self),
                self.wf(),
                fv == self.file_views(),
                i <= self.files.len(),
                distinct(views_of(kept@)),
                kept_from(views_of(kept@), fv, i as int, base@, suffix@),
                covers(views_of(kept@), fv, i as int, base@, suffix@),
            decreases self.files.len() - i,
        {
            let f = &self.files[i];
            assert(f@ == fv[i as int]);
            let m = path_matches_clean(f.as_str(), base, suffix);
            let ghost kept_pre = views_of(kept@);
            if !m {
                kept.push(f.clone());
                proof {
                    assert(views_of(kept@) =~= kept_pre.push(fv[i as int]));
                    assert forall|k: int| 0 <= k < kept_pre.len() implies kept_pre[k] != fv[
                        i as int
                    ] by {
                        let j = choose|j: int|
                            0 <= j < i && kept_pre[k] == #[trigger] fv[j] && !matches_clean(
                                fv[j],
                                base@,
                                suffix@,
                            );
                        assert(fv[j] != fv[i as int]);
                    }
                    lemma_distinct_push(kept_pre, fv[i as int]);
                }
            }
            proof {
                assert(kept_from(views_of(kept@), fv, i + 1, base@, suffix@)) by {
                    assert forall|k: int| #![trigger views_of(kept@)[k]]
                        0 <= k < views_of(kept@).len() implies exists|j: int|
                        0 <= j < i + 1 && views_of(kept@)[k] == #[trigger] fv[j]
                            && !matches_clean(fv[j], base@, suffix@) by {
                        if k < kept_pre.len() {
                            assert(views_of(kept@)[k] == kept_pre[k]);
                            let j = choose|j: int|
                                0 <= j < i && kept_pre[k] == #[trigger] fv[j] && !matches_clean(
                                    fv[j],
                                    base@,
                                    suffix@,
                                );
                            assert(0 <= j < i + 1 && views_of(kept@)[k] == fv[j]
                                && !matches_clean(fv[j], base@, suffix@));
                        } else {
                            assert(views_of(kept@)[k] == fv[i as int] && !matches_clean(
                                fv[i as int],
                                base@,
                                suffix@,
                            ));
                        }
                    }
                }
                assert(covers(views_of(kept@), fv, i + 1, base@, suffix@)) by {
                    assert forall|j: int|
                        0 <= j < i + 1 && !matches_clean(fv[j], base@, suffix@) implies views_of(
                        kept@,
                    ).contains(#[trigger] fv[j]) by {
                        if j < i {
                            let k = choose|k: int|
                                0 <= k < kept_pre.len() && kept_pre[k] == fv[j];
                            assert(views_of(kept@)[k] == fv[j]);
                        } else {
                            assert(views_of(kept@)[views_of(kept@).len() - 1] == fv[j]);
                        }
                    }
                }
            }
            i = i + 1;
        }
        self.files = kept;
        proof {
            let kv = views_of(self.files@);
            let n = fv.len() as int;
            assert forall|q: Seq<char>| self.paths().contains(q) implies pre.paths().contains(q)
                && !matches_clean(q, base@, suffix@) by {
                let k = choose|k: int| 0 <= k < kv.len() && kv[k] == q;
                let j = choose|j: int|
                    0 <= j < n && kv[k] == #[trigger] fv[j] && !matches_clean(
                        fv[j],
                        base@,
                        suffix@,
                    );
                assert(pre.file_views()[j] == q);
            }
            assert forall|q: Seq<char>|
                pre.paths().contains(q) && !matches_clean(q, base@, suffix@) implies self
                .paths().contains(q) by {
                let j = choose|j: int| 0 <= j < fv.len() && fv[j] == q;
                assert(kv.contains(fv[j]));
            }
            assert(self.paths() =~= Set::<Seq<char>>::new(
                |p: Seq<char>| pre.paths().contains(p) && !matches_clean(p, base@, suffix@),
            ));
        }
    }
}

/// Cleanup is idempotent: removing a path a second time, or removing one
/// that never existed, leaves the set of present paths exactly as it was.
pub proof fn lemma_clean_path_idempotent(paths: Set<Seq<char>>, p: Seq<char>)
    ensures
        paths.remove(p).remove(p) == paths.remove(p),
        !paths.contains(p) ==> paths.remove(p) == paths,
{
    assert(paths.remove(p).remove(p) =~= paths.remove(p));
    if !paths.contains(p) {
        assert(paths.remove(p) =~= paths);
    }
}

/// Sharded cleanup is idempotent, and cleaning a tree in which nothing
/// matches the base or its sharded companions leaves it exactly as it was.
pub proof fn lemma_clean_sharded_idempotent(
    paths: Set<Seq<char>>,
    base: Seq<char>,
    suffix: Seq<char>,
)
    ensures
        Set::<Seq<char>>::new(
            |p: Seq<char>|
                Set::<Seq<char>>::new(
                    |q: Seq<char>| paths.contains(q) && !matches_clean(q, base, suffix),
                ).contains(p) && !matches_clean(p, base, suffix),
        ) == Set::<Seq<char>>::new(
            |q: Seq<char>| paths.contains(q) && !matches_clean(q, base, suffix),
        ),
        (forall|p: Seq<char>| paths.contains(p) ==> !matches_clean(p, base, suffix))
            ==> Set::<Seq<char>>::new(
            |q: Seq<char>| paths.contains(q) && !matches_clean(q, base, suffix),
        ) == paths,
{
    assert(Set::<Seq<char>>::new(
        |p: Seq<char>|
            Set::<Seq<char>>::new(
                |q: Seq<char>| paths.contains(q) && !matches_clean(q, base, suffix),
            ).contains(p) && !matches_clean(p, base, suffix),
    ) =~= Set::<Seq<char>>::new(
        |q: Seq<char>| paths.contains(q) && !matches_clean(q, base, suffix),
    ));
    if forall|p: Seq<char>| paths.contains(p) ==> !matches_clean(p, base, suffix) {
        assert(Set::<Seq<char>>::new(
            |q: Seq<char>| paths.contains(q) && !matches_clean(q, base, suffix),
        ) =~= paths);
    }
}

} // verus!
