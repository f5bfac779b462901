//! The package assembler: one cached relocatable object per package. The
//! entry package's object always goes to the caller-supplied entry file and
//! is never cached; every other package's object lives in a cache directory
//! derived from the program root, so that rebuilding the same root reuses
//! objects already present.

use vstd::prelude::*;

use crate::errors::RunnerError;
use crate::fsmodel::views_of;
use crate::fsmodel::DirState;
use crate::program::is_entry_path;
use crate::program::Program;
use crate::program::Scope;
use crate::strutil::str_concat;
use crate::strutil::str_concat3;
use crate::strutil::str_eq;

verus! {

/// The suffix of every relocatable object file the build writes.
pub open spec fn object_suffix() -> Seq<char> {
    ".o"@
}

/// The suffix of every relocatable object file the build writes.
pub fn object_file_suffix() -> (r: &'static str)
    ensures
        r@ == object_suffix(),
{
    ".o"
}

/// The cache directory of a program root: a fixed hidden directory under
/// the root, so that repeated builds of the same root share it.
pub open spec fn cache_dir_of(root: Seq<char>) -> Seq<char> {
    root + "/.kclvm/cache"@
}

/// The cache path of a non-entry package's object.
pub open spec fn cache_path_of(root: Seq<char>, pkgpath: Seq<char>, suffix: Seq<char>) -> Seq<
    char,
> {
    cache_dir_of(root) + "/"@ + pkgpath + suffix
}

/// Where a package's object belongs: the entry package beside the entry
/// file, every other package in the cache.
pub open spec fn lib_path_of(
    root: Seq<char>,
    pkgpath: Seq<char>,
    main_path: Seq<char>,
    suffix: Seq<char>,
) -> Seq<char> {
    if is_entry_path(pkgpath) {
        main_path + suffix
    } else {
        cache_path_of(root, pkgpath, suffix)
    }
}

/// Affixing the same prefix and suffix to two sequences preserves
/// distinctness: cache paths of distinct package paths are distinct.
pub proof fn lemma_affix_injective(pre: Seq<char>, a: Seq<char>, b: Seq<char>, suf: Seq<char>)
    requires
        pre + a + suf == pre + b + suf,
    ensures
        a == b,
{
    let x = pre + a + suf;
    let y = pre + b + suf;
    assert(a.len() == b.len()) by {
        assert(x.len() == y.len());
    }
    assert forall|k: int| 0 <= k < a.len() implies a[k] == b[k] by {
        assert(x[pre.len() + k] == a[k]);
        assert(y[pre.len() + k] == b[k]);
    }
    assert(a =~= b);
}

/// The path each package's object is expected at, for a build of `prog`
/// whose entry object goes beside `main_path`: one path per package, in
/// package order.
pub fn construct_pkg_lib_path(
    prog: &Program,
    assembler: &KclvmAssembler,
    main_path: &str,
    suffix: &str,
) -> (r: Vec<String>)
    ensures
        r@.len() == prog.pkgs@.len(),
        forall|i: int|
            0 <= i < prog.pkgs@.len() ==> views_of(r@)[i] == lib_path_of(
                prog.root@,
                #[trigger] prog.pkg_paths()[i],
                main_path@,
                suffix@,
            ),
{
    let cache_dir = assembler.construct_cache_dir(prog.root.as_str());
    let mut r: Vec<String> = Vec::new();
    let n = prog.pkgs.len();
    let mut i: usize = 0;
    while i < n
        invariant
            n == prog.pkgs@.len(),
            i <= n,
            r@.len() == i,
            cache_dir@ == cache_dir_of(prog.root@),
            forall|j: int|
                0 <= j < i ==> views_of(r@)[j] == lib_path_of(
                    prog.root@,
                    #[trigger] prog.pkg_paths()[j],
                    main_path@,
                    suffix@,
                ),
        decreases n - i,
    {
        let pkgpath = &prog.pkgs[i].pkgpath;
        assert(pkgpath@ == prog.pkg_paths()[i as int]);
        let path: String = if str_eq(pkgpath.as_str(), crate::main_pkg_name()) {
            str_concat(main_path, suffix)
        } else {
            let d = str_concat3(cache_dir.as_str(), "/", pkgpath.as_str());
            str_concat(d.as_str(), suffix)
        };
        let ghost r_pre = r@;
        r.push(path);
        proof {
            assert(views_of(r@) =~= views_of(r_pre).push(
                lib_path_of(prog.root@, prog.pkg_paths()[i as int], main_path@, suffix@),
            ));
        }
        i = i + 1;
    }
    r
}

/// What the outside code generator reported for one package it was asked to
/// lower: the object was produced at the requested path, or lowering
/// failed with a message.
pub enum CodegenOutcome {
    Done,
    Failed(String),
}

/// The code-generation backend an assembler drives. One backend is
/// specified; the linking contract is shared by any further one.
pub enum KclvmLibAssembler {
    LLVM,
}

/// Assembles each package of a resolved program into a cached object.
pub struct KclvmAssembler {
    pub prog: Program,
    pub scope: Scope,
    pub entry_file: String,
    pub assembler: KclvmLibAssembler,
}

impl KclvmAssembler {
    /// A new assembler over a resolved program and its scope; the entry
    /// package's object will be written beside `entry_file`.
    pub fn new(prog: Program, scope: Scope, entry_file: String, assembler: KclvmLibAssembler) -> (r:
        KclvmAssembler)
        ensures
            r.prog == prog,
            r.scope == scope,
            r.entry_file@ == entry_file@,
            r.assembler == assembler,
    {
        KclvmAssembler { prog, scope, entry_file, assembler }
    }

    /// The number of packages.
    pub open spec fn n_pkgs(self) -> int {
        self.prog.pkgs@.len() as int
    }

    /// The package path of package `i`.
    pub open spec fn pkgpath_view(self, i: int) -> Seq<char> {
        self.prog.pkg_paths()[i]
    }

    /// Whether package `i` is the entry package.
    pub open spec fn is_entry_pkg(self, i: int) -> bool {
        is_entry_path(self.pkgpath_view(i))
    }

    /// The entry package's object path: always beside the entry file,
    /// never in the cache.
    pub open spec fn entry_obj_path(self) -> Seq<char> {
        self.entry_file@ + object_suffix()
    }

    /// Where package `i`'s object belongs.
    pub open spec fn expected_lib_path(self, i: int) -> Seq<char> {
        lib_path_of(
            self.prog.root@,
            self.pkgpath_view(i),
            self.entry_file@,
            object_suffix(),
        )
    }

    /// Whether a build over a tree whose paths were `paths` regenerates
    /// package `i`: the entry package always, any other only when its
    /// cached object is absent.
    pub open spec fn compiled(self, paths: Set<Seq<char>>, i: int) -> bool {
        self.is_entry_pkg(i) || !paths.contains(self.expected_lib_path(i))
    }

    /// The object paths a build over `paths` writes for the first `n`
    /// packages, in package order.
    pub open spec fn compiled_prefix(self, paths: Set<Seq<char>>, n: int) -> Seq<Seq<char>>
        decreases n,
    {
        if n <= 0 {
            Seq::empty()
        } else if self.compiled(paths, n - 1) {
            self.compiled_prefix(paths, n - 1).push(self.expected_lib_path(n - 1))
        } else {
            self.compiled_prefix(paths, n - 1)
        }
    }

    /// The entry file is not itself a cache path of any package; an
    /// assembler whose entry file pointed into the cache would let the
    /// entry object shadow a cache entry.
    pub open spec fn entry_outside_cache(self) -> bool {
        forall|i: int|
            0 <= i < self.n_pkgs() && !self.is_entry_pkg(i) ==> self.entry_obj_path()
                != #[trigger] self.expected_lib_path(i)
    }

    /// The cache directory of a program root.
    pub fn construct_cache_dir(&self, root: &str) -> (r: String)
        ensures
            r@ == cache_dir_of(root@),
    {
        str_concat(root, "/.kclvm/cache")
    }

    /// Produce one object per package: the entry package's object is
    /// rewritten beside the entry file on every build; any other package's
    /// object is written to its cache path only when absent, and reused
    /// otherwise. On success the returned paths, one per package in package
    /// order, all exist. When a regenerated package fails to lower, the
    /// first such package is named in the failure and objects already
    /// written stay in place: the cache is additive, not transactional.
    pub fn gen_libs(&self, fs: &mut DirState, outcomes: &Vec<CodegenOutcome>) -> (r: Result<
        Vec<String>,
        RunnerError,
    >)
        requires
            old(fs).wf(),
            self.prog.wf(),
            self.entry_outside_cache(),
            outcomes@.len() == self.n_pkgs(),
        ensures
            final(fs).wf(),
            r is Ok <==> (forall|i: int|
                0 <= i < self.n_pkgs() && #[trigger] self.compiled(old(fs).paths(), i)
                    ==> !(outcomes@[i] is Failed)),
            r matches Ok(libs) ==> {
                &&& libs@.len() == self.n_pkgs()
                &&& forall|i: int|
                    0 <= i < self.n_pkgs() ==> views_of(libs@)[i] == #[trigger] self
                        .expected_lib_path(i)
                &&& forall|i: int|
                    0 <= i < self.n_pkgs() ==> final(fs).paths().contains(
                        #[trigger] self.expected_lib_path(i),
                    )
                &&& final(fs).paths() == Set::<Seq<char>>::new(
                    |p: Seq<char>|
                        old(fs).paths().contains(p) || exists|j: int|
                            0 <= j < self.n_pkgs() && p == #[trigger] self.expected_lib_path(j),
                )
                &&& final(fs).writes_view() == old(fs).writes_view() + self.compiled_prefix(
                    old(fs).paths(),
                    self.n_pkgs(),
                )
            },
            r matches Err(e) ==> exists|i: int|
                {
                    &&& 0 <= i < self.n_pkgs()
                    &&& #[trigger] self.compiled(old(fs).paths(), i)
                    &&& outcomes@[i] is Failed
                    &&& forall|j: int|
                        0 <= j < i && #[trigger] self.compiled(old(fs).paths(), j) ==> !(
                        outcomes@[j] is Failed)
                    &&& outcomes@[i] matches CodegenOutcome::Failed(m) && (e matches
                    RunnerError::CodegenFailure { pkgpath, message } && pkgpath@ == self
                        .pkgpath_view(i) && message@ == m@)
                    &&& final(fs).writes_view() == old(fs).writes_view() + self.compiled_prefix(
                        old(fs).paths(),
                        i,
                    )
                    &&& final(fs).paths() == Set::<Seq<char>>::new(
                        |p: Seq<char>|
                            old(fs).paths().contains(p) || exists|j: int|
                                0 <= j < i && p == #[trigger] self.expected_lib_path(j),
                    )
                },
    {
        let ghost oldpaths = old(fs).paths();
        let cache_dir = self.construct_cache_dir(self.prog.root.as_str());
        let mut libs: Vec<String> = Vec::new();
        let n = self.prog.pkgs.len();
        let mut i: usize = 0;
        while i < n
            invariant
                oldpaths == old(fs).paths(),
                fs.wf(),
                self.prog.wf(),
                self.entry_outside_cache(),
                outcomes@.len() == self.n_pkgs(),
                n == self.n_pkgs(),
                cache_dir@ == cache_dir_of(self.prog.root@),
                i <= n,
                libs@.len() == i,
                forall|j: int|
                    0 <= j < i ==> views_of(libs@)[j] == #[trigger] self.expected_lib_path(j),
                forall|j: int|
                    0 <= j < i && #[trigger] self.compiled(oldpaths, j) ==> !(outcomes@[j]
                        is Failed),
                fs.writes_view() == old(fs).writes_view() + self.compiled_prefix(
                    oldpaths,
                    i as int,
                ),
                fs.paths() == Set::<Seq<char>>::new(
                    |p: Seq<char>|
                        oldpaths.contains(p) || exists|j: int|
                            0 <= j < i && p == #[trigger] self.expected_lib_path(j),
                ),
            decreases n - i,
        {
            let pkgpath = &self.prog.pkgs[i].pkgpath;
            assert(pkgpath@ == self.pkgpath_view(i as int));
            let is_entry = str_eq(pkgpath.as_str(), crate::main_pkg_name());
            let path: String = if is_entry {
                str_concat(self.entry_file.as_str(), object_file_suffix())
            } else {
                let d = str_concat3(cache_dir.as_str(), "/", pkgpath.as_str());
                str_concat(d.as_str(), object_file_suffix())
            };
            assert(path@ == self.expected_lib_path(i as int));
            let mut regen = true;
            if !is_entry {
                let present = fs.exists_file(path.as_str());
                proof {
                    if present {
                        self.lemma_cache_presence_stable(oldpaths, i as int);
                        assert(oldpaths.contains(self.expected_lib_path(i as int)));
                    }
                }
                regen = !present;
            }
            if regen {
                assert(self.compiled(oldpaths, i as int));
                match &outcomes[i] {
                    CodegenOutcome::Done => {
                        fs.write_file(path.as_str());
                    },
                    CodegenOutcome::Failed(m) => {
                        proof {
                            assert(self.compiled(old(fs).paths(), i as int));
                            assert(outcomes@[i as int] is Failed);
                            assert(forall|j: int|
                                0 <= j < i as int && #[trigger] self.compiled(
                                    old(fs).paths(),
                                    j,
                                ) ==> !(outcomes@[j] is Failed));
                            assert(fs.writes_view() == old(fs).writes_view()
                                + self.compiled_prefix(old(fs).paths(), i as int));
                            assert(fs.paths() =~= Set::<Seq<char>>::new(
                                |p: Seq<char>|
                                    old(fs).paths().contains(p) || exists|j: int|
                                        0 <= j < i as int && p == #[trigger] self
                                            .expected_lib_path(j),
                            ));
                        }
                        let e = RunnerError::CodegenFailure {
                            pkgpath: pkgpath.clone(),
                            message: m.clone(),
                        };
                        return Err(e);
                    },
                }
            } else {
                assert(!self.compiled(oldpaths, i as int));
            }
            let ghost libs_pre = libs@;
            libs.push(path);
            proof {
                assert(views_of(libs@) =~= views_of(libs_pre).push(
                    self.expected_lib_path(i as int),
                ));
                assert(fs.writes_view() =~= old(fs).writes_view() + self.compiled_prefix(
                    oldpaths,
                    i as int + 1,
                ));
                assert(fs.paths() =~= Set::<Seq<char>>::new(
                    |p: Seq<char>|
                        oldpaths.contains(p) || exists|j: int|
                            0 <= j < i + 1 && p == #[trigger] self.expected_lib_path(j),
                ));
            }
            i = i + 1;
        }
        Ok(libs)
    }

    /// If the tree holds only the old paths plus objects of packages before
    /// `i`, then package `i`'s cache path is present exactly when it was
    /// present among the old paths: distinct packages have distinct cache
    /// paths, and the entry object lies outside the cache.
    proof fn lemma_cache_presence_stable(self, oldpaths: Set<Seq<char>>, i: int)
        requires
            self.prog.wf(),
            self.entry_outside_cache(),
            0 <= i < self.n_pkgs(),
            !self.is_entry_pkg(i),
        ensures
            forall|j: int|
                0 <= j < self.n_pkgs() && j != i ==> #[trigger] self.expected_lib_path(j)
                    != self.expected_lib_path(i),
    {
        assert forall|j: int|
            0 <= j < self.n_pkgs() && j != i implies #[trigger] self.expected_lib_path(j)
            != self.expected_lib_path(i) by {
            if self.is_entry_pkg(j) {
                assert(self.expected_lib_path(j) == self.entry_obj_path());
            } else {
                if self.expected_lib_path(j) == self.expected_lib_path(i) {
                    lemma_affix_injective(
                        cache_dir_of(self.prog.root@) + "/"@,
                        self.pkgpath_view(j),
                        self.pkgpath_view(i),
                        object_suffix(),
                    );
                    assert(false);
                }
            }
        }
    }

    /// Cache reuse: over a tree that already holds every non-entry
    /// package's cached object, a build regenerates nothing but the entry
    /// package's object, and the set of present paths is left exactly as it
    /// was once that object is rewritten in place.
    pub proof fn lemma_cache_reuse(self, paths: Set<Seq<char>>, n: int)
        requires
            0 <= n <= self.n_pkgs(),
            forall|i: int|
                0 <= i < self.n_pkgs() ==> paths.contains(#[trigger] self.expected_lib_path(i)),
        ensures
            forall|k: int|
                0 <= k < self.compiled_prefix(paths, n).len() ==> #[trigger] self.compiled_prefix(
                    paths,
                    n,
                )[k] == self.entry_obj_path(),
            Set::<Seq<char>>::new(
                |p: Seq<char>|
                    paths.contains(p) || exists|j: int|
                        0 <= j < n && p == #[trigger] self.expected_lib_path(j),
            ) == paths,
        decreases n,
    {
        if n > 0 {
            self.lemma_cache_reuse(paths, n - 1);
            if self.compiled(paths, n - 1) {
                assert(!self.is_entry_pkg(n - 1) ==> !self.compiled(paths, n - 1));
                assert(self.expected_lib_path(n - 1) == self.entry_obj_path());
                assert forall|k: int|
                    0 <= k < self.compiled_prefix(paths, n).len() implies #[trigger] self
                    .compiled_prefix(paths, n)[k] == self.entry_obj_path() by {
                    if k < self.compiled_prefix(paths, n - 1).len() {
                        assert(self.compiled_prefix(paths, n)[k] == self.compiled_prefix(
                            paths,
                            n - 1,
                        )[k]);
                    }
                }
            }
        }
        assert(Set::<Seq<char>>::new(
            |p: Seq<char>|
                paths.contains(p) || exists|j: int|
                    0 <= j < n && p == #[trigger] self.expected_lib_path(j),
        ) =~= paths);
    }
}

} // verus!
