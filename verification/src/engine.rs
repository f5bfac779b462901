//! The execution engine and the build-and-run drivers: link the objects of
//! a build into one loadable library, judge the outcome of invoking it
//! under the caller's deadline, remove every temporary the cycle created on
//! every exit path, and route every failure through the diagnostic session.
//!
//! Lowering, linking and invoking native code happen outside; each step's
//! outcome enters as an event, and the drivers here are verified for every
//! value such an event can take.

use vstd::prelude::*;

use crate::assembler::object_suffix;
use crate::assembler::CodegenOutcome;
use crate::assembler::KclvmAssembler;
use crate::assembler::KclvmLibAssembler;
use crate::diag::has_error_in;
use crate::diag::Session;
use crate::errors::error_message_view;
use crate::errors::RunnerError;
use crate::fsmodel::views_of;
use crate::fsmodel::DirState;
use crate::program::Program;
use crate::program::Scope;
use crate::strutil::str_concat;
use crate::strutil::str_concat3;
use crate::strutil::str_eq;

verus! {

/// A successful run's normalized textual result.
#[derive(Debug)]
pub struct ExecResult {
    pub output: String,
}

/// What invoking the linked artifact under the deadline produced: its
/// textual result, an abrupt runtime fault converted into a value by the
/// protective boundary, or a missed deadline.
pub enum RunEvent {
    Finished(String),
    Fault(String),
    DeadlineExceeded,
}

/// What the outside linker reported: the library was produced, or linking
/// failed for one package.
pub enum LinkOutcome {
    Linked,
    Failed { pkgpath: String, message: String },
}

/// The suffix of the linked, dynamically loadable library.
pub open spec fn lib_suffix() -> Seq<char> {
    ".so"@
}

/// The suffix of the linked, dynamically loadable library.
pub fn lib_file_suffix() -> (r: &'static str)
    ensures
        r@ == lib_suffix(),
{
    ".so"
}

/// A temporary path under `dir`: the caller supplies a nonce unique to the
/// running process and cycle, and distinct nonces give distinct paths.
pub fn temp_file(dir: &str, nonce: &str) -> (r: String)
    ensures
        r@ == dir@ + "/"@ + nonce@,
{
    str_concat3(dir, "/", nonce)
}

/// Distinct nonces under one directory give distinct temporary paths.
pub proof fn lemma_temp_file_unique(dir: Seq<char>, a: Seq<char>, b: Seq<char>)
    requires
        a != b,
    ensures
        dir + "/"@ + a != dir + "/"@ + b,
{
    if dir + "/"@ + a == dir + "/"@ + b {
        crate::assembler::lemma_affix_injective(dir + "/"@, a, b, Seq::empty());
        assert(false);
    }
}

impl KclvmLibAssembler {
    /// Merge the given objects, which must all exist, into one loadable
    /// library at `lib_path`. The outside linker's outcome decides success;
    /// a failure names the offending package and leaves the tree untouched.
    pub fn assemble(
        &self,
        fs: &mut DirState,
        objs: &Vec<String>,
        lib_path: &str,
        outcome: &LinkOutcome,
    ) -> (r: Result<String, RunnerError>)
        requires
            old(fs).wf(),
            forall|i: int|
                0 <= i < objs@.len() ==> old(fs).paths().contains(#[trigger] views_of(objs@)[i]),
        ensures
            final(fs).wf(),
            r is Ok <==> outcome is Linked,
            r matches Ok(p) ==> {
                &&& p@ == lib_path@
                &&& final(fs).paths() == old(fs).paths().insert(lib_path@)
                &&& final(fs).writes_view() == old(fs).writes_view().push(lib_path@)
            },
            r matches Err(e) ==> {
                &&& *final(fs) == *old(fs)
                &&& outcome matches LinkOutcome::Failed { pkgpath, message } && (e matches
                RunnerError::LinkFailure { pkgpath: p2, message: m2 } && p2@ == pkgpath@ && m2@
                    == message@)
            },
    {
        match outcome {
            LinkOutcome::Linked => {
                fs.write_file(lib_path);
                Ok(String::from_str(lib_path))
            },
            LinkOutcome::Failed { pkgpath, message } => Err(
                RunnerError::LinkFailure { pkgpath: pkgpath.clone(), message: message.clone() },
            ),
        }
    }
}

impl KclvmAssembler {
    /// The path of the linked library this build writes beside the entry
    /// file.
    pub open spec fn lib_output_path(self) -> Seq<char> {
        self.entry_file@ + lib_suffix()
    }

    /// The library output path is no cache path either: the build may
    /// remove it on exit without touching the cache.
    pub open spec fn lib_outside_cache(self) -> bool {
        forall|i: int|
            0 <= i < self.n_pkgs() && !self.is_entry_pkg(i) ==> self.lib_output_path()
                != #[trigger] self.expected_lib_path(i)
    }
}

/// Build, link, run and clean up one cycle. Objects are produced per
/// package (cached ones reused), linked into one library beside the entry
/// file, and the artifact's outcome under the deadline is judged; the
/// entry object and the library — the temporaries this cycle creates — are
/// removed on every exit path, while cache entries persist. Every failure
/// is recorded in the session before it is surfaced, and the session is
/// never emitted here.
pub fn execute(
    sess: &mut Session,
    fs: &mut DirState,
    assembler: &KclvmAssembler,
    codegen: &Vec<CodegenOutcome>,
    link: &LinkOutcome,
    run: &RunEvent,
) -> (r: Result<String, String>)
    requires
        old(sess).wf(),
        !old(sess).is_emitted(),
        old(fs).wf(),
        assembler.prog.wf(),
        assembler.entry_outside_cache(),
        assembler.lib_outside_cache(),
        codegen@.len() == assembler.n_pkgs(),
    ensures
        final(sess).wf(),
        !final(sess).is_emitted(),
        final(fs).wf(),
        !final(fs).paths().contains(assembler.entry_obj_path()),
        !final(fs).paths().contains(assembler.lib_output_path()),
        r is Ok <==> ((forall|i: int|
            0 <= i < assembler.n_pkgs() && #[trigger] assembler.compiled(old(fs).paths(), i)
                ==> !(codegen@[i] is Failed)) && link is Linked && run is Finished),
        r matches Ok(out) ==> run matches RunEvent::Finished(o) && out@ == o@ && *final(sess)
            == *old(sess),
        r is Err ==> has_error_in(final(sess).diags_view()),
        r matches Ok(out) ==> forall|i: int|
            0 <= i < assembler.n_pkgs() && !assembler.is_entry_pkg(i)
                ==> final(fs).paths().contains(#[trigger] assembler.expected_lib_path(i)),
        ((forall|i: int|
            0 <= i < assembler.n_pkgs() && #[trigger] assembler.compiled(old(fs).paths(), i)
                ==> !(codegen@[i] is Failed)) && link is Linked && run is DeadlineExceeded)
            ==> (r matches Err(m) && m@ == error_message_view(RunnerError::TimeoutFailure)),
        ((forall|i: int|
            0 <= i < assembler.n_pkgs() && #[trigger] assembler.compiled(old(fs).paths(), i)
                ==> !(codegen@[i] is Failed)) && link is Linked) ==> (run matches
        RunEvent::Fault(fm) ==> (r matches Err(m) && m@ == error_message_view(
            (RunnerError::RuntimeFault { message: *fm }),
        ))),
        (forall|i: int|
            0 <= i < assembler.n_pkgs() && #[trigger] assembler.compiled(old(fs).paths(), i)
                ==> !(codegen@[i] is Failed)) ==> (link matches LinkOutcome::Failed {
            pkgpath,
            message,
        } ==> (r matches Err(m) && m@ == error_message_view(
            (RunnerError::LinkFailure { pkgpath: *pkgpath, message: *message }),
        ))),
        !(forall|i: int|
            0 <= i < assembler.n_pkgs() && #[trigger] assembler.compiled(old(fs).paths(), i)
                ==> !(codegen@[i] is Failed)) ==> exists|i: int|
            {
                &&& 0 <= i < assembler.n_pkgs()
                &&& #[trigger] assembler.compiled(old(fs).paths(), i)
                &&& codegen@[i] is Failed
                &&& forall|j: int|
                    0 <= j < i && #[trigger] assembler.compiled(old(fs).paths(), j) ==> !(
                    codegen@[j] is Failed)
                &&& codegen@[i] matches CodegenOutcome::Failed(fm) && (r matches Err(m) && m@
                    == error_message_view(
                    (RunnerError::CodegenFailure {
                        pkgpath: assembler.prog.pkgs@[i].pkgpath,
                        message: fm,
                    }),
                ))
            },
{
    let entry_obj = str_concat(assembler.entry_file.as_str(), crate::assembler::object_file_suffix());
    let lib_path = str_concat(assembler.entry_file.as_str(), lib_file_suffix());
    match assembler.gen_libs(fs, codegen) {
        Err(e) => {
            let msg = e.message();
            sess.report_failure(e.message());
            fs.clean_path(entry_obj.as_str());
            fs.clean_path(lib_path.as_str());
            return Err(msg);
        },
        Ok(objs) => {
            proof {
                assert forall|i: int| 0 <= i < objs@.len() implies fs.paths().contains(
                    #[trigger] views_of(objs@)[i],
                ) by {
                    assert(views_of(objs@)[i] == assembler.expected_lib_path(i));
                }
            }
            match assembler.assembler.assemble(fs, &objs, lib_path.as_str(), link) {
                Err(e) => {
                    let msg = e.message();
                    sess.report_failure(e.message());
                    fs.clean_path(entry_obj.as_str());
                    fs.clean_path(lib_path.as_str());
                    return Err(msg);
                },
                Ok(_lib) => {
                    match run {
                        RunEvent::Finished(out) => {
                            fs.clean_path(entry_obj.as_str());
                            fs.clean_path(lib_path.as_str());
                            return Ok(out.clone());
                        },
                        RunEvent::Fault(m) => {
                            let e = RunnerError::RuntimeFault { message: m.clone() };
                            let msg = e.message();
                            sess.report_failure(e.message());
                            fs.clean_path(entry_obj.as_str());
                            fs.clean_path(lib_path.as_str());
                            return Err(msg);
                        },
                        RunEvent::DeadlineExceeded => {
                            let e = RunnerError::TimeoutFailure;
                            let msg = e.message();
                            sess.report_failure(e.message());
                            fs.clean_path(entry_obj.as_str());
                            fs.clean_path(lib_path.as_str());
                            return Err(msg);
                        },
                    }
                },
            }
        },
    }
}

/// What the outside parsing service reported: a program, or a parse
/// failure with its message.
pub enum ParseOutcome {
    Parsed(Program),
    Failed(String),
}

/// What the outside resolution service reported: a scope, or a resolution
/// failure with its message.
pub enum ResolveOutcome {
    Resolved(Scope),
    Failed(String),
}

/// Neither temporary of a cycle rooted at `entry_file` — the entry object
/// and the linked library — is the cache path of any package of `p`.
pub open spec fn entry_paths_outside_cache(p: Program, entry_file: Seq<char>) -> bool {
    forall|i: int|
        0 <= i < p.pkg_paths().len() && !crate::program::is_entry_path(#[trigger] p.pkg_paths()[i])
            ==> entry_file + object_suffix() != crate::assembler::cache_path_of(
            p.root@,
            p.pkg_paths()[i],
            object_suffix(),
        ) && entry_file + lib_suffix() != crate::assembler::cache_path_of(
            p.root@,
            p.pkg_paths()[i],
            object_suffix(),
        )
}

/// Whether a build of `p` rooted at `entry_file` over a tree whose paths
/// were `paths` regenerates package `i`: the entry package always, any
/// other only when its cached object is absent.
pub open spec fn pkg_compiled(
    p: Program,
    entry_file: Seq<char>,
    paths: Set<Seq<char>>,
    i: int,
) -> bool {
    crate::program::is_entry_path(p.pkg_paths()[i]) || !paths.contains(
        crate::assembler::lib_path_of(p.root@, p.pkg_paths()[i], entry_file, object_suffix()),
    )
}

/// Whether such a build regenerates no package whose lowering failed: the
/// build succeeds exactly when every regenerated package lowered.
pub open spec fn build_regen_ok(
    p: Program,
    entry_file: Seq<char>,
    paths: Set<Seq<char>>,
    cg: Seq<CodegenOutcome>,
) -> bool {
    forall|i: int|
        0 <= i < p.pkgs@.len() && #[trigger] pkg_compiled(p, entry_file, paths, i) ==> !(cg[i]
            is Failed)
}

/// Whether the package paths of `prog` are unique.
pub fn program_wf_check(prog: &Program) -> (r: bool)
    ensures
        r == prog.wf(),
{
    let n = prog.pkgs.len();
    let mut i: usize = 0;
    while i < n
        invariant
            n == prog.pkgs@.len(),
            i <= n,
            forall|a: int, b: int|
                0 <= a < b < n && a < i ==> prog.pkg_paths()[a] != prog.pkg_paths()[b],
        decreases n - i,
    {
        let mut j: usize = i + 1;
        while j < n
            invariant
                n == prog.pkgs@.len(),
                i < n,
                i < j <= n,
                forall|a: int, b: int|
                    0 <= a < b < n && a < i ==> prog.pkg_paths()[a] != prog.pkg_paths()[b],
                forall|b: int| i < b < j ==> prog.pkg_paths()[i as int] != prog.pkg_paths()[b],
            decreases n - j,
        {
            if str_eq(prog.pkgs[i].pkgpath.as_str(), prog.pkgs[j].pkgpath.as_str()) {
                assert(prog.pkg_paths()[i as int] == prog.pkg_paths()[j as int]);
                return false;
            }
            j = j + 1;
        }
        i = i + 1;
    }
    true
}

/// Whether the temporaries of a cycle rooted at `entry_file` stay outside
/// the cache of `prog`.
pub fn entry_paths_check(prog: &Program, entry_file: &str) -> (r: bool)
    ensures
        r == entry_paths_outside_cache(*prog, entry_file@),
{
    let entry_obj = str_concat(entry_file, crate::assembler::object_file_suffix());
    let lib = str_concat(entry_file, lib_file_suffix());
    let cache_dir = str_concat(prog.root.as_str(), "/.kclvm/cache");
    let n = prog.pkgs.len();
    let mut i: usize = 0;
    while i < n
        invariant
            n == prog.pkgs@.len(),
            i <= n,
            entry_obj@ == entry_file@ + object_suffix(),
            lib@ == entry_file@ + lib_suffix(),
            cache_dir@ == crate::assembler::cache_dir_of(prog.root@),
            forall|k: int|
                0 <= k < i && !crate::program::is_entry_path(#[trigger] prog.pkg_paths()[k])
                    ==> entry_file@ + object_suffix() != crate::assembler::cache_path_of(
                    prog.root@,
                    prog.pkg_paths()[k],
                    object_suffix(),
                ) && entry_file@ + lib_suffix() != crate::assembler::cache_path_of(
                    prog.root@,
                    prog.pkg_paths()[k],
                    object_suffix(),
                ),
        decreases n - i,
    {
        let pkgpath = &prog.pkgs[i].pkgpath;
        if !str_eq(pkgpath.as_str(), crate::main_pkg_name()) {
            let d = str_concat3(cache_dir.as_str(), "/", pkgpath.as_str());
            let cache_path = str_concat(d.as_str(), crate::assembler::object_file_suffix());
            assert(cache_path@ == crate::assembler::cache_path_of(
                prog.root@,
                prog.pkg_paths()[i as int],
                object_suffix(),
            ));
            if str_eq(entry_obj.as_str(), cache_path.as_str()) {
                return false;
            }
            if str_eq(lib.as_str(), cache_path.as_str()) {
                return false;
            }
        }
        i = i + 1;
    }
    true
}

/// Parse, build, run and report: the parse and resolve outcomes enter as
/// events; on any failure the session records one error before the failure
/// is surfaced as a plain message, and `has_errors` answers true before
/// any emission. Succeeds exactly when every phase did.
pub fn exec_program(
    sess: &mut Session,
    fs: &mut DirState,
    entry_file: String,
    parsed: ParseOutcome,
    resolved: ResolveOutcome,
    codegen: &Vec<CodegenOutcome>,
    link: &LinkOutcome,
    run: &RunEvent,
) -> (r: Result<ExecResult, String>)
    requires
        old(sess).wf(),
        !old(sess).is_emitted(),
        old(fs).wf(),
        parsed matches ParseOutcome::Parsed(p) ==> p.wf() && codegen@.len() == p.pkgs@.len()
            && entry_paths_outside_cache(p, entry_file@),
    ensures
        final(sess).wf(),
        !final(sess).is_emitted(),
        final(fs).wf(),
        r is Ok <==> (parsed matches ParseOutcome::Parsed(p) && resolved is Resolved
            && build_regen_ok(p, entry_file@, old(fs).paths(), codegen@) && link is Linked
            && run is Finished),
        r matches Ok(res) ==> (run matches RunEvent::Finished(o) && res.output@ == o@
            && *final(sess) == *old(sess)),
        r is Err ==> has_error_in(final(sess).diags_view()),
        (parsed is Parsed && resolved is Resolved) ==> !final(fs).paths().contains(
            entry_file@ + object_suffix(),
        ) && !final(fs).paths().contains(entry_file@ + lib_suffix()),
        (parsed is Failed || resolved is Failed) ==> *final(fs) == *old(fs),
        parsed matches ParseOutcome::Failed(pm) ==> (r matches Err(m) && m@
            == error_message_view((RunnerError::ParseFailure { message: pm }))),
        parsed is Parsed ==> (resolved matches ResolveOutcome::Failed(rm) ==> (r matches Err(m)
            && m@ == error_message_view((RunnerError::ResolutionFailure { message: rm })))),
        parsed matches ParseOutcome::Parsed(p) ==> ((resolved is Resolved && build_regen_ok(
            p,
            entry_file@,
            old(fs).paths(),
            codegen@,
        ) && link is Linked && run is DeadlineExceeded) ==> (r matches Err(m) && m@
            == error_message_view(RunnerError::TimeoutFailure))),
        parsed matches ParseOutcome::Parsed(p) ==> ((resolved is Resolved && build_regen_ok(
            p,
            entry_file@,
            old(fs).paths(),
            codegen@,
        ) && link is Linked) ==> (run matches RunEvent::Fault(fm) ==> (r matches Err(m) && m@
            == error_message_view((RunnerError::RuntimeFault { message: *fm }))))),
        parsed matches ParseOutcome::Parsed(p) ==> ((resolved is Resolved && build_regen_ok(
            p,
            entry_file@,
            old(fs).paths(),
            codegen@,
        )) ==> (link matches LinkOutcome::Failed { pkgpath, message } ==> (r matches Err(m)
            && m@ == error_message_view(
            (RunnerError::LinkFailure { pkgpath: *pkgpath, message: *message }),
        )))),
        parsed matches ParseOutcome::Parsed(p) ==> ((resolved is Resolved && !build_regen_ok(
            p,
            entry_file@,
            old(fs).paths(),
            codegen@,
        )) ==> exists|i: int|
            {
                &&& 0 <= i < p.pkgs@.len()
                &&& #[trigger] pkg_compiled(p, entry_file@, old(fs).paths(), i)
                &&& codegen@[i] is Failed
                &&& forall|j: int|
                    0 <= j < i && #[trigger] pkg_compiled(p, entry_file@, old(fs).paths(), j)
                        ==> !(codegen@[j] is Failed)
                &&& codegen@[i] matches CodegenOutcome::Failed(fm) && (r matches Err(m) && m@
                    == error_message_view(
                    (RunnerError::CodegenFailure { pkgpath: p.pkgs@[i].pkgpath, message: fm }),
                ))
            }),
{
    match parsed {
        ParseOutcome::Failed(m) => {
            let e = RunnerError::ParseFailure { message: m };
            let msg = e.message();
            sess.report_failure(e.message());
            Err(msg)
        },
        ParseOutcome::Parsed(p) => {
            match resolved {
                ResolveOutcome::Failed(m) => {
                    let e = RunnerError::ResolutionFailure { message: m };
                    let msg = e.message();
                    sess.report_failure(e.message());
                    Err(msg)
                },
                ResolveOutcome::Resolved(sc) => {
                    let a = KclvmAssembler::new(p, sc, entry_file, KclvmLibAssembler::LLVM);
                    proof {
                        assert forall|i: int|
                            0 <= i < a.n_pkgs() && !a.is_entry_pkg(i) implies a.entry_obj_path()
                            != #[trigger] a.expected_lib_path(i) && a.lib_output_path()
                            != a.expected_lib_path(i) by {
                            assert(a.pkgpath_view(i) == a.prog.pkg_paths()[i]);
                        }
                        assert forall|i: int|
                            #![trigger a.compiled(old(fs).paths(), i)]
                            #![trigger pkg_compiled(a.prog, a.entry_file@, old(fs).paths(), i)]
                            0 <= i < a.n_pkgs() implies (a.compiled(old(fs).paths(), i)
                            <==> pkg_compiled(a.prog, a.entry_file@, old(fs).paths(), i)) by {
                            assert(a.pkgpath_view(i) == a.prog.pkg_paths()[i]);
                        }
                    }
                    let res = execute(sess, fs, &a, codegen, link, run);
                    proof {
                        if !build_regen_ok(a.prog, a.entry_file@, old(fs).paths(), codegen@) {
                            let i0 = choose|i: int|
                                {
                                    &&& 0 <= i < a.n_pkgs()
                                    &&& #[trigger] a.compiled(old(fs).paths(), i)
                                    &&& codegen@[i] is Failed
                                    &&& forall|j: int|
                                        0 <= j < i && #[trigger] a.compiled(old(fs).paths(), j)
                                            ==> !(codegen@[j] is Failed)
                                    &&& codegen@[i] matches CodegenOutcome::Failed(fm) && (res
                                    matches Err(m) && m@ == error_message_view(
                                        (RunnerError::CodegenFailure {
                                            pkgpath: a.prog.pkgs@[i].pkgpath,
                                            message: fm,
                                        }),
                                    ))
                                };
                            assert(pkg_compiled(a.prog, a.entry_file@, old(fs).paths(), i0));
                            assert forall|j: int|
                                0 <= j < i0 && #[trigger] pkg_compiled(
                                    a.prog,
                                    a.entry_file@,
                                    old(fs).paths(),
                                    j,
                                ) implies !(codegen@[j] is Failed) by {
                                assert(a.compiled(old(fs).paths(), j));
                            }
                        }
                    }
                    match res {
                        Ok(out) => Ok(ExecResult { output: out }),
                        Err(m) => Err(m),
                    }
                },
            }
        },
    }
}

} // verus!
