//! The tree synchronizer, over an in-memory model of the file trees: a tree
//! is the set of its files, each a path of name components plus content.
//!
//! Selective copy mirrors the declared entries of the source tree into the
//! destination, skipping excluded names at every depth below an entry,
//! redacting recognized source files and copying everything else verbatim;
//! pruning then removes every top-level destination entry (with everything
//! under it) whose name is not spared. The run fails on the first error:
//! a declared entry with nothing behind it, or a file that fails to redact.

use vstd::prelude::*;

use crate::bytes::{
    bytes_eq, clone_bytes, contains_name, ends_with, lemma_bytes_deep_view, lemma_lines_deep_view,
};
use crate::engine::{process_source, spec_process_source, RedactError};

verus! {

broadcast use lemma_bytes_deep_view, lemma_lines_deep_view;

/// One file of a tree: its path, as name components relative to the tree
/// root, and its content.
pub struct FsFile {
    pub path: Vec<Vec<u8>>,
    pub content: Vec<u8>,
}

/// The mathematical value of a file.
pub ghost struct SpecFsFile {
    pub path: Seq<Seq<u8>>,
    pub content: Seq<u8>,
}

impl View for FsFile {
    type V = SpecFsFile;

    open spec fn view(&self) -> SpecFsFile {
        SpecFsFile { path: self.path.deep_view(), content: self.content@ }
    }
}

impl DeepView for FsFile {
    type V = SpecFsFile;

    open spec fn deep_view(&self) -> SpecFsFile {
        self@
    }
}

/// The declarative configuration: which top-level entries are mirrored,
/// which names are never copied, which are never pruned, and which tool
/// paths the workspace manifest lists.
pub struct ComposeConfig {
    pub entries: Vec<Vec<u8>>,
    pub no_copy: Vec<Vec<u8>>,
    pub no_remove: Vec<Vec<u8>>,
    pub workspace_tools: Vec<Vec<u8>>,
}

/// The mathematical value of a configuration.
pub ghost struct SpecComposeConfig {
    pub entries: Seq<Seq<u8>>,
    pub no_copy: Seq<Seq<u8>>,
    pub no_remove: Seq<Seq<u8>>,
    pub workspace_tools: Seq<Seq<u8>>,
}

impl View for ComposeConfig {
    type V = SpecComposeConfig;

    open spec fn view(&self) -> SpecComposeConfig {
        SpecComposeConfig {
            entries: self.entries.deep_view(),
            no_copy: self.no_copy.deep_view(),
            no_remove: self.no_remove.deep_view(),
            workspace_tools: self.workspace_tools.deep_view(),
        }
    }
}

/// The command-line choices that steer one run.
pub struct ComposeOpts {
    /// Skip the copy/redaction phase entirely.
    pub no_process: bool,
    /// Extra names spared from pruning.
    pub spare: Vec<Vec<u8>>,
    /// Extra tool paths for the workspace manifest.
    pub add_tools: Vec<Vec<u8>>,
}

/// The mathematical value of the command-line choices.
pub ghost struct SpecComposeOpts {
    pub no_process: bool,
    pub spare: Seq<Seq<u8>>,
    pub add_tools: Seq<Seq<u8>>,
}

impl View for ComposeOpts {
    type V = SpecComposeOpts;

    open spec fn view(&self) -> SpecComposeOpts {
        SpecComposeOpts {
            no_process: self.no_process,
            spare: self.spare.deep_view(),
            add_tools: self.add_tools.deep_view(),
        }
    }
}

/// Why a run failed.
#[derive(Debug)]
pub enum SyncError {
    /// A declared entry names nothing in the source tree.
    MissingEntry { entry: Vec<u8> },
    /// Redaction of the named source file failed.
    Redact { path: Vec<Vec<u8>>, error: RedactError },
}

/// The mathematical value of a run failure.
pub ghost enum SpecSyncError {
    MissingEntry { entry: Seq<u8> },
    Redact { path: Seq<Seq<u8>>, error: RedactError },
}

impl View for SyncError {
    type V = SpecSyncError;

    open spec fn view(&self) -> SpecSyncError {
        match self {
            SyncError::MissingEntry { entry } => SpecSyncError::MissingEntry {
                entry: entry.deep_view(),
            },
            SyncError::Redact { path, error } => SpecSyncError::Redact {
                path: path.deep_view(),
                error: *error,
            },
        }
    }
}

/// What one run produces: the final destination tree, the entries that hold
/// a package descriptor (the manifest's tasks) and the tool paths.
pub struct SyncOutcome {
    pub files: Vec<FsFile>,
    pub tasks: Vec<Vec<u8>>,
    pub tools: Vec<Vec<u8>>,
}

/// The mathematical value of a run's outcome.
pub ghost struct SpecSyncOutcome {
    pub files: Seq<SpecFsFile>,
    pub tasks: Seq<Seq<u8>>,
    pub tools: Seq<Seq<u8>>,
}

impl View for SyncOutcome {
    type V = SpecSyncOutcome;

    open spec fn view(&self) -> SpecSyncOutcome {
        SpecSyncOutcome {
            files: self.files.deep_view(),
            tasks: self.tasks.deep_view(),
            tools: self.tools.deep_view(),
        }
    }
}

pub open spec fn spec_rs_suffix_text() -> Seq<u8> {
    seq![46u8, 114u8, 115u8]
}

pub open spec fn spec_descriptor_text() -> Seq<u8> {
    seq![67u8, 97u8, 114u8, 103u8, 111u8, 46u8, 116u8, 111u8, 109u8, 108u8]
}

/// `.rs`, the suffix of recognized source files.
pub fn rs_suffix_text() -> (r: Vec<u8>)
    ensures
        r@ == spec_rs_suffix_text(),
{
    let mut v: Vec<u8> = Vec::new();
    v.push(46);
    v.push(114);
    v.push(115);
    proof {
        assert(v@ =~= spec_rs_suffix_text());
    }
    v
}

/// `Cargo.toml`, the package descriptor's name.
pub fn descriptor_text() -> (r: Vec<u8>)
    ensures
        r@ == spec_descriptor_text(),
{
    let mut v: Vec<u8> = Vec::new();
    v.push(67);
    v.push(97);
    v.push(114);
    v.push(103);
    v.push(111);
    v.push(46);
    v.push(116);
    v.push(111);
    v.push(109);
    v.push(108);
    proof {
        assert(v@ =~= spec_descriptor_text());
    }
    v
}

/// A name that the redaction engine processes rather than copies verbatim.
pub open spec fn spec_is_source_name(name: Seq<u8>) -> bool {
    ends_with(name, spec_rs_suffix_text())
}

/// Whether some component of `path` below its first one is excluded:
/// exclusion is by bare name, at every depth under an entry.
pub open spec fn spec_excluded_hit(path: Seq<Seq<u8>>, excluded: Seq<Seq<u8>>) -> bool {
    exists|i: int| 1 <= i < path.len() && excluded.contains(#[trigger] path[i])
}

/// Whether the copy phase mirrors a file: its top-level component is a
/// declared entry and no deeper component is excluded.
pub open spec fn spec_selected(
    path: Seq<Seq<u8>>,
    entries: Seq<Seq<u8>>,
    excluded: Seq<Seq<u8>>,
) -> bool {
    path.len() >= 1 && entries.contains(path[0]) && !spec_excluded_hit(path, excluded)
}

/// What the copy phase writes for one file: the redaction of a recognized
/// source file, any other file byte for byte.
pub open spec fn spec_transform(f: SpecFsFile) -> Result<SpecFsFile, RedactError> {
    if f.path.len() >= 1 && spec_is_source_name(f.path.last()) {
        match spec_process_source(f.content) {
            Ok(c) => Ok(SpecFsFile { path: f.path, content: c }),
            Err(e) => Err(e),
        }
    } else {
        Ok(f)
    }
}

/// The mirrored files from index `i` on, in source order, or the first
/// failure.
pub open spec fn spec_copy_files(
    files: Seq<SpecFsFile>,
    entries: Seq<Seq<u8>>,
    excluded: Seq<Seq<u8>>,
    i: int,
) -> Result<Seq<SpecFsFile>, SpecSyncError>
    decreases files.len() - i,
{
    if i < 0 || i >= files.len() {
        Ok(Seq::empty())
    } else {
        let f = files[i];
        if !spec_selected(f.path, entries, excluded) {
            spec_copy_files(files, entries, excluded, i + 1)
        } else {
            match spec_transform(f) {
                Err(e) => Err(SpecSyncError::Redact { path: f.path, error: e }),
                Ok(g) => match spec_copy_files(files, entries, excluded, i + 1) {
                    Err(e2) => Err(e2),
                    Ok(rest) => Ok(seq![g] + rest),
                },
            }
        }
    }
}

/// Whether some file of the tree lies under the top-level name `entry`.
pub open spec fn spec_has_entry(files: Seq<SpecFsFile>, entry: Seq<u8>) -> bool {
    exists|j: int|
        0 <= j < files.len() && (#[trigger] files[j]).path.len() >= 1 && files[j].path[0] == entry
}

/// The first declared entry, from index `i` on, that names nothing in the
/// source tree.
pub open spec fn spec_first_missing(
    files: Seq<SpecFsFile>,
    entries: Seq<Seq<u8>>,
    i: int,
) -> Option<int>
    decreases entries.len() - i,
{
    if i < 0 || i >= entries.len() {
        None
    } else if spec_has_entry(files, entries[i]) {
        spec_first_missing(files, entries, i + 1)
    } else {
        Some(i)
    }
}

/// The copy phase over the whole source tree: every declared entry must
/// exist, and every selected file is mirrored, transformed.
pub open spec fn spec_process_entries(
    files: Seq<SpecFsFile>,
    entries: Seq<Seq<u8>>,
    excluded: Seq<Seq<u8>>,
) -> Result<Seq<SpecFsFile>, SpecSyncError> {
    match spec_first_missing(files, entries, 0) {
        Some(i) => Err(SpecSyncError::MissingEntry { entry: entries[i] }),
        None => spec_copy_files(files, entries, excluded, 0),
    }
}

/// The pruned tree from index `i` on: only files whose top-level name is
/// spared survive; everything under a pruned name goes with it.
pub open spec fn spec_prune(files: Seq<SpecFsFile>, spare: Seq<Seq<u8>>, i: int) -> Seq<SpecFsFile>
    decreases files.len() - i,
{
    if i < 0 || i >= files.len() {
        Seq::empty()
    } else if files[i].path.len() >= 1 && spare.contains(files[i].path[0]) {
        seq![files[i]] + spec_prune(files, spare, i + 1)
    } else {
        spec_prune(files, spare, i + 1)
    }
}

/// Whether the tree holds a file at exactly `path`.
pub open spec fn spec_has_path(files: Seq<SpecFsFile>, path: Seq<Seq<u8>>) -> bool {
    exists|j: int| 0 <= j < files.len() && (#[trigger] files[j]).path == path
}

/// The old destination files that the copied files do not overwrite, from
/// index `i` on.
pub open spec fn spec_merge_old(
    new: Seq<SpecFsFile>,
    old: Seq<SpecFsFile>,
    i: int,
) -> Seq<SpecFsFile>
    decreases old.len() - i,
{
    if i < 0 || i >= old.len() {
        Seq::empty()
    } else if spec_has_path(new, old[i].path) {
        spec_merge_old(new, old, i + 1)
    } else {
        seq![old[i]] + spec_merge_old(new, old, i + 1)
    }
}

/// The destination tree after the copy phase: the copied files, plus the
/// old files they did not overwrite.
pub open spec fn spec_merge(new: Seq<SpecFsFile>, old: Seq<SpecFsFile>) -> Seq<SpecFsFile> {
    new + spec_merge_old(new, old, 0)
}

/// The spare set: declared entries, never-remove names, and the names given
/// on the command line.
pub open spec fn spec_spare(config: SpecComposeConfig, opts: SpecComposeOpts) -> Seq<Seq<u8>> {
    config.entries + config.no_remove + opts.spare
}

/// The path of an entry's package descriptor.
pub open spec fn spec_descriptor_path(entry: Seq<u8>) -> Seq<Seq<u8>> {
    seq![entry, spec_descriptor_text()]
}

/// The declared entries, from index `i` on, whose mirrored tree holds a
/// package descriptor: the manifest's tasks, in declaration order.
pub open spec fn spec_tasks(entries: Seq<Seq<u8>>, files: Seq<SpecFsFile>, i: int) -> Seq<Seq<u8>>
    decreases entries.len() - i,
{
    if i < 0 || i >= entries.len() {
        Seq::empty()
    } else if spec_has_path(files, spec_descriptor_path(entries[i])) {
        seq![entries[i]] + spec_tasks(entries, files, i + 1)
    } else {
        spec_tasks(entries, files, i + 1)
    }
}

/// One whole run over the model: copy (unless disabled), merge into the old
/// destination, prune, and name the manifest's tasks and tools.
pub open spec fn spec_do_main(
    config: SpecComposeConfig,
    opts: SpecComposeOpts,
    src: Seq<SpecFsFile>,
    dst: Seq<SpecFsFile>,
) -> Result<SpecSyncOutcome, SpecSyncError> {
    let copied = if opts.no_process {
        Ok(Seq::<SpecFsFile>::empty())
    } else {
        spec_process_entries(src, config.entries, config.no_copy)
    };
    match copied {
        Err(e) => Err(e),
        Ok(new) => {
            let merged = spec_merge(new, dst);
            let pruned = spec_prune(merged, spec_spare(config, opts), 0);
            Ok(
                SpecSyncOutcome {
                    files: pruned,
                    tasks: spec_tasks(config.entries, pruned, 0),
                    tools: config.workspace_tools + opts.add_tools,
                },
            )
        },
    }
}

/// Indexing the deep view of a file vector gives the file's view.
pub broadcast proof fn lemma_files_deep_view(v: Vec<FsFile>, i: int)
    requires
        0 <= i < v@.len(),
    ensures
        #[trigger] v.deep_view()[i] == v@[i]@,
{
}

/// Pushing a file extends the deep view by the file's view.
pub proof fn lemma_push_deep_view_files(v0: Vec<FsFile>, v1: Vec<FsFile>, x: FsFile)
    requires
        v1@ == v0@.push(x),
    ensures
        v1.deep_view() == v0.deep_view().push(x@),
{
    assert(v1.deep_view().len() == v1@.len());
    assert(v0.deep_view().len() == v0@.len());
    assert forall|k: int| 0 <= k < v1@.len() implies v1.deep_view()[k] == v0.deep_view().push(
        x@,
    )[k] by {
        assert(v1.deep_view()[k] == v1@[k]@);
        if k < v0@.len() {
            assert(v0.deep_view()[k] == v0@[k]@);
            assert(v1@[k] == v0@[k]);
        } else {
            assert(v1@[k] == x);
        }
    }
    assert(v1.deep_view() =~= v0.deep_view().push(x@));
}

/// Copy of a path.
fn clone_path(p: &Vec<Vec<u8>>) -> (r: Vec<Vec<u8>>)
    ensures
        r.deep_view() == p.deep_view(),
{
    let mut r: Vec<Vec<u8>> = Vec::new();
    let mut i: usize = 0;
    while i < p.len()
        invariant
            i <= p@.len(),
            r.deep_view() == p.deep_view().take(i as int),
        decreases p@.len() - i,
    {
        let c = clone_bytes(&p[i]);
        let ghost cg = c;
        let ghost r0 = r;
        r.push(c);
        proof {
            crate::bytes::lemma_push_deep_view_bytes(r0, r, cg);
            assert(p.deep_view().len() == p@.len());
            assert(p.deep_view()[i as int] == p@[i as int]@);
            assert(r.deep_view() =~= p.deep_view().take(i + 1));
        }
        i = i + 1;
    }
    proof {
        assert(p.deep_view().take(p@.len() as int) =~= p.deep_view());
    }
    r
}

/// Whether two paths are the same sequence of components.
fn path_eq(a: &Vec<Vec<u8>>, b: &Vec<Vec<u8>>) -> (r: bool)
    ensures
        r == (a.deep_view() == b.deep_view()),
{
    if a.len() != b.len() {
        proof {
            assert(a.deep_view().len() != b.deep_view().len());
        }
        return false;
    }
    let mut i: usize = 0;
    while i < a.len()
        invariant
            i <= a@.len(),
            a@.len() == b@.len(),
            forall|k: int| 0 <= k < i ==> a.deep_view()[k] == #[trigger] b.deep_view()[k],
        decreases a@.len() - i,
    {
        if !bytes_eq(&a[i], &b[i]) {
            proof {
                assert(a.deep_view()[i as int] != b.deep_view()[i as int]);
            }
            return false;
        }
        i = i + 1;
    }
    proof {
        assert(a.deep_view() =~= b.deep_view());
    }
    true
}

/// Whether some file of the tree lies under the top-level name `entry`.
fn has_entry(files: &Vec<FsFile>, entry: &Vec<u8>) -> (r: bool)
    ensures
        r == spec_has_entry(files.deep_view(), entry@),
{
    broadcast use lemma_files_deep_view;

    let mut j: usize = 0;
    while j < files.len()
        invariant
            j <= files@.len(),
            forall|k: int|
                0 <= k < j ==> !((#[trigger] files.deep_view()[k]).path.len() >= 1
                    && files.deep_view()[k].path[0] == entry@),
        decreases files@.len() - j,
    {
        let f = &files[j];
        if f.path.len() >= 1 && bytes_eq(&f.path[0], entry) {
            proof {
                assert(files.deep_view()[j as int].path[0] == entry@);
            }
            return true;
        }
        proof {
            assert(files.deep_view()[j as int] == files@[j as int]@);
        }
        j = j + 1;
    }
    proof {
        assert(!spec_has_entry(files.deep_view(), entry@)) by {
            if spec_has_entry(files.deep_view(), entry@) {
                let k = choose|k: int|
                    0 <= k < files.deep_view().len() && (#[trigger] files.deep_view()[k]).path.len()
                        >= 1 && files.deep_view()[k].path[0] == entry@;
                assert(!(files.deep_view()[k].path.len() >= 1 && files.deep_view()[k].path[0]
                    == entry@));
            }
        }
    }
    false
}

/// Whether the tree holds a file at exactly `path`.
fn has_path(files: &Vec<FsFile>, path: &Vec<Vec<u8>>) -> (r: bool)
    ensures
        r == spec_has_path(files.deep_view(), path.deep_view()),
{
    broadcast use lemma_files_deep_view;

    let mut j: usize = 0;
    while j < files.len()
        invariant
            j <= files@.len(),
            forall|k: int|
                0 <= k < j ==> (#[trigger] files.deep_view()[k]).path != path.deep_view(),
        decreases files@.len() - j,
    {
        if path_eq(&files[j].path, path) {
            proof {
                assert(files.deep_view()[j as int].path == path.deep_view());
            }
            return true;
        }
        proof {
            assert(files.deep_view()[j as int] == files@[j as int]@);
        }
        j = j + 1;
    }
    proof {
        assert(!spec_has_path(files.deep_view(), path.deep_view())) by {
            if spec_has_path(files.deep_view(), path.deep_view()) {
                let k = choose|k: int|
                    0 <= k < files.deep_view().len() && (#[trigger] files.deep_view()[k]).path
                        == path.deep_view();
                assert(files.deep_view()[k].path != path.deep_view());
            }
        }
    }
    false
}

/// Whether some component of `path` below its first one is excluded.
fn excluded_hit(path: &Vec<Vec<u8>>, excluded: &Vec<Vec<u8>>) -> (r: bool)
    ensures
        r == spec_excluded_hit(path.deep_view(), excluded.deep_view()),
{
    let mut i: usize = 1;
    while i < path.len()
        invariant
            1 <= i,
            i <= path@.len() || path@.len() < 1,
            forall|k: int|
                1 <= k < i && k < path.deep_view().len() ==> !excluded.deep_view().contains(
                    #[trigger] path.deep_view()[k],
                ),
        decreases path@.len() - i,
    {
        if contains_name(excluded, &path[i]) {
            proof {
                assert(excluded.deep_view().contains(path.deep_view()[i as int]));
            }
            return true;
        }
        i = i + 1;
    }
    proof {
        assert(!spec_excluded_hit(path.deep_view(), excluded.deep_view())) by {
            if spec_excluded_hit(path.deep_view(), excluded.deep_view()) {
                let k = choose|k: int|
                    1 <= k < path.deep_view().len() && excluded.deep_view().contains(
                        #[trigger] path.deep_view()[k],
                    );
                assert(!excluded.deep_view().contains(path.deep_view()[k]));
            }
        }
    }
    false
}

/// The copied prefix `done` composes with the outcome `rest` of the files
/// from `i` on into the outcome `full` of the whole tree.
spec fn compose_copy(
    full: Result<Seq<SpecFsFile>, SpecSyncError>,
    done: Seq<SpecFsFile>,
    rest: Result<Seq<SpecFsFile>, SpecSyncError>,
) -> bool {
    match rest {
        Ok(s) => full == Ok::<Seq<SpecFsFile>, SpecSyncError>(done + s),
        Err(e) => full == Err::<Seq<SpecFsFile>, SpecSyncError>(e),
    }
}

/// Mirror the selected files of the source tree, redacting recognized
/// source files; fail on a declared entry that names nothing, or on the
/// first file whose redaction fails.
pub fn process_entries(files: &Vec<FsFile>, entries: &Vec<Vec<u8>>, excluded: &Vec<Vec<u8>>) -> (r:
    Result<Vec<FsFile>, SyncError>)
    ensures
        match r {
            Ok(out) => spec_process_entries(
                files.deep_view(),
                entries.deep_view(),
                excluded.deep_view(),
            ) == Ok::<Seq<SpecFsFile>, SpecSyncError>(out.deep_view()),
            Err(e) => spec_process_entries(
                files.deep_view(),
                entries.deep_view(),
                excluded.deep_view(),
            ) == Err::<Seq<SpecFsFile>, SpecSyncError>(e@),
        },
{
    broadcast use lemma_files_deep_view;

    let ghost fv = files.deep_view();
    let ghost ev = entries.deep_view();
    let ghost xv = excluded.deep_view();

    // every declared entry must name something in the source tree
    let mut i: usize = 0;
    while i < entries.len()
        invariant
            i <= entries@.len(),
            fv == files.deep_view(),
            ev == entries.deep_view(),
            spec_first_missing(fv, ev, 0) == spec_first_missing(fv, ev, i as int),
        decreases entries@.len() - i,
    {
        if !has_entry(files, &entries[i]) {
            proof {
                assert(entries.deep_view()[i as int] == entries@[i as int]@);
            }
            return Err(SyncError::MissingEntry { entry: clone_bytes(&entries[i]) });
        }
        proof {
            assert(entries.deep_view()[i as int] == entries@[i as int]@);
        }
        i = i + 1;
    }

    // mirror the selected files in order
    let mut out: Vec<FsFile> = Vec::new();
    let mut j: usize = 0;
    proof {
        assert(out.deep_view() =~= Seq::<SpecFsFile>::empty());
        match spec_copy_files(fv, ev, xv, 0) {
            Ok(s) => {
                assert(Seq::<SpecFsFile>::empty() + s =~= s);
            },
            Err(_) => {},
        }
    }
    while j < files.len()
        invariant
            j <= files@.len(),
            fv == files.deep_view(),
            ev == entries.deep_view(),
            xv == excluded.deep_view(),
            spec_first_missing(fv, ev, 0) is None,
            compose_copy(
                spec_copy_files(fv, ev, xv, 0),
                out.deep_view(),
                spec_copy_files(fv, ev, xv, j as int),
            ),
        decreases files@.len() - j,
    {
        let f = &files[j];
        proof {
            assert(fv[j as int] == files@[j as int]@);
        }
        let selected = if f.path.len() == 0 {
            false
        } else if !contains_name(entries, &f.path[0]) {
            false
        } else {
            !excluded_hit(&f.path, excluded)
        };
        if selected {
            let is_source = bytes_ends_with_name(&f.path);
            if is_source {
                match process_source(&f.content) {
                    Ok(c) => {
                        let ghost out0 = out.deep_view();
                        out.push(FsFile { path: clone_path(&f.path), content: c });
                        proof {
                            assert(out.deep_view() =~= out0.push(
                                match spec_transform(fv[j as int]) {
                                    Ok(g) => g,
                                    Err(_) => fv[j as int],
                                },
                            ));
                            lemma_copy_step(fv, ev, xv, j as int, out0);
                        }
                    },
                    Err(e) => {
                        return Err(SyncError::Redact { path: clone_path(&f.path), error: e });
                    },
                }
            } else {
                let ghost out0 = out.deep_view();
                out.push(
                    FsFile { path: clone_path(&f.path), content: clone_bytes(&f.content) },
                );
                proof {
                    assert(out.deep_view() =~= out0.push(fv[j as int]));
                    lemma_copy_step(fv, ev, xv, j as int, out0);
                }
            }
        }
        j = j + 1;
    }
    proof {
        match spec_copy_files(fv, ev, xv, j as int) {
            Ok(s) => {
                assert(out.deep_view() + s =~= out.deep_view());
            },
            Err(_) => {},
        }
    }
    Ok(out)
}

/// Whether the file's own name marks it as a recognized source file.
fn bytes_ends_with_name(path: &Vec<Vec<u8>>) -> (r: bool)
    requires
        path@.len() >= 1,
    ensures
        r == spec_is_source_name(path.deep_view().last()),
{
    let suffix = rs_suffix_text();
    let r = crate::bytes::bytes_ends_with(&path[path.len() - 1], &suffix);
    proof {
        assert(path.deep_view().last() == path@[path@.len() - 1]@);
    }
    r
}

/// One step of the copy composition: mirroring file `j` extends the done
/// prefix exactly as `spec_copy_files` says.
proof fn lemma_copy_step(
    fv: Seq<SpecFsFile>,
    ev: Seq<Seq<u8>>,
    xv: Seq<Seq<u8>>,
    j: int,
    out0: Seq<SpecFsFile>,
)
    requires
        0 <= j < fv.len(),
        spec_selected(fv[j].path, ev, xv),
        spec_transform(fv[j]) is Ok,
    ensures
        match spec_copy_files(fv, ev, xv, j + 1) {
            Ok(rest) => out0 + (seq![spec_transform(fv[j]).unwrap()] + rest) == out0.push(
                spec_transform(fv[j]).unwrap(),
            ) + rest,
            Err(_) => true,
        },
{
    match spec_copy_files(fv, ev, xv, j + 1) {
        Ok(rest) => {
            assert(out0 + (seq![spec_transform(fv[j]).unwrap()] + rest) =~= out0.push(
                spec_transform(fv[j]).unwrap(),
            ) + rest);
        },
        Err(_) => {},
    }
}

/// Remove every file whose top-level name is not spared.
pub fn prune_entries(files: &Vec<FsFile>, spare: &Vec<Vec<u8>>) -> (r: Vec<FsFile>)
    ensures
        r.deep_view() == spec_prune(files.deep_view(), spare.deep_view(), 0),
{
    broadcast use lemma_files_deep_view;

    let ghost fv = files.deep_view();
    let ghost sv = spare.deep_view();
    let mut out: Vec<FsFile> = Vec::new();
    let mut i: usize = 0;
    proof {
        assert(out.deep_view() =~= Seq::<SpecFsFile>::empty());
        assert(out.deep_view() + spec_prune(fv, sv, 0) =~= spec_prune(fv, sv, 0));
    }
    while i < files.len()
        invariant
            i <= files@.len(),
            fv == files.deep_view(),
            sv == spare.deep_view(),
            out.deep_view() + spec_prune(fv, sv, i as int) == spec_prune(fv, sv, 0),
        decreases files@.len() - i,
    {
        let f = &files[i];
        proof {
            assert(fv[i as int] == files@[i as int]@);
        }
        let ghost out0 = out.deep_view();
        if f.path.len() >= 1 && contains_name(spare, &f.path[0]) {
            out.push(FsFile { path: clone_path(&f.path), content: clone_bytes(&f.content) });
            proof {
                assert(out.deep_view() =~= out0.push(fv[i as int]));
                assert(out0 + (seq![fv[i as int]] + spec_prune(fv, sv, i + 1)) =~= out.deep_view()
                    + spec_prune(fv, sv, i + 1));
            }
        }
        i = i + 1;
    }
    proof {
        assert(out.deep_view() + spec_prune(fv, sv, i as int) =~= out.deep_view());
    }
    out
}

/// Append copies of all names in `src` to `dst`.
fn append_names(dst: &mut Vec<Vec<u8>>, src: &Vec<Vec<u8>>)
    ensures
        final(dst).deep_view() == old(dst).deep_view() + src.deep_view(),
{
    let mut i: usize = 0;
    while i < src.len()
        invariant
            i <= src@.len(),
            dst.deep_view() == old(dst).deep_view() + src.deep_view().take(i as int),
        decreases src@.len() - i,
    {
        let c = clone_bytes(&src[i]);
        let ghost cg = c;
        let ghost d0 = *dst;
        dst.push(c);
        proof {
            crate::bytes::lemma_push_deep_view_bytes(d0, *dst, cg);
            assert(src.deep_view().len() == src@.len());
            assert(old(dst).deep_view().len() == old(dst)@.len());
            assert(src.deep_view()[i as int] == src@[i as int]@);
            assert(dst.deep_view() =~= old(dst).deep_view() + src.deep_view().take(i + 1));
        }
        i = i + 1;
    }
    proof {
        assert(old(dst).deep_view() + src.deep_view().take(src@.len() as int) =~= old(
            dst,
        ).deep_view() + src.deep_view());
    }
}

/// The spare set of one run: declared entries, never-remove names, and the
/// names given on the command line.
pub fn spare_names(config: &ComposeConfig, opts: &ComposeOpts) -> (r: Vec<Vec<u8>>)
    ensures
        r.deep_view() == spec_spare(config@, opts@),
{
    let mut r: Vec<Vec<u8>> = Vec::new();
    proof {
        assert(r.deep_view() =~= Seq::<Seq<u8>>::empty());
    }
    append_names(&mut r, &config.entries);
    proof {
        assert(r.deep_view() =~= config@.entries);
    }
    append_names(&mut r, &config.no_remove);
    append_names(&mut r, &opts.spare);
    proof {
        assert(r.deep_view() =~= spec_spare(config@, opts@));
    }
    r
}

/// Whether a destination name survives pruning.
pub fn keep_in_prune(name: &Vec<u8>, config: &ComposeConfig, opts: &ComposeOpts) -> (r: bool)
    ensures
        r == spec_spare(config@, opts@).contains(name@),
{
    let spare = spare_names(config, opts);
    contains_name(&spare, name)
}

/// Merge the copied files over the old destination tree: a copied file
/// overwrites the old file at its path; every other old file stays.
fn merge_files(new: &Vec<FsFile>, old_files: &Vec<FsFile>) -> (r: Vec<FsFile>)
    ensures
        r.deep_view() == spec_merge(new.deep_view(), old_files.deep_view()),
{
    broadcast use lemma_files_deep_view;

    let ghost nv = new.deep_view();
    let ghost ov = old_files.deep_view();
    let mut out: Vec<FsFile> = Vec::new();
    let mut i: usize = 0;
    proof {
        assert(out.deep_view() =~= Seq::<SpecFsFile>::empty());
    }
    while i < new.len()
        invariant
            i <= new@.len(),
            nv == new.deep_view(),
            out.deep_view() == nv.take(i as int),
        decreases new@.len() - i,
    {
        let f = &new[i];
        proof {
            assert(nv[i as int] == new@[i as int]@);
        }
        let g = FsFile { path: clone_path(&f.path), content: clone_bytes(&f.content) };
        let ghost gg = g;
        let ghost out0 = out;
        out.push(g);
        proof {
            lemma_push_deep_view_files(out0, out, gg);
            assert(nv.len() == new@.len());
            assert(gg@ == nv[i as int]);
            assert(out.deep_view() =~= nv.take(i + 1));
        }
        i = i + 1;
    }
    proof {
        assert(nv.take(new@.len() as int) =~= nv);
    }
    let mut j: usize = 0;
    proof {
        assert(out.deep_view() + spec_merge_old(nv, ov, 0) =~= nv + spec_merge_old(nv, ov, 0));
    }
    while j < old_files.len()
        invariant
            j <= old_files@.len(),
            nv == new.deep_view(),
            ov == old_files.deep_view(),
            out.deep_view() + spec_merge_old(nv, ov, j as int) == nv + spec_merge_old(nv, ov, 0),
        decreases old_files@.len() - j,
    {
        let f = &old_files[j];
        proof {
            assert(ov[j as int] == old_files@[j as int]@);
        }
        let ghost out0 = out.deep_view();
        if !has_path(new, &f.path) {
            out.push(FsFile { path: clone_path(&f.path), content: clone_bytes(&f.content) });
            proof {
                assert(out.deep_view() =~= out0.push(ov[j as int]));
                assert(out0 + (seq![ov[j as int]] + spec_merge_old(nv, ov, j + 1))
                    =~= out.deep_view() + spec_merge_old(nv, ov, j + 1));
            }
        }
        j = j + 1;
    }
    proof {
        assert(out.deep_view() + spec_merge_old(nv, ov, j as int) =~= out.deep_view());
        assert(out.deep_view() =~= spec_merge(nv, ov));
    }
    out
}

/// The declared entries whose mirrored tree holds a package descriptor.
fn task_names(entries: &Vec<Vec<u8>>, files: &Vec<FsFile>) -> (r: Vec<Vec<u8>>)
    ensures
        r.deep_view() == spec_tasks(entries.deep_view(), files.deep_view(), 0),
{
    let ghost ev = entries.deep_view();
    let ghost fv = files.deep_view();
    let mut out: Vec<Vec<u8>> = Vec::new();
    let mut i: usize = 0;
    proof {
        assert(out.deep_view() =~= Seq::<Seq<u8>>::empty());
        assert(out.deep_view() + spec_tasks(ev, fv, 0) =~= spec_tasks(ev, fv, 0));
    }
    while i < entries.len()
        invariant
            i <= entries@.len(),
            ev == entries.deep_view(),
            fv == files.deep_view(),
            out.deep_view() + spec_tasks(ev, fv, i as int) == spec_tasks(ev, fv, 0),
        decreases entries@.len() - i,
    {
        proof {
            assert(ev[i as int] == entries@[i as int]@);
        }
        let mut candidate: Vec<Vec<u8>> = Vec::new();
        candidate.push(clone_bytes(&entries[i]));
        candidate.push(descriptor_text());
        proof {
            assert(candidate.deep_view() =~= spec_descriptor_path(ev[i as int]));
        }
        let ghost out0 = out.deep_view();
        if has_path(files, &candidate) {
            out.push(clone_bytes(&entries[i]));
            proof {
                assert(out.deep_view() =~= out0.push(ev[i as int]));
                assert(out0 + (seq![ev[i as int]] + spec_tasks(ev, fv, i + 1)) =~= out.deep_view()
                    + spec_tasks(ev, fv, i + 1));
            }
        }
        i = i + 1;
    }
    proof {
        assert(out.deep_view() + spec_tasks(ev, fv, i as int) =~= out.deep_view());
    }
    out
}

/// One whole run over the in-memory model: copy the declared entries of the
/// source tree into the destination (unless disabled), prune undeclared
/// top-level destination entries, and name the manifest's tasks and tools.
pub fn do_main(
    config: &ComposeConfig,
    opts: &ComposeOpts,
    src_files: &Vec<FsFile>,
    dst_files: &Vec<FsFile>,
) -> (r: Result<SyncOutcome, SyncError>)
    ensures
        match r {
            Ok(out) => spec_do_main(
                config@,
                opts@,
                src_files.deep_view(),
                dst_files.deep_view(),
            ) == Ok::<SpecSyncOutcome, SpecSyncError>(out@),
            Err(e) => spec_do_main(config@, opts@, src_files.deep_view(), dst_files.deep_view())
                == Err::<SpecSyncOutcome, SpecSyncError>(e@),
        },
{
    let copied: Vec<FsFile> = if opts.no_process {
        let empty: Vec<FsFile> = Vec::new();
        proof {
            assert(empty.deep_view() =~= Seq::<SpecFsFile>::empty());
        }
        empty
    } else {
        match process_entries(src_files, &config.entries, &config.no_copy) {
            Ok(v) => v,
            Err(e) => {
                return Err(e);
            },
        }
    };
    let merged = merge_files(&copied, dst_files);
    let spare = spare_names(config, opts);
    let pruned = prune_entries(&merged, &spare);
    let tasks = task_names(&config.entries, &pruned);
    let mut tools: Vec<Vec<u8>> = Vec::new();
    proof {
        assert(tools.deep_view() =~= Seq::<Seq<u8>>::empty());
    }
    append_names(&mut tools, &config.workspace_tools);
    proof {
        assert(tools.deep_view() =~= config@.workspace_tools);
    }
    append_names(&mut tools, &opts.add_tools);
    Ok(SyncOutcome { files: pruned, tasks, tools })
}

} // verus!
