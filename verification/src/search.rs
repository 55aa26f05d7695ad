//! The upward search: resolve the starting directory, then walk parent by
//! parent and emit each directory's copy of the target file.
//!
//! Only two questions are put to the outside world, each through one trusted
//! wrapper: whether a path names an existing regular file, and what the
//! current working directory is. Everything decided from the answers is
//! verified; nothing is assumed about the answers themselves.

use vstd::prelude::*;

use crate::path::LexPath;
use crate::path::PathView;
use crate::path::child_view;
use crate::path::is_ancestor_of;
use crate::path::join_view;
use crate::path::norm_view;
use crate::path::normalize_path;
use crate::path::parent_view;
use crate::path::spec_parse;

verus! {

/// Relies on `std::path::Path::is_file`: reads file-system metadata to ask
/// whether `path_text` names an existing regular file. The answer depends on
/// the state of the disk, so nothing is assumed about it; a missing file or
/// directory simply answers `false`.
#[verifier::external_body]
fn fs_is_file(path_text: &str) -> bool {
    std::path::Path::new(path_text).is_file()
}

/// Relies on `std::path::Path::canonicalize`: resolving `.` names the
/// process's current working directory. The answer depends on the process
/// and the disk, so nothing is assumed about it; failure answers `None`.
#[verifier::external_body]
fn fs_current_dir() -> Option<String> {
    match std::path::Path::new(".").canonicalize() {
        Ok(dir) => match dir.to_str() {
            Some(text) => Some(text.to_string()),
            None => None,
        },
        Err(_) => None,
    }
}

/// The name searched for when the caller names none.
pub open spec fn default_file_name() -> Seq<char> {
    "Cargo.toml"@
}

/// Mathematical model of one search: the directory still to be examined
/// (`None` once the walk has passed the root) and the target file name.
#[verifier::ext_equal]
pub struct FindIterView {
    pub current: Option<PathView>,
    pub file_name: Seq<char>,
}

/// One upward search. Holds the directory to examine next and the target
/// file name; [`FindIter::next`] advances it. Each search owns its state, so
/// separate searches never touch one another.
pub struct FindIter {
    current: Option<LexPath>,
    file_name: String,
}

impl View for FindIter {
    type V = FindIterView;

    closed spec fn view(&self) -> FindIterView {
        FindIterView { current: opt_path_view(self.current), file_name: self.file_name@ }
    }
}

/// The model of a directory that may already be spent: `None` once the walk
/// has passed the root.
pub open spec fn opt_path_view(o: Option<LexPath>) -> Option<PathView> {
    match o {
        Some(p) => Some(p@),
        None => None,
    }
}

/// What one step of the walk decided: the candidate emitted by this step, if
/// any, and the directory the walk moves to.
pub struct StepOutcome {
    pub emitted: Option<LexPath>,
    pub next_dir: Option<LexPath>,
}

/// One step of the walk, decided by the probe's answer `hit` for the
/// candidate `dir/file_name`: when the file system reported a regular file
/// the candidate is emitted, when not nothing is; either way the walk moves
/// to `dir`'s parent. This ties emission to the probe's answer, value by
/// value; [`FindIter::next`] decides every step through it.
pub fn walk_step(dir: &LexPath, file_name: &str, hit: bool) -> (r: StepOutcome)
    ensures
        hit ==> (r.emitted matches Some(p) && p@ == child_view(dir@, file_name@)),
        !hit ==> r.emitted is None,
        opt_path_view(r.next_dir) == parent_view(dir@),
{
    let emitted = if hit {
        Some(dir.join_name(file_name))
    } else {
        None
    };
    let next_dir = dir.parent();
    StepOutcome { emitted, next_dir }
}

impl FindIter {
    /// Advances the walk. Starting at the current directory and moving
    /// parent by parent, emits the first candidate `dir/file_name` that the
    /// file system reports as a regular file and leaves the walk at that
    /// directory's parent; once the walk has passed the last ancestor it
    /// yields `None`, permanently.
    pub fn next(&mut self) -> (r: Option<LexPath>)
        ensures
            final(self)@.file_name == old(self)@.file_name,
            old(self)@.current is None ==> r is None,
            r is None ==> final(self)@.current is None,
            final(self)@.current matches Some(d) ==> (old(self)@.current matches Some(d0)
                && is_ancestor_of(d, d0) && d.parts.len() < d0.parts.len()),
            r matches Some(p) ==> (old(self)@.current matches Some(d0) && p@.parts.len() > 0
                && p@.parts.last() == old(self)@.file_name && (parent_view(p@) matches Some(d)
                && is_ancestor_of(d, d0) && final(self)@.current == parent_view(d))),
    {
        proof {
            match self@.current {
                Some(d0) => {
                    assert(d0.parts.take(d0.parts.len() as int) =~= d0.parts);
                    assert(is_ancestor_of(d0, d0));
                },
                None => {},
            }
        }
        loop
            invariant
                self.file_name == old(self).file_name,
                old(self)@.current is None ==> self@.current is None,
                self@.current matches Some(d) ==> (old(self)@.current matches Some(d0)
                    && is_ancestor_of(d, d0)),
            decreases (match self.current {
                Some(d) => d@.parts.len() + 1,
                None => 0,
            }),
        {
            match &self.current {
                None => {
                    return None;
                },
                Some(dir) => {
                    let ghost examined = dir@;
                    let text = dir.join_name(self.file_name.as_str()).to_text();
                    let hit = fs_is_file(text.as_str());
                    let step = walk_step(dir, self.file_name.as_str(), hit);
                    proof {
                        if let Some(ref p) = step.emitted {
                            assert(p@.parts.drop_last() =~= examined.parts);
                            assert(parent_view(p@) matches Some(d) && d =~= examined);
                        }
                        if examined.parts.len() > 0 {
                            let d0 = old(self)@.current->Some_0;
                            assert(examined.parts.take(examined.parts.len() as int) =~= examined.parts);
                            assert(examined.parts.drop_last() =~= d0.parts.take(
                                examined.parts.len() - 1,
                            ));
                        }
                    }
                    self.current = step.next_dir;
                    if let Some(p) = step.emitted {
                        return Some(p);
                    }
                },
            }
        }
    }
}

/// Matches come out in strictly decreasing depth. If one match was found in
/// `d1` and left the walk at `d1`'s parent, then a later match, found in an
/// ancestor `d2` of that parent, lies strictly above `d1`: no directory is
/// visited twice, and nothing below an earlier match is emitted later.
pub proof fn lemma_matches_descend(d1: PathView, between: PathView, d2: PathView)
    requires
        parent_view(d1) == Some(between),
        is_ancestor_of(d2, between),
    ensures
        is_ancestor_of(d2, d1),
        d2.parts.len() < d1.parts.len(),
{
    assert(d1.parts.take(d1.parts.len() - 1) =~= d1.parts.drop_last());
    assert(is_ancestor_of(between, d1));
    crate::path::lemma_ancestor_transitive(d2, between, d1);
}

/// Whether a search's walk starts at `n` itself or, where `n` named an
/// existing regular file, at `n`'s parent.
pub open spec fn starts_at(itv: FindIterView, n: PathView) -> bool {
    ||| itv.current == Some(n)
    ||| (parent_view(n) matches Some(d) && itv.current == Some(d))
}

/// Resolves `input` against `base` when `input` is relative, and normalizes
/// the result lexically.
pub fn resolve_start(input: &LexPath, base: &LexPath) -> (r: LexPath)
    ensures
        input@.absolute ==> r@ == norm_view(input@),
        !input@.absolute ==> r@ == norm_view(join_view(base@, input@)),
{
    if input.is_absolute() {
        normalize_path(input)
    } else {
        let joined = base.join_path(input);
        normalize_path(&joined)
    }
}

/// Chooses the directory where the walk starts: the normalized starting path
/// itself, or its parent when the path named an existing regular file. A
/// parent-less path stands for itself even then.
pub fn start_dir(normalized: &LexPath, is_file: bool) -> (r: LexPath)
    ensures
        !is_file ==> r@ == normalized@,
        is_file ==> match parent_view(normalized@) {
            Some(d) => r@ == d,
            None => r@ == normalized@,
        },
{
    if is_file {
        match normalized.parent() {
            Some(d) => d,
            None => normalized.duplicate(),
        }
    } else {
        normalized.duplicate()
    }
}

/// The base for a relative input when the caller named none: the working
/// directory as the file system reported it, or `.` when it could not be
/// determined — a silent fallback, never an error.
pub fn default_base(cwd: Option<String>) -> (r: LexPath)
    ensures
        cwd matches Some(c) ==> r@ == spec_parse(c@),
        cwd is None ==> r@ == spec_parse("."@),
{
    match cwd {
        Some(c) => LexPath::parse(c.as_str()),
        None => LexPath::parse("."),
    }
}

/// Builds a search for `file_name` (`Cargo.toml` when absent), starting from
/// `input`: a relative `input` is resolved against `base`, or against the
/// current working directory when `base` is absent (against `.` when even
/// that cannot be determined); the result is normalized lexically, and a
/// path that names an existing regular file is replaced by its parent
/// directory. No input makes this fail: a path that does not exist simply
/// yields a search with no matches.
pub fn find(input: &str, base: Option<&str>, file_name: Option<&str>) -> (it: FindIter)
    ensures
        it@.file_name == match file_name {
            Some(n) => n@,
            None => default_file_name(),
        },
        it@.current is Some,
        spec_parse(input@).absolute ==> starts_at(it@, norm_view(spec_parse(input@))),
        base matches Some(b) ==> (!spec_parse(input@).absolute ==> starts_at(
            it@,
            norm_view(join_view(spec_parse(b@), spec_parse(input@))),
        )),
        (!spec_parse(input@).absolute && base is None) ==> exists|c: Seq<char>|
            starts_at(it@, norm_view(join_view(#[trigger] spec_parse(c), spec_parse(input@)))),
{
    let name: String = match file_name {
        Some(n) => String::from_str(n),
        None => String::from_str("Cargo.toml"),
    };
    let inp = LexPath::parse(input);
    let ghost mut base_text: Seq<char> = "."@;
    let base_path: LexPath = if inp.is_absolute() {
        LexPath::parse("")
    } else {
        match base {
            Some(b) => LexPath::parse(b),
            None => {
                let cwd = fs_current_dir();
                proof {
                    base_text = match cwd {
                        Some(ref c) => c@,
                        None => "."@,
                    };
                }
                default_base(cwd)
            },
        }
    };
    let normalized = resolve_start(&inp, &base_path);
    let text = normalized.to_text();
    let is_f = fs_is_file(text.as_str());
    let dir = start_dir(&normalized, is_f);
    proof {
        if !spec_parse(input@).absolute && base is None {
            assert(base_path@ == spec_parse(base_text));
        }
    }
    FindIter { current: Some(dir), file_name: name }
}

/// Convenience form of [`find`] that leaves `base` unset, so a relative
/// `input` is resolved against the current working directory.
pub fn find_from_current_dir(input: &str, file_name: Option<&str>) -> (it: FindIter)
    ensures
        it@.file_name == match file_name {
            Some(n) => n@,
            None => default_file_name(),
        },
        it@.current is Some,
        spec_parse(input@).absolute ==> starts_at(it@, norm_view(spec_parse(input@))),
        !spec_parse(input@).absolute ==> exists|c: Seq<char>|
            starts_at(it@, norm_view(join_view(#[trigger] spec_parse(c), spec_parse(input@)))),
{
    find(input, None, file_name)
}

} // verus!
