//! Sandboxed file tools: the path rules that confine every file operation
//! to the sandbox root, and the shadow-write paths of the write guard.
//!
//! Resolving a path on disk (canonicalizing it, checking that it exists)
//! and measuring free disk space are done by the caller, who hands the
//! outcome in as a `PathProbe` and a byte count.
use vstd::prelude::*;
use crate::text::{concat, owned, str_eq, starts_with};

verus! {

/// Free disk space below which writes are refused (500 MiB).
pub const MIN_FREE_BYTES: u64 = 524_288_000;

/// What the file system says of a path.
#[derive(Clone, Debug)]
pub enum PathProbe {
    /// The path exists; its canonical form.
    Resolved(String),
    /// The path does not exist but its parent does; the parent's canonical form.
    ParentResolved(String),
    /// Neither the path nor its parent could be resolved.
    Unresolvable,
}

/// Whether `s` holds two dots in a row.
pub open spec fn has_dotdot(s: Seq<char>) -> bool {
    exists|i: int| 0 <= i < s.len() - 1 && s[i] == '.' && #[trigger] s[i + 1] == '.'
}

/// Whether `p` is `root` or lies under it, component-wise.
pub open spec fn within_root(p: Seq<char>, root: Seq<char>) -> bool {
    p == root || has_prefix(p, root + "/"@) || (root.len() > 0 && root.last() == '/' && has_prefix(p, root))
}

/// Whether `s` begins with `p`.
pub open spec fn has_prefix(s: Seq<char>, p: Seq<char>) -> bool {
    p.len() <= s.len() && s.subrange(0, p.len() as int) == p
}

/// `path` taken from `root`: itself when absolute, else joined to it.
pub open spec fn joined(root: Seq<char>, path: Seq<char>) -> Seq<char> {
    if path.len() > 0 && path[0] == '/' {
        path
    } else if root.len() > 0 && root.last() == '/' {
        root + path
    } else {
        root + "/"@ + path
    }
}

fn contains_dotdot(s: &str) -> (r: bool)
    ensures
        r == has_dotdot(s@),
{
    let n = s.unicode_len();
    if n < 2 {
        return false;
    }
    let mut i: usize = 0;
    while i + 1 < n
        invariant
            n == s@.len(),
            n >= 2,
            i <= n - 1,
            forall|k: int| 0 <= k < i ==> !(s@[k] == '.' && #[trigger] s@[k + 1] == '.'),
        decreases n - i,
    {
        if s.get_char(i) == '.' && s.get_char(i + 1) == '.' {
            return true;
        }
        i = i + 1;
    }
    false
}

fn last_is_slash(s: &str) -> (r: bool)
    ensures
        r == (s@.len() > 0 && s@.last() == '/'),
{
    let n = s.unicode_len();
    n > 0 && s.get_char(n - 1) == '/'
}

fn is_within(p: &str, root: &str) -> (r: bool)
    ensures
        r == within_root(p@, root@),
{
    if str_eq(p, root) {
        return true;
    }
    let with_sep = concat(root, "/");
    if starts_with(p, with_sep.as_str()) {
        return true;
    }
    last_is_slash(root) && starts_with(p, root)
}

/// Confines paths to a sandbox root.
#[derive(Clone, Debug)]
pub struct PathSanitizer {
    pub sandbox_root: String,
}

impl PathSanitizer {
    /// A sanitizer for the sandbox at `sandbox_root`.
    pub fn new(sandbox_root: String) -> (r: Self)
        ensures
            r.sandbox_root == sandbox_root,
    {
        PathSanitizer { sandbox_root }
    }

    /// The path that `path` names from the sandbox root, before resolution.
    pub fn full_path(&self, path: &str) -> (r: String)
        ensures
            r@ == joined(self.sandbox_root@, path@),
    {
        let n = path.unicode_len();
        if n > 0 && path.get_char(0) == '/' {
            owned(path)
        } else if last_is_slash(self.sandbox_root.as_str()) {
            concat(self.sandbox_root.as_str(), path)
        } else {
            let r = concat(concat(self.sandbox_root.as_str(), "/").as_str(), path);
            r
        }
    }

    /// Checks `path` against the sandbox, given what the file system says of
    /// its full path. A path with `..` is refused outright; an existing path
    /// must resolve inside the root, and a new one must have its parent
    /// inside it. Returns the canonical path, or the full path of a new one.
    pub fn sanitize(&self, path: &str, probe: &PathProbe) -> (r: Result<String, String>)
        ensures
            has_dotdot(path@) ==> r is Err,
            !has_dotdot(path@) ==> match probe {
                PathProbe::Resolved(c) => if within_root(c@, self.sandbox_root@) {
                    r matches Ok(p) && p@ == c@
                } else {
                    r is Err
                },
                PathProbe::ParentResolved(c) => if within_root(c@, self.sandbox_root@) {
                    r matches Ok(p) && p@ == joined(self.sandbox_root@, path@)
                } else {
                    r is Err
                },
                PathProbe::Unresolvable => r is Err,
            },
    {
        if contains_dotdot(path) {
            return Err(owned("Path traversal (..) is not allowed"));
        }
        match probe {
            PathProbe::Resolved(c) => {
                if !is_within(c.as_str(), self.sandbox_root.as_str()) {
                    return Err(concat(concat("Path '", path).as_str(), "' resolves outside the sandbox"));
                }
                Ok(c.clone())
            },
            PathProbe::ParentResolved(c) => {
                if !is_within(c.as_str(), self.sandbox_root.as_str()) {
                    return Err(concat(concat("Path '", path).as_str(), "' is outside the sandbox"));
                }
                Ok(self.full_path(path))
            },
            PathProbe::Unresolvable => Err(concat(
                concat("Path '", path).as_str(),
                "' does not exist and cannot be verified",
            )),
        }
    }
}

/// Position of the last `/` in `s`, if any.
pub open spec fn last_slash(s: Seq<char>) -> Option<int> {
    if exists|i: int| 0 <= i < s.len() && s[i] == '/' {
        Some(choose|i: int| 0 <= i < s.len() && s[i] == '/' && forall|j: int| i < j < s.len() ==> s[j] != '/')
    } else {
        None
    }
}

fn find_last_slash(s: &str) -> (r: Option<usize>)
    ensures
        match r {
            Some(i) => i < s@.len() && s@[i as int] == '/' && forall|j: int| i < j < s@.len() ==> s@[j] != '/',
            None => forall|j: int| 0 <= j < s@.len() ==> s@[j] != '/',
        },
        r matches Some(i) ==> last_slash(s@) == Some(i as int),
        r is None ==> last_slash(s@) is None,
{
    let mut i = s.unicode_len();
    while i > 0
        invariant
            i <= s@.len(),
            forall|j: int| i <= j < s@.len() ==> s@[j] != '/',
        decreases i,
    {
        if s.get_char(i - 1) == '/' {
            proof {
                let w = (i - 1) as int;
                let c = choose|k: int| 0 <= k < s@.len() && s@[k] == '/' && forall|j: int| k < j < s@.len() ==> s@[j] != '/';
                if c < w {
                    assert(s@[w] != '/');
                }
                if c > w {
                    assert(s@[c] != '/');
                }
            }
            return Some(i - 1);
        }
        i = i - 1;
    }
    None
}

/// The sibling path a write to `target` goes to first: `.name.tmp` for a
/// file, `.tmp_dir_name` for a directory, in the same parent.
pub open spec fn shadow_path(target: Seq<char>, is_dir: bool) -> Option<Seq<char>> {
    match last_slash(target) {
        Some(i) => {
            let parent = target.subrange(0, i);
            let name = target.subrange(i + 1, target.len() as int);
            if name.len() == 0 {
                None
            } else if is_dir {
                Some(parent + "/.tmp_dir_"@ + name)
            } else {
                Some(parent + "/."@ + name + ".tmp"@)
            }
        },
        None => None,
    }
}

/// A pending shadow write: the target and the sibling written first.
#[derive(Clone, Debug)]
pub struct FileStateGuard {
    pub target_path: String,
    pub temp_path: String,
    pub is_dir: bool,
    pub completed: bool,
}

/// Whether `available` free bytes allow a write.
pub fn check_disk_health(available: u64) -> (r: Result<(), String>)
    ensures
        r is Ok <==> available >= MIN_FREE_BYTES,
{
    if available < MIN_FREE_BYTES {
        return Err(owned("SpaceSentry: Disk space critical (<500MB). FS Writes Halted."));
    }
    Ok(())
}

impl FileStateGuard {
    /// A guard for writing the file `path`.
    pub fn new(sanitizer: &PathSanitizer, path: &str, probe: &PathProbe, available: u64) -> (r: Result<Self, String>)
        ensures
            r matches Ok(g) ==> guard_of(sanitizer, path@, probe, available, false, g),
            r is Err ==> !guard_possible(sanitizer, path@, probe, available, false),
    {
        Self::create_guard(sanitizer, path, probe, available, false)
    }

    /// A guard for creating the directory `path`.
    pub fn new_dir(sanitizer: &PathSanitizer, path: &str, probe: &PathProbe, available: u64) -> (r: Result<Self, String>)
        ensures
            r matches Ok(g) ==> guard_of(sanitizer, path@, probe, available, true, g),
            r is Err ==> !guard_possible(sanitizer, path@, probe, available, true),
    {
        Self::create_guard(sanitizer, path, probe, available, true)
    }

    fn create_guard(sanitizer: &PathSanitizer, path: &str, probe: &PathProbe, available: u64, is_dir: bool) -> (r: Result<
        Self,
        String,
    >)
        ensures
            r matches Ok(g) ==> guard_of(sanitizer, path@, probe, available, is_dir, g),
            r is Err ==> !guard_possible(sanitizer, path@, probe, available, is_dir),
    {
        check_disk_health(available)?;
        let target = sanitizer.sanitize(path, probe)?;
        let i = match find_last_slash(target.as_str()) {
            Some(i) => i,
            None => {
                return Err(owned("Invalid parent dir"));
            },
        };
        let n = target.as_str().unicode_len();
        if i + 1 == n {
            return Err(owned("Invalid file/dir name"));
        }
        let parent = target.as_str().substring_char(0, i);
        let name = target.as_str().substring_char(i + 1, n);
        let temp = if is_dir {
            concat(concat(parent, "/.tmp_dir_").as_str(), name)
        } else {
            concat(concat(concat(parent, "/.").as_str(), name).as_str(), ".tmp")
        };
        Ok(FileStateGuard { target_path: target, temp_path: temp, is_dir, completed: false })
    }

    /// The path to write to: the shadow sibling.
    pub fn path(&self) -> (r: &String)
        ensures
            r == &self.temp_path,
    {
        &self.temp_path
    }
}

/// What `sanitize` accepts `path` as, if it does.
pub open spec fn sanitized(s: &PathSanitizer, path: Seq<char>, probe: &PathProbe) -> Option<Seq<char>> {
    if has_dotdot(path) {
        None
    } else {
        match probe {
            PathProbe::Resolved(c) => if within_root(c@, s.sandbox_root@) { Some(c@) } else { None },
            PathProbe::ParentResolved(c) => if within_root(c@, s.sandbox_root@) {
                Some(joined(s.sandbox_root@, path))
            } else {
                None
            },
            PathProbe::Unresolvable => None,
        }
    }
}

/// Whether a guard can be made: space is left, the path is accepted, and
/// its target has a parent and a name.
pub open spec fn guard_possible(s: &PathSanitizer, path: Seq<char>, probe: &PathProbe, available: u64, is_dir: bool) -> bool {
    available >= MIN_FREE_BYTES && match sanitized(s, path, probe) {
        Some(t) => shadow_path(t, is_dir) is Some,
        None => false,
    }
}

/// Whether `g` is the guard made for `path`.
pub open spec fn guard_of(s: &PathSanitizer, path: Seq<char>, probe: &PathProbe, available: u64, is_dir: bool, g: FileStateGuard) -> bool {
    &&& guard_possible(s, path, probe, available, is_dir)
    &&& Some(g.target_path@) == sanitized(s, path, probe)
    &&& Some(g.temp_path@) == shadow_path(g.target_path@, is_dir)
    &&& g.is_dir == is_dir
    &&& !g.completed
}

/// Watches the free space of the system disk; once it runs low every
/// check fails until a fresh reading shows enough space again.
pub struct SpaceSentry {
    pub critical: bool,
}

impl SpaceSentry {
    /// A sentry that has seen no low reading.
    pub fn new() -> (r: Self)
        ensures
            !r.critical,
    {
        SpaceSentry { critical: false }
    }

    /// Takes a fresh reading of the system disk's free bytes (`None` when
    /// no system disk was found): critical exactly when it is below the
    /// threshold.
    pub fn refresh_and_verify(&mut self, available: Option<u64>)
        ensures
            final(self).critical == (available matches Some(a) && a < MIN_FREE_BYTES),
    {
        self.critical = match available {
            Some(a) => a < MIN_FREE_BYTES,
            None => false,
        };
    }

    /// Fails while the disk is critical. A critical sentry first takes the
    /// fresh reading `available`; a healthy one keeps its state.
    pub fn check_vital_signs(&mut self, available: Option<u64>) -> (r: Result<(), String>)
        ensures
            !old(self).critical ==> r is Ok && !final(self).critical,
            old(self).critical ==> final(self).critical == (available matches Some(a) && a < MIN_FREE_BYTES),
            r is Err <==> final(self).critical,
    {
        if self.critical {
            self.refresh_and_verify(available);
            if self.critical {
                return Err(owned("CRITICAL: Disk Space Low (<500MB). Titans Halted. Action: Clean Disk."));
            }
        }
        Ok(())
    }
}

/// Parameters of the read-file tool.
#[derive(Clone, Debug)]
pub struct ReadFileParams {
    pub path: String,
}

/// Parameters of the write-file tool.
#[derive(Clone, Debug)]
pub struct WriteFileParams {
    pub path: String,
    pub content: String,
}

/// Parameters of the move-file tool.
#[derive(Clone, Debug)]
pub struct MoveFileParams {
    pub from: String,
    pub to: String,
}

/// Parameters of the delete-file tool.
#[derive(Clone, Debug)]
pub struct DeleteFileParams {
    pub path: String,
}

/// Parameters of the create-directory tool.
#[derive(Clone, Debug)]
pub struct CreateDirParams {
    pub path: String,
}

/// Parameters of the delete-directory tool.
#[derive(Clone, Debug)]
pub struct DeleteDirParams {
    pub path: String,
    pub recursive: Option<bool>,
}

/// Parameters of the list-directory tool.
#[derive(Clone, Debug)]
pub struct ListDirParams {
    pub path: Option<String>,
}

/// Reads a file inside the sandbox.
pub struct ReadFile {
    pub sanitizer: PathSanitizer,
}

/// Writes a file inside the sandbox through a shadow write.
pub struct WriteFile {
    pub sanitizer: PathSanitizer,
}

/// Moves a file inside the sandbox.
pub struct MoveFile {
    pub sanitizer: PathSanitizer,
}

/// Deletes a file inside the sandbox.
pub struct DeleteFile {
    pub sanitizer: PathSanitizer,
}

/// Creates a directory inside the sandbox.
pub struct CreateDir {
    pub sanitizer: PathSanitizer,
}

/// Deletes a directory inside the sandbox.
pub struct DeleteDir {
    pub sanitizer: PathSanitizer,
}

/// Lists a directory inside the sandbox.
pub struct ListDir {
    pub sanitizer: PathSanitizer,
}

impl ReadFile {
    /// The tool confined to `sandbox_root`.
    pub fn new(sandbox_root: String) -> (r: Self)
        ensures
            r.sanitizer.sandbox_root == sandbox_root,
    {
        ReadFile { sanitizer: PathSanitizer::new(sandbox_root) }
    }
}

impl WriteFile {
    /// The tool confined to `sandbox_root`.
    pub fn new(sandbox_root: String) -> (r: Self)
        ensures
            r.sanitizer.sandbox_root == sandbox_root,
    {
        WriteFile { sanitizer: PathSanitizer::new(sandbox_root) }
    }
}

impl MoveFile {
    /// The tool confined to `sandbox_root`.
    pub fn new(sandbox_root: String) -> (r: Self)
        ensures
            r.sanitizer.sandbox_root == sandbox_root,
    {
        MoveFile { sanitizer: PathSanitizer::new(sandbox_root) }
    }
}

impl DeleteFile {
    /// The tool confined to `sandbox_root`.
    pub fn new(sandbox_root: String) -> (r: Self)
        ensures
            r.sanitizer.sandbox_root == sandbox_root,
    {
        DeleteFile { sanitizer: PathSanitizer::new(sandbox_root) }
    }
}

impl CreateDir {
    /// The tool confined to `sandbox_root`.
    pub fn new(sandbox_root: String) -> (r: Self)
        ensures
            r.sanitizer.sandbox_root == sandbox_root,
    {
        CreateDir { sanitizer: PathSanitizer::new(sandbox_root) }
    }
}

impl DeleteDir {
    /// The tool confined to `sandbox_root`.
    pub fn new(sandbox_root: String) -> (r: Self)
        ensures
            r.sanitizer.sandbox_root == sandbox_root,
    {
        DeleteDir { sanitizer: PathSanitizer::new(sandbox_root) }
    }
}

impl ListDir {
    /// The tool confined to `sandbox_root`.
    pub fn new(sandbox_root: String) -> (r: Self)
        ensures
            r.sanitizer.sandbox_root == sandbox_root,
    {
        ListDir { sanitizer: PathSanitizer::new(sandbox_root) }
    }
}

/// Parameters of the command tool.
#[derive(Clone, Debug)]
pub struct ExecuteCommandParams {
    pub command: String,
    pub args: Vec<String>,
    pub cwd: Option<String>,
}

/// Runs commands from the sandbox root.
pub struct ExecuteCommand {
    pub sandbox_root: String,
}

impl ExecuteCommand {
    /// The tool rooted at `sandbox_root`.
    pub fn new(sandbox_root: String) -> (r: Self)
        ensures
            r.sandbox_root == sandbox_root,
    {
        ExecuteCommand { sandbox_root }
    }
}

/// Parameters of the function-generation tool.
#[derive(Clone, Debug)]
pub struct GenerateFunctionParams {
    pub description: String,
    pub context: Option<String>,
    pub language: Option<String>,
}

/// Result of the function-generation tool.
#[derive(Clone, Debug)]
pub struct GenerateFunctionResult {
    pub code: String,
    pub explanation: String,
}

} // verus!
