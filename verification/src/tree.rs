//! Paths on both sides of a transfer, and what a transfer of a file or of
//! a tree sets out to do.
use vstd::prelude::*;
use vstd::string::*;
use crate::result::stat::{file_type_of, FileType, StatInfo};
use crate::text::{chars_of, run_end, scan, starts_at, string_of, CharClass};
use crate::{AdbTransportError, ErrorView, PathError};

verus! {

/// `name` below `base`: a name that starts with a slash stands alone;
/// otherwise one slash parts the two, unless `base` is empty or ends with
/// one.
pub open spec fn join(base: Seq<char>, name: Seq<char>) -> Seq<char> {
    if name.len() > 0 && name[0] == '/' {
        name
    } else if base.len() == 0 || base.last() == '/' {
        base + name
    } else {
        base + seq!['/'] + name
    }
}

/// Joins `name` onto `base`.
pub fn join_path(base: &str, name: &str) -> (path: String)
    ensures
        path@ == join(base@, name@),
{
    let b = chars_of(base);
    let n = chars_of(name);
    if n.len() > 0 && n[0] == '/' {
        return String::from_str(name);
    }
    let mut path = String::from_str(base);
    if !(b.len() == 0 || b[b.len() - 1] == '/') {
        path.append("/");
        proof {
            reveal_strlit("/");
            assert("/"@ =~= seq!['/']);
        }
    }
    path.append(name);
    path
}

/// A file to transfer: where it is on the device, and where on this
/// machine.
#[derive(Debug, Clone, PartialEq, Eq)]
pub struct FileItem {
    pub remote_file: String,
    pub local_path: String,
}

/// A file to transfer as contracts speak of it.
pub struct FileItemView {
    pub remote_file: Seq<char>,
    pub local_path: Seq<char>,
}

impl View for FileItem {
    type V = FileItemView;

    open spec fn view(&self) -> FileItemView {
        FileItemView { remote_file: self.remote_file@, local_path: self.local_path@ }
    }
}

/// The files as contracts speak of them.
pub open spec fn file_views(files: Seq<FileItem>) -> Seq<FileItemView> {
    files.map_values(|file: FileItem| file@)
}

/// The texts as contracts speak of them.
pub open spec fn text_views(texts: Seq<String>) -> Seq<Seq<char>> {
    texts.map_values(|text: String| text@)
}

/// The names `.` and `..`.
pub open spec fn is_dot(name: Seq<char>) -> bool {
    name =~= seq!['.'] || name =~= seq!['.', '.']
}

/// The length of `s` without the slashes that it ends with.
pub open spec fn trimmed_len(s: Seq<char>) -> int
    decreases s.len(),
{
    if s.len() > 0 && s.last() == '/' {
        trimmed_len(s.drop_last())
    } else {
        s.len() as int
    }
}

/// Where the last component of `s.take(end)` starts.
pub open spec fn name_start(s: Seq<char>, end: int) -> int
    decreases end,
{
    if 0 < end <= s.len() && s[end - 1] != '/' {
        name_start(s, end - 1)
    } else {
        end
    }
}

/// The last component of `path`, slashes at its end apart; none where that
/// is empty, `.` or `..`.
pub open spec fn base_name(path: Seq<char>) -> Option<Seq<char>> {
    let end = trimmed_len(path);
    let start = name_start(path, end);
    let name = path.subrange(start, end);
    if name.len() == 0 || is_dot(name) {
        None
    } else {
        Some(name)
    }
}

/// Finds the last component of `path`.
#[verifier::rlimit(30)]
pub fn file_name(path: &str) -> (name: Option<String>)
    ensures
        match name {
            Some(n) => base_name(path@) == Some(n@),
            None => base_name(path@) is None,
        },
{
    let chars = chars_of(path);
    let s = chars.as_slice();
    let mut end: usize = s.len();
    assert(s@.take(end as int) =~= s@);
    while end > 0 && s[end - 1] == '/'
        invariant
            end <= s.len(),
            trimmed_len(s@) == trimmed_len(s@.take(end as int)),
        decreases end,
    {
        assert(s@.take(end as int).drop_last() =~= s@.take(end - 1));
        end = end - 1;
    }
    proof {
        if end > 0 {
            assert(s@.take(end as int).last() == s@[end - 1]);
        }
        assert(trimmed_len(s@) == end);
    }
    let mut start: usize = end;
    while start > 0 && s[start - 1] != '/'
        invariant
            start <= end <= s.len(),
            name_start(s@, end as int) == name_start(s@, start as int),
        decreases start,
    {
        start = start - 1;
    }
    let dot = (end - start == 1 && s[start] == '.') || (end - start == 2 && s[start] == '.'
        && s[start + 1] == '.');
    proof {
        let name = s@.subrange(start as int, end as int);
        assert(name_start(s@, end as int) == start);
        if dot {
            if end - start == 1 {
                assert(name =~= seq!['.']);
            } else {
                assert(name =~= seq!['.', '.']);
            }
        } else if is_dot(name) {
            if name =~= seq!['.'] {
                assert(name[0] == '.');
            } else {
                assert(name[0] == '.');
                assert(name[1] == '.');
            }
        }
    }
    if start == end || dot {
        None
    } else {
        Some(string_of(s, start, end))
    }
}

/// What stands at the local destination of a download.
#[derive(Debug, Clone, Copy, PartialEq, Eq, Structural)]
pub enum LocalKind {
    Absent,
    File,
    Directory,
    Other,
}

/// How a download is carried out.
#[derive(Debug, Clone, PartialEq, Eq)]
pub enum PullPlan {
    /// One file, to this local path.
    Single(String),
    /// A whole tree, by a walk.
    Tree,
}

/// A plan as contracts speak of it.
pub enum PullPlanView {
    Single(Seq<char>),
    Tree,
}

impl View for PullPlan {
    type V = PullPlanView;

    open spec fn view(&self) -> PullPlanView {
        match *self {
            PullPlan::Single(path) => PullPlanView::Single(path@),
            PullPlan::Tree => PullPlanView::Tree,
        }
    }
}

/// How the remote `remote`, which is of kind `kind`, is downloaded to
/// `local`, where `local_kind` stands.
///
/// A remote that is absent cannot be downloaded. A directory is
/// downloaded as a tree, unless something other than a directory stands
/// at the destination. Anything else is downloaded as one file: into the
/// destination under its own name where the destination is a directory,
/// and to the destination itself where that is a file or absent.
pub open spec fn pull_plan(
    remote: Seq<char>,
    kind: FileType,
    local: Seq<char>,
    local_kind: LocalKind,
) -> Result<PullPlanView, ErrorView> {
    if kind == FileType::Other {
        Err(ErrorView::InvalidPath(PathError::NotFound))
    } else if kind == FileType::Directory {
        if local_kind == LocalKind::Absent || local_kind == LocalKind::Directory {
            Ok(PullPlanView::Tree)
        } else {
            Err(ErrorView::InvalidPath(PathError::NotADirectory))
        }
    } else {
        match local_kind {
            LocalKind::Absent => Ok(PullPlanView::Single(local)),
            LocalKind::File => Ok(PullPlanView::Single(local)),
            LocalKind::Directory => match base_name(remote) {
                Some(name) => Ok(PullPlanView::Single(join(local, name))),
                None => Err(ErrorView::InvalidPath(PathError::NoFileName)),
            },
            LocalKind::Other => Err(ErrorView::InvalidPath(PathError::NotAllowed)),
        }
    }
}

/// Decides how a download is carried out.
pub fn pull_target(remote: &str, kind: FileType, local: &str, local_kind: LocalKind) -> (r: Result<
    PullPlan,
    AdbTransportError,
>)
    ensures
        match r {
            Ok(plan) => pull_plan(remote@, kind, local@, local_kind) == Ok::<
                PullPlanView,
                ErrorView,
            >(plan@),
            Err(e) => pull_plan(remote@, kind, local@, local_kind) == Err::<
                PullPlanView,
                ErrorView,
            >(e@),
        },
{
    if kind == FileType::Other {
        Err(AdbTransportError::InvalidPath(PathError::NotFound))
    } else if kind == FileType::Directory {
        if local_kind == LocalKind::Absent || local_kind == LocalKind::Directory {
            Ok(PullPlan::Tree)
        } else {
            Err(AdbTransportError::InvalidPath(PathError::NotADirectory))
        }
    } else {
        match local_kind {
            LocalKind::Absent => Ok(PullPlan::Single(String::from_str(local))),
            LocalKind::File => Ok(PullPlan::Single(String::from_str(local))),
            LocalKind::Directory => match file_name(remote) {
                Some(name) => Ok(PullPlan::Single(join_path(local, name.as_str()))),
                None => Err(AdbTransportError::InvalidPath(PathError::NoFileName)),
            },
            LocalKind::Other => Err(AdbTransportError::InvalidPath(PathError::NotAllowed)),
        }
    }
}

/// The kind of what stands at a remote path, from the answer to a `STAT`
/// request: the end-of-stream sentinel in place of the record means that
/// nothing stands there.
pub fn remote_kind(stat: Result<StatInfo, AdbTransportError>) -> (r: Result<
    FileType,
    AdbTransportError,
>)
    ensures
        match stat {
            Ok(info) => r == Ok::<FileType, AdbTransportError>(file_type_of(info.mode)),
            Err(AdbTransportError::EOF) => r == Ok::<FileType, AdbTransportError>(FileType::Other),
            Err(e) => r == Err::<FileType, AdbTransportError>(e),
        },
{
    match stat {
        Ok(info) => Ok(info.get_file_type()),
        Err(AdbTransportError::EOF) => Ok(FileType::Other),
        Err(e) => Err(e),
    }
}

/// Whether a directory may be uploaded onto a remote of kind `kind`: onto
/// a directory, or where nothing stands yet.
pub fn push_target(kind: FileType) -> (r: Result<(), AdbTransportError>)
    ensures
        match r {
            Ok(_) => kind == FileType::Directory || kind == FileType::Other,
            Err(e) => !(kind == FileType::Directory || kind == FileType::Other) && e@
                == ErrorView::InvalidPath(PathError::NotADirectory),
        },
{
    if kind == FileType::Directory || kind == FileType::Other {
        Ok(())
    } else {
        Err(AdbTransportError::InvalidPath(PathError::NotADirectory))
    }
}

/// How an upload is carried out.
#[derive(Debug, Clone, Copy, PartialEq, Eq, Structural)]
pub enum PushPlan {
    /// One file.
    Single,
    /// A whole tree, file by file.
    Tree,
}

/// Decides how what stands at the local source is uploaded: a file by
/// itself, a directory as a tree. Nothing can be uploaded from a path
/// where nothing stands, or where something else does.
pub fn push_source(local_kind: LocalKind) -> (r: Result<PushPlan, AdbTransportError>)
    ensures
        match r {
            Ok(plan) => match local_kind {
                LocalKind::File => plan == PushPlan::Single,
                LocalKind::Directory => plan == PushPlan::Tree,
                _ => false,
            },
            Err(e) => match local_kind {
                LocalKind::Absent => e@ == ErrorView::InvalidPath(PathError::NotFound),
                LocalKind::Other => e@ == ErrorView::InvalidPath(PathError::NotAllowed),
                _ => false,
            },
        },
{
    match local_kind {
        LocalKind::File => Ok(PushPlan::Single),
        LocalKind::Directory => Ok(PushPlan::Tree),
        LocalKind::Absent => Err(AdbTransportError::InvalidPath(PathError::NotFound)),
        LocalKind::Other => Err(AdbTransportError::InvalidPath(PathError::NotAllowed)),
    }
}

/// One entry of the walk over a local tree.
#[derive(Debug, Clone, PartialEq, Eq)]
pub struct LocalEntry {
    pub path: String,
    pub is_file: bool,
    pub is_dir: bool,
    pub is_symlink: bool,
}

/// The path of `path` below the directory `base`: what follows `base` in
/// it, without the slashes that part the two. None where `path` does not
/// lie below `base`.
pub open spec fn relative(path: Seq<char>, base: Seq<char>) -> Option<Seq<char>> {
    let rest_from = run_end(path, base.len() as int, CharClass::Slash);
    if base.is_prefix_of(path) && (base.len() == path.len() || base.len() == 0 || base.last() == '/'
        || base.len() < rest_from) {
        Some(path.subrange(rest_from, path.len() as int))
    } else {
        None
    }
}

/// Finds the path of `path` below the directory `base`.
pub fn relative_to(path: &str, base: &str) -> (rel: Option<String>)
    ensures
        match rel {
            Some(r) => relative(path@, base@) == Some(r@),
            None => relative(path@, base@) is None,
        },
{
    let p = chars_of(path);
    let b = chars_of(base);
    let s = p.as_slice();
    if b.len() > s.len() || !starts_at(s, 0, b.as_slice()) {
        proof {
            if base@.is_prefix_of(path@) {
                assert(path@.subrange(0, base@.len() as int) =~= base@);
            }
        }
        return None;
    }
    assert(path@.subrange(0, base@.len() as int) == base@);
    let rest_from = scan(s, b.len(), CharClass::Slash);
    if b.len() == s.len() || b.len() == 0 || b[b.len() - 1] == '/' || b.len() < rest_from {
        Some(string_of(s, rest_from, s.len()))
    } else {
        None
    }
}

/// The files that the upload of a tree transfers: every entry of the walk
/// that is a regular file and no symbolic link, in the order of the walk,
/// to its own path below `remote`. Directories are not transferred: the
/// device makes them as files arrive. None where such a file does not lie
/// below `base`.
pub open spec fn push_files(
    entries: Seq<LocalEntry>,
    base: Seq<char>,
    remote: Seq<char>,
) -> Option<Seq<FileItemView>>
    decreases entries.len(),
{
    if entries.len() == 0 {
        Some(Seq::empty())
    } else {
        let last = entries.last();
        match push_files(entries.drop_last(), base, remote) {
            None => None,
            Some(earlier) => if last.is_file && !last.is_symlink {
                match relative(last.path@, base) {
                    None => None,
                    Some(rel) => Some(
                        earlier.push(
                            FileItemView { remote_file: join(remote, rel), local_path: last.path@ },
                        ),
                    ),
                }
            } else {
                Some(earlier)
            },
        }
    }
}

/// Plans the upload of the local tree at `base` to the remote directory
/// `remote`, from the entries of a walk over the tree.
pub fn push_plan(base: &str, remote: &str, entries: &Vec<LocalEntry>) -> (r: Result<
    Vec<FileItem>,
    AdbTransportError,
>)
    ensures
        match r {
            Ok(files) => push_files(entries@, base@, remote@) == Some(file_views(files@)),
            Err(e) => push_files(entries@, base@, remote@) is None && e@ == ErrorView::InvalidPath(
                PathError::OutsideTree,
            ),
        },
{
    let mut files: Vec<FileItem> = Vec::new();
    let mut i: usize = 0;
    assert(entries@.take(0) =~= Seq::<LocalEntry>::empty());
    assert(file_views(files@) =~= Seq::<FileItemView>::empty());
    while i < entries.len()
        invariant
            i <= entries.len(),
            push_files(entries@.take(i as int), base@, remote@) == Some(file_views(files@)),
        decreases entries.len() - i,
    {
        let entry = &entries[i];
        let ghost earlier = file_views(files@);
        proof {
            assert(entries@.take(i + 1).drop_last() =~= entries@.take(i as int));
            assert(entries@.take(i + 1).last() == entries@[i as int]);
        }
        if entry.is_file && !entry.is_symlink {
            match relative_to(entry.path.as_str(), base) {
                None => {
                    proof {
                        lemma_push_files_fail(entries@, i + 1, base@, remote@);
                    }
                    return Err(AdbTransportError::InvalidPath(PathError::OutsideTree));
                },
                Some(rel) => {
                    let file = FileItem {
                        remote_file: join_path(remote, rel.as_str()),
                        local_path: entry.path.clone(),
                    };
                    let ghost item = file@;
                    files.push(file);
                    assert(file_views(files@) =~= earlier.push(item));
                },
            }
        }
        i = i + 1;
    }
    assert(entries@.take(entries.len() as int) =~= entries@);
    Ok(files)
}

proof fn lemma_push_files_fail(entries: Seq<LocalEntry>, k: int, base: Seq<char>, remote: Seq<char>)
    requires
        0 <= k <= entries.len(),
        push_files(entries.take(k), base, remote) is None,
    ensures
        push_files(entries, base, remote) is None,
    decreases entries.len() - k,
{
    if k < entries.len() {
        assert(entries.take(k + 1).drop_last() =~= entries.take(k));
        lemma_push_files_fail(entries, k + 1, base, remote);
    } else {
        assert(entries.take(k) =~= entries);
    }
}

} // verus!
