//! The download of a whole directory tree: which remote directories to
//! list, which local directories to make, which files to download.
//!
//! The walk is depth first: a directory is entered as soon as it is found,
//! so every directory is recorded before anything below it.
use vstd::prelude::*;
use vstd::string::*;
use crate::result::dent::{DentView, SyncDent};
use crate::result::stat::{file_type_of, FileType};
use crate::text::chars_of;
use crate::tree::{file_views, is_dot, join, join_path, text_views, FileItem, FileItemView};

verus! {

/// What a tree walk does with one entry of a listing.
#[derive(Debug, Clone, Copy, PartialEq, Eq, Structural)]
pub enum WalkStep {
    /// A directory: it is recorded, and listed in its turn.
    Descend,
    /// A regular file: it is recorded for transfer.
    Collect,
    /// Anything else: it is passed over.
    Skip,
}

/// What a tree walk does with `entry`: the entries named `.` and `..` are
/// passed over whatever their kind; of the others, a directory is
/// descended into, a regular file is collected, and the rest is passed
/// over.
pub open spec fn walk_step(entry: DentView) -> WalkStep {
    if is_dot(entry.name) {
        WalkStep::Skip
    } else {
        match file_type_of(entry.mode) {
            FileType::Directory => WalkStep::Descend,
            FileType::File => WalkStep::Collect,
            _ => WalkStep::Skip,
        }
    }
}

/// Decides what a tree walk does with `entry`.
pub fn classify(entry: &SyncDent) -> (step: WalkStep)
    ensures
        step == walk_step(entry@),
{
    let name = chars_of(entry.name.as_str());
    let dot = (name.len() == 1 && name[0] == '.') || (name.len() == 2 && name[0] == '.' && name[1]
        == '.');
    if dot {
        WalkStep::Skip
    } else {
        match FileType::from_mode(entry.mode) {
            FileType::Directory => WalkStep::Descend,
            FileType::File => WalkStep::Collect,
            _ => WalkStep::Skip,
        }
    }
}

/// An entry that a walk has yet to visit.
struct Visit {
    remote: String,
    local: String,
    directory: bool,
}

/// An entry that a walk has yet to visit, as contracts speak of it.
pub struct VisitView {
    pub remote: Seq<char>,
    pub local: Seq<char>,
    pub directory: bool,
}

impl View for Visit {
    type V = VisitView;

    closed spec fn view(&self) -> VisitView {
        VisitView { remote: self.remote@, local: self.local@, directory: self.directory }
    }
}

spec fn visit_views(visits: Seq<Visit>) -> Seq<VisitView> {
    visits.map_values(|visit: Visit| visit@)
}

/// The state of a walk over a remote tree.
pub struct WalkView {
    /// The local directories to make, in the order of their discovery.
    pub dirs: Seq<Seq<char>>,
    /// The files to download, in the order of their discovery.
    pub files: Seq<FileItemView>,
    /// The entries yet to visit; the last one is visited next.
    pub todo: Seq<VisitView>,
    /// The remote directory whose listing the walk waits for, and the
    /// local directory that stands for it; none when the walk is over.
    pub pending: Option<(Seq<char>, Seq<char>)>,
}

/// The entries of one listing that a walk visits, stacked so that the
/// first of the listing is visited first. The listing is that of the
/// remote directory `remote`, which `local` stands for.
pub open spec fn stacked(entries: Seq<DentView>, remote: Seq<char>, local: Seq<char>) -> Seq<
    VisitView,
>
    decreases entries.len(),
{
    if entries.len() == 0 {
        Seq::empty()
    } else {
        let later = stacked(entries.skip(1), remote, local);
        let first = entries[0];
        match walk_step(first) {
            WalkStep::Skip => later,
            WalkStep::Descend => later.push(
                VisitView {
                    remote: join(remote, first.name),
                    local: join(local, first.name),
                    directory: true,
                },
            ),
            WalkStep::Collect => later.push(
                VisitView {
                    remote: join(remote, first.name),
                    local: join(local, first.name),
                    directory: false,
                },
            ),
        }
    }
}

/// `visit` stands for an entry of the listing `entries` that is named
/// neither `.` nor `..`, under that entry's name below the directory that
/// was listed.
pub open spec fn comes_from(
    visit: VisitView,
    entries: Seq<DentView>,
    remote: Seq<char>,
    local: Seq<char>,
) -> bool {
    exists|i: int|
        0 <= i < entries.len() && !is_dot(entries[i].name) && visit.remote == join(
            remote,
            entries[i].name,
        ) && visit.local == join(local, #[trigger] entries[i].name)
}

/// Every entry that a walk visits comes from an entry of the listing that
/// is named neither `.` nor `..`.
pub proof fn lemma_dot_entries_passed_over(
    entries: Seq<DentView>,
    remote: Seq<char>,
    local: Seq<char>,
)
    ensures
        forall|k: int|
            0 <= k < stacked(entries, remote, local).len() ==> comes_from(
                #[trigger] stacked(entries, remote, local)[k],
                entries,
                remote,
                local,
            ),
    decreases entries.len(),
{
    if entries.len() > 0 {
        let later = entries.skip(1);
        let all = stacked(entries, remote, local);
        let earlier = stacked(later, remote, local);
        lemma_dot_entries_passed_over(later, remote, local);
        assert forall|k: int| 0 <= k < all.len() implies comes_from(
            #[trigger] all[k],
            entries,
            remote,
            local,
        ) by {
            if k < earlier.len() {
                assert(comes_from(earlier[k], later, remote, local));
                let i = choose|i: int|
                    0 <= i < later.len() && !is_dot(later[i].name) && earlier[k].remote == join(
                        remote,
                        later[i].name,
                    ) && earlier[k].local == join(local, #[trigger] later[i].name);
                assert(later[i] == entries[i + 1]);
                assert(all[k] == earlier[k]);
                assert(all[k].local == join(local, entries[i + 1].name));
            } else {
                assert(all[k].local == join(local, entries[0].name));
            }
        }
    }
}

impl WalkView {
    /// The walk goes on from the entries that it has yet to visit: files
    /// are collected until a directory comes up, which is recorded and
    /// whose listing is then waited for; with nothing left, the walk is
    /// over.
    pub open spec fn settle(self) -> WalkView
        decreases self.todo.len(),
    {
        if self.todo.len() == 0 {
            WalkView { pending: None, ..self }
        } else {
            let next = self.todo.last();
            let rest = self.todo.drop_last();
            if next.directory {
                WalkView {
                    dirs: self.dirs.push(next.local),
                    todo: rest,
                    pending: Some((next.remote, next.local)),
                    ..self
                }
            } else {
                WalkView {
                    files: self.files.push(
                        FileItemView { remote_file: next.remote, local_path: next.local },
                    ),
                    todo: rest,
                    ..self
                }.settle()
            }
        }
    }

    /// The walk takes the listing that it waited for: the entries of the
    /// listing are visited before anything that was left to visit, the
    /// first of them first. A walk that is over stays as it is.
    pub open spec fn feed(self, entries: Seq<DentView>) -> WalkView {
        match self.pending {
            None => self,
            Some((remote, local)) => WalkView {
                todo: self.todo + stacked(entries, remote, local),
                pending: None,
                ..self
            }.settle(),
        }
    }

    /// The walk that starts at the remote directory `remote`, for which
    /// the local directory `local` is to be made.
    pub open spec fn start(remote: Seq<char>, local: Seq<char>) -> WalkView {
        WalkView {
            dirs: seq![local],
            files: Seq::empty(),
            todo: Seq::empty(),
            pending: Some((remote, local)),
        }
    }
}

impl WalkView {
    /// While the walk waits for a listing, the local directory that stands
    /// for the listed one is the directory that was recorded last: it is
    /// recorded before anything that the listing will add below it.
    pub open spec fn recorded(self) -> bool {
        self.pending matches Some(pending) ==> self.dirs.len() > 0 && self.dirs.last() == pending.1
    }
}

/// Going on never records anything below a directory before the directory
/// itself.
pub proof fn lemma_settle_records_first(walk: WalkView)
    ensures
        walk.settle().recorded(),
        walk.dirs.is_prefix_of(walk.settle().dirs),
        walk.files.is_prefix_of(walk.settle().files),
    decreases walk.todo.len(),
{
    if walk.todo.len() > 0 {
        let next = walk.todo.last();
        if !next.directory {
            let later = WalkView {
                files: walk.files.push(
                    FileItemView { remote_file: next.remote, local_path: next.local },
                ),
                todo: walk.todo.drop_last(),
                ..walk
            };
            lemma_settle_records_first(later);
            assert(walk.files.is_prefix_of(later.files));
        }
    }
}

/// A directory is recorded before its listing is asked for, at the start
/// of a walk and after every listing that is fed; and what was recorded
/// stays recorded, in its place.
pub proof fn lemma_directories_recorded_first(
    remote: Seq<char>,
    local: Seq<char>,
    walk: WalkView,
    entries: Seq<DentView>,
)
    requires
        walk.recorded(),
    ensures
        WalkView::start(remote, local).recorded(),
        walk.feed(entries).recorded(),
        walk.dirs.is_prefix_of(walk.feed(entries).dirs),
        walk.files.is_prefix_of(walk.feed(entries).files),
{
    match walk.pending {
        None => {},
        Some((r, l)) => {
            lemma_settle_records_first(
                WalkView { todo: walk.todo + stacked(entries, r, l), pending: None, ..walk },
            );
        },
    }
}

/// A walk over a remote tree, depth first: the caller lists the directory
/// that the walk asks for and feeds the listing back, until the walk asks
/// for no more.
pub struct RemoteWalk {
    dirs: Vec<String>,
    files: Vec<FileItem>,
    todo: Vec<Visit>,
    pending: Option<(String, String)>,
}

impl View for RemoteWalk {
    type V = WalkView;

    closed spec fn view(&self) -> WalkView {
        WalkView {
            dirs: text_views(self.dirs@),
            files: file_views(self.files@),
            todo: visit_views(self.todo@),
            pending: match self.pending {
                Some((remote, local)) => Some((remote@, local@)),
                None => None,
            },
        }
    }
}

/// Starts the walk over the remote directory `rpath`, which is to be
/// copied to the local directory `lpath`.
pub fn walk_remote_dirs(rpath: &str, lpath: &str) -> (walk: RemoteWalk)
    ensures
        walk@ == WalkView::start(rpath@, lpath@),
{
    let mut dirs: Vec<String> = Vec::new();
    dirs.push(String::from_str(lpath));
    let walk = RemoteWalk {
        dirs,
        files: Vec::new(),
        todo: Vec::new(),
        pending: Some((String::from_str(rpath), String::from_str(lpath))),
    };
    proof {
        assert(walk@.dirs =~= seq![lpath@]);
        assert(walk@.files =~= Seq::<FileItemView>::empty());
        assert(walk@.todo =~= Seq::<VisitView>::empty());
    }
    walk
}

impl RemoteWalk {
    /// The remote directory to list next; none when the walk is over.
    pub fn next(&self) -> (remote: Option<&str>)
        ensures
            match remote {
                Some(path) => self@.pending matches Some(pending) && pending.0 == path@,
                None => self@.pending is None,
            },
    {
        match &self.pending {
            Some(pending) => Some(pending.0.as_str()),
            None => None,
        }
    }

    fn settle(&mut self)
        ensures
            final(self)@ == old(self)@.settle(),
    {
        loop
            invariant
                self@.settle() == old(self)@.settle(),
            decreases self.todo.len(),
        {
            let ghost before = self@;
            let ghost stack = self.todo@;
            match self.todo.pop() {
                None => {
                    self.pending = None;
                    proof {
                        assert(self@.todo =~= before.todo);
                        assert(self@ == before.settle());
                    }
                    return ;
                },
                Some(visit) => {
                    proof {
                        assert(visit_views(stack).last() == visit@);
                        assert(visit_views(self.todo@) =~= visit_views(stack).drop_last());
                    }
                    if visit.directory {
                        let ghost dirs = self.dirs@;
                        self.dirs.push(visit.local.clone());
                        self.pending = Some((visit.remote, visit.local));
                        proof {
                            assert(text_views(self.dirs@) =~= text_views(dirs).push(visit.local@));
                            assert(self@ == before.settle());
                        }
                        return ;
                    } else {
                        let ghost files = self.files@;
                        let file = FileItem { remote_file: visit.remote, local_path: visit.local };
                        let ghost item = file@;
                        self.files.push(file);
                        proof {
                            assert(file_views(self.files@) =~= file_views(files).push(item));
                            assert(self@.settle() == before.settle());
                        }
                    }
                },
            }
        }
    }

    /// Takes the listing of the directory that the walk asked for.
    pub fn feed(&mut self, entries: &Vec<SyncDent>)
        ensures
            final(self)@ == old(self)@.feed(crate::commands::list::dent_views(entries@)),
    {
        let (remote, local) = match &self.pending {
            None => {
                return ;
            },
            Some(pending) => (pending.0.clone(), pending.1.clone()),
        };
        let ghost listing = crate::commands::list::dent_views(entries@);
        let ghost below = visit_views(self.todo@);
        let mut i: usize = entries.len();
        assert(listing.skip(i as int) =~= Seq::<DentView>::empty());
        assert(below + Seq::<VisitView>::empty() =~= below);
        while i > 0
            invariant
                i <= entries.len(),
                listing == crate::commands::list::dent_views(entries@),
                visit_views(self.todo@) == below + stacked(listing.skip(i as int), remote@, local@),
                self.dirs == old(self).dirs,
                self.files == old(self).files,
                self.pending == old(self).pending,
            decreases i,
        {
            i = i - 1;
            let entry = &entries[i];
            let ghost stack = self.todo@;
            proof {
                assert(listing.skip(i as int).skip(1) =~= listing.skip(i + 1));
                assert(listing.skip(i as int)[0] == entry@);
            }
            match classify(entry) {
                WalkStep::Skip => {},
                WalkStep::Descend => {
                    let visit = Visit {
                        remote: join_path(remote.as_str(), entry.name.as_str()),
                        local: join_path(local.as_str(), entry.name.as_str()),
                        directory: true,
                    };
                    let ghost v = visit@;
                    self.todo.push(visit);
                    assert(visit_views(self.todo@) =~= visit_views(stack).push(v));
                },
                WalkStep::Collect => {
                    let visit = Visit {
                        remote: join_path(remote.as_str(), entry.name.as_str()),
                        local: join_path(local.as_str(), entry.name.as_str()),
                        directory: false,
                    };
                    let ghost v = visit@;
                    self.todo.push(visit);
                    assert(visit_views(self.todo@) =~= visit_views(stack).push(v));
                },
            }
            assert(visit_views(self.todo@) =~= below + stacked(
                listing.skip(i as int),
                remote@,
                local@,
            ));
        }
        assert(listing.skip(0) =~= listing);
        self.pending = None;
        self.settle();
    }

    /// Ends the walk: the local directories to make and the files to
    /// download, each in the order of discovery.
    pub fn finish(self) -> (found: (Vec<String>, Vec<FileItem>))
        ensures
            text_views(found.0@) == self@.dirs,
            file_views(found.1@) == self@.files,
    {
        (self.dirs, self.files)
    }
}

/// One step of carrying out a tree download.
#[derive(Debug, Clone, PartialEq, Eq)]
pub enum PullAction {
    /// Make this local directory, and those above it that are missing.
    CreateDir(String),
    /// Download this file.
    Pull(FileItem),
}

/// A step as contracts speak of it.
pub enum PullActionView {
    CreateDir(Seq<char>),
    Pull(FileItemView),
}

impl View for PullAction {
    type V = PullActionView;

    open spec fn view(&self) -> PullActionView {
        match *self {
            PullAction::CreateDir(path) => PullActionView::CreateDir(path@),
            PullAction::Pull(file) => PullActionView::Pull(file@),
        }
    }
}

/// The steps as contracts speak of them.
pub open spec fn action_views(actions: Seq<PullAction>) -> Seq<PullActionView> {
    actions.map_values(|action: PullAction| action@)
}

/// The steps that make `dirs` and then download `files`, each in its
/// order.
pub open spec fn pull_steps(dirs: Seq<Seq<char>>, files: Seq<FileItemView>) -> Seq<PullActionView> {
    dirs.map_values(|path: Seq<char>| PullActionView::CreateDir(path)) + files.map_values(
        |file: FileItemView| PullActionView::Pull(file),
    )
}

/// Orders what a walk has found into the steps of the download: every
/// directory is made before any file is downloaded.
pub fn walk_pull(dir: Vec<String>, files: Vec<FileItem>) -> (actions: Vec<PullAction>)
    ensures
        action_views(actions@) == pull_steps(text_views(dir@), file_views(files@)),
        forall|i: int, j: int|
            0 <= i < actions.len() && 0 <= j < actions.len() && (#[trigger] actions[i]) is CreateDir
                && (#[trigger] actions[j]) is Pull ==> i < j,
{
    let mut actions: Vec<PullAction> = Vec::new();
    let mut dir = dir;
    let mut files = files;
    let ghost all_dirs = text_views(dir@);
    let ghost all_files = file_views(files@);
    let mut i: usize = 0;
    while i < dir.len()
        invariant
            i <= dir.len(),
            actions.len() == i,
            all_dirs == text_views(dir@),
            action_views(actions@) == all_dirs.take(i as int).map_values(
                |path: Seq<char>| PullActionView::CreateDir(path),
            ),
            forall|k: int| 0 <= k < actions.len() ==> (#[trigger] actions[k]) is CreateDir,
        decreases dir.len() - i,
    {
        let ghost earlier = action_views(actions@);
        let path = dir[i].clone();
        let ghost p = path@;
        actions.push(PullAction::CreateDir(path));
        proof {
            assert(action_views(actions@) =~= earlier.push(PullActionView::CreateDir(p)));
            assert(action_views(actions@) =~= all_dirs.take(i + 1).map_values(
                |path: Seq<char>| PullActionView::CreateDir(path),
            ));
        }
        i = i + 1;
    }
    let ghost made = action_views(actions@);
    let ghost count = dir.len();
    assert(all_dirs.take(dir.len() as int) =~= all_dirs);
    let mut j: usize = 0;
    while j < files.len()
        invariant
            j <= files.len(),
            actions.len() == count + j,
            all_files == file_views(files@),
            action_views(actions@) == made + all_files.take(j as int).map_values(
                |file: FileItemView| PullActionView::Pull(file),
            ),
            forall|k: int| 0 <= k < count ==> (#[trigger] actions[k]) is CreateDir,
            forall|k: int| count <= k < actions.len() ==> (#[trigger] actions[k]) is Pull,
        decreases files.len() - j,
    {
        let ghost earlier = action_views(actions@);
        let file = FileItem {
            remote_file: files[j].remote_file.clone(),
            local_path: files[j].local_path.clone(),
        };
        let ghost f = file@;
        actions.push(PullAction::Pull(file));
        proof {
            assert(action_views(actions@) =~= earlier.push(PullActionView::Pull(f)));
            assert(action_views(actions@) =~= made + all_files.take(j + 1).map_values(
                |file: FileItemView| PullActionView::Pull(file),
            ));
        }
        j = j + 1;
    }
    assert(all_files.take(files.len() as int) =~= all_files);
    actions
}

} // verus!
