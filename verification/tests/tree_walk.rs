use transport::commands::shell::{mkdir, shell};
use transport::result::dent::SyncDent;
use transport::result::stat::{FileType, StatInfo};
use transport::tree::{
    file_name, join_path, pull_target, push_plan, push_source, push_target, relative_to,
    remote_kind, FileItem, LocalEntry, LocalKind, PullPlan, PushPlan,
};
use transport::walk::{classify, walk_pull, walk_remote_dirs, PullAction, WalkStep};
use transport::{AdbCommand, AdbTransportError, PathError};

fn dir(name: &str) -> SyncDent {
    SyncDent { mode: 0o040755, size: 4096, mtime: 1, name: name.to_string() }
}

fn file(name: &str) -> SyncDent {
    SyncDent { mode: 0o100644, size: 10, mtime: 1, name: name.to_string() }
}

fn link(name: &str) -> SyncDent {
    SyncDent { mode: 0o120777, size: 10, mtime: 1, name: name.to_string() }
}

fn item(remote: &str, local: &str) -> FileItem {
    FileItem { remote_file: remote.to_string(), local_path: local.to_string() }
}

#[test]
fn names_are_joined_with_one_slash() {
    assert_eq!(join_path("/sdcard", "a.txt"), "/sdcard/a.txt");
    assert_eq!(join_path("/sdcard/", "a.txt"), "/sdcard/a.txt");
    assert_eq!(join_path("", "a.txt"), "a.txt");
    assert_eq!(join_path("/", "a"), "/a");
    assert_eq!(join_path("out", "/abs"), "/abs");
    assert_eq!(join_path("out", ""), "out/");
    assert_eq!(join_path("a/b", "c/d"), "a/b/c/d");
}

#[test]
fn walk_passes_over_dot_entries_and_special_files() {
    assert_eq!(classify(&dir("sub")), WalkStep::Descend);
    assert_eq!(classify(&file("a.txt")), WalkStep::Collect);
    assert_eq!(classify(&dir(".")), WalkStep::Skip);
    assert_eq!(classify(&dir("..")), WalkStep::Skip);
    assert_eq!(classify(&file(".")), WalkStep::Skip);
    assert_eq!(classify(&file("..")), WalkStep::Skip);
    assert_eq!(classify(&dir("...")), WalkStep::Descend);
    assert_eq!(classify(&file(".hidden")), WalkStep::Collect);
    assert_eq!(classify(&link("l")), WalkStep::Skip);
    assert_eq!(classify(&SyncDent { mode: 0, size: 0, mtime: 0, name: "x".to_string() }), WalkStep::Skip);
}

#[test]
fn tree_is_walked_directories_before_their_files() {
    let mut walk = walk_remote_dirs("a", "a");
    assert_eq!(walk.next(), Some("a"));
    walk.feed(&vec![dir("."), dir(".."), file("b.txt"), dir("c")]);
    assert_eq!(walk.next(), Some("a/c"));
    walk.feed(&vec![dir("."), dir(".."), file("d.txt")]);
    assert_eq!(walk.next(), None);
    let (dirs, files) = walk.finish();
    assert_eq!(dirs, vec!["a".to_string(), "a/c".to_string()]);
    assert_eq!(files, vec![item("a/b.txt", "a/b.txt"), item("a/c/d.txt", "a/c/d.txt")]);
    let actions = walk_pull(dirs, files);
    assert_eq!(
        actions,
        vec![
            PullAction::CreateDir("a".to_string()),
            PullAction::CreateDir("a/c".to_string()),
            PullAction::Pull(item("a/b.txt", "a/b.txt")),
            PullAction::Pull(item("a/c/d.txt", "a/c/d.txt")),
        ]
    );
}

#[test]
fn walk_descends_as_soon_as_a_directory_is_found() {
    let mut walk = walk_remote_dirs("/sdcard/r", "out");
    walk.feed(&vec![dir("x"), file("f"), dir("y"), link("l"), file("g")]);
    assert_eq!(walk.next(), Some("/sdcard/r/x"));
    walk.feed(&vec![file("x1"), dir("xx"), file("x2")]);
    assert_eq!(walk.next(), Some("/sdcard/r/x/xx"));
    walk.feed(&vec![]);
    assert_eq!(walk.next(), Some("/sdcard/r/y"));
    walk.feed(&vec![file("y1")]);
    assert_eq!(walk.next(), None);
    walk.feed(&vec![file("late")]);
    assert_eq!(walk.next(), None);
    let (dirs, files) = walk.finish();
    assert_eq!(dirs, vec!["out", "out/x", "out/x/xx", "out/y"]);
    assert_eq!(
        files,
        vec![
            item("/sdcard/r/x/x1", "out/x/x1"),
            item("/sdcard/r/x/x2", "out/x/x2"),
            item("/sdcard/r/f", "out/f"),
            item("/sdcard/r/y/y1", "out/y/y1"),
            item("/sdcard/r/g", "out/g"),
        ]
    );
}

#[test]
fn walk_over_an_empty_directory_makes_the_root_alone() {
    let mut walk = walk_remote_dirs("/sdcard/empty", "here");
    walk.feed(&vec![dir("."), dir("..")]);
    assert_eq!(walk.next(), None);
    let (dirs, files) = walk.finish();
    assert_eq!(dirs, vec!["here"]);
    assert!(files.is_empty());
    assert_eq!(walk_pull(dirs, files), vec![PullAction::CreateDir("here".to_string())]);
}

#[test]
fn last_component_names_the_file() {
    assert_eq!(file_name("/system/build.prop"), Some("build.prop".to_string()));
    assert_eq!(file_name("build.prop"), Some("build.prop".to_string()));
    assert_eq!(file_name("/sdcard/Download/"), Some("Download".to_string()));
    assert_eq!(file_name("/sdcard/Download///"), Some("Download".to_string()));
    assert_eq!(file_name("/"), None);
    assert_eq!(file_name(""), None);
    assert_eq!(file_name("a/.."), None);
    assert_eq!(file_name(".."), None);
    assert_eq!(file_name("a/."), None);
    assert_eq!(file_name("a/..."), Some("...".to_string()));
}

#[test]
fn download_of_what_does_not_exist_is_refused() {
    assert_eq!(
        pull_target("/sdcard/none", FileType::Other, "out", LocalKind::Absent),
        Err(AdbTransportError::InvalidPath(PathError::NotFound))
    );
}

#[test]
fn download_of_a_file_resolves_the_destination() {
    let remote = "/system/build.prop";
    assert_eq!(
        pull_target(remote, FileType::File, "out.prop", LocalKind::Absent),
        Ok(PullPlan::Single("out.prop".to_string()))
    );
    assert_eq!(
        pull_target(remote, FileType::File, "out.prop", LocalKind::File),
        Ok(PullPlan::Single("out.prop".to_string()))
    );
    assert_eq!(
        pull_target(remote, FileType::File, "out", LocalKind::Directory),
        Ok(PullPlan::Single("out/build.prop".to_string()))
    );
    assert_eq!(
        pull_target(remote, FileType::Link, "out/", LocalKind::Directory),
        Ok(PullPlan::Single("out/build.prop".to_string()))
    );
    assert_eq!(
        pull_target(remote, FileType::File, "/dev/null", LocalKind::Other),
        Err(AdbTransportError::InvalidPath(PathError::NotAllowed))
    );
    assert_eq!(
        pull_target("/", FileType::File, "out", LocalKind::Directory),
        Err(AdbTransportError::InvalidPath(PathError::NoFileName))
    );
}

#[test]
fn download_of_a_directory_is_a_tree() {
    assert_eq!(pull_target("/sdcard/d", FileType::Directory, "out", LocalKind::Absent), Ok(PullPlan::Tree));
    assert_eq!(pull_target("/sdcard/d", FileType::Directory, "out", LocalKind::Directory), Ok(PullPlan::Tree));
    assert_eq!(
        pull_target("/sdcard/d", FileType::Directory, "out", LocalKind::File),
        Err(AdbTransportError::InvalidPath(PathError::NotADirectory))
    );
    assert_eq!(
        pull_target("/sdcard/d", FileType::Directory, "out", LocalKind::Other),
        Err(AdbTransportError::InvalidPath(PathError::NotADirectory))
    );
}

#[test]
fn sentinel_in_place_of_metadata_means_absent() {
    let info = StatInfo { mode: 0o040755, size: 0, mtime: 0 };
    assert_eq!(remote_kind(Ok(info)), Ok(FileType::Directory));
    assert_eq!(remote_kind(Err(AdbTransportError::EOF)), Ok(FileType::Other));
    let failure = AdbTransportError::AdbError("denied".to_string());
    assert_eq!(remote_kind(Err(failure.clone())), Err(failure));
}

#[test]
fn directory_is_uploaded_onto_a_directory_or_nothing() {
    assert_eq!(push_target(FileType::Directory), Ok(()));
    assert_eq!(push_target(FileType::Other), Ok(()));
    for kind in [FileType::File, FileType::Link, FileType::BlockDevice, FileType::CharDevice, FileType::Socket, FileType::Fifo] {
        assert_eq!(push_target(kind), Err(AdbTransportError::InvalidPath(PathError::NotADirectory)));
    }
}

#[test]
fn path_below_a_directory_is_what_follows_it() {
    assert_eq!(relative_to("proj/src/main.rs", "proj"), Some("src/main.rs".to_string()));
    assert_eq!(relative_to("proj/src/main.rs", "proj/"), Some("src/main.rs".to_string()));
    assert_eq!(relative_to("proj//src", "proj"), Some("src".to_string()));
    assert_eq!(relative_to("proj", "proj"), Some(String::new()));
    assert_eq!(relative_to("a/b", ""), Some("a/b".to_string()));
    assert_eq!(relative_to("project/src", "proj"), None);
    assert_eq!(relative_to("other/src", "proj"), None);
    assert_eq!(relative_to("pro", "proj"), None);
}

fn entry(path: &str, is_file: bool, is_dir: bool, is_symlink: bool) -> LocalEntry {
    LocalEntry { path: path.to_string(), is_file, is_dir, is_symlink }
}

#[test]
fn upload_of_a_tree_transfers_its_regular_files() {
    let entries = vec![
        entry("proj", false, true, false),
        entry("proj/a.txt", true, false, false),
        entry("proj/link", true, false, true),
        entry("proj/src", false, true, false),
        entry("proj/src/main.rs", true, false, false),
        entry("proj/dangling", false, false, true),
    ];
    assert_eq!(
        push_plan("proj", "/sdcard/dest", &entries),
        Ok(vec![
            item("/sdcard/dest/a.txt", "proj/a.txt"),
            item("/sdcard/dest/src/main.rs", "proj/src/main.rs"),
        ])
    );
    assert_eq!(push_plan("proj", "/sdcard/dest", &vec![]), Ok(vec![]));
}

#[test]
fn upload_of_a_file_outside_the_tree_is_refused() {
    let entries = vec![entry("proj/a.txt", true, false, false), entry("elsewhere/b.txt", true, false, false)];
    assert_eq!(
        push_plan("proj", "/sdcard/dest", &entries),
        Err(AdbTransportError::InvalidPath(PathError::OutsideTree))
    );
    let entries = vec![entry("elsewhere", false, true, false), entry("proj/a.txt", true, false, false)];
    assert_eq!(push_plan("proj", "d", &entries), Ok(vec![item("d/a.txt", "proj/a.txt")]));
}

#[test]
fn command_line_is_joined_with_spaces() {
    assert!(matches!(shell(&vec![]), AdbCommand::ShellExec(line) if line.is_empty()));
    assert!(matches!(shell(&vec!["ls".to_string()]), AdbCommand::ShellExec(line) if line == "ls"));
    let words = vec!["echo".to_string(), "a b".to_string(), String::new(), "c".to_string()];
    assert!(matches!(shell(&words), AdbCommand::ShellExec(line) if line == "echo a b  c"));
}

#[test]
fn directory_may_be_made_inside_the_sandbox_only() {
    assert!(matches!(mkdir("/data/local/tmp/x"), Ok(AdbCommand::ShellExec(line)) if line == "mkdir /data/local/tmp/x"));
    assert!(matches!(mkdir("rel/x"), Ok(AdbCommand::ShellExec(line)) if line == "mkdir rel/x"));
    assert!(matches!(mkdir("/sdcard/x"), Err(AdbTransportError::InvalidPath(PathError::OutsideSandbox))));
    assert!(matches!(mkdir("/"), Err(AdbTransportError::InvalidPath(PathError::Root))));
    assert!(matches!(mkdir("a//b"), Err(AdbTransportError::InvalidPath(PathError::DoubleSlash))));
    assert!(matches!(mkdir(""), Err(AdbTransportError::InvalidPath(PathError::Empty))));
}

#[test]
fn upload_is_of_a_file_or_of_a_tree() {
    assert_eq!(push_source(LocalKind::File), Ok(PushPlan::Single));
    assert_eq!(push_source(LocalKind::Directory), Ok(PushPlan::Tree));
    assert_eq!(
        push_source(LocalKind::Absent),
        Err(AdbTransportError::InvalidPath(PathError::NotFound))
    );
    assert_eq!(
        push_source(LocalKind::Other),
        Err(AdbTransportError::InvalidPath(PathError::NotAllowed))
    );
}
