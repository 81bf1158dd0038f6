//! The remote tree as a whole, and what a walk over it finds.
//!
//! A walk sees the tree one listing at a time. Taken together, the
//! listings that it asks for make it enumerate the tree depth first: this
//! module says what that enumeration is, and proves that a walk which is
//! fed the listings of the tree heads for exactly that.
use vstd::prelude::*;
use crate::result::dent::DentView;
use crate::tree::{join, FileItemView};
use crate::walk::{stacked, walk_step, VisitView, WalkStep, WalkView};

verus! {

/// One child of a remote directory, with what lies below it where it is a
/// directory itself.
pub struct RemoteNode {
    pub entry: DentView,
    pub below: Seq<RemoteNode>,
}

/// The listing of a directory that holds `nodes`.
pub open spec fn listing_of(nodes: Seq<RemoteNode>) -> Seq<DentView> {
    nodes.map_values(|node: RemoteNode| node.entry)
}

/// What lies in and below the remote directory `remote`, which holds
/// `nodes` and which the local directory `local` stands for: the local
/// directories to make and the files to download, in depth-first order.
///
/// Each child in its turn: a directory is recorded and then everything
/// below it; a regular file is recorded; anything else, and the entries
/// named `.` and `..`, are passed over.
pub open spec fn found(nodes: Seq<RemoteNode>, remote: Seq<char>, local: Seq<char>) -> (
    Seq<Seq<char>>,
    Seq<FileItemView>,
)
    decreases nodes,
{
    if nodes.len() == 0 {
        (Seq::empty(), Seq::empty())
    } else {
        let first = nodes[0];
        let later = found(nodes.subrange(1, nodes.len() as int), remote, local);
        let r = join(remote, first.entry.name);
        let l = join(local, first.entry.name);
        match walk_step(first.entry) {
            WalkStep::Skip => later,
            WalkStep::Descend => {
                let inside = found(first.below, r, l);
                (seq![l] + inside.0 + later.0, inside.1 + later.1)
            },
            WalkStep::Collect => (
                later.0,
                seq![FileItemView { remote_file: r, local_path: l }] + later.1,
            ),
        }
    }
}

/// What lies below each entry that a walk visits of the directory that
/// holds `nodes`, stacked as the entries themselves are.
pub open spec fn stacked_below(nodes: Seq<RemoteNode>) -> Seq<Seq<RemoteNode>>
    decreases nodes.len(),
{
    if nodes.len() == 0 {
        Seq::empty()
    } else {
        let later = stacked_below(nodes.skip(1));
        match walk_step(nodes[0].entry) {
            WalkStep::Skip => later,
            _ => later.push(nodes[0].below),
        }
    }
}

/// Two pairs of lists, joined list by list.
pub open spec fn both<A, B>(first: (Seq<A>, Seq<B>), second: (Seq<A>, Seq<B>)) -> (Seq<A>, Seq<B>) {
    (first.0 + second.0, first.1 + second.1)
}

/// What a walk has yet to find from the entries `todo` that it has yet to
/// visit, where `below` tells what lies below each of them: the last entry
/// first, and below a directory everything that `found` finds there.
pub open spec fn in_store(todo: Seq<VisitView>, below: Seq<Seq<RemoteNode>>) -> (
    Seq<Seq<char>>,
    Seq<FileItemView>,
)
    decreases todo.len(),
{
    if todo.len() == 0 || below.len() != todo.len() {
        (Seq::empty(), Seq::empty())
    } else {
        let next = todo.last();
        let rest = in_store(todo.drop_last(), below.drop_last());
        if next.directory {
            both(
                (seq![next.local], Seq::empty()),
                both(found(below.last(), next.remote, next.local), rest),
            )
        } else {
            both(
                (
                    Seq::empty(),
                    seq![FileItemView { remote_file: next.remote, local_path: next.local }],
                ),
                rest,
            )
        }
    }
}

/// What a walk that waits for a listing comes to in the end, where `kids`
/// is what the directory that it waits for holds and `below` tells what
/// lies below each entry that it has yet to visit: what it has recorded,
/// then what lies in and below that directory, then what is in store.
pub open spec fn heading_for(
    walk: WalkView,
    below: Seq<Seq<RemoteNode>>,
    kids: Seq<RemoteNode>,
) -> (Seq<Seq<char>>, Seq<FileItemView>) {
    match walk.pending {
        Some((remote, local)) => both(
            (walk.dirs, walk.files),
            both(found(kids, remote, local), in_store(walk.todo, below)),
        ),
        None => (walk.dirs, walk.files),
    }
}

/// What lies below the entries that are left to visit once the walk has
/// gone on to the next directory.
pub open spec fn below_after(todo: Seq<VisitView>, below: Seq<Seq<RemoteNode>>) -> Seq<
    Seq<RemoteNode>,
>
    decreases todo.len(),
{
    if todo.len() == 0 || below.len() != todo.len() {
        Seq::empty()
    } else if todo.last().directory {
        below.drop_last()
    } else {
        below_after(todo.drop_last(), below.drop_last())
    }
}

/// What the next directory that the walk goes on to holds.
pub open spec fn kids_after(todo: Seq<VisitView>, below: Seq<Seq<RemoteNode>>) -> Seq<RemoteNode>
    decreases todo.len(),
{
    if todo.len() == 0 || below.len() != todo.len() {
        Seq::empty()
    } else if todo.last().directory {
        below.last()
    } else {
        kids_after(todo.drop_last(), below.drop_last())
    }
}

proof fn lemma_stacked_alike(nodes: Seq<RemoteNode>, remote: Seq<char>, local: Seq<char>)
    ensures
        stacked(listing_of(nodes), remote, local).len() == stacked_below(nodes).len(),
        in_store(stacked(listing_of(nodes), remote, local), stacked_below(nodes)) == found(
            nodes,
            remote,
            local,
        ),
    decreases nodes.len(),
{
    let entries = listing_of(nodes);
    if nodes.len() > 0 {
        let rest = nodes.skip(1);
        assert(entries.skip(1) =~= listing_of(rest));
        assert(nodes.subrange(1, nodes.len() as int) =~= rest);
        lemma_stacked_alike(rest, remote, local);
        let later = stacked(entries.skip(1), remote, local);
        let later_below = stacked_below(rest);
        let all = stacked(entries, remote, local);
        let all_below = stacked_below(nodes);
        let got = found(rest, remote, local);
        match walk_step(nodes[0].entry) {
            WalkStep::Skip => {},
            WalkStep::Descend => {
                assert(all.drop_last() =~= later);
                assert(all_below.drop_last() =~= later_below);
                let inside = found(
                    nodes[0].below,
                    join(remote, nodes[0].entry.name),
                    join(local, nodes[0].entry.name),
                );
                assert(Seq::<FileItemView>::empty() + (inside.1 + got.1) =~= inside.1 + got.1);
                assert(seq![join(local, nodes[0].entry.name)] + (inside.0 + got.0) =~= seq![
                    join(local, nodes[0].entry.name),
                ] + inside.0 + got.0);
            },
            WalkStep::Collect => {
                assert(all.drop_last() =~= later);
                assert(all_below.drop_last() =~= later_below);
                assert(Seq::<Seq<char>>::empty() + got.0 =~= got.0);
            },
        }
    } else {
        assert(stacked(entries, remote, local).len() == 0);
    }
}

proof fn lemma_in_store_split(
    under: Seq<VisitView>,
    under_below: Seq<Seq<RemoteNode>>,
    over: Seq<VisitView>,
    over_below: Seq<Seq<RemoteNode>>,
)
    requires
        under.len() == under_below.len(),
        over.len() == over_below.len(),
    ensures
        in_store(under + over, under_below + over_below) == both(
            in_store(over, over_below),
            in_store(under, under_below),
        ),
    decreases over.len(),
{
    let lower = in_store(under, under_below);
    if over.len() == 0 {
        assert(under + over =~= under);
        assert(under_below + over_below =~= under_below);
        assert(Seq::<Seq<char>>::empty() + lower.0 =~= lower.0);
        assert(Seq::<FileItemView>::empty() + lower.1 =~= lower.1);
    } else {
        let next = over.last();
        assert((under + over).drop_last() =~= under + over.drop_last());
        assert((under_below + over_below).drop_last() =~= under_below + over_below.drop_last());
        assert((under + over).last() == next);
        assert((under_below + over_below).last() == over_below.last());
        lemma_in_store_split(under, under_below, over.drop_last(), over_below.drop_last());
        let upper = in_store(over.drop_last(), over_below.drop_last());
        if next.directory {
            let inside = found(over_below.last(), next.remote, next.local);
            assert(seq![next.local] + (inside.0 + (upper.0 + lower.0)) =~= (seq![next.local] + (
                inside.0 + upper.0)) + lower.0);
            assert(Seq::<FileItemView>::empty() + (inside.1 + (upper.1 + lower.1)) =~= (Seq::<
                FileItemView,
            >::empty() + (inside.1 + upper.1)) + lower.1);
        } else {
            let file = FileItemView { remote_file: next.remote, local_path: next.local };
            assert(Seq::<Seq<char>>::empty() + (upper.0 + lower.0) =~= (Seq::<Seq<char>>::empty()
                + upper.0) + lower.0);
            assert(seq![file] + (upper.1 + lower.1) =~= (seq![file] + upper.1) + lower.1);
        }
    }
}

proof fn lemma_settle_keeps_course(walk: WalkView, below: Seq<Seq<RemoteNode>>)
    requires
        walk.pending is None,
        below.len() == walk.todo.len(),
    ensures
        heading_for(
            walk.settle(),
            below_after(walk.todo, below),
            kids_after(walk.todo, below),
        ) == both((walk.dirs, walk.files), in_store(walk.todo, below)),
        below_after(walk.todo, below).len() == walk.settle().todo.len(),
    decreases walk.todo.len(),
{
    if walk.todo.len() == 0 {
        assert(walk.dirs + Seq::<Seq<char>>::empty() =~= walk.dirs);
        assert(walk.files + Seq::<FileItemView>::empty() =~= walk.files);
    } else {
        let next = walk.todo.last();
        let rest = in_store(walk.todo.drop_last(), below.drop_last());
        if next.directory {
            let inside = found(below.last(), next.remote, next.local);
            assert(walk.dirs.push(next.local) + (inside.0 + rest.0) =~= walk.dirs + (seq![
                next.local,
            ] + (inside.0 + rest.0)));
            assert(walk.files + (inside.1 + rest.1) =~= walk.files + (Seq::<FileItemView>::empty()
                + (inside.1 + rest.1)));
        } else {
            let file = FileItemView { remote_file: next.remote, local_path: next.local };
            let later = WalkView {
                files: walk.files.push(file),
                todo: walk.todo.drop_last(),
                ..walk
            };
            lemma_settle_keeps_course(later, below.drop_last());
            assert(walk.dirs + rest.0 =~= walk.dirs + (Seq::<Seq<char>>::empty() + rest.0));
            assert(walk.files.push(file) + rest.1 =~= walk.files + (seq![file] + rest.1));
        }
    }
}

/// A walk that is fed the listing of the directory that it waits for
/// keeps its course: what it heads for stays the same, with the books
/// kept of what lies below the entries that are left.
///
/// `kids` is what the directory holds that the walk waits for, and
/// `below` tells what lies below each entry that it has yet to visit.
pub proof fn lemma_feed_keeps_course(
    walk: WalkView,
    below: Seq<Seq<RemoteNode>>,
    kids: Seq<RemoteNode>,
)
    requires
        walk.pending is Some,
        below.len() == walk.todo.len(),
    ensures
        ({
            let fed = walk.feed(listing_of(kids));
            let waits = walk.pending->0;
            let all = walk.todo + stacked(listing_of(kids), waits.0, waits.1);
            let all_below = below + stacked_below(kids);
            &&& heading_for(fed, below_after(all, all_below), kids_after(all, all_below))
                == heading_for(walk, below, kids)
            &&& below_after(all, all_below).len() == fed.todo.len()
        }),
{
    let (remote, local) = walk.pending->0;
    let new = stacked(listing_of(kids), remote, local);
    let new_below = stacked_below(kids);
    lemma_stacked_alike(kids, remote, local);
    lemma_in_store_split(walk.todo, below, new, new_below);
    let loaded = WalkView { todo: walk.todo + new, pending: None, ..walk };
    lemma_settle_keeps_course(loaded, below + new_below);
}

/// The walk after it was fed, up to `feeds` times, the listing of the
/// directory that it waited for. `kids` is what that directory holds, and
/// `below` tells what lies below each entry that the walk has yet to
/// visit.
pub open spec fn walked(
    walk: WalkView,
    below: Seq<Seq<RemoteNode>>,
    kids: Seq<RemoteNode>,
    feeds: nat,
) -> WalkView
    decreases feeds,
{
    match walk.pending {
        Some((remote, local)) if feeds > 0 => {
            let all = walk.todo + stacked(listing_of(kids), remote, local);
            let all_below = below + stacked_below(kids);
            walked(
                walk.feed(listing_of(kids)),
                below_after(all, all_below),
                kids_after(all, all_below),
                (feeds - 1) as nat,
            )
        },
        _ => walk,
    }
}

proof fn lemma_walked_keeps_course(
    walk: WalkView,
    below: Seq<Seq<RemoteNode>>,
    kids: Seq<RemoteNode>,
    feeds: nat,
)
    requires
        below.len() == walk.todo.len(),
    ensures
        walked(walk, below, kids, feeds).pending is None ==> (
            walked(walk, below, kids, feeds).dirs,
            walked(walk, below, kids, feeds).files,
        ) == heading_for(walk, below, kids),
    decreases feeds,
{
    match walk.pending {
        Some((remote, local)) => {
            if feeds > 0 {
                let all = walk.todo + stacked(listing_of(kids), remote, local);
                let all_below = below + stacked_below(kids);
                lemma_feed_keeps_course(walk, below, kids);
                lemma_walked_keeps_course(
                    walk.feed(listing_of(kids)),
                    below_after(all, all_below),
                    kids_after(all, all_below),
                    (feeds - 1) as nat,
                );
            }
        },
        None => {},
    }
}

/// A walk over the remote directory `remote` that is fed, every time, the
/// listing of the directory that it asks for has, when it is over,
/// recorded the local root and then exactly what lies in and below
/// `remote`, in depth-first order: every directory before what lies below
/// it, nothing twice, nothing left out.
pub proof fn lemma_walk_finds_the_tree(
    tree: Seq<RemoteNode>,
    remote: Seq<char>,
    local: Seq<char>,
    feeds: nat,
)
    ensures
        ({
            let end = walked(WalkView::start(remote, local), Seq::empty(), tree, feeds);
            end.pending is None ==> end.dirs == seq![local] + found(tree, remote, local).0
                && end.files == found(tree, remote, local).1
        }),
{
    let got = found(tree, remote, local);
    lemma_walked_keeps_course(WalkView::start(remote, local), Seq::empty(), tree, feeds);
    assert(got.0 + Seq::<Seq<char>>::empty() =~= got.0);
    assert(got.1 + Seq::<FileItemView>::empty() =~= got.1);
    assert(Seq::<FileItemView>::empty() + got.1 =~= got.1);
}

} // verus!
