//! What the catalog tells its listeners, and what it asks of the file system.

use vstd::prelude::*;

verus! {

/// A change to one document.
#[derive(Debug, Clone)]
pub enum DocEvent {
    Created { rel_path: String },
    Updated { rel_path: String },
    Deleted { rel_path: String },
    Renamed { old_path: String, new_path: String },
    Moved { old_path: String, new_path: String },
}

/// A change to one folder, with the documents that it carried along.
#[derive(Debug, Clone)]
pub enum FolderEvent {
    Created { rel_path: String },
    Renamed { old_path: String, new_path: String, affected_docs: Vec<(String, String)> },
    Moved { old_path: String, new_path: String, affected_docs: Vec<(String, String)> },
    Deleted { rel_path: String, removed_docs: Vec<String> },
}

/// A change to the catalog.
#[derive(Debug, Clone)]
pub enum Event {
    Doc(DocEvent),
    Folder(FolderEvent),
}

/// One action on the file system under the contexts root. A removal is
/// carried out only where its target is present.
#[derive(Debug, Clone)]
pub enum FsOp {
    /// Create the directory and every missing directory above it.
    CreateDirAll { path: String },
    /// Write the file, replacing what it held.
    WriteFile { path: String, content: String },
    Rename { from: String, to: String },
    RemoveFile { path: String },
    /// Remove the directory, which must be empty.
    RemoveDir { path: String },
    /// Remove the directory and all that it holds.
    RemoveDirAll { path: String },
}

/// A [`DocEvent`] as a mathematical value.
pub ghost enum DocEventView {
    Created { rel_path: Seq<char> },
    Updated { rel_path: Seq<char> },
    Deleted { rel_path: Seq<char> },
    Renamed { old_path: Seq<char>, new_path: Seq<char> },
    Moved { old_path: Seq<char>, new_path: Seq<char> },
}

/// A [`FolderEvent`] as a mathematical value.
pub ghost enum FolderEventView {
    Created { rel_path: Seq<char> },
    Renamed {
        old_path: Seq<char>,
        new_path: Seq<char>,
        affected_docs: Seq<(Seq<char>, Seq<char>)>,
    },
    Moved { old_path: Seq<char>, new_path: Seq<char>, affected_docs: Seq<(Seq<char>, Seq<char>)> },
    Deleted { rel_path: Seq<char>, removed_docs: Seq<Seq<char>> },
}

/// An [`Event`] as a mathematical value.
pub ghost enum EventView {
    Doc(DocEventView),
    Folder(FolderEventView),
}

/// An [`FsOp`] as a mathematical value.
pub ghost enum FsOpView {
    CreateDirAll { path: Seq<char> },
    WriteFile { path: Seq<char>, content: Seq<char> },
    Rename { from: Seq<char>, to: Seq<char> },
    RemoveFile { path: Seq<char> },
    RemoveDir { path: Seq<char> },
    RemoveDirAll { path: Seq<char> },
}

/// The views of a sequence of pairs of paths.
pub open spec fn pair_views(pairs: Seq<(String, String)>) -> Seq<(Seq<char>, Seq<char>)> {
    Seq::new(pairs.len(), |i: int| (pairs[i].0@, pairs[i].1@))
}

/// The views of a sequence of paths.
pub open spec fn path_views(paths: Seq<String>) -> Seq<Seq<char>> {
    Seq::new(paths.len(), |i: int| paths[i]@)
}

impl View for DocEvent {
    type V = DocEventView;

    open spec fn view(&self) -> DocEventView {
        match self {
            DocEvent::Created { rel_path } => DocEventView::Created { rel_path: rel_path@ },
            DocEvent::Updated { rel_path } => DocEventView::Updated { rel_path: rel_path@ },
            DocEvent::Deleted { rel_path } => DocEventView::Deleted { rel_path: rel_path@ },
            DocEvent::Renamed { old_path, new_path } => DocEventView::Renamed {
                old_path: old_path@,
                new_path: new_path@,
            },
            DocEvent::Moved { old_path, new_path } => DocEventView::Moved {
                old_path: old_path@,
                new_path: new_path@,
            },
        }
    }
}

impl View for FolderEvent {
    type V = FolderEventView;

    open spec fn view(&self) -> FolderEventView {
        match self {
            FolderEvent::Created { rel_path } => FolderEventView::Created { rel_path: rel_path@ },
            FolderEvent::Renamed { old_path, new_path, affected_docs } => FolderEventView::Renamed {
                old_path: old_path@,
                new_path: new_path@,
                affected_docs: pair_views(affected_docs@),
            },
            FolderEvent::Moved { old_path, new_path, affected_docs } => FolderEventView::Moved {
                old_path: old_path@,
                new_path: new_path@,
                affected_docs: pair_views(affected_docs@),
            },
            FolderEvent::Deleted { rel_path, removed_docs } => FolderEventView::Deleted {
                rel_path: rel_path@,
                removed_docs: path_views(removed_docs@),
            },
        }
    }
}

impl View for Event {
    type V = EventView;

    open spec fn view(&self) -> EventView {
        match self {
            Event::Doc(e) => EventView::Doc(e@),
            Event::Folder(e) => EventView::Folder(e@),
        }
    }
}

impl View for FsOp {
    type V = FsOpView;

    open spec fn view(&self) -> FsOpView {
        match self {
            FsOp::CreateDirAll { path } => FsOpView::CreateDirAll { path: path@ },
            FsOp::WriteFile { path, content } => FsOpView::WriteFile {
                path: path@,
                content: content@,
            },
            FsOp::Rename { from, to } => FsOpView::Rename { from: from@, to: to@ },
            FsOp::RemoveFile { path } => FsOpView::RemoveFile { path: path@ },
            FsOp::RemoveDir { path } => FsOpView::RemoveDir { path: path@ },
            FsOp::RemoveDirAll { path } => FsOpView::RemoveDirAll { path: path@ },
        }
    }
}

/// The views of a sequence of events.
pub open spec fn event_views(events: Seq<Event>) -> Seq<EventView> {
    Seq::new(events.len(), |i: int| events[i]@)
}

/// The views of a sequence of file-system actions.
pub open spec fn fs_views(ops: Seq<FsOp>) -> Seq<FsOpView> {
    Seq::new(ops.len(), |i: int| ops[i]@)
}

/// The result of a catalog operation together with what has to happen
/// around it. The actions of `before_commit` are carried out first; only if
/// all of them succeed is the new catalog state kept, after which the
/// actions of `after_commit` are carried out and `events` are published.
#[derive(Debug)]
pub struct Applied<T> {
    pub value: T,
    pub before_commit: Vec<FsOp>,
    pub after_commit: Vec<FsOp>,
    pub events: Vec<Event>,
}

impl<T> Applied<T> {
    /// The actions to carry out before the new state is kept.
    pub open spec fn before(&self) -> Seq<FsOpView> {
        fs_views(self.before_commit@)
    }

    /// The actions to carry out once the new state is kept.
    pub open spec fn after(&self) -> Seq<FsOpView> {
        fs_views(self.after_commit@)
    }

    /// The events to publish.
    pub open spec fn published(&self) -> Seq<EventView> {
        event_views(self.events@)
    }
}

} // verus!
