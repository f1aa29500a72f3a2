//! Index synchronisation: catalog events become index actions, actions
//! for one path replace each other while they wait, and at each tick all
//! that wait is handed out at once.

use crate::config::SearchConfig;
use crate::events::{
    pair_views, path_views, DocEvent, DocEventView, Event, EventView, FolderEvent,
    FolderEventView,
};
use crate::text::{chars_of, same_chars};
use vstd::prelude::*;

verus! {

/// What has to happen to the index for one file.
#[derive(Debug)]
pub enum IndexAction {
    /// Index the file, again if it was indexed before.
    Update { rel_path: String },
    /// Remove the file from the index.
    Remove { rel_path: String },
    /// The file has a new path.
    Rename { old_path: String, new_path: String },
}

/// An [`IndexAction`] as a mathematical value.
pub ghost enum IndexActionView {
    Update { rel_path: Seq<char> },
    Remove { rel_path: Seq<char> },
    Rename { old_path: Seq<char>, new_path: Seq<char> },
}

impl View for IndexAction {
    type V = IndexActionView;

    open spec fn view(&self) -> IndexActionView {
        match self {
            IndexAction::Update { rel_path } => IndexActionView::Update { rel_path: rel_path@ },
            IndexAction::Remove { rel_path } => IndexActionView::Remove { rel_path: rel_path@ },
            IndexAction::Rename { old_path, new_path } => IndexActionView::Rename {
                old_path: old_path@,
                new_path: new_path@,
            },
        }
    }
}

impl Clone for IndexAction {
    fn clone(&self) -> (r: IndexAction)
        ensures
            r@ == self@,
    {
        match self {
            IndexAction::Update { rel_path } => IndexAction::Update { rel_path: rel_path.clone() },
            IndexAction::Remove { rel_path } => IndexAction::Remove { rel_path: rel_path.clone() },
            IndexAction::Rename { old_path, new_path } => IndexAction::Rename {
                old_path: old_path.clone(),
                new_path: new_path.clone(),
            },
        }
    }
}

/// The views of a sequence of actions.
pub open spec fn action_views(actions: Seq<IndexAction>) -> Seq<IndexActionView> {
    Seq::new(actions.len(), |i: int| actions[i]@)
}

/// The actions that an event asks for: a created or updated document is
/// indexed, a deleted one removed, a renamed or moved one renamed; a folder
/// asks for the same for each document that it carried along, and a
/// created folder for nothing.
pub open spec fn actions_of(event: EventView) -> Seq<IndexActionView> {
    match event {
        EventView::Doc(DocEventView::Created { rel_path }) => seq![
            IndexActionView::Update { rel_path },
        ],
        EventView::Doc(DocEventView::Updated { rel_path }) => seq![
            IndexActionView::Update { rel_path },
        ],
        EventView::Doc(DocEventView::Deleted { rel_path }) => seq![
            IndexActionView::Remove { rel_path },
        ],
        EventView::Doc(DocEventView::Renamed { old_path, new_path }) => seq![
            IndexActionView::Rename { old_path, new_path },
        ],
        EventView::Doc(DocEventView::Moved { old_path, new_path }) => seq![
            IndexActionView::Rename { old_path, new_path },
        ],
        EventView::Folder(FolderEventView::Created { rel_path }) => Seq::empty(),
        EventView::Folder(FolderEventView::Renamed { old_path, new_path, affected_docs }) => renames(
            affected_docs,
        ),
        EventView::Folder(FolderEventView::Moved { old_path, new_path, affected_docs }) => renames(
            affected_docs,
        ),
        EventView::Folder(FolderEventView::Deleted { rel_path, removed_docs }) => removals(
            removed_docs,
        ),
    }
}

/// One rename for each pair of old and new path.
pub open spec fn renames(pairs: Seq<(Seq<char>, Seq<char>)>) -> Seq<IndexActionView> {
    Seq::new(
        pairs.len(),
        |i: int| IndexActionView::Rename { old_path: pairs[i].0, new_path: pairs[i].1 },
    )
}

/// One removal for each path.
pub open spec fn removals(paths: Seq<Seq<char>>) -> Seq<IndexActionView> {
    Seq::new(paths.len(), |i: int| IndexActionView::Remove { rel_path: paths[i] })
}

/// The actions waiting for the next tick, by path.
pub type PendingMap = Map<Seq<char>, IndexActionView>;

/// `pending` after `action` has joined it: an update or a removal
/// takes the place of what waited for its path; a rename drops what
/// waited for the old path and waits under the new one.
pub open spec fn coalesced(pending: PendingMap, action: IndexActionView) -> PendingMap {
    match action {
        IndexActionView::Update { rel_path } => pending.insert(rel_path, action),
        IndexActionView::Remove { rel_path } => pending.insert(rel_path, action),
        IndexActionView::Rename { old_path, new_path } => pending.remove(old_path).insert(
            new_path,
            action,
        ),
    }
}

/// `pending` after all of `actions` have joined it, in order.
pub open spec fn coalesced_all(pending: PendingMap, actions: Seq<IndexActionView>) -> PendingMap
    decreases actions.len(),
{
    if actions.len() == 0 {
        pending
    } else {
        coalesced(coalesced_all(pending, actions.drop_last()), actions.last())
    }
}

/// The paths that `actions` name.
pub open spec fn paths_named(actions: Seq<IndexActionView>) -> Set<Seq<char>>
    decreases actions.len(),
{
    if actions.len() == 0 {
        Set::empty()
    } else {
        let before = paths_named(actions.drop_last());
        match actions.last() {
            IndexActionView::Update { rel_path } => before.insert(rel_path),
            IndexActionView::Remove { rel_path } => before.insert(rel_path),
            IndexActionView::Rename { old_path, new_path } => before.insert(old_path).insert(
                new_path,
            ),
        }
    }
}

/// The map that a list of entries with distinct keys stands for.
pub open spec fn map_of(entries: Seq<(Seq<char>, IndexActionView)>) -> PendingMap
    decreases entries.len(),
{
    if entries.len() == 0 {
        Map::empty()
    } else {
        map_of(entries.drop_last()).insert(entries.last().0, entries.last().1)
    }
}

/// Whether no two entries share a key.
pub open spec fn distinct_keys(entries: Seq<(Seq<char>, IndexActionView)>) -> bool {
    forall|i: int, j: int|
        0 <= i < entries.len() && 0 <= j < entries.len() && i != j ==> (#[trigger] entries[i]).0 != (
        #[trigger] entries[j]).0
}

/// The keys of the map are the keys of the entries; with distinct keys
/// each entry is found under its key, and there are as many keys as
/// entries.
pub proof fn lemma_map_of(entries: Seq<(Seq<char>, IndexActionView)>)
    ensures
        map_of(entries).dom().finite(),
        forall|k: Seq<char>|
            map_of(entries).dom().contains(k) <==> exists|i: int|
                0 <= i < entries.len() && (#[trigger] entries[i]).0 == k,
        distinct_keys(entries) ==> map_of(entries).dom().len() == entries.len(),
        distinct_keys(entries) ==> forall|i: int|
            0 <= i < entries.len() ==> map_of(entries)[(#[trigger] entries[i]).0] == entries[i].1,
    decreases entries.len(),
{
    if entries.len() > 0 {
        let front = entries.drop_last();
        let last = entries.last();
        lemma_map_of(front);
        assert forall|k: Seq<char>| map_of(entries).dom().contains(k) <==> exists|i: int|
            0 <= i < entries.len() && (#[trigger] entries[i]).0 == k by {
            if map_of(entries).dom().contains(k) {
                if k == last.0 {
                    assert(entries[entries.len() - 1].0 == k);
                } else {
                    let i = choose|i: int| 0 <= i < front.len() && (#[trigger] front[i]).0 == k;
                    assert(entries[i].0 == k);
                }
            }
            if exists|i: int| 0 <= i < entries.len() && (#[trigger] entries[i]).0 == k {
                let i = choose|i: int| 0 <= i < entries.len() && (#[trigger] entries[i]).0 == k;
                if i < front.len() {
                    assert(front[i].0 == k);
                }
            }
        }
        if distinct_keys(entries) {
            assert(distinct_keys(front)) by {
                assert forall|i: int, j: int|
                    0 <= i < front.len() && 0 <= j < front.len() && i != j implies (
                #[trigger] front[i]).0 != (#[trigger] front[j]).0 by {
                    assert(entries[i].0 != entries[j].0);
                }
            }
            assert(!map_of(front).dom().contains(last.0)) by {
                if map_of(front).dom().contains(last.0) {
                    let i = choose|i: int|
                        0 <= i < front.len() && (#[trigger] front[i]).0 == last.0;
                    assert(entries[i].0 == entries[entries.len() - 1].0);
                }
            }
            assert forall|i: int| 0 <= i < entries.len() implies map_of(entries)[(
            #[trigger] entries[i]).0] == entries[i].1 by {
                if i < front.len() {
                    assert(front[i] == entries[i]);
                    assert(entries[i].0 != entries[entries.len() - 1].0);
                }
            }
        }
    }
}

/// Replacing the entry of a key is inserting under that key.
pub proof fn lemma_map_of_update(
    entries: Seq<(Seq<char>, IndexActionView)>,
    i: int,
    action: IndexActionView,
)
    requires
        distinct_keys(entries),
        0 <= i < entries.len(),
    ensures
        map_of(entries.update(i, (entries[i].0, action))) == map_of(entries).insert(
            entries[i].0,
            action,
        ),
        distinct_keys(entries.update(i, (entries[i].0, action))),
    decreases entries.len(),
{
    let key = entries[i].0;
    let after = entries.update(i, (key, action));
    let front = entries.drop_last();
    assert(distinct_keys(after)) by {
        assert forall|a: int, b: int|
            0 <= a < after.len() && 0 <= b < after.len() && a != b implies (#[trigger] after[a]).0
            != (#[trigger] after[b]).0 by {
            assert(entries[a].0 != entries[b].0);
        }
    }
    if i == entries.len() - 1 {
        assert(after.drop_last() =~= front);
        assert(map_of(after) =~= map_of(entries).insert(key, action));
    } else {
        assert(distinct_keys(front)) by {
            assert forall|a: int, b: int|
                0 <= a < front.len() && 0 <= b < front.len() && a != b implies (
            #[trigger] front[a]).0 != (#[trigger] front[b]).0 by {
                assert(entries[a].0 != entries[b].0);
            }
        }
        lemma_map_of_update(front, i, action);
        assert(after.drop_last() =~= front.update(i, (key, action)));
        assert(entries[i].0 != entries[entries.len() - 1].0);
        assert(map_of(after) =~= map_of(entries).insert(key, action));
    }
}

/// Removing the entry of a key is removing that key.
pub proof fn lemma_map_of_remove(entries: Seq<(Seq<char>, IndexActionView)>, i: int)
    requires
        distinct_keys(entries),
        0 <= i < entries.len(),
    ensures
        map_of(entries.remove(i)) == map_of(entries).remove(entries[i].0),
        distinct_keys(entries.remove(i)),
    decreases entries.len(),
{
    let key = entries[i].0;
    let after = entries.remove(i);
    let front = entries.drop_last();
    assert(distinct_keys(after)) by {
        assert forall|a: int, b: int|
            0 <= a < after.len() && 0 <= b < after.len() && a != b implies (#[trigger] after[a]).0
            != (#[trigger] after[b]).0 by {
            let a1 = if a < i { a } else { a + 1 };
            let b1 = if b < i { b } else { b + 1 };
            assert(entries[a1].0 != entries[b1].0);
        }
    }
    assert(distinct_keys(front)) by {
        assert forall|a: int, b: int|
            0 <= a < front.len() && 0 <= b < front.len() && a != b implies (#[trigger] front[a]).0
            != (#[trigger] front[b]).0 by {
            assert(entries[a].0 != entries[b].0);
        }
    }
    lemma_map_of(front);
    if i == entries.len() - 1 {
        assert(after =~= front);
        assert(!map_of(front).dom().contains(key)) by {
            if map_of(front).dom().contains(key) {
                let a = choose|a: int| 0 <= a < front.len() && (#[trigger] front[a]).0 == key;
                assert(entries[a].0 == entries[entries.len() - 1].0);
            }
        }
        assert(map_of(after) =~= map_of(entries).remove(key));
    } else {
        lemma_map_of_remove(front, i);
        assert(after.drop_last() =~= front.remove(i));
        assert(after.last() == entries.last());
        assert(entries[i].0 != entries[entries.len() - 1].0);
        assert(map_of(after) =~= map_of(entries).remove(key));
    }
}

/// However many actions arrive, no more wait than there are paths named
/// among them, and each waits under a path that was named.
pub proof fn law_coalescing_bounded(actions: Seq<IndexActionView>)
    ensures
        paths_named(actions).finite(),
        coalesced_all(Map::empty(), actions).dom().finite(),
        coalesced_all(Map::empty(), actions).dom().subset_of(paths_named(actions)),
        coalesced_all(Map::empty(), actions).dom().len() <= paths_named(actions).len(),
    decreases actions.len(),
{
    if actions.len() > 0 {
        law_coalescing_bounded(actions.drop_last());
    }
    let pending = coalesced_all(Map::empty(), actions);
    assert(pending.dom().subset_of(paths_named(actions)));
    vstd::set_lib::lemma_len_subset(pending.dom(), paths_named(actions));
}

/// The action that arrived last waits under its path: an update or a
/// removal under the path that it names, a rename under its new path; and
/// after a rename nothing waits under the old path, unless old and new
/// path are the same.
pub proof fn law_last_action_wins(pending: PendingMap, actions: Seq<IndexActionView>)
    requires
        actions.len() > 0,
    ensures
        match actions.last() {
            IndexActionView::Update { rel_path } => coalesced_all(pending, actions)[rel_path]
                == actions.last() && coalesced_all(pending, actions).dom().contains(rel_path),
            IndexActionView::Remove { rel_path } => coalesced_all(pending, actions)[rel_path]
                == actions.last() && coalesced_all(pending, actions).dom().contains(rel_path),
            IndexActionView::Rename { old_path, new_path } => {
                &&& coalesced_all(pending, actions)[new_path] == actions.last()
                &&& coalesced_all(pending, actions).dom().contains(new_path)
                &&& old_path != new_path ==> !coalesced_all(pending, actions).dom().contains(
                    old_path,
                )
            },
        },
{
}

/// The actions that `event` asks for, as [`actions_of`] says.
pub fn event_to_actions(event: Event) -> (actions: Vec<IndexAction>)
    ensures
        action_views(actions@) == actions_of(event@),
{
    let mut actions: Vec<IndexAction> = Vec::new();
    match event {
        Event::Doc(DocEvent::Created { rel_path }) => {
            actions.push(IndexAction::Update { rel_path });
            assert(action_views(actions@) =~= actions_of(event@));
        },
        Event::Doc(DocEvent::Updated { rel_path }) => {
            actions.push(IndexAction::Update { rel_path });
            assert(action_views(actions@) =~= actions_of(event@));
        },
        Event::Doc(DocEvent::Deleted { rel_path }) => {
            actions.push(IndexAction::Remove { rel_path });
            assert(action_views(actions@) =~= actions_of(event@));
        },
        Event::Doc(DocEvent::Renamed { old_path, new_path }) => {
            actions.push(IndexAction::Rename { old_path, new_path });
            assert(action_views(actions@) =~= actions_of(event@));
        },
        Event::Doc(DocEvent::Moved { old_path, new_path }) => {
            actions.push(IndexAction::Rename { old_path, new_path });
            assert(action_views(actions@) =~= actions_of(event@));
        },
        Event::Folder(FolderEvent::Created { rel_path }) => {
            assert(action_views(actions@) =~= actions_of(event@));
        },
        Event::Folder(FolderEvent::Renamed { old_path, new_path, affected_docs }) => {
            actions = rename_each(&affected_docs);
        },
        Event::Folder(FolderEvent::Moved { old_path, new_path, affected_docs }) => {
            actions = rename_each(&affected_docs);
        },
        Event::Folder(FolderEvent::Deleted { rel_path, removed_docs }) => {
            let mut i: usize = 0;
            while i < removed_docs.len()
                invariant
                    i <= removed_docs.len(),
                    actions.len() == i,
                    forall|k: int|
                        0 <= k < i ==> (#[trigger] actions@[k])@ == (IndexActionView::Remove {
                            rel_path: removed_docs@[k]@,
                        }),
                decreases removed_docs.len() - i,
            {
                actions.push(IndexAction::Remove { rel_path: removed_docs[i].clone() });
                i = i + 1;
            }
            assert(action_views(actions@) =~= removals(path_views(removed_docs@)));
        },
    }
    actions
}

/// One rename for each pair of old and new path.
fn rename_each(pairs: &Vec<(String, String)>) -> (actions: Vec<IndexAction>)
    ensures
        action_views(actions@) == renames(pair_views(pairs@)),
{
    let mut actions: Vec<IndexAction> = Vec::new();
    let mut i: usize = 0;
    while i < pairs.len()
        invariant
            i <= pairs.len(),
            actions.len() == i,
            forall|k: int|
                0 <= k < i ==> (#[trigger] actions@[k])@ == (IndexActionView::Rename {
                    old_path: pairs@[k].0@,
                    new_path: pairs@[k].1@,
                }),
        decreases pairs.len() - i,
    {
        actions.push(
            IndexAction::Rename { old_path: pairs[i].0.clone(), new_path: pairs[i].1.clone() },
        );
        i = i + 1;
    }
    assert(action_views(actions@) =~= renames(pair_views(pairs@)));
    actions
}

/// The actions that wait for the next tick: at most one for each path.
pub struct PendingActions {
    entries: Vec<(Vec<char>, IndexAction)>,
}

/// Whether every entry waits under the path that its action names.
pub open spec fn keyed_by_path(entries: Seq<(Seq<char>, IndexActionView)>) -> bool {
    forall|k: int|
        0 <= k < entries.len() ==> waiting_path((#[trigger] entries[k]).1) == entries[k].0
}

/// The entries as mathematical values.
pub open spec fn entry_views(entries: Seq<(Vec<char>, IndexAction)>) -> Seq<
    (Seq<char>, IndexActionView),
> {
    Seq::new(entries.len(), |i: int| (entries[i].0@, entries[i].1@))
}

impl PendingActions {
    /// No path has two entries, and every action waits under its path.
    #[verifier::type_invariant]
    spec fn well_formed(self) -> bool {
        &&& distinct_keys(entry_views(self.entries@))
        &&& keyed_by_path(entry_views(self.entries@))
    }

    /// The waiting actions by path.
    pub closed spec fn view(&self) -> PendingMap {
        map_of(entry_views(self.entries@))
    }

    /// Nothing waits.
    pub fn new() -> (p: PendingActions)
        ensures
            p@ == PendingMap::empty(),
    {
        let p = PendingActions { entries: Vec::new() };
        assert(entry_views(p.entries@) =~= Seq::empty());
        p
    }

    /// The number of waiting actions.
    pub fn len(&self) -> (n: usize)
        ensures
            self@.dom().finite(),
            n == self@.dom().len(),
    {
        proof {
            use_type_invariant(self);
            lemma_map_of(entry_views(self.entries@));
        }
        self.entries.len()
    }

    /// Whether nothing waits.
    pub fn is_empty(&self) -> (b: bool)
        ensures
            b == (self@.dom().len() == 0),
            self@.dom().finite(),
    {
        self.len() == 0
    }

    /// The index of the entry for `key`.
    fn position(&self, key: &Vec<char>) -> (r: Option<usize>)
        ensures
            match r {
                Some(i) => i < self.entries.len() && self.entries@[i as int].0@ == key@,
                None => forall|k: int|
                    0 <= k < self.entries.len() ==> (#[trigger] self.entries@[k]).0@ != key@,
            },
    {
        let mut i: usize = 0;
        while i < self.entries.len()
            invariant
                i <= self.entries.len(),
                forall|k: int| 0 <= k < i ==> (#[trigger] self.entries@[k]).0@ != key@,
            decreases self.entries.len() - i,
        {
            if same_chars(&self.entries[i].0, key) {
                return Some(i);
            }
            i = i + 1;
        }
        None
    }

    /// Lets `action` wait under `key`, in place of what waited there.
    fn put(&mut self, key: Vec<char>, action: IndexAction)
        requires
            key@ == waiting_path(action@),
        ensures
            final(self)@ == old(self)@.insert(key@, action@),
    {
        proof {
            use_type_invariant(&*self);
        }
        let ghost before = entry_views(self.entries@);
        match self.position(&key) {
            Some(i) => {
                proof {
                    lemma_map_of_update(before, i as int, action@);
                }
                let mut entries: Vec<(Vec<char>, IndexAction)> = Vec::new();
                std::mem::swap(&mut entries, &mut self.entries);
                entries.set(i, (key, action));
                let ghost after = entry_views(entries@);
                assert(after =~= before.update(i as int, (key@, action@)));
                assert(keyed_by_path(after)) by {
                    assert forall|k: int| 0 <= k < after.len() implies waiting_path(
                        (#[trigger] after[k]).1,
                    ) == after[k].0 by {
                        if k != i {
                            assert(after[k] == before[k]);
                        }
                    }
                }
                *self = PendingActions { entries };
            },
            None => {
                let mut entries: Vec<(Vec<char>, IndexAction)> = Vec::new();
                std::mem::swap(&mut entries, &mut self.entries);
                entries.push((key, action));
                let ghost after = entry_views(entries@);
                assert(after =~= before.push((key@, action@)));
                assert(after.drop_last() =~= before);
                assert(distinct_keys(after)) by {
                    assert forall|a: int, b: int|
                        0 <= a < after.len() && 0 <= b < after.len() && a != b implies (
                    #[trigger] after[a]).0 != (#[trigger] after[b]).0 by {
                        if a < before.len() && b < before.len() {
                            assert(before[a].0 != before[b].0);
                        }
                    }
                }
                assert(keyed_by_path(after)) by {
                    assert forall|k: int| 0 <= k < after.len() implies waiting_path(
                        (#[trigger] after[k]).1,
                    ) == after[k].0 by {
                        if k < before.len() {
                            assert(after[k] == before[k]);
                        }
                    }
                }
                *self = PendingActions { entries };
            },
        }
    }

    /// Drops what waits under `key`.
    fn drop_key(&mut self, key: &Vec<char>)
        ensures
            final(self)@ == old(self)@.remove(key@),
    {
        proof {
            use_type_invariant(&*self);
        }
        let ghost before = entry_views(self.entries@);
        match self.position(key) {
            Some(i) => {
                proof {
                    lemma_map_of_remove(before, i as int);
                }
                let mut entries: Vec<(Vec<char>, IndexAction)> = Vec::new();
                std::mem::swap(&mut entries, &mut self.entries);
                let gone = entries.remove(i);
                let ghost after = entry_views(entries@);
                assert(after =~= before.remove(i as int));
                assert(keyed_by_path(after)) by {
                    assert forall|k: int| 0 <= k < after.len() implies waiting_path(
                        (#[trigger] after[k]).1,
                    ) == after[k].0 by {
                        let k1 = if k < i { k } else { k + 1 };
                        assert(after[k] == before[k1]);
                    }
                }
                *self = PendingActions { entries };
            },
            None => {
                proof {
                    lemma_map_of(before);
                    assert(!map_of(before).dom().contains(key@)) by {
                        if map_of(before).dom().contains(key@) {
                            let a = choose|a: int|
                                0 <= a < before.len() && (#[trigger] before[a]).0 == key@;
                            assert(self.entries@[a].0@ == key@);
                        }
                    }
                    assert(map_of(before).remove(key@) =~= map_of(before));
                }
            },
        }
    }

    /// Lets `action` join the waiting actions, as [`coalesced`] says.
    pub fn apply(&mut self, action: IndexAction)
        ensures
            final(self)@ == coalesced(old(self)@, action@),
    {
        match &action {
            IndexAction::Update { rel_path } => {
                let key = chars_of(rel_path.as_str());
                self.put(key, action);
            },
            IndexAction::Remove { rel_path } => {
                let key = chars_of(rel_path.as_str());
                self.put(key, action);
            },
            IndexAction::Rename { old_path, new_path } => {
                let old_key = chars_of(old_path.as_str());
                let new_key = chars_of(new_path.as_str());
                self.drop_key(&old_key);
                self.put(new_key, action);
            },
        }
    }

    /// Hands out all that waits, the action of each path once, and
    /// leaves nothing waiting.
    pub fn drain(&mut self) -> (actions: Vec<IndexAction>)
        ensures
            final(self)@ == PendingMap::empty(),
            old(self)@.dom().finite(),
            actions.len() == old(self)@.dom().len(),
            forall|i: int|
                0 <= i < actions.len() ==> old(self)@.dom().contains(
                    waiting_path(#[trigger] actions@[i]@),
                ) && old(self)@[waiting_path(actions@[i]@)] == actions@[i]@,
            forall|i: int, j: int|
                0 <= i < actions.len() && 0 <= j < actions.len() && i != j ==> waiting_path(
                    #[trigger] actions@[i]@,
                ) != waiting_path(#[trigger] actions@[j]@),
    {
        proof {
            use_type_invariant(&*self);
            lemma_map_of(entry_views(self.entries@));
        }
        let ghost before = entry_views(self.entries@);
        let mut entries: Vec<(Vec<char>, IndexAction)> = Vec::new();
        std::mem::swap(&mut entries, &mut self.entries);
        assert(entry_views(self.entries@) =~= Seq::empty());
        let mut actions: Vec<IndexAction> = Vec::new();
        let mut i: usize = 0;
        while i < entries.len()
            invariant
                i <= entries.len(),
                before == entry_views(entries@),
                actions.len() == i,
                forall|k: int| 0 <= k < i ==> (#[trigger] actions@[k])@ == before[k].1,
            decreases entries.len() - i,
        {
            actions.push(entries[i].1.clone());
            i = i + 1;
        }
        assert forall|a: int, b: int|
            0 <= a < actions.len() && 0 <= b < actions.len() && a != b implies waiting_path(
            #[trigger] actions@[a]@,
        ) != waiting_path(#[trigger] actions@[b]@) by {
            assert(before[a].0 != before[b].0);
        }
        actions
    }
}

/// The path under which an action waits.
pub open spec fn waiting_path(action: IndexActionView) -> Seq<char> {
    match action {
        IndexActionView::Update { rel_path } => rel_path,
        IndexActionView::Remove { rel_path } => rel_path,
        IndexActionView::Rename { old_path, new_path } => new_path,
    }
}

/// What a flush did.
#[derive(Debug, Clone, Copy, PartialEq, Eq, Structural)]
pub struct FlushReport {
    pub success_count: usize,
    pub error_count: usize,
    /// Whether the time of the last update is to be written down: it is
    /// where at least one action succeeded.
    pub update_metadata: bool,
}

/// The number of `true` among `results`.
pub open spec fn successes(results: Seq<bool>) -> nat
    decreases results.len(),
{
    if results.len() == 0 {
        0
    } else {
        successes(results.drop_last()) + if results.last() {
            1nat
        } else {
            0nat
        }
    }
}

/// Counts the actions of a flush that succeeded and those that failed.
pub fn tally(results: &Vec<bool>) -> (report: FlushReport)
    ensures
        report.success_count == successes(results@),
        report.error_count == results@.len() - successes(results@),
        report.update_metadata == (successes(results@) > 0),
{
    let mut ok: usize = 0;
    let mut failed: usize = 0;
    let mut i: usize = 0;
    assert(results@.subrange(0, 0) =~= Seq::<bool>::empty());
    while i < results.len()
        invariant
            i <= results.len(),
            ok + failed == i,
            ok == successes(results@.subrange(0, i as int)),
        decreases results.len() - i,
    {
        assert(results@.subrange(0, i + 1).drop_last() =~= results@.subrange(0, i as int));
        if results[i] {
            ok = ok + 1;
        } else {
            failed = failed + 1;
        }
        i = i + 1;
    }
    assert(results@.subrange(0, results.len() as int) =~= results@);
    FlushReport { success_count: ok, error_count: failed, update_metadata: ok > 0 }
}

/// What a tick asks for.
#[derive(Debug)]
pub enum Tick {
    /// There is nothing to do: the service is switched off, or nothing waits.
    Idle,
    /// The index has not been built: the `count` actions that waited are
    /// dropped. A build of the whole index makes up for them.
    Dropped { count: usize },
    /// These actions are to be carried out, each on its own; a failure
    /// of one does not keep the others from being tried.
    Flush { actions: Vec<IndexAction> },
}

/// Gathers index actions from catalog events and hands them out in
/// batches. A loop outside feeds it events and ticks.
pub struct IndexSyncService {
    config: SearchConfig,
    contexts_root: String,
    enabled: bool,
    pending: PendingActions,
    check_interval_secs: u64,
}

impl IndexSyncService {
    /// Whether events are heard and ticks answered.
    pub closed spec fn enabled(&self) -> bool {
        self.enabled
    }

    /// The waiting actions by path.
    pub closed spec fn pending(&self) -> PendingMap {
        self.pending@
    }

    /// The time between two ticks, in seconds.
    pub closed spec fn interval(&self) -> u64 {
        self.check_interval_secs
    }

    /// A service that is switched on, with nothing waiting and a tick
    /// every five minutes.
    pub fn new(config: SearchConfig, contexts_root: String) -> (s: IndexSyncService)
        ensures
            s.enabled(),
            s.pending() == PendingMap::empty(),
            s.interval() == 300,
            s.settings() == config,
            s.root() == contexts_root@,
    {
        IndexSyncService {
            config,
            contexts_root,
            enabled: true,
            pending: PendingActions::new(),
            check_interval_secs: 300,
        }
    }

    /// The same service with a tick every `secs` seconds.
    pub fn with_interval(self, secs: u64) -> (s: IndexSyncService)
        ensures
            s.interval() == secs,
            s.enabled() == self.enabled(),
            s.pending() == self.pending(),
            s.settings() == self.settings(),
            s.root() == self.root(),
    {
        IndexSyncService {
            config: self.config,
            contexts_root: self.contexts_root,
            enabled: self.enabled,
            pending: self.pending,
            check_interval_secs: secs,
        }
    }

    /// Switches the service on or off.
    pub fn set_enabled(&mut self, enabled: bool)
        ensures
            final(self).enabled() == enabled,
            final(self).pending() == old(self).pending(),
            final(self).interval() == old(self).interval(),
            final(self).settings() == old(self).settings(),
            final(self).root() == old(self).root(),
    {
        self.enabled = enabled;
    }

    /// Whether the service is switched on.
    pub fn is_enabled(&self) -> (b: bool)
        ensures
            b == self.enabled(),
    {
        self.enabled
    }

    /// The time between two ticks, in seconds.
    pub fn check_interval_secs(&self) -> (secs: u64)
        ensures
            secs == self.interval(),
    {
        self.check_interval_secs
    }

    /// The configuration that the service was made with.
    pub closed spec fn settings(&self) -> SearchConfig {
        self.config
    }

    /// The directory of the document tree.
    pub closed spec fn root(&self) -> Seq<char> {
        self.contexts_root@
    }

    /// The configuration that the service was made with.
    pub fn config(&self) -> (c: &SearchConfig)
        ensures
            *c == self.settings(),
    {
        &self.config
    }

    /// The directory of the document tree.
    pub fn contexts_root(&self) -> (r: &String)
        ensures
            r@ == self.root(),
    {
        &self.contexts_root
    }

    /// The number of waiting actions.
    pub fn pending_count(&self) -> (n: usize)
        ensures
            self.pending().dom().finite(),
            n == self.pending().dom().len(),
    {
        self.pending.len()
    }

    /// Hears an event: while the service is switched on, the actions that
    /// the event asks for join the waiting ones, in order. While it is
    /// switched off the event is lost.
    pub fn on_event(&mut self, event: Event)
        ensures
            final(self).enabled() == old(self).enabled(),
            final(self).interval() == old(self).interval(),
            final(self).pending() == if old(self).enabled() {
                coalesced_all(old(self).pending(), actions_of(event@))
            } else {
                old(self).pending()
            },
    {
        if !self.enabled {
            return ;
        }
        let ghost want = actions_of(event@);
        let ghost start = self.pending@;
        let actions = event_to_actions(event);
        let mut i: usize = 0;
        assert(want.subrange(0, 0) =~= Seq::empty());
        while i < actions.len()
            invariant
                i <= actions.len(),
                want == action_views(actions@),
                self.enabled == old(self).enabled,
                self.check_interval_secs == old(self).check_interval_secs,
                self.pending@ == coalesced_all(start, want.subrange(0, i as int)),
            decreases actions.len() - i,
        {
            assert(want.subrange(0, i + 1).drop_last() =~= want.subrange(0, i as int));
            assert(want.subrange(0, i + 1).last() == actions@[i as int]@);
            self.pending.apply(actions[i].clone());
            i = i + 1;
        }
        assert(want.subrange(0, actions.len() as int) =~= want);
    }

    /// Answers a tick. While the service is switched off, or while
    /// nothing waits, there is nothing to do. Otherwise all that waits is
    /// taken, each path's action once, and nothing is left waiting; it is
    /// handed out to be carried out where the index has been built, and
    /// dropped where it has not.
    pub fn on_tick(&mut self, index_exists: bool) -> (tick: Tick)
        ensures
            final(self).enabled() == old(self).enabled(),
            final(self).interval() == old(self).interval(),
            final(self).settings() == old(self).settings(),
            final(self).root() == old(self).root(),
            old(self).pending().dom().finite(),
            match tick {
                Tick::Idle => {
                    &&& !old(self).enabled() || old(self).pending().dom().len() == 0
                    &&& final(self).pending() == old(self).pending()
                },
                Tick::Dropped { count } => {
                    &&& old(self).enabled()
                    &&& !index_exists
                    &&& count > 0
                    &&& count == old(self).pending().dom().len()
                    &&& final(self).pending() == PendingMap::empty()
                },
                Tick::Flush { actions } => {
                    &&& old(self).enabled()
                    &&& index_exists
                    &&& old(self).pending().dom().len() > 0
                    &&& final(self).pending() == PendingMap::empty()
                    &&& actions.len() == old(self).pending().dom().len()
                    &&& forall|i: int|
                        0 <= i < actions.len() ==> old(self).pending().dom().contains(
                            waiting_path(#[trigger] actions@[i]@),
                        ) && old(self).pending()[waiting_path(actions@[i]@)] == actions@[i]@
                    &&& forall|i: int, j: int|
                        0 <= i < actions.len() && 0 <= j < actions.len() && i != j
                            ==> waiting_path(#[trigger] actions@[i]@) != waiting_path(
                            #[trigger] actions@[j]@,
                        )
                },
            },
    {
        if !self.enabled || self.pending.is_empty() {
            let n = self.pending.len();
            return Tick::Idle;
        }
        let actions = self.pending.drain();
        if index_exists {
            Tick::Flush { actions }
        } else {
            Tick::Dropped { count: actions.len() }
        }
    }
}

} // verus!
