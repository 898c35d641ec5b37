//! Tracking of the files that a migration changes, and the way back: what
//! rolling back does to each tracked file.
use vstd::prelude::*;
use crate::error::{Error, ErrorView};
use crate::text::str_eq;

verus! {

/// Represents a file change that can be tracked for potential rollback.
pub enum FileChange {
    /// File was created (contains its content for potential rollback)
    Created { original_existed: bool, original_content: Option<Vec<u8>> },
    /// File was renamed (contains source path for potential rollback)
    Renamed { source_path: String },
}

pub enum FileChangeView {
    Created { original_existed: bool, original_content: Option<Seq<u8>> },
    Renamed { source_path: Seq<char> },
}

impl View for FileChange {
    type V = FileChangeView;

    open spec fn view(&self) -> FileChangeView {
        match self {
            FileChange::Created { original_existed, original_content } => FileChangeView::Created {
                original_existed: *original_existed,
                original_content: match original_content {
                    Some(c) => Some(c@),
                    None => None,
                },
            },
            FileChange::Renamed { source_path } => FileChangeView::Renamed { source_path: source_path@ },
        }
    }
}

impl FileChange {
    /// Creates a new FileChange for a created file.
    pub fn new_created() -> (r: Self)
        ensures
            r@ == (FileChangeView::Created { original_existed: false, original_content: None }),
    {
        FileChange::Created { original_existed: false, original_content: None }
    }

    /// Creates a new FileChange for a created file, storing original content for rollback.
    pub fn created_with_content(content: Vec<u8>) -> (r: Self)
        ensures
            r@ == (FileChangeView::Created { original_existed: true, original_content: Some(content@) }),
    {
        FileChange::Created { original_existed: true, original_content: Some(content) }
    }

    /// Creates a new FileChange for a renamed file.
    pub fn renamed(source_path: String) -> (r: Self)
        ensures
            r@ == (FileChangeView::Renamed { source_path: source_path@ }),
    {
        FileChange::Renamed { source_path }
    }
}

/// The tracked changes, by path: each path at most once.
pub struct FileTracker {
    changes: Vec<(String, FileChange)>,
    restore_enabled: bool,
    force_rollback: bool,
}

pub struct FileTrackerView {
    pub changes: Seq<(Seq<char>, FileChangeView)>,
    pub restore_enabled: bool,
    pub force_rollback: bool,
}

pub open spec fn changes_view(cs: Seq<(String, FileChange)>) -> Seq<(Seq<char>, FileChangeView)> {
    cs.map_values(|c: (String, FileChange)| (c.0@, c.1@))
}

impl View for FileTracker {
    type V = FileTrackerView;

    closed spec fn view(&self) -> FileTrackerView {
        FileTrackerView {
            changes: changes_view(self.changes@),
            restore_enabled: self.restore_enabled,
            force_rollback: self.force_rollback,
        }
    }
}

/// Whether no path occurs twice.
pub open spec fn unique_paths(cs: Seq<(Seq<char>, FileChangeView)>) -> bool {
    forall|i: int, j: int| 0 <= i < j < cs.len() ==> #[trigger] cs[i].0 != #[trigger] cs[j].0
}

pub open spec fn has_path(cs: Seq<(Seq<char>, FileChangeView)>, path: Seq<char>) -> bool {
    exists|i: int| 0 <= i < cs.len() && #[trigger] cs[i].0 == path
}

/// The changes with the one of a path set: in its place where the path is
/// tracked, at the end where it is new.
pub open spec fn set_change(cs: Seq<(Seq<char>, FileChangeView)>, path: Seq<char>, c: FileChangeView) -> Seq<(Seq<char>, FileChangeView)> {
    if has_path(cs, path) {
        cs.update(choose|i: int| 0 <= i < cs.len() && cs[i].0 == path, (path, c))
    } else {
        cs.push((path, c))
    }
}

/// The change recorded when a file starts being tracked: its content where it
/// exists, else that it is new.
pub open spec fn created_change(existing: Option<Seq<u8>>) -> FileChangeView {
    match existing {
        Some(c) => FileChangeView::Created { original_existed: true, original_content: Some(c) },
        None => FileChangeView::Created { original_existed: false, original_content: None },
    }
}

pub open spec fn opt_bytes(o: Option<Vec<u8>>) -> Option<Seq<u8>> {
    match o {
        Some(c) => Some(c@),
        None => None,
    }
}

/// The tracker after a file starts being tracked: a path tracked already
/// keeps its first record.
pub open spec fn track(t: FileTrackerView, path: Seq<char>, existing: Option<Seq<u8>>) -> FileTrackerView {
    if has_path(t.changes, path) {
        t
    } else {
        FileTrackerView { changes: t.changes.push((path, created_change(existing))), ..t }
    }
}

/// Tracking a file twice is tracking it once: the first record stays.
pub proof fn lemma_track_twice(t: FileTrackerView, path: Seq<char>, first: Option<Seq<u8>>, second: Option<Seq<u8>>)
    ensures
        track(track(t, path, first), path, second) == track(t, path, first),
{
    let t1 = track(t, path, first);
    if !has_path(t.changes, path) {
        assert(t1.changes[t.changes.len() as int].0 == path);
        assert(has_path(t1.changes, path));
    }
}

/// What a rollback does to a file that tracking found: its original content
/// is written back where it existed; a file the migration created is removed
/// where it exists, and left alone where it is gone.
pub proof fn lemma_rollback_undoes_track(t: FileTrackerView, path: Seq<char>, existing: Option<Seq<u8>>, path_exists: bool, source_exists: bool)
    requires
        !has_path(t.changes, path),
    ensures
        track(t, path, existing).changes.last() == (path, created_change(existing)),
        rollback_step(created_change(existing), path_exists, source_exists) == match existing {
            Some(c) => RollbackActionView::Restore(c),
            None => if path_exists { RollbackActionView::Remove } else { RollbackActionView::Nothing },
        },
{
}

/// What a rollback does to a tracked rename: the file goes back to its source
/// name, or, where a new file took that name meanwhile, its content does.
pub proof fn lemma_rollback_undoes_rename(source: Seq<char>, path_exists: bool, source_exists: bool)
    ensures
        rollback_step(FileChangeView::Renamed { source_path: source }, path_exists, source_exists) == (if !path_exists {
            RollbackActionView::Nothing
        } else if source_exists {
            RollbackActionView::CopyBack(source)
        } else {
            RollbackActionView::MoveBack(source)
        }),
{
}

impl FileTracker {
    /// Whether no path is tracked twice.
    pub open spec fn wf(&self) -> bool {
        unique_paths(self@.changes)
    }

    /// Creates a new FileTracker with restore on drop enabled.
    pub fn new() -> (r: Self)
        ensures
            r.wf(),
            r@ == (FileTrackerView { changes: seq![], restore_enabled: true, force_rollback: false }),
    {
        let r = FileTracker { changes: Vec::new(), restore_enabled: true, force_rollback: false };
        assert(changes_view(r.changes@) =~= seq![]);
        r
    }

    /// Creates a new FileTracker with restore on drop configurable.
    pub fn new_with_restore(restore_enabled: bool) -> (r: Self)
        ensures
            r.wf(),
            r@ == (FileTrackerView { changes: seq![], restore_enabled, force_rollback: false }),
    {
        let r = FileTracker { changes: Vec::new(), restore_enabled, force_rollback: false };
        assert(changes_view(r.changes@) =~= seq![]);
        r
    }

    /// The position of a tracked path.
    fn position(&self, path: &str) -> (r: Option<usize>)
        ensures
            match r {
                Some(i) => i < self@.changes.len() && self@.changes[i as int].0 == path@,
                None => !has_path(self@.changes, path@),
            },
    {
        let mut i: usize = 0;
        while i < self.changes.len()
            invariant
                i <= self.changes@.len(),
                forall|j: int| 0 <= j < i ==> #[trigger] self.changes@[j].0@ != path@,
            decreases self.changes.len() - i,
        {
            if str_eq(self.changes[i].0.as_str(), path) {
                assert(changes_view(self.changes@)[i as int].0 == path@);
                return Some(i);
            }
            i = i + 1;
        }
        assert forall|j: int| 0 <= j < changes_view(self.changes@).len() implies #[trigger] changes_view(self.changes@)[j].0 != path@ by {
            assert(changes_view(self.changes@)[j].0 == self.changes@[j].0@);
        }
        None
    }

    /// Whether a path is tracked already.
    pub fn is_tracked(&self, path: &str) -> (r: bool)
        ensures
            r == has_path(self@.changes, path@),
    {
        match self.position(path) {
            Some(i) => true,
            None => false,
        }
    }

    fn set(&mut self, path: &str, change: FileChange)
        requires
            old(self).wf(),
        ensures
            final(self).wf(),
            final(self)@ == (FileTrackerView { changes: set_change(old(self)@.changes, path@, change@), ..old(self)@ }),
    {
        let ghost cs = self@.changes;
        let ghost cv = change@;
        match self.position(path) {
            Some(i) => {
                proof {
                    let k = choose|k: int| 0 <= k < cs.len() && cs[k].0 == path@;
                    assert(has_path(cs, path@));
                    if k != i as int {
                        if k < i {
                            assert(cs[k].0 != cs[i as int].0);
                        } else {
                            assert(cs[i as int].0 != cs[k].0);
                        }
                    }
                }
                self.changes.set(i, (path.to_string(), change));
                proof {
                    assert(changes_view(self.changes@) =~= cs.update(i as int, (path@, cv)));
                }
            },
            None => {
                self.changes.push((path.to_string(), change));
                proof {
                    assert(changes_view(self.changes@) =~= cs.push((path@, cv)));
                }
            },
        }
    }

    /// Starts tracking a file, with its content where it exists
    /// (`existing_content`); a file tracked already stays as it was.
    pub fn track_file(&mut self, path: &str, existing_content: Option<Vec<u8>>)
        requires
            old(self).wf(),
        ensures
            final(self).wf(),
            final(self)@ == track(old(self)@, path@, opt_bytes(existing_content)),
    {
        if self.is_tracked(path) {
            return;
        }
        let change = match existing_content {
            Some(c) => FileChange::created_with_content(c),
            None => FileChange::new_created(),
        };
        self.set(path, change);
    }

    /// Tracks the rename of `source` (which must exist, `source_exists`) to
    /// `target`.
    pub fn track_rename(&mut self, source: &str, target: &str, source_exists: bool) -> (r: Result<(), Error>)
        requires
            old(self).wf(),
        ensures
            final(self).wf(),
            !source_exists ==> (r matches Err(e) && e@ == ErrorView::FileOperation {
                path: source@,
                message: "Source file does not exist"@,
            }) && final(self)@ == old(self)@,
            source_exists ==> r is Ok && final(self)@ == (FileTrackerView {
                changes: set_change(old(self)@.changes, target@, FileChangeView::Renamed { source_path: source@ }),
                ..old(self)@
            }),
    {
        if !source_exists {
            return Err(Error::FileOperation {
                path: source.to_string(),
                message: "Source file does not exist".to_string(),
            });
        }
        self.set(target, FileChange::renamed(source.to_string()));
        Ok(())
    }

    /// Force rollback of tracked changes.
    pub fn force_rollback(&mut self)
        requires
            old(self).wf(),
        ensures
            final(self).wf(),
            final(self)@ == (FileTrackerView { force_rollback: true, ..old(self)@ }),
    {
        self.force_rollback = true;
    }

    /// Clear tracked changes without rollback.
    pub fn clear(&mut self)
        requires
            old(self).wf(),
        ensures
            final(self).wf(),
            final(self)@ == (FileTrackerView { changes: seq![], ..old(self)@ }),
    {
        self.changes = Vec::new();
        assert(changes_view(self.changes@) =~= seq![]);
    }

    /// Whether the tracker rolls back when it goes out of use: a rollback was
    /// forced, restoring is enabled, and something is tracked.
    pub fn should_rollback_on_drop(&self) -> (r: bool)
        ensures
            r == (self@.force_rollback && self@.restore_enabled && self@.changes.len() > 0),
    {
        self.force_rollback && self.restore_enabled && self.changes.len() > 0
    }

    /// The tracked paths, last tracked first: the order of a rollback.
    pub fn rollback_order(&self) -> (r: Vec<String>)
        ensures
            r@.len() == self@.changes.len(),
            forall|i: int| 0 <= i < r@.len() ==> #[trigger] r@[i]@ == self@.changes[self@.changes.len() - 1 - i].0,
    {
        let mut out: Vec<String> = Vec::new();
        let n = self.changes.len();
        let mut i: usize = 0;
        while i < n
            invariant
                i <= n == self.changes@.len(),
                out@.len() == i,
                forall|j: int| 0 <= j < i ==> #[trigger] out@[j]@ == self.changes@[n - 1 - j].0@,
            decreases n - i,
        {
            out.push(self.changes[n - 1 - i].0.clone());
            i = i + 1;
        }
        out
    }

    /// The change recorded for a path.
    pub fn change_of(&self, path: &str) -> (r: Option<&FileChange>)
        ensures
            match r {
                Some(c) => exists|i: int| 0 <= i < self@.changes.len() && self@.changes[i] == (path@, c@),
                None => !has_path(self@.changes, path@),
            },
    {
        match self.position(path) {
            Some(i) => {
                assert(changes_view(self.changes@)[i as int] == (path@, self.changes@[i as int].1@));
                Some(&self.changes[i].1)
            },
            None => None,
        }
    }
}

/// What a rollback does to one tracked path.
pub enum RollbackAction {
    /// Write the original content back.
    Restore(Vec<u8>),
    /// Remove the file that the migration created.
    Remove,
    /// Rename the file back to its source.
    MoveBack(String),
    /// Copy the file's content back to its source, then remove the file (the
    /// migration created a new file at the source meanwhile).
    CopyBack(String),
    /// Leave it.
    Nothing,
}

pub enum RollbackActionView {
    Restore(Seq<u8>),
    Remove,
    MoveBack(Seq<char>),
    CopyBack(Seq<char>),
    Nothing,
}

impl View for RollbackAction {
    type V = RollbackActionView;

    open spec fn view(&self) -> RollbackActionView {
        match self {
            RollbackAction::Restore(c) => RollbackActionView::Restore(c@),
            RollbackAction::Remove => RollbackActionView::Remove,
            RollbackAction::MoveBack(s) => RollbackActionView::MoveBack(s@),
            RollbackAction::CopyBack(s) => RollbackActionView::CopyBack(s@),
            RollbackAction::Nothing => RollbackActionView::Nothing,
        }
    }
}

/// What rolling back a change does, given whether the tracked path and (for a
/// rename) its source exist now.
pub open spec fn rollback_step(c: FileChangeView, path_exists: bool, source_exists: bool) -> RollbackActionView {
    match c {
        FileChangeView::Created { original_existed, original_content } => if original_existed {
            match original_content {
                Some(content) => RollbackActionView::Restore(content),
                None => RollbackActionView::Nothing,
            }
        } else if path_exists {
            RollbackActionView::Remove
        } else {
            RollbackActionView::Nothing
        },
        FileChangeView::Renamed { source_path } => if !path_exists {
            RollbackActionView::Nothing
        } else if source_exists {
            RollbackActionView::CopyBack(source_path)
        } else {
            RollbackActionView::MoveBack(source_path)
        },
    }
}

/// The files of a project directory: the content of each file that exists.
pub type Files = Map<Seq<char>, Seq<u8>>;

/// The files after one rollback action on `path`.
pub open spec fn apply_rollback_action(fs: Files, path: Seq<char>, a: RollbackActionView) -> Files {
    match a {
        RollbackActionView::Restore(content) => fs.insert(path, content),
        RollbackActionView::Remove => fs.remove(path),
        RollbackActionView::MoveBack(source) => fs.remove(path).insert(source, fs[path]),
        RollbackActionView::CopyBack(source) => fs.insert(source, fs[path]).remove(path),
        RollbackActionView::Nothing => fs,
    }
}

/// The source of a rename, where the change is one.
pub open spec fn change_source_exists(c: FileChangeView, fs: Files) -> bool {
    match c {
        FileChangeView::Renamed { source_path } => fs.contains_key(source_path),
        _ => false,
    }
}

/// The files after a rollback: the changes are undone last tracked first,
/// each by `rollback_step` on the files as they are at that moment.
pub open spec fn rolled_back(cs: Seq<(Seq<char>, FileChangeView)>, fs: Files) -> Files
    decreases cs.len(),
{
    if cs.len() == 0 {
        fs
    } else {
        let (p, c) = cs.last();
        let a = rollback_step(c, fs.contains_key(p), change_source_exists(c, fs));
        rolled_back(cs.drop_last(), apply_rollback_action(fs, p, a))
    }
}

/// A change recorded by `track_file`.
pub open spec fn tracked_file_change(c: FileChangeView) -> bool {
    exists|existing: Option<Seq<u8>>| c == created_change(existing)
}

/// Where every change was recorded by `track_file`, a rollback leaves the
/// files that were not tracked as they are.
pub proof fn lemma_rollback_keeps_untracked(cs: Seq<(Seq<char>, FileChangeView)>, fs: Files, q: Seq<char>)
    requires
        forall|i: int| 0 <= i < cs.len() ==> tracked_file_change(#[trigger] cs[i].1),
        !has_path(cs, q),
    ensures
        rolled_back(cs, fs).contains_key(q) == fs.contains_key(q),
        fs.contains_key(q) ==> rolled_back(cs, fs)[q] == fs[q],
    decreases cs.len(),
{
    if cs.len() > 0 {
        let (p, c) = cs.last();
        assert(cs[cs.len() - 1].0 == p);
        assert(p != q);
        assert(tracked_file_change(cs[cs.len() - 1].1));
        let a = rollback_step(c, fs.contains_key(p), change_source_exists(c, fs));
        let fs1 = apply_rollback_action(fs, p, a);
        assert(fs1.contains_key(q) == fs.contains_key(q));
        assert(fs.contains_key(q) ==> fs1[q] == fs[q]);
        assert forall|i: int| 0 <= i < cs.drop_last().len() implies tracked_file_change(#[trigger] cs.drop_last()[i].1) by {
            assert(cs.drop_last()[i] == cs[i]);
        }
        assert(!has_path(cs.drop_last(), q)) by {
            if has_path(cs.drop_last(), q) {
                let i = choose|i: int| 0 <= i < cs.drop_last().len() && #[trigger] cs.drop_last()[i].0 == q;
                assert(cs[i].0 == q);
            }
        }
        lemma_rollback_keeps_untracked(cs.drop_last(), fs1, q);
    }
}

/// A tracked file has its first tracked content again, or is gone where it
/// did not exist when first tracked.
pub open spec fn restored(fs: Files, e: (Seq<char>, FileChangeView)) -> bool {
    match e.1 {
        FileChangeView::Created { original_content, .. } => match original_content {
            Some(content) => fs.contains_key(e.0) && fs[e.0] == content,
            None => !fs.contains_key(e.0),
        },
        FileChangeView::Renamed { .. } => true,
    }
}

/// Where every change was recorded by `track_file`, rolling back gives each
/// tracked file the content it had when it was first tracked, and removes
/// each tracked file that did not exist then; other files stay as they are.
pub proof fn lemma_rollback_restores_tracked_files(cs: Seq<(Seq<char>, FileChangeView)>, fs: Files)
    requires
        unique_paths(cs),
        forall|i: int| 0 <= i < cs.len() ==> tracked_file_change(#[trigger] cs[i].1),
    ensures
        forall|i: int| 0 <= i < cs.len() ==> restored(rolled_back(cs, fs), #[trigger] cs[i]),
    decreases cs.len(),
{
    if cs.len() > 0 {
        let n = cs.len() - 1;
        let (p, c) = cs.last();
        let a = rollback_step(c, fs.contains_key(p), change_source_exists(c, fs));
        let fs1 = apply_rollback_action(fs, p, a);
        let rest = cs.drop_last();
        assert forall|i: int| 0 <= i < rest.len() implies tracked_file_change(#[trigger] rest[i].1) by {
            assert(rest[i] == cs[i]);
        }
        assert(unique_paths(rest)) by {
            assert forall|i: int, j: int| 0 <= i < j < rest.len() implies #[trigger] rest[i].0 != #[trigger] rest[j].0 by {
                assert(rest[i] == cs[i] && rest[j] == cs[j]);
            }
        }
        lemma_rollback_restores_tracked_files(rest, fs1);
        assert(!has_path(rest, p)) by {
            if has_path(rest, p) {
                let i = choose|i: int| 0 <= i < rest.len() && #[trigger] rest[i].0 == p;
                assert(cs[i].0 == cs[n].0);
            }
        }
        lemma_rollback_keeps_untracked(rest, fs1, p);
        assert(rolled_back(cs, fs) == rolled_back(rest, fs1));
        assert forall|i: int| 0 <= i < cs.len() implies restored(rolled_back(cs, fs), #[trigger] cs[i]) by {
            if i < n {
                assert(rest[i] == cs[i]);
            } else {
                assert(tracked_file_change(cs[n].1));
                let existing = choose|existing: Option<Seq<u8>>| c == created_change(existing);
                assert(c == created_change(existing));
            }
        }
    }
}

/// The backup of `pyproject.toml` undone: a file `p` with content `content`
/// is renamed to `b` (tracked with `track_rename`), then `p` is tracked while
/// it is gone and written anew. Whatever else was tracked with `track_file`
/// before, rolling back gives `p` its content again and removes `b`.
pub proof fn lemma_rollback_undoes_backup(
    t: FileTrackerView,
    p: Seq<char>,
    b: Seq<char>,
    content: Seq<u8>,
    new_content: Seq<u8>,
    fs: Files,
)
    requires
        p != b,
        forall|i: int| 0 <= i < t.changes.len() ==> tracked_file_change(#[trigger] t.changes[i].1),
        !has_path(t.changes, p),
        !has_path(t.changes, b),
        fs.contains_key(p),
        fs[p] == content,
        !fs.contains_key(b),
    ensures
        ({
            let t1 = FileTrackerView {
                changes: set_change(t.changes, b, FileChangeView::Renamed { source_path: p }),
                ..t
            };
            let fs1 = fs.remove(p).insert(b, content);
            let t2 = track(t1, p, None);
            let fs2 = fs1.insert(p, new_content);
            &&& rolled_back(t2.changes, fs2).contains_key(p)
            &&& rolled_back(t2.changes, fs2)[p] == content
            &&& !rolled_back(t2.changes, fs2).contains_key(b)
        }),
{
    let cs1 = t.changes.push((b, FileChangeView::Renamed { source_path: p }));
    assert(set_change(t.changes, b, FileChangeView::Renamed { source_path: p }) == cs1);
    let t1 = FileTrackerView { changes: cs1, ..t };
    assert(!has_path(cs1, p)) by {
        if has_path(cs1, p) {
            let i = choose|i: int| 0 <= i < cs1.len() && #[trigger] cs1[i].0 == p;
            if i < t.changes.len() {
                assert(cs1[i] == t.changes[i]);
            }
        }
    }
    let cs2 = cs1.push((p, created_change(None)));
    assert(track(t1, p, None).changes == cs2);
    let fs1 = fs.remove(p).insert(b, content);
    let fs2 = fs1.insert(p, new_content);
    // `p` first: it was created by the migration, and exists: removed.
    let fs3 = fs2.remove(p);
    assert(cs2.drop_last() == cs1);
    assert(rolled_back(cs2, fs2) == rolled_back(cs1, fs3));
    // Then `b`: it exists and `p` does not: moved back.
    let fs4 = fs3.remove(b).insert(p, fs3[b]);
    assert(cs1.drop_last() == t.changes);
    assert(rolled_back(cs1, fs3) == rolled_back(t.changes, fs4));
    assert(fs4[p] == content);
    assert(!fs4.contains_key(b));
    lemma_rollback_keeps_untracked(t.changes, fs4, p);
    lemma_rollback_keeps_untracked(t.changes, fs4, b);
}

/// What rolling back a change does to its path.
pub fn rollback_action(change: &FileChange, path_exists: bool, source_exists: bool) -> (r: RollbackAction)
    ensures
        r@ == rollback_step(change@, path_exists, source_exists),
{
    match change {
        FileChange::Created { original_existed, original_content } => {
            if *original_existed {
                match original_content {
                    Some(c) => RollbackAction::Restore(c.clone()),
                    None => RollbackAction::Nothing,
                }
            } else if path_exists {
                RollbackAction::Remove
            } else {
                RollbackAction::Nothing
            }
        },
        FileChange::Renamed { source_path } => {
            if !path_exists {
                RollbackAction::Nothing
            } else if source_exists {
                RollbackAction::CopyBack(source_path.clone())
            } else {
                RollbackAction::MoveBack(source_path.clone())
            }
        },
    }
}

/// A guard wrapper around FileTracker that simplifies working with tracked files.
pub struct FileTrackerGuard {
    pub inner: FileTracker,
}

impl FileTrackerGuard {
    /// Creates a new FileTrackerGuard with restore on drop enabled.
    pub fn new() -> (r: Self)
        ensures
            r.inner.wf(),
            r.inner@ == (FileTrackerView { changes: seq![], restore_enabled: true, force_rollback: false }),
    {
        FileTrackerGuard { inner: FileTracker::new() }
    }

    /// Creates a new FileTrackerGuard with restore on drop configurable.
    pub fn new_with_restore(restore_enabled: bool) -> (r: Self)
        ensures
            r.inner.wf(),
            r.inner@ == (FileTrackerView { changes: seq![], restore_enabled, force_rollback: false }),
    {
        FileTrackerGuard { inner: FileTracker::new_with_restore(restore_enabled) }
    }

    /// Starts tracking a file (see `FileTracker::track_file`).
    pub fn track_file(&mut self, path: &str, existing_content: Option<Vec<u8>>)
        requires
            old(self).inner.wf(),
        ensures
            final(self).inner.wf(),
            final(self).inner@ == track(old(self).inner@, path@, opt_bytes(existing_content)),
    {
        self.inner.track_file(path, existing_content);
    }

    /// Tracks a file rename (see `FileTracker::track_rename`).
    pub fn track_rename(&mut self, source: &str, target: &str, source_exists: bool) -> (r: Result<(), Error>)
        requires
            old(self).inner.wf(),
        ensures
            final(self).inner.wf(),
            !source_exists ==> (r matches Err(e) && e@ == ErrorView::FileOperation {
                path: source@,
                message: "Source file does not exist"@,
            }) && final(self).inner@ == old(self).inner@,
            source_exists ==> r is Ok && final(self).inner@ == (FileTrackerView {
                changes: set_change(old(self).inner@.changes, target@, FileChangeView::Renamed { source_path: source@ }),
                ..old(self).inner@
            }),
    {
        self.inner.track_rename(source, target, source_exists)
    }

    /// Force rollback of tracked changes.
    pub fn force_rollback(&mut self)
        requires
            old(self).inner.wf(),
        ensures
            final(self).inner.wf(),
            final(self).inner@ == (FileTrackerView { force_rollback: true, ..old(self).inner@ }),
    {
        self.inner.force_rollback();
    }
}

} // verus!
