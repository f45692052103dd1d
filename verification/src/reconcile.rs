//! Comparing the index with the shards on disk, on a worker.
//!
//! The worker alternates between looking at the disk and deciding what to look
//! at next. The decisions are here: each stage says what is wanted, and an
//! answer leads to the next stage. Nothing is reported as current unless the
//! workspace was seen not to have moved, before and after.
use vstd::prelude::*;

use crate::index_cache::{CacheKey, KeyView};
use crate::session::{RefreshWork, WorkView};
use crate::shard_set::{same_shards, ShardIdentity, ShardMetadata};

verus! {

/// What a worker sets out with.
#[derive(Debug)]
pub struct Task {
    /// Load the shards even where they are those of the index.
    pub force: bool,
    /// The shards of the index.
    pub previous: Option<Vec<ShardMetadata>>,
    /// What the index belongs to.
    pub provenance: Option<CacheKey>,
    /// Whether there is a workspace whose movement matters.
    pub rooted: bool,
}

/// The view of a [`Task`].
pub struct TaskView {
    pub force: bool,
    pub previous: Option<Seq<ShardIdentity>>,
    pub provenance: Option<KeyView>,
    pub rooted: bool,
}

impl View for Task {
    type V = TaskView;

    open spec fn view(&self) -> TaskView {
        TaskView {
            force: self.force,
            previous: match self.previous {
                Some(shards) => Some(crate::shard_set::identities(shards@)),
                None => None,
            },
            provenance: crate::session::key_of(self.provenance),
            rooted: self.rooted,
        }
    }
}

/// What is wanted next.
#[derive(Debug)]
pub enum Reconciler<I> {
    /// What the workspace is now, to belong to.
    Key(Task),
    /// Whether the workspace has not moved, before anything is done.
    Before(Task),
    /// The shards that are there.
    Scan(Task),
    /// Whether the workspace has not moved while unchanged shards were compared.
    Validation(Task),
    /// Whether the workspace has not moved before these shards are loaded.
    BeforeLoad(Task, Vec<ShardMetadata>),
    /// An index of these shards.
    Load(Task, Vec<ShardMetadata>),
    /// Whether the workspace has not moved while they were loaded.
    AfterLoad(Task, I, Vec<ShardMetadata>, bool),
    /// Nothing more.
    Done(RefreshWork<I>),
}

/// The view of a [`Reconciler`].
pub enum ReconcilerView<I> {
    Key(TaskView),
    Before(TaskView),
    Scan(TaskView),
    Validation(TaskView),
    BeforeLoad(TaskView, Seq<ShardIdentity>),
    Load(TaskView, Seq<ShardIdentity>),
    AfterLoad(TaskView, I, Seq<ShardIdentity>, bool),
    Done(WorkView<I>),
}

impl<I> View for Reconciler<I> {
    type V = ReconcilerView<I>;

    open spec fn view(&self) -> ReconcilerView<I> {
        match *self {
            Reconciler::Key(task) => ReconcilerView::Key(task@),
            Reconciler::Before(task) => ReconcilerView::Before(task@),
            Reconciler::Scan(task) => ReconcilerView::Scan(task@),
            Reconciler::Validation(task) => ReconcilerView::Validation(task@),
            Reconciler::BeforeLoad(task, shards) => ReconcilerView::BeforeLoad(
                task@,
                crate::shard_set::identities(shards@),
            ),
            Reconciler::Load(task, shards) => ReconcilerView::Load(
                task@,
                crate::shard_set::identities(shards@),
            ),
            Reconciler::AfterLoad(task, index, shards, empty) => ReconcilerView::AfterLoad(
                task@,
                index,
                crate::shard_set::identities(shards@),
                empty,
            ),
            Reconciler::Done(work) => ReconcilerView::Done(work@),
        }
    }
}

/// Whether it matters that the workspace has not moved: there is one, and it is
/// known what the index belongs to.
pub open spec fn is_bound(task: TaskView) -> bool {
    task.provenance is Some && task.rooted
}

/// A stage that asks whether the workspace has not moved, or where that does not
/// matter the one behind it.
pub open spec fn asking<I>(
    task: TaskView,
    ask: ReconcilerView<I>,
    then_on: ReconcilerView<I>,
) -> ReconcilerView<I> {
    if is_bound(task) {
        ask
    } else {
        then_on
    }
}

/// Where a worker begins. What the index belongs to is found out anew where it
/// went stale.
pub open spec fn begun<I>(task: TaskView, stale: bool) -> ReconcilerView<I> {
    let fresh = TaskView { provenance: None, ..task };
    if stale {
        if task.rooted {
            ReconcilerView::Key(fresh)
        } else {
            ReconcilerView::Scan(fresh)
        }
    } else {
        asking(task, ReconcilerView::Before(task), ReconcilerView::Scan(task))
    }
}

/// What the shards come to, once they are loaded and the workspace has not
/// moved. Shards without a definition are no index.
pub open spec fn loaded_work<I>(
    task: TaskView,
    index: I,
    shards: Seq<ShardIdentity>,
    empty: bool,
) -> WorkView<I> {
    if shards.len() == 0 {
        WorkView::Empty { shards, provenance: task.provenance }
    } else if empty {
        WorkView::Failed
    } else {
        WorkView::Loaded { index, shards, provenance: task.provenance }
    }
}

/// The stage behind the answer whether the workspace has not moved.
pub open spec fn confirmed<I>(stage: ReconcilerView<I>, current: bool) -> ReconcilerView<I> {
    if !current {
        ReconcilerView::Done(WorkView::Failed)
    } else {
        match stage {
            ReconcilerView::Before(task) => ReconcilerView::Scan(task),
            ReconcilerView::Validation(task) => ReconcilerView::Done(
                WorkView::Unchanged { provenance: task.provenance },
            ),
            ReconcilerView::BeforeLoad(task, shards) => ReconcilerView::Load(task, shards),
            ReconcilerView::AfterLoad(task, index, shards, empty) => ReconcilerView::Done(
                loaded_work(task, index, shards, empty),
            ),
            _ => ReconcilerView::Done(WorkView::Failed),
        }
    }
}

/// The stage behind a scan.
pub open spec fn scanned<I>(task: TaskView, shards: Seq<ShardIdentity>) -> ReconcilerView<I> {
    if !task.force && task.previous == Some(shards) {
        asking(
            task,
            ReconcilerView::Validation(task),
            ReconcilerView::Done(WorkView::Unchanged { provenance: task.provenance }),
        )
    } else {
        asking(
            task,
            ReconcilerView::BeforeLoad(task, shards),
            ReconcilerView::Load(task, shards),
        )
    }
}

/// The stage behind a load.
pub open spec fn read<I>(
    task: TaskView,
    index: I,
    shards: Seq<ShardIdentity>,
    empty: bool,
) -> ReconcilerView<I> {
    asking(
        task,
        ReconcilerView::AfterLoad(task, index, shards, empty),
        ReconcilerView::Done(loaded_work(task, index, shards, empty)),
    )
}

impl<I> Reconciler<I> {
    /// Where a worker begins.
    pub fn new(task: Task, stale: bool) -> (stage: Reconciler<I>)
        ensures
            stage@ == begun::<I>(task@, stale),
    {
        if stale {
            let fresh = Task {
                force: task.force,
                previous: task.previous,
                provenance: None,
                rooted: task.rooted,
            };
            if task.rooted {
                Reconciler::Key(fresh)
            } else {
                Reconciler::Scan(fresh)
            }
        } else if task.provenance.is_some() && task.rooted {
            Reconciler::Before(task)
        } else {
            Reconciler::Scan(task)
        }
    }

    /// What the workspace is now is known, or could not be found out.
    pub fn on_key(self, key: Option<CacheKey>) -> (stage: Reconciler<I>)
        ensures
            stage@ == (match (self@, crate::session::key_of(key)) {
                (ReconcilerView::Key(task), Some(key)) => {
                    let known = TaskView { provenance: Some(key), ..task };
                    asking(known, ReconcilerView::<I>::Before(known), ReconcilerView::Scan(known))
                },
                _ => ReconcilerView::Done(WorkView::Failed),
            }),
    {
        match (self, key) {
            (Reconciler::Key(task), Some(key)) => {
                let rooted = task.rooted;
                let known = Task {
                    force: task.force,
                    previous: task.previous,
                    provenance: Some(key),
                    rooted,
                };
                if rooted {
                    Reconciler::Before(known)
                } else {
                    Reconciler::Scan(known)
                }
            },
            _ => Reconciler::Done(RefreshWork::Failed),
        }
    }

    /// It is known whether the workspace has not moved.
    pub fn on_freshness(self, current: bool) -> (stage: Reconciler<I>)
        ensures
            stage@ == confirmed(self@, current),
    {
        if !current {
            return Reconciler::Done(RefreshWork::Failed);
        }
        match self {
            Reconciler::Before(task) => Reconciler::Scan(task),
            Reconciler::Validation(task) => Reconciler::Done(
                RefreshWork::Unchanged { provenance: task.provenance },
            ),
            Reconciler::BeforeLoad(task, shards) => Reconciler::Load(task, shards),
            Reconciler::AfterLoad(task, index, shards, empty) => Reconciler::Done(
                Reconciler::work_of(task, index, shards, empty),
            ),
            _ => Reconciler::Done(RefreshWork::Failed),
        }
    }

    /// Computes [`loaded_work`].
    fn work_of(task: Task, index: I, shards: Vec<ShardMetadata>, empty: bool) -> (work: RefreshWork<
        I,
    >)
        ensures
            work@ == loaded_work(
                task@,
                index,
                crate::shard_set::identities(shards@),
                empty,
            ),
    {
        if shards.len() == 0 {
            RefreshWork::Empty { shards, provenance: task.provenance }
        } else if empty {
            RefreshWork::Failed
        } else {
            RefreshWork::Loaded { index, shards, provenance: task.provenance }
        }
    }

    /// The shards were scanned, or could not be.
    pub fn on_scan(self, shards: Option<Vec<ShardMetadata>>) -> (stage: Reconciler<I>)
        ensures
            stage@ == (match (self@, shards) {
                (ReconcilerView::Scan(task), Some(shards)) => scanned::<I>(
                    task,
                    crate::shard_set::identities(shards@),
                ),
                _ => ReconcilerView::Done(WorkView::Failed),
            }),
    {
        match (self, shards) {
            (Reconciler::Scan(task), Some(shards)) => {
                let same = match &task.previous {
                    Some(previous) => same_shards(previous, &shards),
                    None => false,
                };
                let bound = task.provenance.is_some() && task.rooted;
                if !task.force && same {
                    if bound {
                        Reconciler::Validation(task)
                    } else {
                        Reconciler::Done(RefreshWork::Unchanged { provenance: task.provenance })
                    }
                } else if bound {
                    Reconciler::BeforeLoad(task, shards)
                } else {
                    Reconciler::Load(task, shards)
                }
            },
            _ => Reconciler::Done(RefreshWork::Failed),
        }
    }

    /// The shards were loaded, with or without any definition, or could not be.
    pub fn on_load(self, read: Option<(I, Vec<ShardMetadata>, bool)>) -> (stage: Reconciler<I>)
        ensures
            stage@ == (match (self@, read) {
                (ReconcilerView::Load(task, _), Some((index, shards, empty))) => self::read(
                    task,
                    index,
                    crate::shard_set::identities(shards@),
                    empty,
                ),
                _ => ReconcilerView::Done(WorkView::Failed),
            }),
    {
        match (self, read) {
            (Reconciler::Load(task, _), Some((index, shards, empty))) => {
                if task.provenance.is_some() && task.rooted {
                    Reconciler::AfterLoad(task, index, shards, empty)
                } else {
                    Reconciler::Done(Reconciler::work_of(task, index, shards, empty))
                }
            },
            _ => Reconciler::Done(RefreshWork::Failed),
        }
    }
}

/// What is seen on the way of a worker that has to do with a workspace.
pub struct Sightings<I> {
    pub current_before: bool,
    pub shards: Seq<ShardIdentity>,
    /// Whether the workspace had not moved when unchanged shards were compared,
    /// or before they were loaded.
    pub current_between: bool,
    pub index: I,
    pub loaded: Seq<ShardIdentity>,
    pub empty: bool,
    pub current_after: bool,
}

/// What a worker reports that has to do with a workspace.
pub open spec fn reported<I>(task: TaskView, seen: Sightings<I>) -> ReconcilerView<I> {
    let before = confirmed(ReconcilerView::Before(task), seen.current_before);
    match before {
        ReconcilerView::Scan(task) => {
            let asked = confirmed(scanned(task, seen.shards), seen.current_between);
            match asked {
                ReconcilerView::Load(task, _) => confirmed(
                    read(task, seen.index, seen.loaded, seen.empty),
                    seen.current_after,
                ),
                done => done,
            }
        },
        done => done,
    }
}

/// A worker that has to do with a workspace reports shards as unchanged only
/// where they are those of the index, and an index only where its shards were
/// loaded; and neither unless the workspace had not moved each time it looked.
pub proof fn only_current_work_is_reported<I>(task: TaskView, seen: Sightings<I>)
    requires
        is_bound(task),
    ensures
        reported(task, seen) is Done,
        reported(task, seen) matches ReconcilerView::Done(WorkView::Unchanged { provenance })
            ==> seen.current_before && seen.current_between && !task.force && task.previous
            == Some(seen.shards) && provenance == task.provenance,
        reported(task, seen) matches ReconcilerView::Done(
            WorkView::Loaded { index, shards, provenance },
        ) ==> seen.current_before && seen.current_between && seen.current_after && index
            == seen.index && shards == seen.loaded && shards.len() > 0 && provenance
            == task.provenance,
        reported(task, seen) matches ReconcilerView::Done(WorkView::Empty { shards, .. })
            ==> seen.current_before && seen.current_between && seen.current_after && shards.len()
            == 0,
{
}

/// Where the workspace had not moved each time, the worker reports what it saw:
/// the shards as unchanged where they are those of the index and nothing was
/// forced, and otherwise what loading them gave. Where it had moved, the refresh
/// failed.
pub proof fn current_work_is_reported<I>(task: TaskView, seen: Sightings<I>)
    requires
        is_bound(task),
    ensures
        seen.current_before && seen.current_between && !task.force && task.previous == Some(
            seen.shards,
        ) ==> reported(task, seen) == ReconcilerView::<I>::Done(
            WorkView::Unchanged { provenance: task.provenance },
        ),
        seen.current_before && seen.current_between && seen.current_after && (task.force
            || task.previous != Some(seen.shards)) ==> {
            &&& seen.loaded.len() > 0 && !seen.empty ==> reported(task, seen)
                == ReconcilerView::Done(
                WorkView::Loaded {
                    index: seen.index,
                    shards: seen.loaded,
                    provenance: task.provenance,
                },
            )
            &&& seen.loaded.len() > 0 && seen.empty ==> reported(task, seen)
                == ReconcilerView::<I>::Done(WorkView::Failed)
            &&& seen.loaded.len() == 0 ==> reported(task, seen) == ReconcilerView::<I>::Done(
                WorkView::Empty { shards: seen.loaded, provenance: task.provenance },
            )
        },
        !seen.current_before || !seen.current_between ==> reported(task, seen)
            == ReconcilerView::<I>::Done(WorkView::Failed),
        !seen.current_after && (task.force || task.previous != Some(seen.shards)) ==> reported(
            task,
            seen,
        ) == ReconcilerView::<I>::Done(WorkView::Failed),
{
}

/// A worker that has to do with no workspace asks nothing about one: it scans,
/// and loads what changed. What went stale is found out anew where there is a
/// workspace.
pub proof fn unbound_work_asks_nothing<I>(
    task: TaskView,
    index: I,
    shards: Seq<ShardIdentity>,
    empty: bool,
)
    ensures
        task.rooted ==> begun::<I>(task, true) == ReconcilerView::<I>::Key(
            TaskView { provenance: None, ..task },
        ),
        !task.rooted ==> begun::<I>(task, true) == ReconcilerView::<I>::Scan(
            TaskView { provenance: None, ..task },
        ),
        task.rooted && task.provenance is Some ==> begun::<I>(task, false)
            == ReconcilerView::<I>::Before(task),
        !(task.rooted && task.provenance is Some) ==> {
            &&& begun::<I>(task, false) == ReconcilerView::<I>::Scan(task)
            &&& !task.force && task.previous == Some(shards) ==> scanned::<I>(task, shards)
                == ReconcilerView::<I>::Done(WorkView::Unchanged { provenance: task.provenance })
            &&& task.force || task.previous != Some(shards) ==> scanned::<I>(task, shards)
                == ReconcilerView::<I>::Load(task, shards)
            &&& shards.len() > 0 && !empty ==> read(task, index, shards, empty)
                == ReconcilerView::Done(
                WorkView::Loaded { index, shards, provenance: task.provenance },
            )
        },
{
}

} // verus!
