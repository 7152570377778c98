//! The tree-copy engine: a state machine over one breadth-first walk.
//!
//! The engine does not touch the filesystem. A driver performs each listing,
//! copy and callback, and reports the outcome; the engine makes every
//! decision and keeps the accounts. Its ghost state records the whole walk
//! as a sequence of [`Listing`]s — one per directory listed, in the order
//! they were listed, each holding the [`Step`] taken for every entry of
//! that directory — so the contracts can say exactly what the statistics
//! count and in which order directories are visited.

use crate::error::Error;
use crate::error::ErrorKind;
use crate::error::TreePath;
use crate::error::TreeRoot;
use crate::path::RelPath;
use crate::stats::CopyStats;
use std::collections::VecDeque;
use vstd::prelude::*;

verus! {

/// What happened to one directory entry during the walk (ghost).
pub enum Step {
    /// A regular file was copied, with this many content bytes.
    File { name: Seq<char>, bytes: nat },
    /// A subdirectory was created in the destination and queued for listing.
    Dir { name: Seq<char> },
    /// A symlink was copied.
    Symlink { name: Seq<char> },
    /// The filter declined the entry; it was skipped.
    Filtered { name: Seq<char> },
}

/// The record of one listed directory (ghost): the directory's path
/// relative to the roots, and the step taken for each of its entries,
/// in the order the driver reported them.
pub struct Listing {
    /// The listed directory, relative to the roots.
    pub dir: Seq<Seq<char>>,
    /// One step per entry of the directory.
    pub steps: Seq<Step>,
}

/// The entry name a step is about.
pub open spec fn step_name(s: Step) -> Seq<char> {
    match s {
        Step::File { name, .. } => name,
        Step::Dir { name } => name,
        Step::Symlink { name } => name,
        Step::Filtered { name } => name,
    }
}

/// How many steps copied a regular file.
pub open spec fn count_files(steps: Seq<Step>) -> nat
    decreases steps.len(),
{
    if steps.len() == 0 {
        0
    } else {
        count_files(steps.drop_last()) + (if steps.last() is File {
            1nat
        } else {
            0nat
        })
    }
}

/// How many steps created a subdirectory.
pub open spec fn count_dirs(steps: Seq<Step>) -> nat
    decreases steps.len(),
{
    if steps.len() == 0 {
        0
    } else {
        count_dirs(steps.drop_last()) + (if steps.last() is Dir {
            1nat
        } else {
            0nat
        })
    }
}

/// How many steps copied a symlink.
pub open spec fn count_symlinks(steps: Seq<Step>) -> nat
    decreases steps.len(),
{
    if steps.len() == 0 {
        0
    } else {
        count_symlinks(steps.drop_last()) + (if steps.last() is Symlink {
            1nat
        } else {
            0nat
        })
    }
}

/// How many steps skipped an entry on the filter's word.
pub open spec fn count_filtered(steps: Seq<Step>) -> nat
    decreases steps.len(),
{
    if steps.len() == 0 {
        0
    } else {
        count_filtered(steps.drop_last()) + (if steps.last() is Filtered {
            1nat
        } else {
            0nat
        })
    }
}

/// The total content bytes over all file-copy steps.
pub open spec fn sum_bytes(steps: Seq<Step>) -> nat
    decreases steps.len(),
{
    if steps.len() == 0 {
        0
    } else {
        sum_bytes(steps.drop_last()) + (match steps.last() {
            Step::File { bytes, .. } => bytes,
            _ => 0nat,
        })
    }
}

/// Every step of the walk, in order: the listings' steps, concatenated.
pub open spec fn all_steps(listings: Seq<Listing>) -> Seq<Step>
    decreases listings.len(),
{
    if listings.len() == 0 {
        Seq::empty()
    } else {
        all_steps(listings.drop_last()) + listings.last().steps
    }
}

/// The subdirectories a listing discovered, in order: for each `Dir` step,
/// the listed directory's path extended with the entry's name.
pub open spec fn child_dirs(dir: Seq<Seq<char>>, steps: Seq<Step>) -> Seq<Seq<Seq<char>>>
    decreases steps.len(),
{
    if steps.len() == 0 {
        Seq::empty()
    } else {
        child_dirs(dir, steps.drop_last()) + (if steps.last() is Dir {
            seq![dir.push(step_name(steps.last()))]
        } else {
            Seq::empty()
        })
    }
}

/// Every directory discovered so far, in discovery order: the root first,
/// then each listing's child directories, listing by listing.
pub open spec fn discovered_of(listings: Seq<Listing>) -> Seq<Seq<Seq<char>>>
    decreases listings.len(),
{
    if listings.len() == 0 {
        seq![Seq::<Seq<char>>::empty()]
    } else {
        discovered_of(listings.drop_last()) + child_dirs(
            listings.last().dir,
            listings.last().steps,
        )
    }
}

/// The directories listed so far, in the order they were listed.
pub open spec fn opened_of(listings: Seq<Listing>) -> Seq<Seq<Seq<char>>>
    decreases listings.len(),
{
    if listings.len() == 0 {
        Seq::empty()
    } else {
        opened_of(listings.drop_last()).push(listings.last().dir)
    }
}

/// `p` is an initial run of `q`'s components.
pub open spec fn is_prefix(p: Seq<Seq<char>>, q: Seq<Seq<char>>) -> bool {
    p.len() <= q.len() && p == q.subrange(0, p.len() as int)
}

proof fn lemma_counts_push(steps: Seq<Step>, x: Step)
    ensures
        count_files(steps.push(x)) == count_files(steps) + (if x is File {
            1nat
        } else {
            0nat
        }),
        count_dirs(steps.push(x)) == count_dirs(steps) + (if x is Dir {
            1nat
        } else {
            0nat
        }),
        count_symlinks(steps.push(x)) == count_symlinks(steps) + (if x is Symlink {
            1nat
        } else {
            0nat
        }),
        count_filtered(steps.push(x)) == count_filtered(steps) + (if x is Filtered {
            1nat
        } else {
            0nat
        }),
        sum_bytes(steps.push(x)) == sum_bytes(steps) + (match x {
            Step::File { bytes, .. } => bytes,
            _ => 0nat,
        }),
{
    assert(steps.push(x).drop_last() =~= steps);
    assert(steps.push(x).last() == x);
}

proof fn lemma_unfold_push_listing(listings: Seq<Listing>, l: Listing)
    ensures
        all_steps(listings.push(l)) == all_steps(listings) + l.steps,
        discovered_of(listings.push(l)) == discovered_of(listings) + child_dirs(l.dir, l.steps),
        opened_of(listings.push(l)) == opened_of(listings).push(l.dir),
{
    assert(listings.push(l).drop_last() =~= listings);
    assert(listings.push(l).last() == l);
}

proof fn lemma_child_dirs_push(dir: Seq<Seq<char>>, steps: Seq<Step>, x: Step)
    ensures
        x is Dir ==> child_dirs(dir, steps.push(x)) == child_dirs(dir, steps).push(
            dir.push(step_name(x)),
        ),
        !(x is Dir) ==> child_dirs(dir, steps.push(x)) == child_dirs(dir, steps),
{
    assert(steps.push(x).drop_last() =~= steps);
    assert(steps.push(x).last() == x);
    if x is Dir {
        assert(child_dirs(dir, steps) + seq![dir.push(step_name(x))] =~= child_dirs(
            dir,
            steps,
        ).push(dir.push(step_name(x))));
    } else {
        assert(child_dirs(dir, steps) + Seq::<Seq<Seq<char>>>::empty() =~= child_dirs(dir, steps));
    }
}

/// How recording one more step in the open listing changes the aggregates.
proof fn lemma_record_step(hist: Seq<Listing>, dir: Seq<Seq<char>>, steps: Seq<Step>, x: Step)
    ensures
        all_steps(hist.push(Listing { dir, steps: steps.push(x) })) == all_steps(
            hist.push(Listing { dir, steps }),
        ).push(x),
        x is Dir ==> discovered_of(hist.push(Listing { dir, steps: steps.push(x) }))
            == discovered_of(hist.push(Listing { dir, steps })).push(dir.push(step_name(x))),
        !(x is Dir) ==> discovered_of(hist.push(Listing { dir, steps: steps.push(x) }))
            == discovered_of(hist.push(Listing { dir, steps })),
        opened_of(hist.push(Listing { dir, steps: steps.push(x) })) == opened_of(
            hist.push(Listing { dir, steps }),
        ),
{
    lemma_unfold_push_listing(hist, Listing { dir, steps });
    lemma_unfold_push_listing(hist, Listing { dir, steps: steps.push(x) });
    lemma_child_dirs_push(dir, steps, x);
    assert(all_steps(hist) + steps.push(x) =~= (all_steps(hist) + steps).push(x));
    if x is Dir {
        assert(discovered_of(hist) + child_dirs(dir, steps).push(dir.push(step_name(x)))
            =~= (discovered_of(hist) + child_dirs(dir, steps)).push(dir.push(step_name(x))));
    }
}

/// What to do about the destination root before the walk starts.
#[derive(Clone, Copy, Debug, PartialEq, Eq, Structural)]
pub enum BootAction {
    /// Create the destination directory, then report back.
    CreateDest,
    /// The destination directory already exists; start walking.
    Proceed,
}

/// What the driver should do next once the walk is running.
#[derive(Clone, Copy, Debug, PartialEq, Eq, Structural)]
pub enum NextAction {
    /// List the directory named by [`Engine::current_dir`].
    ListDir,
    /// The queue is empty: the copy is complete.
    Finished,
}

/// Where one copy operation stands.
#[derive(Clone, Copy, Debug, PartialEq, Eq, Structural)]
pub enum Phase {
    /// Created; the destination has not been looked at yet.
    Boot,
    /// Waiting for the driver to create the destination directory.
    AwaitDest,
    /// Between directories: ready to dequeue the next one or finish.
    Ready,
    /// A directory is being listed; entries are being reported.
    Open,
    /// The queue ran out: the copy succeeded.
    Done,
    /// An error stopped the walk; the statistics are discarded.
    Failed,
}

/// The decision core of one tree copy.
pub struct Engine {
    create_destination: bool,
    queue: VecDeque<RelPath>,
    current: Option<RelPath>,
    stats: CopyStats,
    phase: Phase,
    hist: Ghost<Seq<Listing>>,
    cur_steps: Ghost<Seq<Step>>,
    made_dest: Ghost<bool>,
}

impl Engine {
    /// Where the operation stands.
    pub closed spec fn stage(self) -> Phase {
        self.phase
    }

    /// Whether the engine was told to create a missing destination root.
    pub closed spec fn create_dest(self) -> bool {
        self.create_destination
    }

    /// Whether the destination root was created by this operation.
    pub closed spec fn dest_created(self) -> bool {
        self.made_dest@
    }

    /// The listings already closed, in the order they were made.
    pub closed spec fn history(self) -> Seq<Listing> {
        self.hist@
    }

    /// The directory currently being listed (meaningful in [`Phase::Open`]).
    pub closed spec fn open_dir(self) -> Seq<Seq<char>> {
        match self.current {
            Some(p) => p@,
            None => Seq::empty(),
        }
    }

    /// The steps recorded so far for the open listing.
    pub closed spec fn open_steps(self) -> Seq<Step> {
        self.cur_steps@
    }

    /// The directories discovered but not yet listed, first to be listed
    /// first.
    pub closed spec fn pending(self) -> Seq<Seq<Seq<char>>> {
        Seq::new(self.queue@.len(), |i: int| self.queue@[i]@)
    }

    /// The statistics accumulated so far.
    pub closed spec fn stats(self) -> CopyStats {
        self.stats
    }

    /// Every listing of the walk so far, the open one included.
    pub open spec fn segments(self) -> Seq<Listing> {
        if self.stage() is Open {
            self.history().push(Listing { dir: self.open_dir(), steps: self.open_steps() })
        } else {
            self.history()
        }
    }

    /// The directories listed so far, in listing order.
    pub open spec fn opened(self) -> Seq<Seq<Seq<char>>> {
        opened_of(self.segments())
    }

    /// The directories discovered so far, in discovery order: the root,
    /// then each listing's subdirectory entries.
    pub open spec fn discovered(self) -> Seq<Seq<Seq<char>>> {
        discovered_of(self.segments())
    }

    /// The engine's invariant. Established by [`Engine::new`] and preserved
    /// by every transition: the statistics agree with the recorded steps,
    /// and the listed and still-pending directories are exactly the
    /// discovered ones, in discovery order.
    pub closed spec fn wf(self) -> bool {
        &&& (self.phase is Open <==> self.current is Some)
        &&& (!(self.phase is Open) ==> self.cur_steps@.len() == 0)
        &&& (self.phase is Done ==> self.queue@.len() == 0)
        &&& ((self.phase is Boot || self.phase is AwaitDest) ==> self.hist@.len() == 0
            && self.queue@.len() == 1 && self.queue@[0]@ == Seq::<Seq<char>>::empty()
            && self.stats == CopyStats::zero() && !self.made_dest@)
        &&& (self.phase is AwaitDest ==> self.create_destination)
        &&& opened_of(self.segments()) + self.pending() == discovered_of(self.segments())
        &&& self.stats.files as nat == count_files(all_steps(self.segments()))
        &&& self.stats.dirs as nat == count_dirs(all_steps(self.segments())) + (if self.made_dest@ {
            1nat
        } else {
            0nat
        })
        &&& self.stats.symlinks as nat == count_symlinks(all_steps(self.segments()))
        &&& self.stats.filtered_out as nat == count_filtered(all_steps(self.segments()))
        &&& self.stats.file_bytes as nat == sum_bytes(all_steps(self.segments()))
    }

    /// A fresh engine for one copy operation.
    ///
    /// `create_destination` says whether a missing destination root should
    /// be created (the usual choice) or be an error.
    pub fn new(create_destination: bool) -> (e: Engine)
        ensures
            e.wf(),
            e.stage() is Boot,
            e.create_dest() == create_destination,
            e.history() == Seq::<Listing>::empty(),
            e.pending() == seq![Seq::<Seq<char>>::empty()],
            e.stats() == CopyStats::zero(),
            !e.dest_created(),
    {
        let mut queue: VecDeque<RelPath> = VecDeque::new();
        queue.push_back(RelPath::root());
        let e = Engine {
            create_destination,
            queue,
            current: None,
            stats: CopyStats::new(),
            phase: Phase::Boot,
            hist: Ghost(Seq::empty()),
            cur_steps: Ghost(Seq::empty()),
            made_dest: Ghost(false),
        };
        proof {
            assert(e.pending() =~= seq![Seq::<Seq<char>>::empty()]);
            assert(e.segments() == Seq::<Listing>::empty());
            assert(opened_of(e.segments()) + e.pending() =~= discovered_of(e.segments()));
            assert(all_steps(e.segments()) == Seq::<Step>::empty());
        }
        e
    }

    /// Report whether the destination root is currently a directory, and
    /// learn what to do about it. Returns an error exactly when the
    /// destination is missing and creating it was disabled.
    pub fn begin(&mut self, dest_is_dir: bool) -> (r: Result<BootAction, Error>)
        requires
            old(self).wf(),
            old(self).stage() is Boot,
        ensures
            final(self).wf(),
            final(self).create_dest() == old(self).create_dest(),
            final(self).history() == old(self).history(),
            final(self).pending() == old(self).pending(),
            final(self).stats() == old(self).stats(),
            final(self).dest_created() == old(self).dest_created(),
            r is Err <==> (!dest_is_dir && !old(self).create_dest()),
            dest_is_dir ==> r == Ok::<BootAction, Error>(BootAction::Proceed) && final(self).stage()
                is Ready,
            !dest_is_dir && old(self).create_dest() ==> r == Ok::<BootAction, Error>(
                BootAction::CreateDest,
            ) && final(self).stage() is AwaitDest,
            r matches Err(e) ==> final(self).stage() is Failed && e.kind
                == ErrorKind::DestinationDoesNotExist && e.path.root == TreeRoot::Destination
                && e.path.rel@ == Seq::<Seq<char>>::empty() && e.io is None,
    {
        if dest_is_dir {
            self.phase = Phase::Ready;
            Ok(BootAction::Proceed)
        } else if self.create_destination {
            self.phase = Phase::AwaitDest;
            Ok(BootAction::CreateDest)
        } else {
            self.phase = Phase::Failed;
            Err(Error::new(ErrorKind::DestinationDoesNotExist, TreePath::destination(RelPath::root())))
        }
    }

    /// The driver created the destination root directory. Counts it as one
    /// created directory and starts the walk.
    pub fn created_dest(&mut self)
        requires
            old(self).wf(),
            old(self).stage() is AwaitDest,
        ensures
            final(self).wf(),
            final(self).stage() is Ready,
            final(self).create_dest() == old(self).create_dest(),
            final(self).dest_created(),
            final(self).history() == old(self).history(),
            final(self).pending() == old(self).pending(),
            final(self).stats() == (CopyStats { dirs: 1, ..old(self).stats() }),
    {
        self.stats.dirs = 1;
        self.made_dest = Ghost(true);
        self.phase = Phase::Ready;
    }

    /// Dequeue the next directory to list, or finish the walk when none is
    /// left. After `ListDir`, the directory to list is [`Engine::current_dir`].
    pub fn next(&mut self) -> (r: NextAction)
        requires
            old(self).wf(),
            old(self).stage() is Ready,
        ensures
            final(self).wf(),
            final(self).create_dest() == old(self).create_dest(),
            final(self).dest_created() == old(self).dest_created(),
            final(self).stats() == old(self).stats(),
            final(self).history() == old(self).history(),
            r == NextAction::Finished <==> old(self).pending().len() == 0,
            old(self).pending().len() == 0 ==> final(self).stage() is Done && final(self).pending()
                == old(self).pending(),
            old(self).pending().len() > 0 ==> {
                &&& r == NextAction::ListDir
                &&& final(self).stage() is Open
                &&& final(self).open_dir() == old(self).pending()[0]
                &&& final(self).open_steps() == Seq::<Step>::empty()
                &&& final(self).pending() == old(self).pending().drop_first()
            },
            final(self).discovered() == old(self).discovered(),
            final(self).opened() == old(self).opened() + (if old(self).pending().len() > 0 {
                seq![old(self).pending()[0]]
            } else {
                Seq::<Seq<Seq<char>>>::empty()
            }),
    {
        match self.queue.pop_front() {
            None => {
                self.phase = Phase::Done;
                proof {
                    assert(self.pending() =~= old(self).pending());
                    assert(self.opened() + Seq::<Seq<Seq<char>>>::empty() =~= self.opened());
                }
                NextAction::Finished
            },
            Some(d) => {
                self.current = Some(d);
                self.phase = Phase::Open;
                self.cur_steps = Ghost(Seq::empty());
                proof {
                    let h = self.hist@;
                    let l = Listing { dir: self.open_dir(), steps: Seq::empty() };
                    lemma_unfold_push_listing(h, l);
                    assert(all_steps(h) + Seq::<Step>::empty() =~= all_steps(h));
                    assert(child_dirs(l.dir, l.steps) == Seq::<Seq<Seq<char>>>::empty());
                    assert(discovered_of(h) + Seq::<Seq<Seq<char>>>::empty() =~= discovered_of(h));
                    assert(self.pending() =~= old(self).pending().drop_first());
                    assert(opened_of(h).push(l.dir) + self.pending() =~= opened_of(h) + old(
                        self,
                    ).pending());
                    assert(self.opened() =~= old(self).opened() + seq![old(self).pending()[0]]);
                }
                NextAction::ListDir
            },
        }
    }

    /// The directory whose entries the driver is reporting.
    pub fn current_dir(&self) -> (r: &RelPath)
        requires
            self.wf(),
            self.stage() is Open,
        ensures
            r@ == self.open_dir(),
    {
        match &self.current {
            Some(p) => p,
            None => vstd::pervasive::unreached(),
        }
    }

    /// The statistics accumulated so far, for progress reporting.
    pub fn current_stats(&self) -> (r: &CopyStats)
        ensures
            r == &self.stats(),
    {
        &self.stats
    }

    /// Where the operation stands.
    pub fn current_stage(&self) -> (r: Phase)
        ensures
            r == self.stage(),
    {
        self.phase
    }

    /// Every entry of the current directory has been reported: close its
    /// listing and go back for the next directory.
    pub fn close_dir(&mut self)
        requires
            old(self).wf(),
            old(self).stage() is Open,
        ensures
            final(self).wf(),
            final(self).stage() is Ready,
            final(self).create_dest() == old(self).create_dest(),
            final(self).dest_created() == old(self).dest_created(),
            final(self).stats() == old(self).stats(),
            final(self).pending() == old(self).pending(),
            final(self).history() == old(self).history().push(
                (Listing { dir: old(self).open_dir(), steps: old(self).open_steps() }),
            ),
            final(self).segments() == old(self).segments(),
    {
        let ghost l = Listing { dir: self.open_dir(), steps: self.cur_steps@ };
        self.hist = Ghost(self.hist@.push(l));
        self.cur_steps = Ghost(Seq::empty());
        self.current = None;
        self.phase = Phase::Ready;
        proof {
            assert(self.pending() =~= old(self).pending());
        }
    }

    /// An error stopped the walk: freeze the engine. The recorded history
    /// keeps its meaning, but the statistics are no longer handed out —
    /// only the error is returned to the caller.
    pub fn fail(&mut self)
        requires
            old(self).wf(),
        ensures
            final(self).wf(),
            final(self).stage() is Failed,
            final(self).create_dest() == old(self).create_dest(),
            final(self).dest_created() == old(self).dest_created(),
            final(self).stats() == old(self).stats(),
            final(self).pending() == old(self).pending(),
            final(self).segments() == old(self).segments(),
    {
        if self.current.is_some() {
            let ghost l = Listing { dir: self.open_dir(), steps: self.cur_steps@ };
            self.hist = Ghost(self.hist@.push(l));
        }
        self.cur_steps = Ghost(Seq::empty());
        self.current = None;
        self.phase = Phase::Failed;
        proof {
            assert(self.pending() =~= old(self).pending());
        }
    }

    /// The filter declined this entry of the current directory: skip it.
    /// If the entry is a directory, it is not enqueued, so nothing below it
    /// is ever discovered or visited.
    pub fn skip_entry(&mut self, name: &str)
        requires
            old(self).wf(),
            old(self).stage() is Open,
            old(self).stats().filtered_out < usize::MAX,
        ensures
            final(self).wf(),
            final(self).stage() is Open,
            final(self).open_dir() == old(self).open_dir(),
            final(self).open_steps() == old(self).open_steps().push(
                (Step::Filtered { name: name@ }),
            ),
            final(self).history() == old(self).history(),
            final(self).pending() == old(self).pending(),
            final(self).discovered() == old(self).discovered(),
            final(self).create_dest() == old(self).create_dest(),
            final(self).dest_created() == old(self).dest_created(),
            final(self).stats() == (CopyStats {
                filtered_out: (old(self).stats().filtered_out + 1) as usize,
                ..old(self).stats()
            }),
    {
        self.stats.filtered_out = self.stats.filtered_out + 1;
        let ghost x = Step::Filtered { name: name@ };
        self.cur_steps = Ghost(self.cur_steps@.push(x));
        proof {
            self.lemma_after_record(*old(self), x);
        }
    }

    /// The driver copied a regular file of `bytes` content bytes: count it.
    pub fn copied_file(&mut self, name: &str, bytes: u64)
        requires
            old(self).wf(),
            old(self).stage() is Open,
            old(self).stats().files < usize::MAX,
            old(self).stats().file_bytes + bytes <= u64::MAX,
        ensures
            final(self).wf(),
            final(self).stage() is Open,
            final(self).open_dir() == old(self).open_dir(),
            final(self).open_steps() == old(self).open_steps().push(
                (Step::File { name: name@, bytes: bytes as nat }),
            ),
            final(self).history() == old(self).history(),
            final(self).pending() == old(self).pending(),
            final(self).discovered() == old(self).discovered(),
            final(self).create_dest() == old(self).create_dest(),
            final(self).dest_created() == old(self).dest_created(),
            final(self).stats() == (CopyStats {
                files: (old(self).stats().files + 1) as usize,
                file_bytes: (old(self).stats().file_bytes + bytes) as u64,
                ..old(self).stats()
            }),
    {
        self.stats.files = self.stats.files + 1;
        self.stats.file_bytes = self.stats.file_bytes + bytes;
        let ghost x = Step::File { name: name@, bytes: bytes as nat };
        self.cur_steps = Ghost(self.cur_steps@.push(x));
        proof {
            self.lemma_after_record(*old(self), x);
        }
    }

    /// The driver created the destination directory for this subdirectory
    /// entry: count it and queue the subdirectory for a later listing.
    pub fn copied_dir(&mut self, name: &str)
        requires
            old(self).wf(),
            old(self).stage() is Open,
            old(self).stats().dirs < usize::MAX,
        ensures
            final(self).wf(),
            final(self).stage() is Open,
            final(self).open_dir() == old(self).open_dir(),
            final(self).open_steps() == old(self).open_steps().push((Step::Dir { name: name@ })),
            final(self).history() == old(self).history(),
            final(self).pending() == old(self).pending().push(old(self).open_dir().push(name@)),
            final(self).discovered() == old(self).discovered().push(
                old(self).open_dir().push(name@),
            ),
            final(self).create_dest() == old(self).create_dest(),
            final(self).dest_created() == old(self).dest_created(),
            final(self).stats() == (CopyStats {
                dirs: (old(self).stats().dirs + 1) as usize,
                ..old(self).stats()
            }),
    {
        let child = match &self.current {
            Some(p) => p.join(name),
            None => vstd::pervasive::unreached(),
        };
        self.queue.push_back(child);
        self.stats.dirs = self.stats.dirs + 1;
        let ghost x = Step::Dir { name: name@ };
        self.cur_steps = Ghost(self.cur_steps@.push(x));
        proof {
            self.lemma_after_record(*old(self), x);
            assert(self.pending() =~= old(self).pending().push(old(self).open_dir().push(name@)));
            assert(self.opened() + self.pending() =~= (old(self).opened() + old(self).pending()).push(
                old(self).open_dir().push(name@),
            ));
        }
    }

    /// The driver copied a symlink entry: count it. No step of the engine
    /// asks whether the link's target exists, so a dangling link is as good
    /// as any other.
    pub fn copied_symlink(&mut self, name: &str)
        requires
            old(self).wf(),
            old(self).stage() is Open,
            old(self).stats().symlinks < usize::MAX,
        ensures
            final(self).wf(),
            final(self).stage() is Open,
            final(self).open_dir() == old(self).open_dir(),
            final(self).open_steps() == old(self).open_steps().push(
                (Step::Symlink { name: name@ }),
            ),
            final(self).history() == old(self).history(),
            final(self).pending() == old(self).pending(),
            final(self).discovered() == old(self).discovered(),
            final(self).create_dest() == old(self).create_dest(),
            final(self).dest_created() == old(self).dest_created(),
            final(self).stats() == (CopyStats {
                symlinks: (old(self).stats().symlinks + 1) as usize,
                ..old(self).stats()
            }),
    {
        self.stats.symlinks = self.stats.symlinks + 1;
        let ghost x = Step::Symlink { name: name@ };
        self.cur_steps = Ghost(self.cur_steps@.push(x));
        proof {
            self.lemma_after_record(*old(self), x);
        }
    }

    /// The current entry is neither a regular file, a directory nor a
    /// symlink (a device, FIFO, socket, ...): the walk stops at once with
    /// `UnsupportedFileType` at the entry's source path.
    pub fn unsupported(&mut self, name: &str) -> (r: Error)
        requires
            old(self).wf(),
            old(self).stage() is Open,
        ensures
            final(self).wf(),
            final(self).stage() is Failed,
            r.kind == ErrorKind::UnsupportedFileType,
            r.path.root == TreeRoot::Source,
            r.path.rel@ == old(self).open_dir().push(name@),
            r.io is None,
            final(self).segments() == old(self).segments(),
            final(self).stats() == old(self).stats(),
            final(self).pending() == old(self).pending(),
    {
        let rel = match &self.current {
            Some(p) => p.join(name),
            None => vstd::pervasive::unreached(),
        };
        let err = Error::new(ErrorKind::UnsupportedFileType, TreePath::source(rel));
        self.fail();
        err
    }

    /// Shared bookkeeping: how pushing one step onto the open listing moves
    /// every aggregate of the walk.
    proof fn lemma_after_record(&self, prev: Engine, x: Step)
        requires
            prev.wf(),
            prev.stage() is Open,
            self.phase == prev.phase,
            self.current == prev.current,
            self.queue@ == (if x is Dir {
                prev.queue@.push(self.queue@.last())
            } else {
                prev.queue@
            }),
            x is Dir ==> self.queue@.len() > 0 && self.queue@.last()@ == prev.open_dir().push(
                step_name(x),
            ),
            self.hist@ == prev.hist@,
            self.cur_steps@ == prev.cur_steps@.push(x),
            self.made_dest@ == prev.made_dest@,
            self.stats.files as nat == prev.stats.files + (if x is File {
                1nat
            } else {
                0nat
            }),
            self.stats.dirs as nat == prev.stats.dirs + (if x is Dir {
                1nat
            } else {
                0nat
            }),
            self.stats.symlinks as nat == prev.stats.symlinks + (if x is Symlink {
                1nat
            } else {
                0nat
            }),
            self.stats.filtered_out as nat == prev.stats.filtered_out + (if x is Filtered {
                1nat
            } else {
                0nat
            }),
            self.stats.file_bytes as nat == prev.stats.file_bytes + (match x {
                Step::File { bytes, .. } => bytes,
                _ => 0nat,
            }),
        ensures
            self.wf(),
            !(x is Dir) ==> self.discovered() == prev.discovered(),
            x is Dir ==> self.discovered() == prev.discovered().push(
                prev.open_dir().push(step_name(x)),
            ),
    {
        let dir = prev.open_dir();
        let steps = prev.cur_steps@;
        lemma_record_step(prev.hist@, dir, steps, x);
        lemma_counts_push(all_steps(prev.segments()), x);
        assert(self.segments() == prev.hist@.push(Listing { dir, steps: steps.push(x) }));
        assert(prev.segments() == prev.hist@.push(Listing { dir, steps }));
        if x is Dir {
            assert(self.pending() =~= prev.pending().push(dir.push(step_name(x))));
            assert(opened_of(self.segments()) + self.pending() =~= (opened_of(prev.segments())
                + prev.pending()).push(dir.push(step_name(x))));
            assert((opened_of(prev.segments()) + prev.pending()).push(dir.push(step_name(x)))
                =~= discovered_of(prev.segments()).push(dir.push(step_name(x))));
        } else {
            assert(self.pending() =~= prev.pending());
        }
    }

    /// The accumulated statistics of a completed copy.
    pub fn finish(&self) -> (r: CopyStats)
        requires
            self.wf(),
            self.stage() is Done,
        ensures
            r == self.stats(),
    {
        self.stats
    }
}

/// The relative path of the `j`th entry of a listing: the listed directory
/// extended with the entry's name.
pub open spec fn entry_path(l: Listing, j: int) -> Seq<Seq<char>> {
    l.dir.push(step_name(l.steps[j]))
}

/// Stats accuracy: at any point of the walk, the statistics count exactly
/// the recorded steps — `files` the file copies, `dirs` the directories
/// created (the destination root included when this operation made it),
/// `symlinks` the symlink copies, `filtered_out` the entries the filter
/// declined, and `file_bytes` the sum of all copied files' byte counts.
pub proof fn lemma_stats_accurate(e: Engine)
    requires
        e.wf(),
    ensures
        e.stats().files as nat == count_files(all_steps(e.segments())),
        e.stats().dirs as nat == count_dirs(all_steps(e.segments())) + (if e.dest_created() {
            1nat
        } else {
            0nat
        }),
        e.stats().symlinks as nat == count_symlinks(all_steps(e.segments())),
        e.stats().filtered_out as nat == count_filtered(all_steps(e.segments())),
        e.stats().file_bytes as nat == sum_bytes(all_steps(e.segments())),
{
}

/// Breadth-first order: the directories listed so far are exactly the first
/// `opened().len()` of the discovery order, and the queue holds the rest of
/// it. A directory is therefore never listed before every directory
/// discovered earlier — in particular, all entries of a directory are
/// recorded in its own listing, which is complete before any directory
/// discovered inside it is listed.
pub proof fn lemma_breadth_first(e: Engine)
    requires
        e.wf(),
    ensures
        e.opened().len() + e.pending().len() == e.discovered().len(),
        forall|i: int| 0 <= i < e.opened().len() ==> e.opened()[i] == e.discovered()[i],
        forall|i: int| 0 <= i < e.pending().len() ==> e.pending()[i] == e.discovered()[e.opened().len()
            + i],
{
    assert forall|i: int| 0 <= i < e.opened().len() implies e.opened()[i] == e.discovered()[i] by {
        assert((e.opened() + e.pending())[i] == e.opened()[i]);
    }
    assert forall|i: int| 0 <= i < e.pending().len() implies e.pending()[i] == e.discovered()[
        e.opened().len() + i
    ] by {
        assert((e.opened() + e.pending())[e.opened().len() + i] == e.pending()[i]);
    }
}

/// On a completed walk the queue is empty, so the directories listed are
/// exactly the directories discovered, in discovery order.
pub proof fn lemma_complete_walk(e: Engine)
    requires
        e.wf(),
        e.stage() is Done,
    ensures
        e.opened() == e.discovered(),
{
    assert(e.pending() =~= Seq::<Seq<Seq<char>>>::empty());
    assert(e.opened() + e.pending() =~= e.opened());
}

proof fn lemma_child_dirs_member(dir: Seq<Seq<char>>, steps: Seq<Step>, q: Seq<Seq<char>>)
    requires
        child_dirs(dir, steps).contains(q),
    ensures
        q.len() == dir.len() + 1,
        q.drop_last() == dir,
        exists|j: int|
            0 <= j < steps.len() && #[trigger] steps[j] is Dir && q == dir.push(
                step_name(steps[j]),
            ),
    decreases steps.len(),
{
    if steps.len() == 0 {
    } else {
        let head = child_dirs(dir, steps.drop_last());
        if head.contains(q) {
            lemma_child_dirs_member(dir, steps.drop_last(), q);
            let j = choose|j: int|
                0 <= j < steps.drop_last().len() && #[trigger] steps.drop_last()[j] is Dir && q
                    == dir.push(step_name(steps.drop_last()[j]));
            assert(steps[j] == steps.drop_last()[j]);
        } else {
            let i = choose|i: int|
                0 <= i < child_dirs(dir, steps).len() && child_dirs(dir, steps)[i] == q;
            assert(i >= head.len());
            assert(q == dir.push(step_name(steps.last())));
            assert(q.drop_last() =~= dir);
            assert(steps[steps.len() - 1] == steps.last());
        }
    }
}

proof fn lemma_discovered_member(listings: Seq<Listing>, q: Seq<Seq<char>>)
    requires
        discovered_of(listings).contains(q),
        q != Seq::<Seq<char>>::empty(),
    ensures
        exists|i: int|
            0 <= i < listings.len() && q.len() == #[trigger] listings[i].dir.len() + 1
                && q.drop_last() == listings[i].dir,
        exists|i: int, j: int|
            0 <= i < listings.len() && 0 <= j < listings[i].steps.len() && listings[i].steps[j]
                is Dir && q == #[trigger] entry_path(listings[i], j),
    decreases listings.len(),
{
    if listings.len() == 0 {
        assert(q == discovered_of(listings)[0]);
    } else {
        let head = discovered_of(listings.drop_last());
        if head.contains(q) {
            lemma_discovered_member(listings.drop_last(), q);
            let i = choose|i: int|
                0 <= i < listings.drop_last().len() && q.len() == #[trigger] listings.drop_last()[
                    i
                ].dir.len() + 1 && q.drop_last() == listings.drop_last()[i].dir;
            assert(listings[i] == listings.drop_last()[i]);
            let (i2, j2): (int, int) = choose|i2: int, j2: int|
                0 <= i2 < listings.drop_last().len() && 0 <= j2 < listings.drop_last()[
                    i2
                ].steps.len() && listings.drop_last()[i2].steps[j2] is Dir && q
                    == #[trigger] entry_path(listings.drop_last()[i2], j2);
            assert(listings[i2] == listings.drop_last()[i2]);
            assert(entry_path(listings[i2], j2) == entry_path(listings.drop_last()[i2], j2));
        } else {
            let j = choose|j: int|
                0 <= j < discovered_of(listings).len() && discovered_of(listings)[j] == q;
            assert(j >= head.len());
            assert(child_dirs(listings.last().dir, listings.last().steps).contains(q));
            lemma_child_dirs_member(listings.last().dir, listings.last().steps, q);
            assert(listings[listings.len() - 1] == listings.last());
            let j2 = choose|j2: int|
                0 <= j2 < listings.last().steps.len() && #[trigger] listings.last().steps[j2]
                    is Dir && q == listings.last().dir.push(step_name(listings.last().steps[j2]));
            assert(q == entry_path(listings[listings.len() - 1], j2));
        }
    }
}

proof fn lemma_opened_of_index(listings: Seq<Listing>)
    ensures
        opened_of(listings).len() == listings.len(),
        forall|i: int| 0 <= i < listings.len() ==> opened_of(listings)[i] == #[trigger] listings[
            i
        ].dir,
    decreases listings.len(),
{
    if listings.len() == 0 {
    } else {
        lemma_opened_of_index(listings.drop_last());
        assert forall|i: int| 0 <= i < listings.len() implies opened_of(listings)[i]
            == #[trigger] listings[i].dir by {
            if i < listings.len() - 1 {
                assert(listings.drop_last()[i] == listings[i]);
            } else {
                assert(listings.last() == listings[i]);
            }
        }
    }
}

/// Top-down creation: every directory the walk ever lists, except the root,
/// was first recorded as a created subdirectory entry (`Dir` step) of some
/// listing — so a directory's destination copy exists before its own
/// entries are processed.
pub proof fn lemma_listed_dirs_were_created(e: Engine, k: int)
    requires
        e.wf(),
        0 <= k < e.opened().len(),
        e.opened()[k] != Seq::<Seq<char>>::empty(),
    ensures
        exists|i: int, j: int|
            0 <= i < e.segments().len() && 0 <= j < e.segments()[i].steps.len() && e.segments()[
                i
            ].steps[j] is Dir && e.opened()[k] == #[trigger] entry_path(e.segments()[i], j),
{
    lemma_breadth_first(e);
    assert(e.discovered()[k] == e.opened()[k]);
    assert(e.discovered().contains(e.opened()[k]));
    lemma_discovered_member(e.segments(), e.opened()[k]);
}

/// A path that was never discovered seals off its whole subtree: nothing at
/// or under it is ever discovered either.
pub proof fn lemma_unreached_subtree(e: Engine, q: Seq<Seq<char>>, p: Seq<Seq<char>>)
    requires
        e.wf(),
        !e.discovered().contains(p),
        is_prefix(p, q),
    ensures
        !e.discovered().contains(q),
    decreases q.len(),
{
    if e.discovered().contains(q) {
        if p.len() == q.len() {
            assert(p =~= q);
        } else {
            assert(q != Seq::<Seq<char>>::empty());
            lemma_discovered_member(e.segments(), q);
            let i = choose|i: int|
                0 <= i < e.segments().len() && q.len() == #[trigger] e.segments()[i].dir.len() + 1
                    && q.drop_last() == e.segments()[i].dir;
            let d = e.segments()[i].dir;
            lemma_opened_of_index(e.segments());
            lemma_breadth_first(e);
            assert(e.opened()[i] == d);
            assert(e.discovered()[i] == d);
            assert(e.discovered().contains(d));
            assert(q.drop_last() =~= q.subrange(0, q.len() - 1));
            assert(p =~= d.subrange(0, p.len() as int)) by {
                assert forall|k: int| 0 <= k < p.len() implies p[k] == d[k] by {
                    assert(p[k] == q.subrange(0, p.len() as int)[k]);
                }
            }
            assert(is_prefix(p, d));
            lemma_unreached_subtree(e, d, p);
        }
    }
}

/// Filter exclusion: if a path `p` was never discovered — as when the filter
/// declines a directory entry, which is recorded as a `Filtered` step and
/// not enqueued — then no directory at or under `p` was ever listed, and no
/// entry strictly under `p` was ever visited (copied or filtered).
pub proof fn lemma_excluded_subtree(e: Engine, p: Seq<Seq<char>>)
    requires
        e.wf(),
        !e.discovered().contains(p),
    ensures
        forall|i: int| 0 <= i < e.opened().len() ==> !is_prefix(p, #[trigger] e.opened()[i]),
        forall|i: int, j: int|
            0 <= i < e.segments().len() && 0 <= j < e.segments()[i].steps.len() ==> !(is_prefix(
                p,
                #[trigger] entry_path(e.segments()[i], j),
            ) && p != entry_path(e.segments()[i], j)),
{
    lemma_breadth_first(e);
    lemma_opened_of_index(e.segments());
    assert forall|i: int| 0 <= i < e.opened().len() implies !is_prefix(
        p,
        #[trigger] e.opened()[i],
    ) by {
        if is_prefix(p, e.opened()[i]) {
            assert(e.discovered().contains(e.opened()[i]));
            lemma_unreached_subtree(e, e.opened()[i], p);
        }
    }
    assert forall|i: int, j: int|
        0 <= i < e.segments().len() && 0 <= j < e.segments()[i].steps.len() implies !(is_prefix(
        p,
        #[trigger] entry_path(e.segments()[i], j),
    ) && p != entry_path(e.segments()[i], j)) by {
        let d = e.segments()[i].dir;
        let q = entry_path(e.segments()[i], j);
        if is_prefix(p, q) && p != q {
            if p.len() == q.len() {
                assert(q.subrange(0, q.len() as int) =~= q);
            }
            assert(p.len() < q.len());
            assert(p =~= d.subrange(0, p.len() as int)) by {
                assert forall|k: int| 0 <= k < p.len() implies p[k] == d[k] by {
                    assert(p[k] == q.subrange(0, p.len() as int)[k]);
                }
            }
            assert(is_prefix(p, d));
            assert(e.opened()[i] == d);
        }
    }
}

} // verus!
