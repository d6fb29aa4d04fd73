//! A model of the file system, and what the relocation engine does to it.
//!
//! The engine never touches a file: it asks for operations and reads their
//! replies. The laws below say what follows for the files when those
//! operations are performed by a file system that behaves as the model
//! does, whichever of the replies open to it it gives.

use crate::classifier::destination_for;
use crate::relocation::{
    begun, planned_move, FsReply, FsRequestView, JobView, MovePhase, PendingMoveView,
    RelocationErrorView, RelocationView, StepView,
};
use vstd::prelude::*;

verus! {

/// The files, each with its contents, and the directories that exist.
pub struct FileSystem {
    pub files: Map<Seq<char>, Seq<u8>>,
    pub dirs: Set<Seq<char>>,
}

/// One answer of the file system: its reply, and its state afterwards.
pub struct Exchange {
    pub reply: FsReply,
    pub after: FileSystem,
}

impl FileSystem {
    /// Whether a file or a directory lies at `path`.
    pub open spec fn occupied(self, path: Seq<char>) -> bool {
        self.files.contains_key(path) || self.dirs.contains(path)
    }

    /// This file system with the file at `from` moved to `to`.
    pub open spec fn renamed(self, from: Seq<char>, to: Seq<char>) -> FileSystem {
        FileSystem { files: self.files.remove(from).insert(to, self.files[from]), dirs: self.dirs }
    }

    /// This file system with the contents of `from` also at `to`.
    pub open spec fn copied(self, from: Seq<char>, to: Seq<char>) -> FileSystem {
        FileSystem { files: self.files.insert(to, self.files[from]), dirs: self.dirs }
    }

    /// This file system without the file at `path`.
    pub open spec fn removed(self, path: Seq<char>) -> FileSystem {
        FileSystem { files: self.files.remove(path), dirs: self.dirs }
    }

    /// Whether the file system may answer `request` with `reply` and be
    /// `after` once it has. A probe is answered truthfully and changes
    /// nothing. Any other operation is carried out as asked on a file that
    /// exists, or is refused and changes nothing; on a file that does not
    /// exist it reports so, or is refused, and changes nothing.
    pub open spec fn answers(self, request: FsRequestView, reply: FsReply, after: FileSystem) -> bool {
        match request {
            FsRequestView::Probe { source, destination_dir, target } => {
                &&& after == self
                &&& reply == FsReply::Probed {
                    source_exists: self.files.contains_key(source),
                    destination_exists: self.dirs.contains(destination_dir),
                    target_exists: self.occupied(target),
                }
            },
            FsRequestView::Rename { from, to } => match reply {
                FsReply::Done => self.files.contains_key(from) && after == self.renamed(from, to),
                FsReply::NotFound => !self.files.contains_key(from) && after == self,
                FsReply::Refused => after == self,
                FsReply::Probed { .. } => false,
            },
            FsRequestView::Copy { from, to } => match reply {
                FsReply::Done => self.files.contains_key(from) && after == self.copied(from, to),
                FsReply::NotFound => !self.files.contains_key(from) && after == self,
                FsReply::Refused => after == self,
                FsReply::Probed { .. } => false,
            },
            FsRequestView::Remove { path } => match reply {
                FsReply::Done => self.files.contains_key(path) && after == self.removed(path),
                FsReply::NotFound => !self.files.contains_key(path) && after == self,
                FsReply::Refused => after == self,
                FsReply::Probed { .. } => false,
            },
        }
    }
}

/// How a relocation ended: its outcome, and the file system it left.
pub struct Ending {
    pub outcome: Result<RelocationView, RelocationErrorView>,
    pub fs: FileSystem,
}

/// The end of the relocation that stands at `step` on the file system `fs`,
/// when the requests are answered by `exchanges` in turn. There is none if
/// an exchange is not an answer that the file system may give, or if the
/// exchanges are too few or too many.
pub open spec fn run(step: StepView, fs: FileSystem, exchanges: Seq<Exchange>) -> Option<Ending>
    decreases exchanges.len(),
{
    match step {
        StepView::Finished(outcome) => if exchanges.len() == 0 {
            Some(Ending { outcome, fs })
        } else {
            None
        },
        StepView::Pending(job) => if exchanges.len() == 0 {
            None
        } else if fs.answers(job.request(), exchanges[0].reply, exchanges[0].after) {
            run(job.advance(exchanges[0].reply), exchanges[0].after, exchanges.drop_first())
        } else {
            None
        },
    }
}

/// What a relocation that has come to the removal of the source ends in.
proof fn lemma_run_removing(mv: PendingMoveView, fs: FileSystem, exchanges: Seq<Exchange>)
    requires
        run(StepView::Pending(JobView { mv, phase: MovePhase::Removing }), fs, exchanges) is Some,
    ensures
        ({
            let job = JobView { mv, phase: MovePhase::Removing };
            let end = run(StepView::Pending(job), fs, exchanges)->0;
            let (outcome, after) = (end.outcome, end.fs);
            ||| StepView::Finished(outcome) == job.moved() && after == fs.removed(mv.source)
            ||| StepView::Finished(outcome) == job.copy_failed() && after == fs
        }),
        exchanges.len() == 1,
    decreases exchanges.len(),
{
    reveal_with_fuel(run, 2);
    let job = JobView { mv, phase: MovePhase::Removing };
    let first = exchanges[0];
    let rest = exchanges.drop_first();
    match first.reply {
        FsReply::Probed { .. } => {},
        FsReply::Done => {},
        FsReply::NotFound => {
            assert(fs.removed(mv.source).files == fs.files);
        },
        FsReply::Refused => {},
    }
}

/// What a relocation that has come to the copy ends in.
proof fn lemma_run_copying(mv: PendingMoveView, fs: FileSystem, exchanges: Seq<Exchange>)
    requires
        run(StepView::Pending(JobView { mv, phase: MovePhase::Copying }), fs, exchanges) is Some,
        fs.files.contains_key(mv.source),
    ensures
        ({
            let job = JobView { mv, phase: MovePhase::Copying };
            let end = run(StepView::Pending(job), fs, exchanges)->0;
            let (outcome, after) = (end.outcome, end.fs);
            ||| StepView::Finished(outcome) == job.moved() && after == fs.copied(
                mv.source,
                mv.target(),
            ).removed(mv.source)
            ||| StepView::Finished(outcome) == job.copy_failed() && (after == fs || after
                == fs.copied(mv.source, mv.target()))
        }),
        exchanges.len() <= 2,
    decreases exchanges.len(),
{
    reveal_with_fuel(run, 2);
    let job = JobView { mv, phase: MovePhase::Copying };
    let first = exchanges[0];
    let rest = exchanges.drop_first();
    match first.reply {
        FsReply::Probed { .. } => {},
        FsReply::Done => {
            lemma_run_removing(mv, first.after, rest);
        },
        FsReply::NotFound => {},
        FsReply::Refused => {},
    }
}

/// What a relocation that has come to the rename ends in.
proof fn lemma_run_renaming(mv: PendingMoveView, fs: FileSystem, exchanges: Seq<Exchange>)
    requires
        run(StepView::Pending(JobView { mv, phase: MovePhase::Renaming }), fs, exchanges) is Some,
        fs.files.contains_key(mv.source),
        mv.source != mv.target(),
    ensures
        ({
            let job = JobView { mv, phase: MovePhase::Renaming };
            let end = run(StepView::Pending(job), fs, exchanges)->0;
            let (outcome, after) = (end.outcome, end.fs);
            ||| StepView::Finished(outcome) == job.moved() && after == fs.renamed(
                mv.source,
                mv.target(),
            )
            ||| StepView::Finished(outcome) == job.copy_failed() && (after == fs || after
                == fs.copied(mv.source, mv.target()))
        }),
        exchanges.len() <= 3,
    decreases exchanges.len(),
{
    reveal_with_fuel(run, 2);
    let job = JobView { mv, phase: MovePhase::Renaming };
    let first = exchanges[0];
    let rest = exchanges.drop_first();
    match first.reply {
        FsReply::Probed { .. } => {},
        FsReply::Done => {},
        FsReply::NotFound => {},
        FsReply::Refused => {
            lemma_run_copying(mv, first.after, rest);
            assert(fs.copied(mv.source, mv.target()).removed(mv.source).files == fs.renamed(
                mv.source,
                mv.target(),
            ).files);
        },
    }
}

/// What a relocation that starts with the probe ends in, by what the file
/// system holds at its start.
proof fn lemma_run_probing(mv: PendingMoveView, fs: FileSystem, exchanges: Seq<Exchange>)
    requires
        run(StepView::Pending(JobView { mv, phase: MovePhase::Probing }), fs, exchanges) is Some,
    ensures
        ({
            let job = JobView { mv, phase: MovePhase::Probing };
            let end = run(StepView::Pending(job), fs, exchanges)->0;
            let (outcome, after) = (end.outcome, end.fs);
            let done = StepView::Finished(outcome);
            if !fs.files.contains_key(mv.source) {
                done == job.vanished() && after == fs
            } else if fs.occupied(mv.target()) {
                done == job.collision() && after == fs
            } else if !fs.dirs.contains(mv.destination_dir) {
                done == job.destination_missing() && after == fs
            } else {
                ||| done == job.moved() && after == fs.renamed(mv.source, mv.target())
                ||| done == job.copy_failed() && (after == fs || after == fs.copied(
                    mv.source,
                    mv.target(),
                ))
            }
        }),
        1 <= exchanges.len() <= 4,
        exchanges[0].after == fs,
{
    reveal_with_fuel(run, 2);
    let job = JobView { mv, phase: MovePhase::Probing };
    let first = exchanges[0];
    let rest = exchanges.drop_first();
    if fs.files.contains_key(mv.source) && !fs.occupied(mv.target()) && fs.dirs.contains(
        mv.destination_dir,
    ) {
        lemma_run_renaming(mv, first.after, rest);
    }
}

/// A path for which the table has no destination is skipped, and skipping
/// it asks nothing of the file system: the relocation has its outcome
/// before any request is made.
pub proof fn lemma_unlisted_path_is_skipped(
    table: Map<Seq<char>, Seq<char>>,
    path: Seq<char>,
    fs: FileSystem,
    exchanges: Seq<Exchange>,
)
    requires
        destination_for(table, path) is None,
    ensures
        begun(table, path) == StepView::Finished(Ok(RelocationView::Skipped)),
        run(begun(table, path), fs, exchanges) is Some <==> exchanges.len() == 0,
        run(begun(table, path), fs, exchanges) is Some ==> run(begun(table, path), fs, exchanges)
            == Some(Ending { outcome: Ok(RelocationView::Skipped), fs }),
{
}

/// Relocating a file that is not there ends as "source vanished" and
/// changes nothing.
pub proof fn lemma_absent_source_vanishes(
    table: Map<Seq<char>, Seq<char>>,
    path: Seq<char>,
    fs: FileSystem,
    exchanges: Seq<Exchange>,
)
    requires
        destination_for(table, path) is Some,
        !fs.files.contains_key(path),
        run(begun(table, path), fs, exchanges) is Some,
    ensures
        run(begun(table, path), fs, exchanges) == Some(
            Ending { outcome: Err(RelocationErrorView::SourceVanished { source: path }), fs },
        ),
{
    let mv = planned_move(table, path)->0;
    lemma_run_probing(mv, fs, exchanges);
}

/// A relocation that ends as "moved" has moved the file: the source was
/// there, its directory of destination too, and nothing lay at the target;
/// afterwards the target holds what the source held, the source is gone,
/// and nothing else has changed.
pub proof fn lemma_moved_file_arrives(
    table: Map<Seq<char>, Seq<char>>,
    path: Seq<char>,
    fs: FileSystem,
    exchanges: Seq<Exchange>,
)
    requires
        run(begun(table, path), fs, exchanges) is Some,
        run(begun(table, path), fs, exchanges)->0.outcome matches Ok(
            RelocationView::Moved { .. },
        ),
    ensures
        planned_move(table, path) is Some,
        ({
            let mv = planned_move(table, path)->0;
            let end = run(begun(table, path), fs, exchanges)->0;
            let (outcome, after) = (end.outcome, end.fs);
            &&& outcome == Ok::<RelocationView, RelocationErrorView>(
                RelocationView::Moved { source: path, target: mv.target() },
            )
            &&& fs.files.contains_key(path)
            &&& fs.dirs.contains(mv.destination_dir)
            &&& !fs.occupied(mv.target())
            &&& after == fs.renamed(path, mv.target())
            &&& !after.files.contains_key(path)
            &&& after.files.contains_key(mv.target())
            &&& after.files[mv.target()] == fs.files[path]
        }),
{
    if planned_move(table, path) is Some {
        let mv = planned_move(table, path)->0;
        lemma_run_probing(mv, fs, exchanges);
    }
}

/// Idempotence: once a relocation has moved a file, relocating the same
/// path again finds the source gone, ends as "source vanished" and changes
/// nothing.
pub proof fn lemma_second_relocation_finds_source_gone(
    table: Map<Seq<char>, Seq<char>>,
    path: Seq<char>,
    fs: FileSystem,
    first: Seq<Exchange>,
    second: Seq<Exchange>,
)
    requires
        run(begun(table, path), fs, first) is Some,
        run(begun(table, path), fs, first)->0.outcome matches Ok(RelocationView::Moved { .. }),
        run(begun(table, path), run(begun(table, path), fs, first)->0.fs, second) is Some,
    ensures
        ({
            let moved = run(begun(table, path), fs, first)->0.fs;
            run(begun(table, path), moved, second) == Some(
                Ending {
                    outcome: Err(RelocationErrorView::SourceVanished { source: path }),
                    fs: moved,
                },
            )
        }),
{
    lemma_moved_file_arrives(table, path, fs, first);
    let moved = run(begun(table, path), fs, first)->0.fs;
    lemma_absent_source_vanishes(table, path, moved, second);
}

/// Collision safety: when the source is there and something already lies
/// at the target, the relocation ends as a collision that names both
/// paths, and the file system is exactly as it was: neither the source nor
/// what lay at the target has been touched.
pub proof fn lemma_collision_changes_nothing(
    table: Map<Seq<char>, Seq<char>>,
    path: Seq<char>,
    fs: FileSystem,
    exchanges: Seq<Exchange>,
)
    requires
        planned_move(table, path) is Some,
        fs.files.contains_key(path),
        fs.occupied(planned_move(table, path)->0.target()),
        run(begun(table, path), fs, exchanges) is Some,
    ensures
        run(begun(table, path), fs, exchanges) == Some(
            Ending {
                outcome: Err(
                    RelocationErrorView::CollisionError {
                        source: path,
                        target: planned_move(table, path)->0.target(),
                    },
                ),
                fs,
            },
        ),
{
    let mv = planned_move(table, path)->0;
    lemma_run_probing(mv, fs, exchanges);
}

/// When the source is there, nothing lies at the target and the
/// destination directory does not exist, the relocation ends as
/// "destination missing" and changes nothing: the directory is not created.
pub proof fn lemma_missing_destination_changes_nothing(
    table: Map<Seq<char>, Seq<char>>,
    path: Seq<char>,
    fs: FileSystem,
    exchanges: Seq<Exchange>,
)
    requires
        planned_move(table, path) is Some,
        fs.files.contains_key(path),
        !fs.occupied(planned_move(table, path)->0.target()),
        !fs.dirs.contains(planned_move(table, path)->0.destination_dir),
        run(begun(table, path), fs, exchanges) is Some,
    ensures
        run(begun(table, path), fs, exchanges) == Some(
            Ending {
                outcome: Err(
                    RelocationErrorView::DestinationMissing {
                        destination_dir: planned_move(table, path)->0.destination_dir,
                    },
                ),
                fs,
            },
        ),
{
    let mv = planned_move(table, path)->0;
    lemma_run_probing(mv, fs, exchanges);
}

/// A relocation that fails leaves the source as it was: every file but the
/// one at the target is what it was before, and no directory has come or
/// gone.
pub proof fn lemma_failure_keeps_source(
    table: Map<Seq<char>, Seq<char>>,
    path: Seq<char>,
    fs: FileSystem,
    exchanges: Seq<Exchange>,
)
    requires
        run(begun(table, path), fs, exchanges) is Some,
        run(begun(table, path), fs, exchanges)->0.outcome is Err,
    ensures
        planned_move(table, path) is Some,
        ({
            let target = planned_move(table, path)->0.target();
            let after = run(begun(table, path), fs, exchanges)->0.fs;
            &&& after.dirs == fs.dirs
            &&& after.files.remove(target) == fs.files.remove(target)
            &&& fs.files.contains_key(path) ==> after.files.contains_key(path)
                && after.files[path] == fs.files[path]
        }),
{
    if planned_move(table, path) is Some {
        let mv = planned_move(table, path)->0;
        let target = mv.target();
        lemma_run_probing(mv, fs, exchanges);
        let after = run(begun(table, path), fs, exchanges)->0.fs;
        if after == fs.copied(path, target) {
            assert(after.files.remove(target) == fs.files.remove(target));
        }
    }
}

/// A relocation is over after four requests at most, and the first of
/// them, the probe, changes nothing. A path that is skipped takes none.
pub proof fn lemma_relocation_is_short(
    table: Map<Seq<char>, Seq<char>>,
    path: Seq<char>,
    fs: FileSystem,
    exchanges: Seq<Exchange>,
)
    requires
        run(begun(table, path), fs, exchanges) is Some,
    ensures
        exchanges.len() <= 4,
        planned_move(table, path) is None <==> exchanges.len() == 0,
        exchanges.len() > 0 ==> (begun(table, path) matches StepView::Pending(job)
            && !job.request().mutates() && exchanges[0].after == fs),
{
    if planned_move(table, path) is Some {
        let mv = planned_move(table, path)->0;
        lemma_run_probing(mv, fs, exchanges);
    }
}

} // verus!
