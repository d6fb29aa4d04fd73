//! The relocation engine: the decisions that move one settled file into the
//! directory chosen by its extension.
//!
//! The engine performs no file operation itself. It plans the move, tells
//! its caller which operation to perform next, and decides from the
//! operation's reply how to go on, until the relocation has an outcome.

use crate::classifier::RuleTable;
use crate::path::{extension_of, file_name, final_component, join, joined, lowercase};
use vstd::prelude::*;

verus! {

/// A move that has been planned and not yet performed.
#[derive(Debug, Clone, PartialEq, Eq)]
pub struct PendingMove {
    /// The file to move.
    pub source: String,
    /// The directory it goes to.
    pub destination_dir: String,
    /// The file's extension in lower case, by which the directory was chosen.
    pub extension: String,
}

/// How a relocation ended when nothing went wrong.
#[derive(Debug, Clone, PartialEq, Eq)]
pub enum Relocation {
    /// The file now lies at `target` and no longer at `source`.
    Moved { source: String, target: String },
    /// No rule applies to the file; it was left where it is.
    Skipped,
}

/// Why a relocation did not take place. None of these stops the agent.
#[derive(Debug, Clone, PartialEq, Eq)]
pub enum RelocationError {
    /// The destination directory does not exist. It is not created.
    DestinationMissing { destination_dir: String },
    /// A file already lies at the target. It is not overwritten.
    CollisionError { source: String, target: String },
    /// The source file was gone before it could be moved.
    SourceVanished { source: String },
    /// The file could not be renamed, and copying it in place of renaming
    /// failed too.
    CopyFailed { source: String, target: String },
}

/// A file operation that the engine asks its caller to perform.
#[derive(Debug, Clone, PartialEq, Eq)]
pub enum FsRequest {
    /// Look, without changing anything, whether the file `source`, the
    /// directory `destination_dir` and anything at `target` exist.
    Probe { source: String, destination_dir: String, target: String },
    /// Rename `from` to `to` in one step.
    Rename { from: String, to: String },
    /// Copy the contents of `from` to `to`, leaving `from` as it is.
    Copy { from: String, to: String },
    /// Delete the file at `path`.
    Remove { path: String },
}

/// What the caller found when it performed a request.
#[derive(Debug, Clone, Copy, PartialEq, Eq, Structural)]
pub enum FsReply {
    /// The answer to a probe.
    Probed { source_exists: bool, destination_exists: bool, target_exists: bool },
    /// The operation was carried out.
    Done,
    /// The operation was not carried out because its source does not exist.
    NotFound,
    /// The operation was not carried out for any other reason, such as a
    /// rename across volumes.
    Refused,
}

/// How far a relocation has come.
#[derive(Debug, Clone, Copy, PartialEq, Eq, Structural)]
pub enum MovePhase {
    /// The probe is outstanding.
    Probing,
    /// The rename is outstanding.
    Renaming,
    /// The rename was refused; the copy is outstanding.
    Copying,
    /// The copy was made; the removal of the source is outstanding.
    Removing,
}

/// A relocation under way: the move and the phase it is in.
#[derive(Debug, Clone, PartialEq, Eq)]
pub struct RelocationJob {
    mv: PendingMove,
    phase: MovePhase,
}

/// Where a relocation stands after a decision.
#[derive(Debug, PartialEq, Eq)]
pub enum RelocationStep {
    /// A request is outstanding: perform `job.request()` and hand the reply
    /// to `job.advance`.
    Pending(RelocationJob),
    /// The relocation has its outcome.
    Finished(Result<Relocation, RelocationError>),
}

/// The model of a [`PendingMove`].
pub struct PendingMoveView {
    pub source: Seq<char>,
    pub destination_dir: Seq<char>,
    pub extension: Seq<char>,
}

/// The model of a [`Relocation`].
pub enum RelocationView {
    Moved { source: Seq<char>, target: Seq<char> },
    Skipped,
}

/// The model of a [`RelocationError`].
pub enum RelocationErrorView {
    DestinationMissing { destination_dir: Seq<char> },
    CollisionError { source: Seq<char>, target: Seq<char> },
    SourceVanished { source: Seq<char> },
    CopyFailed { source: Seq<char>, target: Seq<char> },
}

/// The model of an [`FsRequest`].
pub enum FsRequestView {
    Probe { source: Seq<char>, destination_dir: Seq<char>, target: Seq<char> },
    Rename { from: Seq<char>, to: Seq<char> },
    Copy { from: Seq<char>, to: Seq<char> },
    Remove { path: Seq<char> },
}

/// The model of a [`RelocationJob`].
pub struct JobView {
    pub mv: PendingMoveView,
    pub phase: MovePhase,
}

/// The model of a [`RelocationStep`].
pub enum StepView {
    Pending(JobView),
    Finished(Result<RelocationView, RelocationErrorView>),
}

impl View for PendingMove {
    type V = PendingMoveView;

    open spec fn view(&self) -> PendingMoveView {
        PendingMoveView {
            source: self.source@,
            destination_dir: self.destination_dir@,
            extension: self.extension@,
        }
    }
}

impl View for Relocation {
    type V = RelocationView;

    open spec fn view(&self) -> RelocationView {
        match self {
            Relocation::Moved { source, target } => RelocationView::Moved {
                source: source@,
                target: target@,
            },
            Relocation::Skipped => RelocationView::Skipped,
        }
    }
}

impl View for RelocationError {
    type V = RelocationErrorView;

    open spec fn view(&self) -> RelocationErrorView {
        match self {
            RelocationError::DestinationMissing {
                destination_dir,
            } => RelocationErrorView::DestinationMissing { destination_dir: destination_dir@ },
            RelocationError::CollisionError { source, target } => RelocationErrorView::CollisionError {
                source: source@,
                target: target@,
            },
            RelocationError::SourceVanished { source } => RelocationErrorView::SourceVanished {
                source: source@,
            },
            RelocationError::CopyFailed { source, target } => RelocationErrorView::CopyFailed {
                source: source@,
                target: target@,
            },
        }
    }
}

impl View for FsRequest {
    type V = FsRequestView;

    open spec fn view(&self) -> FsRequestView {
        match self {
            FsRequest::Probe { source, destination_dir, target } => FsRequestView::Probe {
                source: source@,
                destination_dir: destination_dir@,
                target: target@,
            },
            FsRequest::Rename { from, to } => FsRequestView::Rename { from: from@, to: to@ },
            FsRequest::Copy { from, to } => FsRequestView::Copy { from: from@, to: to@ },
            FsRequest::Remove { path } => FsRequestView::Remove { path: path@ },
        }
    }
}

impl View for RelocationJob {
    type V = JobView;

    closed spec fn view(&self) -> JobView {
        JobView { mv: self.mv@, phase: self.phase }
    }
}

impl View for RelocationStep {
    type V = StepView;

    open spec fn view(&self) -> StepView {
        match self {
            RelocationStep::Pending(job) => StepView::Pending(job@),
            RelocationStep::Finished(outcome) => StepView::Finished(outcome_view(*outcome)),
        }
    }
}

/// The model of a relocation's outcome.
pub open spec fn outcome_view(outcome: Result<Relocation, RelocationError>) -> Result<
    RelocationView,
    RelocationErrorView,
> {
    match outcome {
        Ok(done) => Ok(done@),
        Err(error) => Err(error@),
    }
}

/// The move that `table` calls for when the file at `path` has settled: the
/// file goes to the directory that the table assigns to its extension. No
/// move is planned for a path without an extension or with one that the
/// table does not list.
pub open spec fn planned_move(table: Map<Seq<char>, Seq<char>>, path: Seq<char>) -> Option<
    PendingMoveView,
> {
    match extension_of(path) {
        Some(ext) => if table.contains_key(lowercase(ext)) {
            Some(
                PendingMoveView {
                    source: path,
                    destination_dir: table[lowercase(ext)],
                    extension: lowercase(ext),
                },
            )
        } else {
            None
        },
        None => None,
    }
}

impl PendingMoveView {
    /// Where the file is to lie after the move: in the destination
    /// directory, under the name it has now.
    pub open spec fn target(self) -> Seq<char> {
        joined(self.destination_dir, final_component(self.source))
    }
}

impl FsRequestView {
    /// Whether performing the request may change the file system.
    pub open spec fn mutates(self) -> bool {
        !(self is Probe)
    }
}

impl JobView {
    /// The request that is outstanding in the job's phase.
    pub open spec fn request(self) -> FsRequestView {
        match self.phase {
            MovePhase::Probing => FsRequestView::Probe {
                source: self.mv.source,
                destination_dir: self.mv.destination_dir,
                target: self.mv.target(),
            },
            MovePhase::Renaming => FsRequestView::Rename {
                from: self.mv.source,
                to: self.mv.target(),
            },
            MovePhase::Copying => FsRequestView::Copy {
                from: self.mv.source,
                to: self.mv.target(),
            },
            MovePhase::Removing => FsRequestView::Remove { path: self.mv.source },
        }
    }

    /// The job in another phase.
    pub open spec fn at(self, phase: MovePhase) -> JobView {
        JobView { mv: self.mv, phase }
    }

    /// The outcome "moved".
    pub open spec fn moved(self) -> StepView {
        StepView::Finished(
            Ok(RelocationView::Moved { source: self.mv.source, target: self.mv.target() }),
        )
    }

    /// The outcome "source vanished".
    pub open spec fn vanished(self) -> StepView {
        StepView::Finished(Err(RelocationErrorView::SourceVanished { source: self.mv.source }))
    }

    /// The outcome "destination missing".
    pub open spec fn destination_missing(self) -> StepView {
        StepView::Finished(
            Err(
                RelocationErrorView::DestinationMissing {
                    destination_dir: self.mv.destination_dir,
                },
            ),
        )
    }

    /// The outcome "collision".
    pub open spec fn collision(self) -> StepView {
        StepView::Finished(
            Err(RelocationErrorView::CollisionError { source: self.mv.source, target: self.mv.target() }),
        )
    }

    /// The outcome "copy failed".
    pub open spec fn copy_failed(self) -> StepView {
        StepView::Finished(
            Err(
                RelocationErrorView::CopyFailed { source: self.mv.source, target: self.mv.target() },
            ),
        )
    }

    /// Where the relocation stands once the outstanding request has been
    /// answered with `reply`.
    ///
    /// After the probe: a missing source ends it as vanished, then anything
    /// lying at the target as a collision, then a missing destination
    /// directory as such; otherwise the rename is asked for. After the rename:
    /// done means moved, a missing source means vanished, and a refusal
    /// leads to the copy. After the copy: done leads to the removal of the
    /// source, a missing source means vanished, a refusal means that the
    /// copy failed. After the removal: done, or a source that is gone
    /// already, means moved; a refusal means that the copy failed. A reply
    /// that does not answer the outstanding request changes nothing.
    pub open spec fn advance(self, reply: FsReply) -> StepView {
        match self.phase {
            MovePhase::Probing => match reply {
                FsReply::Probed { source_exists, destination_exists, target_exists } => {
                    if !source_exists {
                        self.vanished()
                    } else if target_exists {
                        self.collision()
                    } else if !destination_exists {
                        self.destination_missing()
                    } else {
                        StepView::Pending(self.at(MovePhase::Renaming))
                    }
                },
                _ => StepView::Pending(self),
            },
            MovePhase::Renaming => match reply {
                FsReply::Done => self.moved(),
                FsReply::NotFound => self.vanished(),
                FsReply::Refused => StepView::Pending(self.at(MovePhase::Copying)),
                FsReply::Probed { .. } => StepView::Pending(self),
            },
            MovePhase::Copying => match reply {
                FsReply::Done => StepView::Pending(self.at(MovePhase::Removing)),
                FsReply::NotFound => self.vanished(),
                FsReply::Refused => self.copy_failed(),
                FsReply::Probed { .. } => StepView::Pending(self),
            },
            MovePhase::Removing => match reply {
                FsReply::Done => self.moved(),
                FsReply::NotFound => self.moved(),
                FsReply::Refused => self.copy_failed(),
                FsReply::Probed { .. } => StepView::Pending(self),
            },
        }
    }
}

/// Where the relocation of the file at `path` stands at its start: skipped
/// if `table` has no destination for it, else waiting for the probe.
pub open spec fn begun(table: Map<Seq<char>, Seq<char>>, path: Seq<char>) -> StepView {
    match planned_move(table, path) {
        Some(mv) => StepView::Pending(JobView { mv, phase: MovePhase::Probing }),
        None => StepView::Finished(Ok(RelocationView::Skipped)),
    }
}

/// Plans the move of the settled file at `path`, if `table` has a
/// destination for it.
pub fn plan(table: &RuleTable, path: &str) -> (mv: Option<PendingMove>)
    ensures
        match mv {
            Some(m) => planned_move(table@, path@) == Some(m@),
            None => planned_move(table@, path@) is None,
        },
{
    match crate::path::extension(path) {
        Some(ext) => {
            let key = ext.as_str().to_ascii_lowercase();
            match table.destination(ext.as_str()) {
                Some(dir) => Some(
                    PendingMove { source: path.to_owned(), destination_dir: dir, extension: key },
                ),
                None => None,
            }
        },
        None => None,
    }
}

impl PendingMove {
    /// Where the file is to lie after the move.
    pub fn target(&self) -> (target: String)
        ensures
            target@ == self@.target(),
    {
        let name = file_name(self.source.as_str());
        join(self.destination_dir.as_str(), name.as_str())
    }
}

impl RelocationJob {
    /// Starts the relocation of the settled file at `path`.
    pub fn begin(table: &RuleTable, path: &str) -> (step: RelocationStep)
        ensures
            step@ == begun(table@, path@),
    {
        match plan(table, path) {
            Some(mv) => RelocationStep::Pending(RelocationJob { mv, phase: MovePhase::Probing }),
            None => RelocationStep::Finished(Ok(Relocation::Skipped)),
        }
    }

    /// The move that this job carries out.
    pub fn pending_move(&self) -> (mv: &PendingMove)
        ensures
            mv@ == self@.mv,
    {
        &self.mv
    }

    /// The phase that this job is in.
    pub fn phase(&self) -> (phase: MovePhase)
        ensures
            phase == self@.phase,
    {
        self.phase
    }

    /// The request that the caller is to perform next.
    pub fn request(&self) -> (request: FsRequest)
        ensures
            request@ == self@.request(),
    {
        match self.phase {
            MovePhase::Probing => FsRequest::Probe {
                source: self.mv.source.clone(),
                destination_dir: self.mv.destination_dir.clone(),
                target: self.mv.target(),
            },
            MovePhase::Renaming => FsRequest::Rename {
                from: self.mv.source.clone(),
                to: self.mv.target(),
            },
            MovePhase::Copying => FsRequest::Copy {
                from: self.mv.source.clone(),
                to: self.mv.target(),
            },
            MovePhase::Removing => FsRequest::Remove { path: self.mv.source.clone() },
        }
    }

    /// Takes in the reply to the outstanding request and decides how the
    /// relocation goes on.
    pub fn advance(self, reply: FsReply) -> (step: RelocationStep)
        ensures
            step@ == self@.advance(reply),
    {
        match self.phase {
            MovePhase::Probing => match reply {
                FsReply::Probed { source_exists, destination_exists, target_exists } => {
                    if !source_exists {
                        self.vanished()
                    } else if target_exists {
                        self.collision()
                    } else if !destination_exists {
                        self.destination_missing()
                    } else {
                        self.enter(MovePhase::Renaming)
                    }
                },
                _ => RelocationStep::Pending(self),
            },
            MovePhase::Renaming => match reply {
                FsReply::Done => self.moved(),
                FsReply::NotFound => self.vanished(),
                FsReply::Refused => self.enter(MovePhase::Copying),
                FsReply::Probed { .. } => RelocationStep::Pending(self),
            },
            MovePhase::Copying => match reply {
                FsReply::Done => self.enter(MovePhase::Removing),
                FsReply::NotFound => self.vanished(),
                FsReply::Refused => self.copy_failed(),
                FsReply::Probed { .. } => RelocationStep::Pending(self),
            },
            MovePhase::Removing => match reply {
                FsReply::Done => self.moved(),
                FsReply::NotFound => self.moved(),
                FsReply::Refused => self.copy_failed(),
                FsReply::Probed { .. } => RelocationStep::Pending(self),
            },
        }
    }

    fn enter(self, phase: MovePhase) -> (step: RelocationStep)
        ensures
            step@ == StepView::Pending(self@.at(phase)),
    {
        RelocationStep::Pending(RelocationJob { mv: self.mv, phase })
    }

    fn moved(self) -> (step: RelocationStep)
        ensures
            step@ == self@.moved(),
    {
        let target = self.mv.target();
        RelocationStep::Finished(Ok(Relocation::Moved { source: self.mv.source, target }))
    }

    fn vanished(self) -> (step: RelocationStep)
        ensures
            step@ == self@.vanished(),
    {
        RelocationStep::Finished(Err(RelocationError::SourceVanished { source: self.mv.source }))
    }

    fn destination_missing(self) -> (step: RelocationStep)
        ensures
            step@ == self@.destination_missing(),
    {
        RelocationStep::Finished(
            Err(RelocationError::DestinationMissing { destination_dir: self.mv.destination_dir }),
        )
    }

    fn collision(self) -> (step: RelocationStep)
        ensures
            step@ == self@.collision(),
    {
        let target = self.mv.target();
        RelocationStep::Finished(
            Err(RelocationError::CollisionError { source: self.mv.source, target }),
        )
    }

    fn copy_failed(self) -> (step: RelocationStep)
        ensures
            step@ == self@.copy_failed(),
    {
        let target = self.mv.target();
        RelocationStep::Finished(
            Err(RelocationError::CopyFailed { source: self.mv.source, target }),
        )
    }
}

/// A path without a destination is skipped before anything is asked of the
/// file system; any other path starts with the probe, which changes
/// nothing.
pub proof fn lemma_relocation_starts_harmlessly(table: Map<Seq<char>, Seq<char>>, path: Seq<char>)
    ensures
        planned_move(table, path) is None ==> begun(table, path) == StepView::Finished(
            Ok(RelocationView::Skipped),
        ),
        planned_move(table, path) matches Some(mv) ==> begun(table, path) == StepView::Pending(
            JobView { mv, phase: MovePhase::Probing },
        ) && mv.source == path && !(JobView { mv, phase: MovePhase::Probing }).request().mutates(),
{
}

/// When the probe finds the source gone, the relocation ends as "source
/// vanished", whatever else the probe found, and nothing more is asked.
pub proof fn lemma_missing_source_ends_relocation(
    job: JobView,
    destination_exists: bool,
    target_exists: bool,
)
    requires
        job.phase is Probing,
    ensures
        job.advance(FsReply::Probed { source_exists: false, destination_exists, target_exists })
            == job.vanished(),
{
}

/// When the probe finds the source and something at the target, the
/// relocation ends as a collision that names both paths, and nothing more
/// is asked: no request that could change a file is ever made.
pub proof fn lemma_occupied_target_ends_relocation(job: JobView, destination_exists: bool)
    requires
        job.phase is Probing,
    ensures
        job.advance(
            FsReply::Probed { source_exists: true, destination_exists, target_exists: true },
        ) == job.collision(),
        !job.request().mutates(),
{
}

/// A relocation only moves on: a reply never takes the job back to an
/// earlier phase, and never changes the move that it carries out.
pub proof fn lemma_relocation_moves_on(job: JobView, reply: FsReply)
    ensures
        job.advance(reply) matches StepView::Pending(next) ==> next.mv == job.mv && phase_rank(
            job.phase,
        ) <= phase_rank(next.phase),
{
}

/// The place of a phase in the course of a relocation.
pub open spec fn phase_rank(phase: MovePhase) -> nat {
    match phase {
        MovePhase::Probing => 0,
        MovePhase::Renaming => 1,
        MovePhase::Copying => 2,
        MovePhase::Removing => 3,
    }
}

} // verus!
