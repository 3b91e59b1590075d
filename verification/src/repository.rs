//! The repository's operations, as decisions.
//!
//! The library never touches a disk. An operation is carried out by its
//! caller, one [`Command`] at a time: the library names the command, the
//! caller performs it and reports the [`Outcome`], and the library says what
//! comes next. [`Disk`] is a model of the files involved, on which the laws at
//! the end of this file are stated.

use crate::slots::comes_from;
use crate::slots::distinct_names;
use crate::slots::file_name_of;
use crate::slots::identifier_of;
use crate::slots::is_listed;
use crate::slots::is_shown;
use crate::slots::is_slot_file;
use crate::slots::listed_slots_are_distinct;
use crate::slots::listing;
use crate::slots::listing_matches_directory;
use crate::slots::names_and_identifiers_agree;
use crate::slots::newest_slot_is_listed_first;
use crate::slots::slot_file_name;
use crate::slots::slot_of;
use crate::slots::EntryView;
use crate::slots::SaveSlot;
use vstd::prelude::*;

verus! {

/// A file that the repository reads or writes.
#[derive(Clone, Debug)]
pub enum Place {
    /// The save that the running game reads and writes.
    Active,
    /// The one safety copy inside the repository directory.
    Backup,
    /// A file of the repository directory, by its file name.
    Slot(String),
}

/// One step for the caller to perform on the disk.
#[derive(Clone, Debug)]
pub enum Command {
    /// Copy a file over another, replacing it.
    Copy { from: Place, to: Place },
    /// Remove a file.
    Remove { target: Place },
}

/// What the caller saw when it performed a command.
#[derive(Clone, Copy, Debug, PartialEq, Eq, Structural)]
pub enum Outcome {
    /// The command took effect.
    Done,
    /// The file to read or remove was not there; nothing changed.
    Missing,
    /// The disk refused for another reason.
    Failed,
}

/// What a caller asks of the repository.
#[derive(Clone, Debug)]
pub enum Operation {
    /// Store the active save under this identifier.
    SaveAs(String),
    /// Load the slot stored under this file name into the active save.
    Restore(String),
    /// Remove the slot stored under this file name.
    Delete(String),
    /// Copy the active save to the backup.
    BackupNow,
}

/// How far an operation has come.
#[derive(Clone, Copy, Debug, PartialEq, Eq, Structural)]
pub enum Stage {
    /// Its first command has just been performed.
    First,
    /// A restore has tried its backup and has just performed the copy from
    /// the slot; `made` says whether the backup was written.
    BackupTried { made: bool },
}

/// What a finished operation tells its caller.
#[derive(Clone, Copy, Debug, PartialEq, Eq, Structural)]
pub struct Report {
    /// Whether this operation wrote the backup.
    pub backed_up: bool,
    /// Whether the set of slots changed, so that an earlier listing is stale.
    pub refresh: bool,
}

/// Why an operation did not take effect.
#[derive(Clone, Debug)]
pub enum RepoError {
    /// The file to read or remove was not there.
    NotFound(Place),
    /// The disk refused this command.
    Io(Command),
}

/// What follows a performed command.
#[derive(Debug)]
pub enum Step {
    /// Perform this command next, and report its outcome at this stage.
    Run(Command, Stage),
    /// The operation is over.
    Finish(Result<Report, RepoError>),
}

pub ghost enum PlaceView {
    Active,
    Backup,
    Slot(Seq<char>),
}

pub ghost enum CommandView {
    Copy { from: PlaceView, to: PlaceView },
    Remove { target: PlaceView },
}

pub ghost enum OperationView {
    SaveAs(Seq<char>),
    Restore(Seq<char>),
    Delete(Seq<char>),
    BackupNow,
}

pub ghost enum ErrorView {
    NotFound(PlaceView),
    Io(CommandView),
}

pub ghost enum StepView {
    Run(CommandView, Stage),
    Finish(Result<Report, ErrorView>),
}

impl View for Place {
    type V = PlaceView;

    open spec fn view(&self) -> PlaceView {
        match self {
            Place::Active => PlaceView::Active,
            Place::Backup => PlaceView::Backup,
            Place::Slot(file_name) => PlaceView::Slot(file_name@),
        }
    }
}

impl View for Command {
    type V = CommandView;

    open spec fn view(&self) -> CommandView {
        match self {
            Command::Copy { from, to } => CommandView::Copy { from: from@, to: to@ },
            Command::Remove { target } => CommandView::Remove { target: target@ },
        }
    }
}

impl View for Operation {
    type V = OperationView;

    open spec fn view(&self) -> OperationView {
        match self {
            Operation::SaveAs(identifier) => OperationView::SaveAs(identifier@),
            Operation::Restore(file_name) => OperationView::Restore(file_name@),
            Operation::Delete(file_name) => OperationView::Delete(file_name@),
            Operation::BackupNow => OperationView::BackupNow,
        }
    }
}

impl View for RepoError {
    type V = ErrorView;

    open spec fn view(&self) -> ErrorView {
        match self {
            RepoError::NotFound(place) => ErrorView::NotFound(place@),
            RepoError::Io(command) => ErrorView::Io(command@),
        }
    }
}

impl View for Step {
    type V = StepView;

    open spec fn view(&self) -> StepView {
        match self {
            Step::Run(command, stage) => StepView::Run(command@, *stage),
            Step::Finish(Ok(report)) => StepView::Finish(Ok(*report)),
            Step::Finish(Err(error)) => StepView::Finish(Err(error@)),
        }
    }
}

/// The copy of the active save to the backup.
pub open spec fn backup_copy() -> CommandView {
    CommandView::Copy { from: PlaceView::Active, to: PlaceView::Backup }
}

/// The copy of a slot to the active save.
pub open spec fn restoring_copy(file_name: Seq<char>) -> CommandView {
    CommandView::Copy { from: PlaceView::Slot(file_name), to: PlaceView::Active }
}

/// The file that a command reads or removes.
pub open spec fn source_of(command: CommandView) -> PlaceView {
    match command {
        CommandView::Copy { from, to } => from,
        CommandView::Remove { target } => target,
    }
}

/// The command that an operation begins with. A restore begins with the
/// backup.
pub open spec fn first_command_of(operation: OperationView) -> CommandView {
    match operation {
        OperationView::SaveAs(identifier) => CommandView::Copy {
            from: PlaceView::Active,
            to: PlaceView::Slot(file_name_of(identifier)),
        },
        OperationView::Restore(file_name) => backup_copy(),
        OperationView::Delete(file_name) => CommandView::Remove {
            target: PlaceView::Slot(file_name),
        },
        OperationView::BackupNow => backup_copy(),
    }
}

/// How an operation of a single command ends on `outcome`.
pub open spec fn single_result(operation: OperationView, outcome: Outcome) -> Result<
    Report,
    ErrorView,
> {
    match outcome {
        Outcome::Done => Ok(
            Report {
                backed_up: operation is BackupNow,
                refresh: operation is SaveAs || operation is Delete,
            },
        ),
        Outcome::Missing => Err(ErrorView::NotFound(source_of(first_command_of(operation)))),
        Outcome::Failed => Err(ErrorView::Io(first_command_of(operation))),
    }
}

/// How a restore ends on the `outcome` of the copy from its slot.
pub open spec fn restore_result(file_name: Seq<char>, made: bool, outcome: Outcome) -> Result<
    Report,
    ErrorView,
> {
    match outcome {
        Outcome::Done => Ok(Report { backed_up: made, refresh: false }),
        Outcome::Missing => Err(ErrorView::NotFound(PlaceView::Slot(file_name))),
        Outcome::Failed => Err(ErrorView::Io(restoring_copy(file_name))),
    }
}

/// What follows when the command of `stage` ended in `outcome`. A restore
/// goes on to its slot whatever became of the backup; everything else ends
/// with its first command.
pub open spec fn step_of(operation: OperationView, stage: Stage, outcome: Outcome) -> StepView {
    match operation {
        OperationView::Restore(file_name) => match stage {
            Stage::First => StepView::Run(
                restoring_copy(file_name),
                Stage::BackupTried { made: outcome == Outcome::Done },
            ),
            Stage::BackupTried { made } => StepView::Finish(
                restore_result(file_name, made, outcome),
            ),
        },
        _ => StepView::Finish(single_result(operation, outcome)),
    }
}

/// The operation that restores `slot`.
pub fn restore(slot: &SaveSlot) -> (operation: Operation)
    ensures
        operation@ == OperationView::Restore(slot@.storage_path),
{
    Operation::Restore(slot.storage_path.clone())
}

/// The operation that deletes `slot`.
pub fn delete(slot: &SaveSlot) -> (operation: Operation)
    ensures
        operation@ == OperationView::Delete(slot@.storage_path),
{
    Operation::Delete(slot.storage_path.clone())
}

/// The operation that stores the active save under `name`.
pub fn save_as(name: &str) -> (operation: Operation)
    ensures
        operation@ == OperationView::SaveAs(name@),
{
    Operation::SaveAs(String::from_str(name))
}

/// The operation that copies the active save to the backup, apart from any
/// restore.
pub fn backup_now() -> (operation: Operation)
    ensures
        operation@ == OperationView::BackupNow,
{
    Operation::BackupNow
}

/// Whether a finished `operation` has to tell the player that it went on
/// without a backup: a restore whose backup could not be written.
pub fn went_on_without_backup(operation: &Operation, report: Report) -> (unbacked: bool)
    ensures
        unbacked == (operation@ is Restore && !report.backed_up),
{
    match operation {
        Operation::Restore(_) => !report.backed_up,
        _ => false,
    }
}

/// The command that `operation` begins with.
pub fn first_command(operation: &Operation) -> (command: Command)
    ensures
        command@ == first_command_of(operation@),
{
    match operation {
        Operation::SaveAs(identifier) => Command::Copy {
            from: Place::Active,
            to: Place::Slot(slot_file_name(identifier.as_str())),
        },
        Operation::Restore(_) => Command::Copy { from: Place::Active, to: Place::Backup },
        Operation::Delete(file_name) => Command::Remove {
            target: Place::Slot(file_name.clone()),
        },
        Operation::BackupNow => Command::Copy { from: Place::Active, to: Place::Backup },
    }
}

/// What follows for `operation` when the command of `stage` ended in
/// `outcome`: the next command, or the operation's result.
pub fn next_step(operation: &Operation, stage: Stage, outcome: Outcome) -> (step: Step)
    ensures
        step@ == step_of(operation@, stage, outcome),
{
    match operation {
        Operation::Restore(file_name) => {
            let copy = Command::Copy { from: Place::Slot(file_name.clone()), to: Place::Active };
            match stage {
                Stage::First => {
                    let made = match outcome {
                        Outcome::Done => true,
                        _ => false,
                    };
                    Step::Run(copy, Stage::BackupTried { made })
                },
                Stage::BackupTried { made } => match outcome {
                    Outcome::Done => Step::Finish(Ok(Report { backed_up: made, refresh: false })),
                    Outcome::Missing => Step::Finish(
                        Err(RepoError::NotFound(Place::Slot(file_name.clone()))),
                    ),
                    Outcome::Failed => Step::Finish(Err(RepoError::Io(copy))),
                },
            }
        },
        _ => {
            let command = first_command(operation);
            match outcome {
                Outcome::Done => {
                    let backed_up = match operation {
                        Operation::BackupNow => true,
                        _ => false,
                    };
                    let refresh = match operation {
                        Operation::SaveAs(_) => true,
                        Operation::Delete(_) => true,
                        _ => false,
                    };
                    Step::Finish(Ok(Report { backed_up, refresh }))
                },
                Outcome::Missing => {
                    let source = match command {
                        Command::Copy { from, to } => from,
                        Command::Remove { target } => target,
                    };
                    Step::Finish(Err(RepoError::NotFound(source)))
                },
                Outcome::Failed => Step::Finish(Err(RepoError::Io(command))),
            }
        },
    }
}

/// A model of the files that the repository deals with: what each holds, if
/// it is there. Slots are keyed by file name.
pub ghost struct Disk {
    pub active: Option<Seq<u8>>,
    pub backup: Option<Seq<u8>>,
    pub slots: Map<Seq<char>, Seq<u8>>,
}

impl Disk {
    /// What the file at `place` holds, if it is there.
    pub open spec fn content(self, place: PlaceView) -> Option<Seq<u8>> {
        match place {
            PlaceView::Active => self.active,
            PlaceView::Backup => self.backup,
            PlaceView::Slot(file_name) => if self.slots.contains_key(file_name) {
                Some(self.slots[file_name])
            } else {
                None
            },
        }
    }

    /// The disk with `bytes` written at `place`.
    pub open spec fn store(self, place: PlaceView, bytes: Seq<u8>) -> Disk {
        match place {
            PlaceView::Active => Disk { active: Some(bytes), ..self },
            PlaceView::Backup => Disk { backup: Some(bytes), ..self },
            PlaceView::Slot(file_name) => Disk {
                slots: self.slots.insert(file_name, bytes),
                ..self
            },
        }
    }

    /// The disk without the file at `place`.
    pub open spec fn erase(self, place: PlaceView) -> Disk {
        match place {
            PlaceView::Active => Disk { active: None, ..self },
            PlaceView::Backup => Disk { backup: None, ..self },
            PlaceView::Slot(file_name) => Disk { slots: self.slots.remove(file_name), ..self },
        }
    }

    /// A disk without faults performs `command`: a missing source changes
    /// nothing, and otherwise the command takes effect.
    pub open spec fn perform(self, command: CommandView) -> (Disk, Outcome) {
        match command {
            CommandView::Copy { from, to } => match self.content(from) {
                Some(bytes) => (self.store(to, bytes), Outcome::Done),
                None => (self, Outcome::Missing),
            },
            CommandView::Remove { target } => match self.content(target) {
                Some(bytes) => (self.erase(target), Outcome::Done),
                None => (self, Outcome::Missing),
            },
        }
    }

    /// A whole operation on a disk without faults: the commands that
    /// `first_command_of` and `step_of` name, performed in turn.
    pub open spec fn run(self, operation: OperationView) -> (Disk, Result<Report, ErrorView>) {
        let (first_disk, first_outcome) = self.perform(first_command_of(operation));
        match step_of(operation, Stage::First, first_outcome) {
            StepView::Finish(result) => (first_disk, result),
            StepView::Run(command, stage) => {
                let (second_disk, second_outcome) = first_disk.perform(command);
                (second_disk, step_of(operation, stage, second_outcome)->Finish_0)
            },
        }
    }
}

/// No operation asks for a third command.
pub proof fn second_step_finishes(
    operation: OperationView,
    first: Outcome,
    second: Outcome,
)
    requires
        step_of(operation, Stage::First, first) is Run,
    ensures
        step_of(operation, step_of(operation, Stage::First, first)->Run_1, second) is Finish,
{
}

/// A restore asks for the backup before anything else, and only after that,
/// whatever became of the backup, for the copy that overwrites the active
/// save.
pub proof fn restore_tries_the_backup_first(file_name: Seq<char>, outcome: Outcome)
    ensures
        first_command_of(OperationView::Restore(file_name)) == backup_copy(),
        step_of(OperationView::Restore(file_name), Stage::First, outcome) == StepView::Run(
            restoring_copy(file_name),
            Stage::BackupTried { made: outcome == Outcome::Done },
        ),
{
}

/// Restoring a slot that exists loads it into the active save and leaves
/// the slots as they were. Where there was an active save, the backup then
/// holds what the active save held before; where there was none, the backup
/// is left as it was and the restore succeeds all the same.
pub proof fn restore_backs_up_first(disk: Disk, file_name: Seq<char>)
    requires
        disk.slots.contains_key(file_name),
    ensures
        ({
            let (after, result) = disk.run(OperationView::Restore(file_name));
            &&& after.active == Some(disk.slots[file_name])
            &&& after.slots == disk.slots
            &&& result == Ok::<Report, ErrorView>(
                Report { backed_up: disk.active is Some, refresh: false },
            )
            &&& disk.active is Some ==> after.backup == disk.active
            &&& disk.active is None ==> after.backup == disk.backup
        }),
{
}

/// Restoring a slot that is gone reports it as not found and leaves the
/// active save and the slots as they were.
pub proof fn restore_of_missing_slot(disk: Disk, file_name: Seq<char>)
    requires
        !disk.slots.contains_key(file_name),
    ensures
        ({
            let (after, result) = disk.run(OperationView::Restore(file_name));
            &&& after.active == disk.active
            &&& after.slots == disk.slots
            &&& result == Err::<Report, ErrorView>(
                ErrorView::NotFound(PlaceView::Slot(file_name)),
            )
        }),
{
}

/// Deleting a slot that exists removes that file and no other. Deleting one
/// that does not exist reports it as not found and changes nothing.
pub proof fn delete_removes_the_slot(disk: Disk, file_name: Seq<char>)
    ensures
        ({
            let (after, result) = disk.run(OperationView::Delete(file_name));
            &&& !after.slots.contains_key(file_name)
            &&& after.active == disk.active
            &&& after.backup == disk.backup
            &&& disk.slots.contains_key(file_name) ==> after.slots == disk.slots.remove(file_name)
                && result == Ok::<Report, ErrorView>(Report { backed_up: false, refresh: true })
            &&& !disk.slots.contains_key(file_name) ==> after == disk && result == Err::<
                Report,
                ErrorView,
            >(ErrorView::NotFound(PlaceView::Slot(file_name)))
        }),
{
}

/// After a slot was deleted, a listing of what the directory then holds
/// shows neither its file nor its identifier.
pub proof fn deleted_slot_is_not_listed(
    disk: Disk,
    file_name: Seq<char>,
    entries: Seq<EntryView>,
)
    requires
        is_slot_file(file_name),
        forall|k: int|
            0 <= k < entries.len() ==> disk.run(
                OperationView::Delete(file_name),
            ).0.slots.contains_key((#[trigger] entries[k]).file_name),
    ensures
        forall|i: int|
            0 <= i < listing(entries).len() ==> (#[trigger] listing(entries)[i]).storage_path
                != file_name && listing(entries)[i].identifier != identifier_of(file_name),
{
    listing_matches_directory(entries);
    assert forall|i: int| 0 <= i < listing(entries).len() implies (#[trigger] listing(
        entries,
    )[i]).storage_path != file_name && listing(entries)[i].identifier != identifier_of(
        file_name,
    ) by {
        let slot = listing(entries)[i];
        assert(comes_from(entries, slot));
        let k = choose|k: int|
            0 <= k < entries.len() && is_shown(#[trigger] entries[k]) && slot
                == slot_of(entries[k]);
        names_and_identifiers_agree(entries[k].file_name);
        names_and_identifiers_agree(file_name);
    }
}

/// Saving stores what the active save holds under the slot's file name,
/// replacing an earlier slot of that name, and changes no other file.
/// Without an active save it reports that as not found and changes nothing.
pub proof fn save_as_stores_the_active_save(disk: Disk, identifier: Seq<char>)
    ensures
        ({
            let (after, result) = disk.run(OperationView::SaveAs(identifier));
            &&& after.active == disk.active
            &&& after.backup == disk.backup
            &&& disk.active is Some ==> after.slots == disk.slots.insert(
                file_name_of(identifier),
                disk.active->0,
            ) && result == Ok::<Report, ErrorView>(Report { backed_up: false, refresh: true })
            &&& disk.active is None ==> after == disk && result == Err::<Report, ErrorView>(
                ErrorView::NotFound(PlaceView::Active),
            )
        }),
{
}

/// Whether the directory shows a file of this name and tells its time.
pub open spec fn shows_file(entries: Seq<EntryView>, file_name: Seq<char>) -> bool {
    exists|k: int|
        0 <= k < entries.len() && (#[trigger] entries[k]).file_name == file_name
            && entries[k].modified is Some
}

/// After a save under a non-empty identifier, a listing of a directory that
/// shows the saved file, and no file name twice, holds exactly one slot of
/// that identifier, stored under the identifier's file name.
pub proof fn saved_slot_is_listed_once(
    disk: Disk,
    identifier: Seq<char>,
    entries: Seq<EntryView>,
)
    requires
        disk.active is Some,
        identifier.len() > 0,
        distinct_names(entries),
        forall|name: Seq<char>|
            disk.run(OperationView::SaveAs(identifier)).0.slots.contains_key(name) ==> shows_file(
                entries,
                name,
            ),
    ensures
        exists|i: int|
            0 <= i < listing(entries).len() && (#[trigger] listing(entries)[i]).identifier
                == identifier && listing(entries)[i].storage_path == file_name_of(identifier),
        forall|i: int, j: int|
            0 <= i < listing(entries).len() && 0 <= j < listing(entries).len() && (
            #[trigger] listing(entries)[i]).identifier == identifier && (#[trigger] listing(
                entries,
            )[j]).identifier == identifier ==> i == j,
{
    let listed = listing(entries);
    let stored = file_name_of(identifier);
    assert(disk.run(OperationView::SaveAs(identifier)).0.slots.contains_key(stored));
    assert(shows_file(entries, stored));
    let k = choose|k: int| 0 <= k < entries.len() && (#[trigger] entries[k]).file_name == stored;
    names_and_identifiers_agree(identifier);
    listing_matches_directory(entries);
    assert(is_listed(listed, slot_of(entries[k])));
    let at = choose|i: int| 0 <= i < listed.len() && #[trigger] listed[i] == slot_of(entries[k]);
    assert(listed[at].identifier == identifier && listed[at].storage_path == stored);
    listed_slots_are_distinct(entries);
}

/// A slot that was saved after every other slot of the directory was last
/// written stands first in the next listing, under the identifier it was
/// saved as.
pub proof fn saved_slot_is_listed_first(
    identifier: Seq<char>,
    entries: Seq<EntryView>,
    saved: int,
)
    requires
        identifier.len() > 0,
        0 <= saved < entries.len(),
        entries[saved].file_name == first_command_of(OperationView::SaveAs(identifier))->to->Slot_0,
        entries[saved].modified is Some,
        forall|j: int|
            0 <= j < entries.len() && j != saved && is_shown(#[trigger] entries[j])
                ==> entries[j].modified->0 < entries[saved].modified->0,
    ensures
        listing(entries).len() > 0,
        listing(entries)[0].identifier == identifier,
        listing(entries)[0].storage_path == file_name_of(identifier),
{
    names_and_identifiers_agree(identifier);
    newest_slot_is_listed_first(entries, saved);
}

/// A backup on request copies the active save to the backup and changes
/// nothing else.
pub proof fn backup_now_copies_the_active_save(disk: Disk)
    ensures
        ({
            let (after, result) = disk.run(OperationView::BackupNow);
            &&& after.active == disk.active
            &&& after.slots == disk.slots
            &&& disk.active is Some ==> after.backup == disk.active && result == Ok::<
                Report,
                ErrorView,
            >(Report { backed_up: true, refresh: false })
            &&& disk.active is None ==> after == disk && result == Err::<Report, ErrorView>(
                ErrorView::NotFound(PlaceView::Active),
            )
        }),
{
}

/// Saving the active save and restoring that slot later brings back what
/// was saved, whatever the active save was changed to in between, and the
/// backup then holds what the restore replaced.
pub proof fn saved_slot_restores_what_was_saved(
    disk: Disk,
    identifier: Seq<char>,
    played: Seq<u8>,
)
    requires
        disk.active is Some,
    ensures
        ({
            let saved = disk.run(OperationView::SaveAs(identifier)).0;
            let later = Disk { active: Some(played), ..saved };
            let restored = later.run(OperationView::Restore(file_name_of(identifier))).0;
            &&& saved.slots.contains_key(file_name_of(identifier))
            &&& restored.active == disk.active
            &&& restored.backup == Some(played)
        }),
{
}

} // verus!
