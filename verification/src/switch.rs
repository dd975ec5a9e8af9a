//! What an update does to a host: a model of the host and the proof that an
//! update leaves it as it should.
//!
//! The model knows three things about a host: where the secret link points,
//! what lies in the secret root, and which version the host runs. Each
//! command of an update changes them in a known way when it goes through,
//! and within known bounds when it fails. A run is what happens when an agent
//! performs, one after the other, the commands that the update names, and
//! hands back what came of each. Any command of a run may fail: what is
//! proved holds however the run went.

use crate::generation::{
    decimal_of, generation_path, lemma_generation_path_names, lemma_next_generation_has_new_name,
    lemma_next_generation_is_greater, lemma_next_generation_is_new, next_after,
};
use crate::path::file_name_of;
use crate::update::{target_of, Command, Outcome, Phase, Step, Update, UpdateError};
use vstd::prelude::*;

verus! {

/// What the model knows about a host.
pub struct Disk {
    /// Where the secret link points, if there is one.
    pub link: Option<Seq<char>>,
    /// The names of what lies in the secret root.
    pub entries: Set<Seq<char>>,
    /// The version that the host runs.
    pub active: Seq<char>,
}

/// Whether `after` can be the host once `command` has been performed on
/// `before` with this outcome, for an update to the version `requested`.
///
/// A command that goes through does what it says. One that fails leaves the
/// link where it was or removes it, and leaves in the secret root something
/// between what was there and what would be there had it gone through. An
/// activation makes the host run the version or leaves running what ran,
/// whatever it says.
pub open spec fn performs(
    command: Command,
    outcome: Outcome,
    requested: Seq<char>,
    before: Disk,
    after: Disk,
) -> bool {
    match command {
        Command::Download { .. } | Command::FetchSecrets { .. } | Command::Notify
        | Command::ReadLink | Command::ReadActive => after == before,
        Command::CreateGeneration { generation, .. } => {
            let made = before.entries.insert(decimal_of(generation as nat));
            &&& after.link == before.link
            &&& after.active == before.active
            &&& before.entries.subset_of(after.entries)
            &&& after.entries.subset_of(made)
            &&& outcome is Done ==> after.entries == made
        },
        Command::RemoveGeneration { generation } => {
            let left = before.entries.remove(decimal_of(generation as nat));
            &&& after.link == before.link
            &&& after.active == before.active
            &&& left.subset_of(after.entries)
            &&& after.entries.subset_of(before.entries)
            &&& outcome is Done ==> after.entries == left
        },
        Command::PointLink { generation } => {
            &&& after.entries == before.entries
            &&& after.active == before.active
            &&& if outcome is Done {
                after.link == Some(generation_path(generation as nat))
            } else {
                after.link == before.link || after.link is None
            }
        },
        Command::RestoreLink { target } => {
            &&& after.entries == before.entries
            &&& after.active == before.active
            &&& if outcome is Done {
                after.link == target_of(target)
            } else {
                after.link == before.link || after.link is None
            }
        },
        Command::Activate { .. } => {
            &&& after.link == before.link
            &&& after.entries == before.entries
            &&& after.active == before.active || after.active == requested
        },
        Command::CollectGarbage { keep } => {
            let kept = before.entries.intersect(set![decimal_of(keep as nat)]);
            &&& after.link == before.link
            &&& after.active == before.active
            &&& kept.subset_of(after.entries)
            &&& after.entries.subset_of(before.entries)
            &&& outcome is Done ==> after.entries == kept
        },
    }
}

/// Whether the agent read what is there, where the command was to read: the
/// link where it was to read the link, and the running version where it was
/// to read that and could.
pub open spec fn faithful(command: Command, outcome: Outcome, disk: Disk) -> bool {
    match command {
        Command::ReadLink => outcome matches Outcome::Link(target) && target_of(target)
            == disk.link,
        Command::ReadActive => outcome matches Outcome::Active(path) ==> path@ == disk.active,
        _ => true,
    }
}

/// One turn of a run: what came of the command, the host afterwards, and what
/// the update made of it.
pub struct Turn {
    pub outcome: Outcome,
    pub disk: Disk,
    pub step: Step,
}

/// Whether `turns` is a run that begins with `command` being performed on
/// `disk` for `update` and ends with `result` on the host `end`. In a run
/// the agent reads the link as it is and, where it can read it, the running
/// version as it is; whether a command goes through is open.
pub open spec fn leads(
    update: Update,
    command: Command,
    disk: Disk,
    turns: Seq<Turn>,
    result: Result<Option<u64>, UpdateError>,
    end: Disk,
) -> bool
    decreases turns.len(),
{
    turns.len() > 0 && {
        let turn = turns[0];
        &&& performs(command, turn.outcome, update.requested(), disk, turn.disk)
        &&& faithful(command, turn.outcome, disk)
        &&& update.follows(turn.outcome, turn.step)
        &&& match turn.step {
            Step::Finished(last) => turns.len() == 1 && last == result && end == turn.disk,
            Step::Next(next, then) => leads(next, then, turn.disk, turns.skip(1), result, end),
        }
    }
}

/// The host with a generation made on top of `initial`, or with none made.
pub open spec fn staged_on(disk: Disk, initial: Disk, staged: Option<u64>) -> bool {
    match staged {
        None => disk.link == initial.link && disk.entries == initial.entries,
        Some(generation) => {
            &&& generation == next_after(initial.link)
            &&& disk.link == Some(generation_path(generation as nat))
            &&& disk.entries == initial.entries.insert(decimal_of(generation as nat))
        },
    }
}

/// Whether the secret link is absent or names something that lies in the
/// secret root.
pub open spec fn resolves(disk: Disk) -> bool {
    match disk.link {
        None => true,
        Some(target) => file_name_of(target) matches Some(name) && disk.entries.contains(name),
    }
}

/// Whether the link points at something that is there: where it points at
/// the generation that an update on `initial` makes, and wherever it points
/// if it did not dangle on `initial`.
pub open spec fn anchored(disk: Disk, initial: Disk) -> bool {
    let generation = next_after(initial.link);
    &&& disk.link == Some(generation_path(generation)) ==> disk.entries.contains(
        decimal_of(generation),
    )
    &&& resolves(initial) ==> resolves(disk)
}

/// What holds of the host when `command` is about to be performed for
/// `update`, in a run that began on the host `initial`.
pub open spec fn ready(update: Update, command: Command, disk: Disk, initial: Disk) -> bool {
    anchored(disk, initial) && expected(update, command, disk, initial)
}

/// What each phase of an update expects of the host.
pub open spec fn expected(update: Update, command: Command, disk: Disk, initial: Disk) -> bool {
    let known = target_of(update.previous) == initial.link;
    match update.phase {
        Phase::Download => command is Download && disk == initial,
        Phase::ReadLink => command is ReadLink && disk == initial,
        Phase::Stage => command is FetchSecrets && disk == initial && known,
        Phase::Create { generation } => {
            &&& command matches Command::CreateGeneration { generation: made, .. }
            &&& made == generation
            &&& generation == next_after(initial.link)
            &&& disk == initial
            &&& known
        },
        Phase::Point { generation } => {
            &&& command matches Command::PointLink { generation: made }
            &&& made == generation
            &&& generation == next_after(initial.link)
            &&& disk.link == initial.link
            &&& disk.active == initial.active
            &&& disk.entries == initial.entries.insert(decimal_of(generation as nat))
            &&& known
        },
        Phase::Activate { staged } => {
            &&& command is Activate
            &&& disk.active == initial.active
            &&& staged_on(disk, initial, staged)
            &&& known
        },
        Phase::Verify { staged, activation } => {
            &&& command is ReadActive
            &&& disk.active == initial.active || disk.active == update.requested()
            &&& staged_on(disk, initial, staged)
            &&& activation matches Some(error) ==> error.clean()
            &&& known
        },
        Phase::Collect { generation } => {
            &&& command matches Command::CollectGarbage { keep }
            &&& keep == generation
            &&& disk.active == update.requested()
            &&& staged_on(disk, initial, Some(generation))
        },
        Phase::Notify { staged } => {
            &&& command is Notify
            &&& disk.active == update.requested()
            &&& switched(disk, initial, staged)
        },
        Phase::Restore { generation, failure } => {
            &&& command matches Command::RestoreLink { target }
            &&& target_of(target) == initial.link
            &&& generation == next_after(initial.link)
            &&& stranded(disk, initial)
            &&& kept_version(disk, initial, update.requested(), failure)
            &&& failure.clean()
        },
        Phase::Remove { generation, failure } => {
            &&& command matches Command::RemoveGeneration { generation: made }
            &&& made == generation
            &&& generation == next_after(initial.link)
            &&& littered(disk, initial)
            &&& kept_version(disk, initial, update.requested(), failure)
            &&& failure.clean()
        },
    }
}

/// The host after the switch: with a generation made for the version, the
/// link points at it and it is all that lies in the secret root; with none
/// made, the link and the secret root are as they were.
pub open spec fn switched(disk: Disk, initial: Disk, staged: Option<u64>) -> bool {
    match staged {
        None => disk.link == initial.link && disk.entries == initial.entries,
        Some(generation) => {
            &&& generation == next_after(initial.link)
            &&& disk.link == Some(generation_path(generation as nat))
            &&& disk.entries == set![decimal_of(generation as nat)]
        },
    }
}

/// Whether the host runs what it ran before an update that failed with
/// `error`. Where the error says that the running version could not be read,
/// the host may run the version that was asked for instead.
pub open spec fn kept_version(disk: Disk, initial: Disk, requested: Seq<char>, error: UpdateError) -> bool {
    disk.active == initial.active || (error.blind() && disk.active == requested)
}

/// The secrets of a host after an update that was undone: the link points
/// where it pointed, and the secret root holds what it held, but for what
/// stood where the new generation was to be.
pub open spec fn undone(disk: Disk, initial: Disk) -> bool {
    &&& disk.link == initial.link
    &&& disk.entries.subset_of(initial.entries)
    &&& initial.entries.remove(decimal_of(next_after(initial.link))).subset_of(disk.entries)
}

/// The host after a switch that left something behind: the link points at
/// the new generation, which is there, and beside it the secret root holds
/// nothing that it did not hold before.
pub open spec fn cluttered(disk: Disk, initial: Disk) -> bool {
    let generation = next_after(initial.link);
    &&& disk.link == Some(generation_path(generation))
    &&& disk.entries.contains(decimal_of(generation))
    &&& disk.entries.subset_of(initial.entries.insert(decimal_of(generation)))
}

/// The secrets of a host after an update that failed and whose link could
/// not be put back: the new generation is there, beside what was there; the
/// link points where it pointed before, or at the new generation, or is
/// gone.
pub open spec fn stranded(disk: Disk, initial: Disk) -> bool {
    let generation = next_after(initial.link);
    &&& disk.entries == initial.entries.insert(decimal_of(generation))
    &&& disk.link == initial.link || disk.link is None || disk.link == Some(
        generation_path(generation),
    )
}

/// The secrets of a host after an update that failed and whose generation
/// could not be removed: the link points where it pointed, and the secret
/// root holds what it held, with or without what the new generation was to
/// be.
pub open spec fn littered(disk: Disk, initial: Disk) -> bool {
    let generation = next_after(initial.link);
    &&& disk.link == initial.link
    &&& initial.entries.remove(decimal_of(generation)).subset_of(disk.entries)
    &&& disk.entries.subset_of(initial.entries.insert(decimal_of(generation)))
}

/// The host at the end of an update to `requested` that began on `initial`
/// and ended with `result`.
pub open spec fn ended(
    result: Result<Option<u64>, UpdateError>,
    end: Disk,
    initial: Disk,
    requested: Seq<char>,
) -> bool {
    anchored(end, initial) && match result {
        Ok(staged) => end.active == requested && switched(end, initial, staged),
        Err(UpdateError::Notify(_)) => end.active == requested && exists|staged: Option<u64>|
            #[trigger] switched(end, initial, staged),
        Err(UpdateError::Collect(_)) => end.active == requested && cluttered(end, initial),
        Err(error) => kept_version(end, initial, requested, error) && match error {
            UpdateError::Restore { .. } => stranded(end, initial),
            UpdateError::Remove { .. } => littered(end, initial),
            _ => undone(end, initial),
        },
    }
}

/// One turn keeps the host as the next command needs it, or ends the update
/// as it should.
pub proof fn lemma_turn(
    update: Update,
    command: Command,
    disk: Disk,
    initial: Disk,
    outcome: Outcome,
    after: Disk,
    step: Step,
)
    requires
        ready(update, command, disk, initial),
        performs(command, outcome, update.requested(), disk, after),
        faithful(command, outcome, disk),
        update.follows(outcome, step),
    ensures
        match step {
            Step::Next(next, then) => ready(next, then, after, initial) && next.requested()
                == update.requested(),
            Step::Finished(result) => ended(result, after, initial, update.requested()),
        },
{
    lemma_next_generation_is_new(initial.link);
    lemma_next_generation_has_new_name(initial.link);
    lemma_generation_path_names(next_after(initial.link));
    match update.phase {
        Phase::Collect { generation } => {
            if outcome is Done {
                assert(after.entries =~= set![decimal_of(generation as nat)]);
            }
        },
        Phase::Notify { staged } => {
            match step {
                Step::Finished(Err(error)) => {
                    assert(switched(after, initial, staged));
                },
                _ => {},
            }
        },
        Phase::Remove { generation, failure } => {
            if outcome is Done {
                assert(after.entries.subset_of(initial.entries));
            }
        },
        _ => {},
    }
}

/// However a run goes, it ends as it should: the host runs the new version
/// and has the secrets of that version only, or the update has been undone.
pub proof fn lemma_run(
    update: Update,
    command: Command,
    disk: Disk,
    initial: Disk,
    turns: Seq<Turn>,
    result: Result<Option<u64>, UpdateError>,
    end: Disk,
)
    requires
        ready(update, command, disk, initial),
        leads(update, command, disk, turns, result, end),
    ensures
        ended(result, end, initial, update.requested()),
    decreases turns.len(),
{
    let turn = turns[0];
    lemma_turn(update, command, disk, initial, turn.outcome, turn.disk, turn.step);
    match turn.step {
        Step::Finished(_) => {},
        Step::Next(next, then) => {
            lemma_run(next, then, turn.disk, initial, turns.skip(1), result, end);
        },
    }
}

/// At no turn of a run does the secret link point at a generation of the
/// update that is not there. And a link that did not dangle before the
/// update dangles at no turn of it: it is absent or names something that is
/// there.
pub proof fn lemma_link_never_dangles(
    update: Update,
    command: Command,
    disk: Disk,
    initial: Disk,
    turns: Seq<Turn>,
    result: Result<Option<u64>, UpdateError>,
    end: Disk,
)
    requires
        ready(update, command, disk, initial),
        leads(update, command, disk, turns, result, end),
    ensures
        forall|i: int| 0 <= i < turns.len() ==> anchored((#[trigger] turns[i]).disk, initial),
        resolves(initial) ==> forall|i: int|
            0 <= i < turns.len() ==> resolves((#[trigger] turns[i]).disk),
    decreases turns.len(),
{
    let turn = turns[0];
    lemma_turn(update, command, disk, initial, turn.outcome, turn.disk, turn.step);
    match turn.step {
        Step::Finished(_) => {},
        Step::Next(next, then) => {
            lemma_link_never_dangles(next, then, turn.disk, initial, turns.skip(1), result, end);
            assert forall|i: int| 0 <= i < turns.len() implies anchored(
                (#[trigger] turns[i]).disk,
                initial,
            ) by {
                if i > 0 {
                    assert(turns[i] == turns.skip(1)[i - 1]);
                }
            }
        },
    }
}

/// Whether an update in this phase has begun a generation.
pub open spec fn begun(phase: Phase) -> bool {
    match phase {
        Phase::Download | Phase::ReadLink | Phase::Stage => false,
        Phase::Activate { staged } | Phase::Verify { staged, .. } | Phase::Notify { staged } =>
            staged is Some,
        _ => true,
    }
}

/// Whether a generation is begun at some turn of the run.
pub open spec fn begins(turns: Seq<Turn>) -> bool {
    exists|i: int|
        0 <= i < turns.len() && (#[trigger] turns[i]).step matches Step::Next(
            _,
            Command::CreateGeneration { .. },
        )
}

/// An update that fails and is undone leaves the host as it was: the secret
/// link points where it pointed before, or is absent as it was before, the
/// host runs the version it ran, and the secret root holds nothing that it
/// did not hold before. Nothing is left of a generation that was begun. Only
/// where the error says that the running version could not be read may the
/// host run the version that was asked for.
pub proof fn lemma_failed_update_is_undone(
    update: Update,
    command: Command,
    initial: Disk,
    turns: Seq<Turn>,
    error: UpdateError,
    end: Disk,
)
    requires
        ready(update, command, initial, initial),
        update.phase is Download,
        leads(update, command, initial, turns, Err(error), end),
        error.clean(),
    ensures
        end.link == initial.link,
        !(error is Verify) ==> end.active == initial.active,
        end.active == initial.active || end.active == update.requested(),
        end.entries.subset_of(initial.entries),
        initial.entries.remove(decimal_of(next_after(initial.link))).subset_of(end.entries),
        !initial.entries.contains(decimal_of(next_after(initial.link))) ==> end.entries
            == initial.entries,
        begins(turns) ==> !end.entries.contains(decimal_of(next_after(initial.link))),
{
    lemma_run(update, command, initial, initial, turns, Err(error), end);
    if !initial.entries.contains(decimal_of(next_after(initial.link))) {
        assert(end.entries =~= initial.entries);
    }
    if begins(turns) {
        lemma_begun_generation_is_removed(update, command, initial, initial, turns, error, end);
    }
}

/// An update that has begun a generation, or begins one, and then fails and
/// is undone leaves no directory of that generation's name.
pub proof fn lemma_begun_generation_is_removed(
    update: Update,
    command: Command,
    disk: Disk,
    initial: Disk,
    turns: Seq<Turn>,
    error: UpdateError,
    end: Disk,
)
    requires
        ready(update, command, disk, initial),
        leads(update, command, disk, turns, Err(error), end),
        error.clean(),
        begun(update.phase) || begins(turns),
    ensures
        !end.entries.contains(decimal_of(next_after(initial.link))),
    decreases turns.len(),
{
    let turn = turns[0];
    lemma_turn(update, command, disk, initial, turn.outcome, turn.disk, turn.step);
    match turn.step {
        Step::Finished(_) => {
            if !begun(update.phase) {
                let i = choose|i: int|
                    0 <= i < turns.len() && (#[trigger] turns[i]).step matches Step::Next(
                        _,
                        Command::CreateGeneration { .. },
                    );
                assert(i == 0);
            }
        },
        Step::Next(next, then) => {
            if !begun(next.phase) {
                let i = choose|i: int|
                    0 <= i < turns.len() && (#[trigger] turns[i]).step matches Step::Next(
                        _,
                        Command::CreateGeneration { .. },
                    );
                assert(i > 0);
                assert(turns.skip(1)[i - 1] == turns[i]);
                assert(begins(turns.skip(1)));
            }
            lemma_begun_generation_is_removed(
                next,
                then,
                turn.disk,
                initial,
                turns.skip(1),
                error,
                end,
            );
        },
    }
}

/// However an update fails, the host runs the version it ran, unless the
/// error says that the update failed after the switch or that the running
/// version could not be read. And the secret link points where it pointed
/// before, or is absent as it was before, unless the error says that the
/// update failed after the switch or that the link could not be put back.
pub proof fn lemma_failed_update_keeps_version_and_link(
    update: Update,
    command: Command,
    initial: Disk,
    turns: Seq<Turn>,
    error: UpdateError,
    end: Disk,
)
    requires
        ready(update, command, initial, initial),
        update.phase is Download,
        leads(update, command, initial, turns, Err(error), end),
        !error.after_commit(),
    ensures
        !error.blind() ==> end.active == initial.active,
        end.active == initial.active || end.active == update.requested(),
        !(error is Restore) ==> end.link == initial.link,
        end.entries.subset_of(initial.entries.insert(decimal_of(next_after(initial.link)))),
{
    lemma_run(update, command, initial, initial, turns, Err(error), end);
}

/// After an update that made the host run the new version but could not
/// remove what was left over, the secret link points at the new generation,
/// which is there, and the secret root holds nothing newer.
pub proof fn lemma_failed_collection_keeps_switch(
    update: Update,
    command: Command,
    initial: Disk,
    turns: Seq<Turn>,
    reason: String,
    end: Disk,
)
    requires
        ready(update, command, initial, initial),
        update.phase is Download,
        leads(update, command, initial, turns, Err(UpdateError::Collect(reason)), end),
    ensures
        end.active == update.requested(),
        end.link == Some(generation_path(next_after(initial.link))),
        end.entries.contains(decimal_of(next_after(initial.link))),
        end.entries.subset_of(initial.entries.insert(decimal_of(next_after(initial.link)))),
{
    lemma_run(update, command, initial, initial, turns, Err(UpdateError::Collect(reason)), end);
}

/// After an update that went through and made a generation, the host runs
/// the new version, the secret root holds that generation and nothing else,
/// the secret link points at it, and its number is the one after the number
/// of the generation that the link named before: greater than that number,
/// whatever failed on the way.
pub proof fn lemma_switch_leaves_one_generation(
    update: Update,
    command: Command,
    initial: Disk,
    turns: Seq<Turn>,
    generation: u64,
    end: Disk,
)
    requires
        ready(update, command, initial, initial),
        update.phase is Download,
        leads(update, command, initial, turns, Ok(Some(generation)), end),
    ensures
        end.active == update.requested(),
        end.entries == set![decimal_of(generation as nat)],
        end.link == Some(generation_path(generation as nat)),
        generation == next_after(initial.link),
        forall|n: u64| initial.link == Some(generation_path(n as nat)) ==> generation == n + 1,
{
    lemma_run(update, command, initial, initial, turns, Ok(Some(generation)), end);
    assert forall|n: u64| initial.link == Some(generation_path(n as nat)) implies generation == n
        + 1 by {
        lemma_next_generation_is_greater(n as nat);
    }
}

/// After an update that went through for a version without secrets, the host
/// runs the new version and its secrets are as they were.
pub proof fn lemma_switch_without_secrets(
    update: Update,
    command: Command,
    initial: Disk,
    turns: Seq<Turn>,
    end: Disk,
)
    requires
        ready(update, command, initial, initial),
        update.phase is Download,
        leads(update, command, initial, turns, Ok(None), end),
    ensures
        end.active == update.requested(),
        end.entries == initial.entries,
        end.link == initial.link,
{
    lemma_run(update, command, initial, initial, turns, Ok(None), end);
}

/// The update that `Update::start` begins is ready on any host.
pub proof fn lemma_start_is_ready(update: Update, command: Command, initial: Disk)
    requires
        update.phase is Download,
        command is Download,
    ensures
        ready(update, command, initial, initial),
{
    lemma_next_generation_is_new(initial.link);
    lemma_next_generation_has_new_name(initial.link);
}

} // verus!
