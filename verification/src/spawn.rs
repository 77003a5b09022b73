//! Supervision of the client processes a broker launches: their states and
//! when they are launched again.
use crate::error::Error;
use vstd::prelude::*;

verus! {

/// When a process that exited is launched again.
#[derive(Debug, Clone, Copy, PartialEq, Eq, Structural)]
pub enum RestartPolicy {
    Never,
    OnFailure,
    Always,
}

impl Default for RestartPolicy {
    fn default() -> (policy: Self)
        ensures
            policy is Never,
    {
        RestartPolicy::Never
    }
}

/// What is known of a launched process.
#[derive(Debug, Clone, PartialEq, Eq)]
pub enum AppStatus {
    NotFound,
    Running,
    Stopped,
    ExitedSuccessfully,
    ExitedWithError(String),
}

/// Which stream a line of output came on.
#[derive(Debug, Clone, Copy, PartialEq, Eq, Structural)]
pub enum OutputStream {
    Stdout,
    Stderr,
}

/// A line a launched process wrote.
pub struct OutputLine {
    pub app_name: String,
    pub stream: OutputStream,
    pub line: String,
    pub timestamp_ms: u64,
}

/// The variable through which a launched process learns the broker's address.
pub open spec fn broker_address_variable_spec() -> Seq<char> {
    "HEARSAY_BROKER"@
}

/// The name of the variable through which a launched process learns the
/// broker's address.
pub fn broker_address_variable() -> (name: String)
    ensures
        name@ == broker_address_variable_spec(),
{
    String::from_str("HEARSAY_BROKER")
}

/// Whether a process in state `status` is launched again under `policy`:
/// `Always` after any exit, `OnFailure` after a failed one, `Never` never.
pub open spec fn restarts(status: AppStatus, policy: RestartPolicy) -> bool {
    match (status, policy) {
        (AppStatus::ExitedSuccessfully, RestartPolicy::Always) => true,
        (AppStatus::ExitedWithError(_), RestartPolicy::Always) => true,
        (AppStatus::ExitedWithError(_), RestartPolicy::OnFailure) => true,
        _ => false,
    }
}

/// Whether a process in state `status` is launched again under `policy`.
pub fn should_restart(status: &AppStatus, policy: RestartPolicy) -> (restart: bool)
    ensures
        restart == restarts(*status, policy),
{
    match status {
        AppStatus::ExitedSuccessfully => policy == RestartPolicy::Always,
        AppStatus::ExitedWithError(_) => policy == RestartPolicy::Always || policy == RestartPolicy::OnFailure,
        _ => false,
    }
}

/// What asking a process whether it has exited found.
pub enum WaitOutcome {
    /// It is still running.
    Running,
    /// It exited; `description` is how its exit status reads.
    Exited { success: bool, description: String },
    /// Asking failed; `description` is how the failure reads.
    Failed { description: String },
}

/// The state a process is in after a wait found `outcome`, and whether its
/// handle is still held (only while it runs).
pub open spec fn wait_result(outcome: WaitOutcome) -> (AppStatus, bool) {
    match outcome {
        WaitOutcome::Running => (AppStatus::Running, true),
        WaitOutcome::Exited { success, description } => if success {
            (AppStatus::ExitedSuccessfully, false)
        } else {
            (AppStatus::ExitedWithError(description), false)
        },
        WaitOutcome::Failed { description } => (AppStatus::ExitedWithError(description), false),
    }
}

/// The state a process is in after a wait found `outcome`, and whether its
/// handle is still held.
pub fn status_after_wait(outcome: WaitOutcome) -> (result: (AppStatus, bool))
    ensures
        result == wait_result(outcome),
{
    match outcome {
        WaitOutcome::Running => (AppStatus::Running, true),
        WaitOutcome::Exited { success, description } => if success {
            (AppStatus::ExitedSuccessfully, false)
        } else {
            (AppStatus::ExitedWithError(description), false)
        },
        WaitOutcome::Failed { description } => (AppStatus::ExitedWithError(description), false),
    }
}

/// What the broker keeps of a process it launched, beside the process
/// itself: its restart policy, whether it still holds the process's handle
/// (from launch until an exit is seen or it is stopped), and the state last
/// seen once the handle is gone.
pub struct Supervision {
    pub restart_policy: RestartPolicy,
    pub holds_process: bool,
    pub last_status: AppStatus,
}

/// A record after a poll: with no handle the last state seen, else what the
/// wait found (`outcome`); the handle is dropped, and the state kept, once the
/// process has exited.
pub open spec fn polled(record: Supervision, outcome: Option<WaitOutcome>) -> (AppStatus, Supervision) {
    match outcome {
        None => (record.last_status, record),
        Some(found) => {
            let (status, alive) = wait_result(found);
            if alive {
                (status, record)
            } else {
                (status, Supervision { holds_process: false, last_status: status, ..record })
            }
        },
    }
}

/// A record after one round of supervision: the record polled (`outcome`
/// is what waiting found, when the handle is held), and whether the process
/// is launched again: whenever its state, however it was first seen, is an
/// exit its policy restarts after.
pub open spec fn supervised(record: Supervision, outcome: Option<WaitOutcome>) -> (bool, Supervision) {
    let (status, after) = polled(record, outcome);
    (restarts(status, record.restart_policy), after)
}

/// A record whose process was stopped.
pub open spec fn stopped(record: Supervision) -> Supervision {
    Supervision { holds_process: false, last_status: AppStatus::Stopped, ..record }
}

/// A record whose process was (re)launched.
pub open spec fn running(record: Supervision) -> Supervision {
    Supervision { holds_process: true, last_status: AppStatus::Running, ..record }
}

impl Supervision {
    /// The record of a process just launched under `restart_policy`.
    pub fn launched(restart_policy: RestartPolicy) -> (record: Supervision)
        ensures
            record.restart_policy == restart_policy,
            record.holds_process,
            record.last_status is Running,
    {
        Supervision { restart_policy, holds_process: true, last_status: AppStatus::Running }
    }

    /// The state of the process: `outcome` is what waiting on it found, given
    /// exactly when the handle is held.
    pub fn poll(&mut self, outcome: Option<WaitOutcome>) -> (status: AppStatus)
        requires
            old(self).holds_process == outcome is Some,
        ensures
            (status, *final(self)) == polled(*old(self), outcome),
    {
        match outcome {
            None => self.last_status.clone_status(),
            Some(found) => {
                let (status, still_running) = status_after_wait(found);
                if !still_running {
                    self.holds_process = false;
                    self.last_status = status.clone_status();
                }
                status
            },
        }
    }

    /// The process was stopped: its handle is gone and its state reads
    /// `Stopped`.
    pub fn stop(&mut self)
        ensures
            *final(self) == stopped(*old(self)),
    {
        self.holds_process = false;
        self.last_status = AppStatus::Stopped;
    }

    /// One round of supervision: `outcome` is what waiting on the process
    /// found, given exactly when the handle is held. Returns whether it is to
    /// be launched again: after an exit its policy restarts after, whether
    /// this round or an earlier status query saw it.
    pub fn supervise(&mut self, outcome: Option<WaitOutcome>) -> (relaunch: bool)
        requires
            old(self).holds_process == outcome is Some,
        ensures
            (relaunch, *final(self)) == supervised(*old(self), outcome),
    {
        let status = self.poll(outcome);
        should_restart(&status, self.restart_policy)
    }

    /// The handle was dropped with no exit seen (the process was killed to be
    /// launched again): the last state seen stays.
    pub fn release(&mut self)
        ensures
            *final(self) == (Supervision { holds_process: false, ..*old(self) }),
    {
        self.holds_process = false;
    }

    /// The process was launched again.
    pub fn relaunched(&mut self)
        ensures
            *final(self) == running(*old(self)),
    {
        self.holds_process = true;
        self.last_status = AppStatus::Running;
    }
}

impl AppStatus {
    /// A copy of the state.
    pub fn clone_status(&self) -> (copy: AppStatus)
        ensures
            copy == *self,
    {
        match self {
            AppStatus::NotFound => AppStatus::NotFound,
            AppStatus::Running => AppStatus::Running,
            AppStatus::Stopped => AppStatus::Stopped,
            AppStatus::ExitedSuccessfully => AppStatus::ExitedSuccessfully,
            AppStatus::ExitedWithError(text) => AppStatus::ExitedWithError(text.clone()),
        }
    }
}

/// A stopped process stays stopped: asked again and again its state reads
/// `Stopped` and its record does not change, and supervision never launches
/// it again, under any policy.
pub proof fn lemma_stopped_apps_stay_stopped(record: Supervision)
    ensures
        polled(stopped(record), None) == (AppStatus::Stopped, stopped(record)),
        supervised(stopped(record), None) == (false, stopped(record)),
        !stopped(record).holds_process,
        !restarts(AppStatus::Stopped, record.restart_policy),
{
}

/// A process whose handle is held and which has exited is launched again
/// under `Always`, and under `OnFailure` exactly when it failed, whoever saw
/// the exit first: the supervision round itself, or a status query before
/// it (after which the round finds no handle). After a relaunch it reads
/// `Running` again.
pub proof fn lemma_exited_apps_relaunch(record: Supervision, outcome: WaitOutcome)
    requires
        record.holds_process,
        !(outcome is Running),
    ensures
        record.restart_policy is Always ==> supervised(record, Some(outcome)).0,
        record.restart_policy is OnFailure ==> (supervised(record, Some(outcome)).0 <==> (outcome is Failed || (
        outcome is Exited && !outcome->Exited_success))),
        record.restart_policy is Never ==> !supervised(record, Some(outcome)).0,
        supervised(polled(record, Some(outcome)).1, None) == supervised(record, Some(outcome)),
        polled(running(supervised(record, Some(outcome)).1), None) == (AppStatus::Running, running(record)),
{
}

/// Launching `name` is refused while it runs.
pub fn already_running_error(name: &String) -> (error: Error)
    ensures
        error matches Error::Other(text) && text@ == "app '"@ + name@ + "' is already running"@,
{
    let mut text = String::from_str("app '");
    text.append(name.as_str());
    text.append("' is already running");
    Error::Other(text)
}

/// Whether the app `name` may be launched, `current` being the state of the
/// app launched under that name before, if any: not while it runs.
pub fn check_spawn(name: &String, current: Option<AppStatus>) -> (result: Result<(), Error>)
    ensures
        result is Err <==> current == Some(AppStatus::Running),
        result matches Err(error) ==> error matches Error::Other(text) && text@ == "app '"@ + name@
            + "' is already running"@,
{
    match current {
        Some(AppStatus::Running) => Err(already_running_error(name)),
        _ => Ok(()),
    }
}

/// Stopping or restarting `name` fails when it was never launched.
pub fn not_found_error(name: &String) -> (error: Error)
    ensures
        error matches Error::Other(text) && text@ == "app '"@ + name@ + "' not found"@,
{
    let mut text = String::from_str("app '");
    text.append(name.as_str());
    text.append("' not found");
    Error::Other(text)
}

/// A process that exited is launched again under `Always` and, after a
/// failure, under `OnFailure`; under `Never` nothing is launched again, and a
/// running or stopped process is never launched again.
pub proof fn lemma_restart_policy(status: AppStatus, policy: RestartPolicy)
    ensures
        policy is Never ==> !restarts(status, policy),
        (status is Running || status is Stopped || status is NotFound) ==> !restarts(status, policy),
{
}

/// Whether `first` comes before `second`, or equals it, comparing character
/// by character by code point (the order of `String`'s comparison).
pub open spec fn precedes(first: Seq<char>, second: Seq<char>) -> bool
    decreases first.len(),
{
    if first.len() == 0 {
        true
    } else if second.len() == 0 {
        false
    } else if (first[0] as u32) < (second[0] as u32) {
        true
    } else if (first[0] as u32) > (second[0] as u32) {
        false
    } else {
        precedes(first.drop_first(), second.drop_first())
    }
}

/// Any two names are ordered one way or the other.
pub proof fn lemma_precedes_total(first: Seq<char>, second: Seq<char>)
    ensures
        precedes(first, second) || precedes(second, first),
    decreases first.len(),
{
    if first.len() > 0 && second.len() > 0 && (first[0] as u32) == (second[0] as u32) {
        lemma_precedes_total(first.drop_first(), second.drop_first());
    }
}

/// The order of names is transitive.
pub proof fn lemma_precedes_transitive(first: Seq<char>, second: Seq<char>, third: Seq<char>)
    requires
        precedes(first, second),
        precedes(second, third),
    ensures
        precedes(first, third),
    decreases first.len(),
{
    if first.len() > 0 && second.len() > 0 && third.len() > 0 && (first[0] as u32) == (second[0] as u32) && (second[0]
        as u32) == (third[0] as u32) {
        lemma_precedes_transitive(first.drop_first(), second.drop_first(), third.drop_first());
    }
}

/// Whether `first` comes before `second`, or equals it.
pub fn name_precedes(first: &str, second: &str) -> (result: bool)
    ensures
        result == precedes(first@, second@),
{
    let first_length = first.unicode_len();
    let second_length = second.unicode_len();
    let mut index: usize = 0;
    assert(first@.skip(0) =~= first@);
    assert(second@.skip(0) =~= second@);
    while index < first_length && index < second_length
        invariant
            first_length == first@.len(),
            second_length == second@.len(),
            index <= first_length,
            index <= second_length,
            precedes(first@, second@) == precedes(first@.skip(index as int), second@.skip(index as int)),
        decreases first_length - index,
    {
        let a = first.get_char(index);
        let b = second.get_char(index);
        if (a as u32) < (b as u32) {
            return true;
        }
        if (a as u32) > (b as u32) {
            return false;
        }
        proof {
            assert(first@.skip(index as int).drop_first() =~= first@.skip(index + 1));
            assert(second@.skip(index as int).drop_first() =~= second@.skip(index + 1));
        }
        index = index + 1;
    }
    index == first_length
}

/// The statuses ordered by the apps' names.
pub open spec fn sorted_by_name(statuses: Seq<(String, AppStatus)>) -> bool {
    forall|i: int, j: int| 0 <= i < j < statuses.len() ==> precedes(#[trigger] statuses[i].0@, #[trigger] statuses[j].0@)
}

/// Orders the apps' statuses by name.
pub fn sort_statuses(statuses: Vec<(String, AppStatus)>) -> (sorted: Vec<(String, AppStatus)>)
    ensures
        sorted_by_name(sorted@),
        sorted@.to_multiset() == statuses@.to_multiset(),
{
    broadcast use vstd::seq_lib::group_to_multiset_ensures;
    let ghost all = statuses@;
    let mut rest = statuses;
    let mut sorted: Vec<(String, AppStatus)> = Vec::new();
    while rest.len() > 0
        invariant
            sorted_by_name(sorted@),
            sorted@.to_multiset().add(rest@.to_multiset()) == all.to_multiset(),
        decreases rest@.len(),
    {
        let ghost rest_before = rest@;
        let entry = match rest.pop() {
            Some(entry) => entry,
            None => {
                return sorted;
            },
        };
        proof {
            assert(rest_before =~= rest@.push(entry));
            vstd::seq_lib::to_multiset_build(rest@, entry);
            assert(rest_before.to_multiset() =~= rest@.to_multiset().insert(entry));
        }
        let mut position: usize = 0;
        while position < sorted.len() && name_precedes(sorted[position].0.as_str(), entry.0.as_str())
            invariant
                position <= sorted@.len(),
                forall|k: int| 0 <= k < position ==> precedes(#[trigger] sorted@[k].0@, entry.0@),
            decreases sorted@.len() - position,
        {
            position = position + 1;
        }
        let ghost sorted_before = sorted@;
        proof {
            if position < sorted@.len() {
                lemma_precedes_total(sorted@[position as int].0@, entry.0@);
            }
        }
        sorted.insert(position, entry);
        proof {
            assert forall|i: int, j: int| 0 <= i < j < sorted@.len() implies precedes(
                #[trigger] sorted@[i].0@,
                #[trigger] sorted@[j].0@,
            ) by {
                if j < position {
                    assert(sorted@[i] == sorted_before[i] && sorted@[j] == sorted_before[j]);
                } else if j == position {
                    assert(sorted@[i] == sorted_before[i]);
                } else if i == position {
                    assert(sorted@[j] == sorted_before[j - 1]);
                    if j - 1 > position {
                        lemma_precedes_transitive(entry.0@, sorted_before[position as int].0@, sorted_before[j - 1].0@);
                    }
                } else if i < position {
                    assert(sorted@[i] == sorted_before[i] && sorted@[j] == sorted_before[j - 1]);
                } else {
                    assert(sorted@[i] == sorted_before[i - 1] && sorted@[j] == sorted_before[j - 1]);
                }
            }
            assert(sorted@ == sorted_before.insert(position as int, entry));
            vstd::seq_lib::to_multiset_insert(sorted_before, position as int, entry);
            broadcast use vstd::multiset::group_multiset_axioms;
            assert(sorted@.to_multiset().add(rest@.to_multiset()) =~= sorted_before.to_multiset().add(rest_before.to_multiset()));
        }
    }
    proof {
        assert(rest@ =~= Seq::<(String, AppStatus)>::empty());
        assert(sorted@.to_multiset().add(rest@.to_multiset()) =~= sorted@.to_multiset());
    }
    sorted
}

/// The words of `text`, cut at white space, empty words dropped: the words
/// found so far and the word being read.
pub open spec fn words_read(text: Seq<char>) -> (Seq<Seq<char>>, Seq<char>)
    decreases text.len(),
{
    if text.len() == 0 {
        (Seq::empty(), Seq::empty())
    } else {
        let (words, current) = words_read(text.drop_last());
        let c = text.last();
        if crate::settings::is_white_space(c) {
            if current.len() > 0 {
                (words.push(current), Seq::empty())
            } else {
                (words, Seq::empty())
            }
        } else {
            (words, current.push(c))
        }
    }
}

/// The words of `text`, cut at white space.
pub open spec fn words(text: Seq<char>) -> Seq<Seq<char>> {
    let (words, current) = words_read(text);
    if current.len() > 0 {
        words.push(current)
    } else {
        words
    }
}

/// The arguments a launched process gets: its argument text cut at white
/// space.
pub fn split_arguments(args: &str) -> (arguments: Vec<String>)
    ensures
        crate::topics::names(arguments@) == words(args@),
{
    let length = args.unicode_len();
    let mut arguments: Vec<String> = Vec::new();
    let mut start: usize = 0;
    let mut index: usize = 0;
    while index < length
        invariant
            length == args@.len(),
            start <= index <= length,
            words_read(args@.take(index as int)) == (crate::topics::names(arguments@), args@.subrange(
                start as int,
                index as int,
            )),
        decreases length - index,
    {
        let ghost prefix = args@.take(index + 1);
        proof {
            assert(prefix.drop_last() =~= args@.take(index as int));
            assert(prefix.last() == args@[index as int]);
        }
        let c = args.get_char(index);
        if crate::settings::white_space(c) {
            if start < index {
                let ghost before = crate::topics::names(arguments@);
                arguments.push(String::from_str(args.substring_char(start, index)));
                proof {
                    assert(crate::topics::names(arguments@) =~= before.push(args@.subrange(start as int, index as int)));
                }
            }
            proof {
                assert(args@.subrange(index + 1, index + 1) =~= Seq::<char>::empty());
                assert(args@.subrange(start as int, index as int).len() == 0 ==> start == index);
            }
            start = index + 1;
        } else {
            proof {
                assert(args@.subrange(start as int, index + 1) =~= args@.subrange(start as int, index as int).push(c));
            }
        }
        index = index + 1;
    }
    proof {
        assert(args@.take(length as int) =~= args@);
    }
    if start < length {
        let ghost before = crate::topics::names(arguments@);
        arguments.push(String::from_str(args.substring_char(start, length)));
        proof {
            assert(crate::topics::names(arguments@) =~= before.push(args@.subrange(start as int, length as int)));
        }
    }
    arguments
}

} // verus!
