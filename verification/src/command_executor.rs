use vstd::prelude::*;
use crate::config::{RetryConfig, ShellConfig, shell_flag};
use crate::text::{split_whitespace_words, strings_view, words_of};

verus! {

/// Result of a command execution attempt
#[derive(Debug, Clone, PartialEq)]
pub enum CommandResult {
    Success,
    Failed { exit_code: Option<i32> },
    Timeout,
    ExecutionError { message: String },
}

impl CommandResult {
    pub fn is_success(&self) -> (r: bool)
        ensures
            r == (*self is Success),
    {
        match self {
            CommandResult::Success => true,
            _ => false,
        }
    }

    /// Success is not retriable, everything else is.
    pub fn is_retriable(&self) -> (r: bool)
        ensures
            r == !(*self is Success),
    {
        !self.is_success()
    }
}


/// How a launched process ended, as seen by the code that waited for it.
#[derive(Debug, Clone, PartialEq)]
pub enum ProcessOutcome {
    /// The process ran to completion.
    Exited { success: bool, exit_code: Option<i32> },
    /// The process could not be started or waited for.
    SpawnFailed { message: String },
    /// The timeout elapsed first.
    TimedOut,
}

/// The result of an attempt, given how the process ended.
pub fn classify_outcome(outcome: ProcessOutcome) -> (r: CommandResult)
    ensures
        match outcome {
            ProcessOutcome::Exited { success, exit_code } => if success {
                r == CommandResult::Success
            } else {
                r == CommandResult::Failed { exit_code }
            },
            ProcessOutcome::SpawnFailed { message } => r == CommandResult::ExecutionError { message },
            ProcessOutcome::TimedOut => r == CommandResult::Timeout,
        },
{
    match outcome {
        ProcessOutcome::Exited { success, exit_code } => {
            if success {
                CommandResult::Success
            } else {
                CommandResult::Failed { exit_code }
            }
        },
        ProcessOutcome::SpawnFailed { message } => CommandResult::ExecutionError { message },
        ProcessOutcome::TimedOut => CommandResult::Timeout,
    }
}

/// A program and the arguments to start it with.
#[derive(Debug, Clone, PartialEq)]
pub struct CommandLine {
    pub program: String,
    pub args: Vec<String>,
}

/// How a command is started: through the shell with its command flag, or
/// split on whitespace into a program and its arguments.
pub fn plan_command(command: &str, shell_config: &ShellConfig) -> (r: Result<CommandLine, CommandResult>)
    ensures
        match shell_config {
            ShellConfig::Simple(prog) => r matches Ok(line) && line.program@ == prog@
                && strings_view(line.args@) == seq![shell_flag(prog@), command@],
            ShellConfig::Direct => {
                let words = words_of(command@);
                if words.len() == 0 {
                    r matches Err(CommandResult::ExecutionError { message }) && message@ == "Empty command"@
                } else {
                    r matches Ok(line) && line.program@ == words[0]
                        && strings_view(line.args@) == words.drop_first()
                }
            },
        },
{
    match shell_config.get_shell_command() {
        Some((shell, flag)) => {
            let mut args: Vec<String> = Vec::new();
            args.push(flag.to_owned());
            args.push(command.to_owned());
            assert(strings_view(args@) =~= seq![flag@, command@]);
            Ok(CommandLine { program: shell.to_owned(), args })
        },
        None => {
            let mut parts = split_whitespace_words(command);
            if parts.len() == 0 {
                return Err(CommandResult::ExecutionError { message: String::from_str("Empty command") });
            }
            let ghost all = strings_view(parts@);
            let program = parts.remove(0);
            assert(strings_view(parts@) =~= all.drop_first());
            Ok(CommandLine { program, args: parts })
        },
    }
}

/// The delay after `delay_ms` grown by the multiplier (in thousandths),
/// saturating at the largest `u64`.
pub open spec fn scaled_delay(delay_ms: u64, multiplier_milli: u64) -> int {
    let p = delay_ms * multiplier_milli / 1000;
    if p > u64::MAX { u64::MAX as int } else { p }
}

/// The delay that follows `delay_ms`: grown by the backoff multiplier and
/// capped at `max_delay_ms`.
pub open spec fn next_delay(config: RetryConfig, delay_ms: u64) -> u64 {
    let s = scaled_delay(delay_ms, config.backoff_multiplier_milli);
    if s < config.max_delay_ms { s as u64 } else { config.max_delay_ms }
}

/// The first wait: the initial delay, capped at `max_delay_ms`.
pub open spec fn first_delay(config: RetryConfig) -> u64 {
    if config.delay_ms < config.max_delay_ms { config.delay_ms } else { config.max_delay_ms }
}

/// The wait before retry number `k + 1` (counting from zero).
pub open spec fn retry_delay(config: RetryConfig, k: nat) -> u64
    decreases k,
{
    if k == 0 { first_delay(config) } else { next_delay(config, retry_delay(config, (k - 1) as nat)) }
}

/// What the retry loop does after an attempt.
#[derive(Debug, Clone, Copy, PartialEq, Eq)]
pub enum RetryStep {
    /// Report the last result and stop.
    Stop,
    /// Wait this many milliseconds, then run the command again.
    RetryAfter { delay_ms: u64 },
}

/// The state of a retry loop: retries made so far and the next wait.
#[derive(Debug, Clone, Copy, PartialEq, Eq)]
pub struct RetryState {
    pub attempt: u32,
    pub current_delay_ms: u64,
}

/// One step of the retry loop as a function of state and outcome.
pub open spec fn retry_transition(config: RetryConfig, s: RetryState, succeeded: bool) -> (RetryState, RetryStep) {
    if succeeded || s.attempt >= config.max_retries {
        (s, RetryStep::Stop)
    } else {
        (RetryState { attempt: (s.attempt + 1) as u32, current_delay_ms: next_delay(config, s.current_delay_ms) },
         RetryStep::RetryAfter { delay_ms: s.current_delay_ms })
    }
}

impl RetryState {
    /// The state before the first attempt: no retries yet, and the first
    /// wait is the initial delay capped at `max_delay_ms`.
    pub fn new(config: &RetryConfig) -> (r: RetryState)
        ensures
            r.attempt == 0,
            r.current_delay_ms == first_delay(*config),
            r == state_after_failures(*config, 0),
    {
        let first = if config.delay_ms < config.max_delay_ms { config.delay_ms } else { config.max_delay_ms };
        RetryState { attempt: 0, current_delay_ms: first }
    }

    /// Decides what follows an attempt: stop on success or when the retries
    /// are used up, otherwise wait the current delay and grow it.
    pub fn after_attempt(&mut self, config: &RetryConfig, result: &CommandResult) -> (step: RetryStep)
        ensures
            (*final(self), step) == retry_transition(*config, *old(self), *result is Success),
    {
        if result.is_success() || self.attempt >= config.max_retries {
            return RetryStep::Stop;
        }
        let delay = self.current_delay_ms;
        self.attempt = self.attempt + 1;
        let m = config.backoff_multiplier_milli;
        assert(delay * m <= 0xffff_ffff_ffff_ffffu64 * 0xffff_ffff_ffff_ffffu64) by (nonlinear_arith)
            requires
                delay <= 0xffff_ffff_ffff_ffffu64,
                m <= 0xffff_ffff_ffff_ffffu64,
        ;
        let product: u128 = (delay as u128) * (m as u128) / 1000;
        let scaled: u64 = if product > u64::MAX as u128 { u64::MAX } else { product as u64 };
        self.current_delay_ms = if scaled < config.max_delay_ms { scaled } else { config.max_delay_ms };
        RetryStep::RetryAfter { delay_ms: delay }
    }
}


/// The retry state after `k` failed attempts.
pub open spec fn state_after_failures(config: RetryConfig, k: nat) -> RetryState {
    RetryState { attempt: k as u32, current_delay_ms: retry_delay(config, k) }
}

/// A command that keeps failing runs `max_retries + 1` times: after failure
/// number `k + 1` with `k < max_retries` the loop waits `retry_delay(k)` and
/// runs it again; after failure number `max_retries + 1` it stops.
pub proof fn lemma_failing_command_schedule(config: RetryConfig, k: nat)
    requires
        k <= config.max_retries,
    ensures
        k < config.max_retries ==> retry_transition(config, state_after_failures(config, k), false)
            == (state_after_failures(config, k + 1), RetryStep::RetryAfter { delay_ms: retry_delay(config, k) }),
        k == config.max_retries ==> retry_transition(config, state_after_failures(config, k), false).1
            == RetryStep::Stop,
{
    assert(retry_delay(config, k + 1) == next_delay(config, retry_delay(config, k)));
}

/// A successful attempt ends the loop at once, whatever the state.
pub proof fn lemma_success_stops(config: RetryConfig, s: RetryState)
    ensures
        retry_transition(config, s, true) == (s, RetryStep::Stop),
{
}

/// Every wait is at most `max_delay_ms`.
pub proof fn lemma_delays_capped(config: RetryConfig, k: nat)
    ensures
        retry_delay(config, k) <= config.max_delay_ms,
{
}


/// With a multiplier of at least 1 the waits never shrink.
pub proof fn lemma_delays_nondecreasing(config: RetryConfig, k: nat)
    requires
        config.backoff_multiplier_milli >= 1000,
    ensures
        retry_delay(config, k) <= retry_delay(config, k + 1),
{
    let d = retry_delay(config, k);
    lemma_delays_capped(config, k);
    let m = config.backoff_multiplier_milli;
    assert(d * m / 1000 >= d) by (nonlinear_arith)
        requires m >= 1000;
    assert(retry_delay(config, k + 1) == next_delay(config, d));
}

} // verus!
