//! Handler configuration and the forwarding rules a configuration must obey.

use vstd::prelude::*;
use crate::forward_graph::{build_forward_graph, positions_named, forwards_to, detect_cycle, graph_view, names_of, targets_of,
    is_forward_cycle, has_forward_cycle, is_index_cycle,
    lemma_index_cycle_gives_name_cycle, lemma_name_cycle_gives_index_cycle,
    lemma_simple_index_cycle_gives_simple_names, handler_forwards};
use crate::text::{join_with, spec_join, str_eq, strings_view};

verus! {

/// The whole configuration: one entry per handler.
#[derive(Debug, Clone)]
pub struct Config {
    pub handlers: Vec<HandlerConfig>,
}

/// Which shell runs a handler's command.
#[derive(Debug, Clone, PartialEq)]
pub enum ShellConfig {
    /// Run the command through the named shell program.
    Simple(String),
    /// Run the command directly, split on whitespace.
    Direct,
}

/// The flag that makes a shell program read its command from the next argument.
pub open spec fn shell_flag(program: Seq<char>) -> Seq<char> {
    if program == "powershell"@ {
        "-Command"@
    } else if program == "cmd"@ {
        "/c"@
    } else {
        "-c"@
    }
}

impl ShellConfig {
    /// The shell program and the flag that precedes the command, or `None`
    /// for direct execution.
    pub fn get_shell_command(&self) -> (r: Option<(&str, &str)>)
        ensures
            match self {
                ShellConfig::Simple(prog) => r matches Some(pair) && pair.0@ == prog@
                    && pair.1@ == shell_flag(prog@),
                ShellConfig::Direct => r is None,
            },
    {
        match self {
            ShellConfig::Simple(prog) => {
                let p = prog.as_str();
                let flag = if str_eq(p, "powershell") {
                    "-Command"
                } else if str_eq(p, "cmd") {
                    "/c"
                } else {
                    "-c"
                };
                Some((p, flag))
            },
            ShellConfig::Direct => None,
        }
    }

    /// The default shell: the value of `$SHELL` when it is set and not empty,
    /// otherwise `sh`.
    pub fn from_shell_var(shell_var: Option<String>) -> (r: ShellConfig)
        ensures
            match shell_var {
                Some(s) if s@.len() > 0 => r == ShellConfig::Simple(s),
                _ => r matches ShellConfig::Simple(p) && p@ == "sh"@,
            },
    {
        match shell_var {
            Some(s) => {
                if s.as_str().is_empty() {
                    ShellConfig::Simple(String::from_str("sh"))
                } else {
                    ShellConfig::Simple(s)
                }
            },
            None => ShellConfig::Simple(String::from_str("sh")),
        }
    }
}

/// Command timeout in seconds when none is configured (5 minutes).
pub fn default_timeout() -> (r: u64)
    ensures
        r == 300,
{
    300
}

/// Initial retry delay in milliseconds when none is configured (1 second).
pub fn default_retry_delay_ms() -> (r: u64)
    ensures
        r == 1000,
{
    1000
}

/// Backoff multiplier, in thousandths, when none is configured (2.0).
pub fn default_backoff_multiplier() -> (r: u64)
    ensures
        r == 2000,
{
    2000
}

/// Largest delay between retries in milliseconds when none is configured (1 minute).
pub fn default_max_delay_ms() -> (r: u64)
    ensures
        r == 60000,
{
    60000
}

/// Filesystem debounce period in milliseconds when none is configured.
pub fn default_debounce_ms() -> (r: u64)
    ensures
        r == 100,
{
    100
}

/// Configuration for retry behavior with exponential backoff.
///
/// The backoff multiplier is kept in thousandths: `2000` stands for a
/// multiplier of 2.0, `1500` for 1.5.
#[derive(Debug, Clone)]
pub struct RetryConfig {
    /// Maximum number of retry attempts (0 = no retry)
    pub max_retries: u32,
    /// Initial delay between retries in milliseconds
    pub delay_ms: u64,
    /// Multiplier for exponential backoff, in thousandths
    pub backoff_multiplier_milli: u64,
    /// Maximum delay between retries in milliseconds
    pub max_delay_ms: u64,
}

impl RetryConfig {
    /// No retries, 1 s initial delay, doubling, capped at 1 minute.
    pub fn default() -> (r: RetryConfig)
        ensures
            r.max_retries == 0,
            r.delay_ms == 1000,
            r.backoff_multiplier_milli == 2000,
            r.max_delay_ms == 60000,
    {
        RetryConfig {
            max_retries: 0,
            delay_ms: default_retry_delay_ms(),
            backoff_multiplier_milli: default_backoff_multiplier(),
            max_delay_ms: default_max_delay_ms(),
        }
    }
}

/// The kind of event source a handler listens to.
#[derive(Debug, Clone, Copy, PartialEq, Eq)]
pub enum EventType {
    Sqs,
    WebPolling,
    Cron,
    Webhook,
    Filesystem,
    Database,
}

impl EventType {
    /// The name under which the type is written in a configuration file.
    pub fn to_string(&self) -> (r: String)
        ensures
            r@ == match *self {
                EventType::Sqs => "SQS"@,
                EventType::WebPolling => "WebPolling"@,
                EventType::Cron => "Cron"@,
                EventType::Webhook => "Webhook"@,
                EventType::Filesystem => "Filesystem"@,
                EventType::Database => "Database"@,
            },
    {
        match self {
            EventType::Sqs => String::from_str("SQS"),
            EventType::WebPolling => String::from_str("WebPolling"),
            EventType::Cron => String::from_str("Cron"),
            EventType::Webhook => String::from_str("Webhook"),
            EventType::Filesystem => String::from_str("Filesystem"),
            EventType::Database => String::from_str("Database"),
        }
    }
}

/// Source-specific options of a handler.
#[derive(Debug, Clone)]
pub struct Options {
    /// The nested `type` field of the options
    pub options_type: String,
    pub queue_url: Option<String>,
    pub poll_interval: Option<u64>,
    pub port: Option<u16>,
    pub path: Option<String>,
    pub aws_region: Option<String>,
    pub cron_expression: Option<String>,
    /// Debounce duration in milliseconds for filesystem events
    pub debounce_ms: u64,
    /// Glob patterns of the files to watch
    pub include_patterns: Vec<String>,
    /// Glob patterns to exclude
    pub exclude_patterns: Vec<String>,
    /// Required `X-Auth-Token` header value of a webhook
    pub auth_token: Option<String>,
    /// Maximum webhook requests per second
    pub rate_limit: Option<u64>,
    /// Health check path of a webhook
    pub health_path: Option<String>,
}

/// One handler: its source, its command and where its events go next.
#[derive(Debug, Clone)]
pub struct HandlerConfig {
    pub event_type: EventType,
    pub name: String,
    pub options: Options,
    pub shell: String,
    /// Command timeout in seconds
    pub timeout: u64,
    pub retry: RetryConfig,
    /// Handler names to forward events to
    pub forward_to: Vec<String>,
    /// Working directory of the command
    pub working_dir: Option<String>,
    /// Shell that runs the command
    pub shell_program: ShellConfig,
}

/// Errors that can occur during configuration validation
#[derive(Debug, Clone, PartialEq)]
pub enum ValidationError {
    /// Two or more handlers have the same name
    DuplicateHandlerName { name: String },
    /// A handler's forward_to references a non-existent handler
    InvalidForwardTarget { handler: String, target: String },
    /// A handler attempts to forward to itself
    SelfForwarding { handler: String },
    /// Circular dependency detected in forward_to chain
    CircularDependency { cycle: Vec<String> },
}

/// What a validation error says, over plain sequences.
pub ghost enum ValidationIssue {
    DuplicateHandlerName { name: Seq<char> },
    InvalidForwardTarget { handler: Seq<char>, target: Seq<char> },
    SelfForwarding { handler: Seq<char> },
    CircularDependency { cycle: Seq<Seq<char>> },
}

impl View for ValidationError {
    type V = ValidationIssue;

    open spec fn view(&self) -> ValidationIssue {
        match self {
            ValidationError::DuplicateHandlerName { name } =>
                ValidationIssue::DuplicateHandlerName { name: name@ },
            ValidationError::InvalidForwardTarget { handler, target } =>
                ValidationIssue::InvalidForwardTarget { handler: handler@, target: target@ },
            ValidationError::SelfForwarding { handler } =>
                ValidationIssue::SelfForwarding { handler: handler@ },
            ValidationError::CircularDependency { cycle } =>
                ValidationIssue::CircularDependency { cycle: strings_view(cycle@) },
        }
    }
}

/// The message a validation error is shown with.
pub open spec fn issue_message(e: ValidationIssue) -> Seq<char> {
    match e {
        ValidationIssue::DuplicateHandlerName { name } =>
            "Duplicate handler name: '"@ + name + "'"@,
        ValidationIssue::InvalidForwardTarget { handler, target } =>
            "Handler '"@ + handler + "' forwards to unknown handler '"@ + target + "'"@,
        ValidationIssue::SelfForwarding { handler } =>
            "Handler '"@ + handler + "' cannot forward to itself"@,
        ValidationIssue::CircularDependency { cycle } =>
            "Circular dependency detected: "@ + spec_join(cycle, " -> "@),
    }
}

impl ValidationError {
    /// The human-readable message of the error.
    pub fn to_string(&self) -> (r: String)
        ensures
            r@ == issue_message(self@),
    {
        match self {
            ValidationError::DuplicateHandlerName { name } => {
                let mut s = String::from_str("Duplicate handler name: '");
                s.append(name.as_str());
                s.append("'");
                s
            },
            ValidationError::InvalidForwardTarget { handler, target } => {
                let mut s = String::from_str("Handler '");
                s.append(handler.as_str());
                s.append("' forwards to unknown handler '");
                s.append(target.as_str());
                s.append("'");
                s
            },
            ValidationError::SelfForwarding { handler } => {
                let mut s = String::from_str("Handler '");
                s.append(handler.as_str());
                s.append("' cannot forward to itself");
                s
            },
            ValidationError::CircularDependency { cycle } => {
                let mut s = String::from_str("Circular dependency detected: ");
                let joined = join_with(cycle, " -> ");
                s.append(joined.as_str());
                s
            },
        }
    }
}


pub open spec fn issues_of(es: Seq<ValidationError>) -> Seq<ValidationIssue> {
    es.map_values(|e: ValidationError| e@)
}

/// One `DuplicateHandlerName` for every name that already occurred earlier.
pub open spec fn duplicate_name_errors(names: Seq<Seq<char>>) -> Seq<ValidationIssue>
    decreases names.len(),
{
    if names.len() == 0 {
        Seq::empty()
    } else {
        let prev = duplicate_name_errors(names.drop_last());
        if names.drop_last().contains(names.last()) {
            prev.push(ValidationIssue::DuplicateHandlerName { name: names.last() })
        } else {
            prev
        }
    }
}

/// One `InvalidForwardTarget` for every target that names no handler, in order.
pub open spec fn invalid_target_errors(
    handler: Seq<char>,
    targets: Seq<Seq<char>>,
    names: Seq<Seq<char>>,
) -> Seq<ValidationIssue>
    decreases targets.len(),
{
    if targets.len() == 0 {
        Seq::empty()
    } else {
        let prev = invalid_target_errors(handler, targets.drop_last(), names);
        if names.contains(targets.last()) {
            prev
        } else {
            prev.push(ValidationIssue::InvalidForwardTarget { handler, target: targets.last() })
        }
    }
}

/// The forwarding errors of one handler: self-forwarding first, then its
/// unknown targets.
pub open spec fn handler_rule_errors(h: HandlerConfig, names: Seq<Seq<char>>) -> Seq<ValidationIssue> {
    let own = if targets_of(h).contains(h.name@) {
        seq![ValidationIssue::SelfForwarding { handler: h.name@ }]
    } else {
        Seq::empty()
    };
    own + invalid_target_errors(h.name@, targets_of(h), names)
}

pub open spec fn forward_rule_errors(hs: Seq<HandlerConfig>, names: Seq<Seq<char>>) -> Seq<ValidationIssue>
    decreases hs.len(),
{
    if hs.len() == 0 {
        Seq::empty()
    } else {
        forward_rule_errors(hs.drop_last(), names) + handler_rule_errors(hs.last(), names)
    }
}

/// The errors of every rule but the cycle rule, in the order they are reported:
/// duplicate names, then handler by handler its forwarding errors.
pub open spec fn rule_errors(hs: Seq<HandlerConfig>) -> Seq<ValidationIssue> {
    duplicate_name_errors(names_of(hs)) + forward_rule_errors(hs, names_of(hs))
}

/// `es` is what validation reports for `hs`: the rule errors and, exactly
/// when the forwarding graph has a cycle, one `CircularDependency` after
/// them that names such a cycle, closed by its first name and repeating no
/// name before that.
pub open spec fn reports_config_errors(hs: Seq<HandlerConfig>, es: Seq<ValidationIssue>) -> bool {
    if has_forward_cycle(hs) {
        &&& es.len() == rule_errors(hs).len() + 1
        &&& es.drop_last() == rule_errors(hs)
        &&& es.last() matches ValidationIssue::CircularDependency { cycle } && is_forward_cycle(hs, cycle)
            && cycle.drop_last().no_duplicates()
    } else {
        es == rule_errors(hs)
    }
}

fn vec_contains_string(v: &Vec<String>, s: &String) -> (r: bool)
    ensures
        r == v@.map_values(|x: String| x@).contains(s@),
{
    let ghost vv = v@.map_values(|x: String| x@);
    let mut i: usize = 0;
    while i < v.len()
        invariant
            i <= v.len(),
            vv == v@.map_values(|x: String| x@),
            forall|j: int| 0 <= j < i ==> vv[j] != s@,
        decreases v.len() - i,
    {
        if v[i] == *s {
            assert(vv[i as int] == s@);
            return true;
        }
        i = i + 1;
    }
    false
}

fn is_handler_name(handlers: &Vec<HandlerConfig>, s: &String) -> (r: bool)
    ensures
        r == names_of(handlers@).contains(s@),
{
    let ghost names = names_of(handlers@);
    let mut i: usize = 0;
    while i < handlers.len()
        invariant
            i <= handlers.len(),
            names == names_of(handlers@),
            forall|j: int| 0 <= j < i ==> names[j] != s@,
        decreases handlers.len() - i,
    {
        if handlers[i].name == *s {
            assert(names[i as int] == s@);
            return true;
        }
        i = i + 1;
    }
    false
}

/// Whether the name of handler `i` occurs among the handlers before it.
fn name_seen_before(handlers: &Vec<HandlerConfig>, i: usize) -> (r: bool)
    requires
        i < handlers.len(),
    ensures
        r == names_of(handlers@).take(i as int).contains(handlers@[i as int].name@),
{
    let ghost names = names_of(handlers@);
    let ghost prefix = names.take(i as int);
    let mut j: usize = 0;
    while j < i
        invariant
            j <= i < handlers.len(),
            names == names_of(handlers@),
            prefix == names.take(i as int),
            forall|k: int| 0 <= k < j ==> prefix[k] != handlers@[i as int].name@,
        decreases i - j,
    {
        if handlers[j].name == handlers[i].name {
            assert(prefix[j as int] == handlers@[i as int].name@);
            return true;
        }
        j = j + 1;
    }
    false
}

/// Pushes the forwarding errors of one handler.
fn push_handler_errors(handlers: &Vec<HandlerConfig>, u: usize, errors: &mut Vec<ValidationError>)
    requires
        u < handlers.len(),
    ensures
        issues_of(final(errors)@) == issues_of(old(errors)@)
            + handler_rule_errors(handlers@[u as int], names_of(handlers@)),
{
    let h = &handlers[u];
    let ghost names = names_of(handlers@);
    let ghost ts = targets_of(*h);
    let ghost start = issues_of(errors@);
    if vec_contains_string(&h.forward_to, &h.name) {
        let e = ValidationError::SelfForwarding { handler: h.name.clone() };
        errors.push(e);
        assert(issues_of(errors@) =~= start.push(e@));
    } else {
        assert(issues_of(errors@) =~= start);
    }
    let ghost own = issues_of(errors@);
    let mut k: usize = 0;
    while k < h.forward_to.len()
        invariant
            h == &handlers@[u as int],
            ts == targets_of(*h),
            names == names_of(handlers@),
            k <= h.forward_to.len(),
            issues_of(errors@) == own + invalid_target_errors(h.name@, ts.take(k as int), names),
        decreases h.forward_to.len() - k,
    {
        let target = &h.forward_to[k];
        assert(ts.take(k + 1).drop_last() =~= ts.take(k as int));
        assert(ts.take(k + 1).last() == target@);
        if !is_handler_name(handlers, target) {
            let ghost before = issues_of(errors@);
            let e = ValidationError::InvalidForwardTarget { handler: h.name.clone(), target: target.clone() };
            errors.push(e);
            assert(issues_of(errors@) =~= before.push(e@));
        }
        k = k + 1;
    }
    assert(ts.take(h.forward_to.len() as int) =~= ts);
}

/// Validate the configuration for handler forwarding rules.
///
/// Checks:
/// - All handler names are unique
/// - All forward_to targets reference existing handlers
/// - No handler forwards to itself
/// - No circular dependencies in the forwarding chain
pub fn validate_config(config: &Config) -> (r: Result<(), Vec<ValidationError>>)
    ensures
        r is Ok <==> (rule_errors(config.handlers@).len() == 0 && !has_forward_cycle(config.handlers@)),
        r matches Err(es) ==> es@.len() > 0 && reports_config_errors(config.handlers@, issues_of(es@)),
{
    let handlers = &config.handlers;
    let ghost hs = handlers@;
    let ghost names = names_of(hs);
    let mut errors: Vec<ValidationError> = Vec::new();

    // Duplicate handler names
    let mut i: usize = 0;
    while i < handlers.len()
        invariant
            handlers == &config.handlers,
            hs == handlers@,
            names == names_of(hs),
            i <= handlers.len(),
            issues_of(errors@) == duplicate_name_errors(names.take(i as int)),
        decreases handlers.len() - i,
    {
        assert(names.take(i + 1).drop_last() =~= names.take(i as int));
        assert(names.take(i + 1).last() == hs[i as int].name@);
        if name_seen_before(handlers, i) {
            let ghost before = issues_of(errors@);
            let e = ValidationError::DuplicateHandlerName { name: handlers[i].name.clone() };
            errors.push(e);
            assert(issues_of(errors@) =~= before.push(e@));
        }
        i = i + 1;
    }
    assert(names.take(handlers.len() as int) =~= names);
    let ghost dups = issues_of(errors@);

    // Self-forwarding and unknown targets, handler by handler
    let mut u: usize = 0;
    while u < handlers.len()
        invariant
            handlers == &config.handlers,
            hs == handlers@,
            names == names_of(hs),
            u <= handlers.len(),
            dups == duplicate_name_errors(names),
            issues_of(errors@) == dups + forward_rule_errors(hs.take(u as int), names),
        decreases handlers.len() - u,
    {
        let ghost before = issues_of(errors@);
        push_handler_errors(handlers, u, &mut errors);
        assert(hs.take(u + 1).drop_last() =~= hs.take(u as int));
        assert(hs.take(u + 1).last() == hs[u as int]);
        assert(issues_of(errors@) =~= dups + forward_rule_errors(hs.take(u + 1), names));
        u = u + 1;
    }
    assert(hs.take(handlers.len() as int) =~= hs);
    assert(issues_of(errors@) == rule_errors(hs));

    // Circular dependencies
    let graph = build_forward_graph(handlers);
    let found = detect_cycle(&graph);
    match found {
        Some(c) => {
            let mut cycle: Vec<String> = Vec::new();
            let mut k: usize = 0;
            while k < c.len()
                invariant
                    hs == handlers@,
                    is_index_cycle(graph_view(graph@), c@),
                    graph_view(graph@).len() == hs.len(),
                    k <= c.len(),
                    cycle@.len() == k,
                    strings_view(cycle@) == positions_named(hs, c@.take(k as int)),
                decreases c.len() - k,
            {
                assert(c@[k as int] < hs.len());
                let name = handlers[c[k]].name.clone();
                assert(name@ == hs[c@[k as int] as int].name@);
                let ghost old_cycle = cycle@;
                cycle.push(name);
                assert(cycle@ =~= old_cycle.push(name));
                assert forall|j: int| 0 <= j < k + 1 implies #[trigger] strings_view(cycle@)[j]
                    == positions_named(hs, c@.take(k + 1))[j] by {
                    if j < k {
                        assert(strings_view(old_cycle)[j] == positions_named(hs, c@.take(k as int))[j]);
                        assert(cycle@[j] == old_cycle[j]);
                        assert(c@.take(k + 1)[j] == c@.take(k as int)[j]);
                    } else {
                        assert(cycle@[j] == name);
                        assert(c@.take(k + 1)[j] == c@[k as int]);
                    }
                }
                assert(strings_view(cycle@) =~= positions_named(hs, c@.take(k + 1)));
                k = k + 1;
            }
            assert(c@.take(c.len() as int) =~= c@);
            proof {
                lemma_index_cycle_gives_name_cycle(hs, graph_view(graph@), c@);
                lemma_simple_index_cycle_gives_simple_names(hs, graph_view(graph@), c@);
            }
            let ghost before = issues_of(errors@);
            let e = ValidationError::CircularDependency { cycle };
            errors.push(e);
            assert(issues_of(errors@) =~= before.push(e@));
            assert(issues_of(errors@).drop_last() =~= before);
            Err(errors)
        },
        None => {
            proof {
                if has_forward_cycle(hs) {
                    let nc = choose|nc: Seq<Seq<char>>| is_forward_cycle(hs, nc);
                    lemma_name_cycle_gives_index_cycle(hs, graph_view(graph@), nc);
                }
            }
            if errors.len() == 0 {
                Ok(())
            } else {
                Err(errors)
            }
        },
    }
}


proof fn lemma_no_duplicate_names_no_errors(names: Seq<Seq<char>>)
    requires
        names.no_duplicates(),
    ensures
        duplicate_name_errors(names).len() == 0,
    decreases names.len(),
{
    if names.len() > 0 {
        let rest = names.drop_last();
        assert(rest.no_duplicates());
        lemma_no_duplicate_names_no_errors(rest);
        if rest.contains(names.last()) {
            let j = choose|j: int| 0 <= j < rest.len() && rest[j] == names.last();
            assert(names[j] == names[names.len() - 1]);
        }
    }
}

proof fn lemma_no_targets_no_errors(hs: Seq<HandlerConfig>, names: Seq<Seq<char>>)
    requires
        forall|i: int| 0 <= i < hs.len() ==> #[trigger] hs[i].forward_to@.len() == 0,
    ensures
        forward_rule_errors(hs, names).len() == 0,
    decreases hs.len(),
{
    if hs.len() > 0 {
        let rest = hs.drop_last();
        assert forall|i: int| 0 <= i < rest.len() implies #[trigger] rest[i].forward_to@.len() == 0 by {
            assert(hs[i].forward_to@.len() == 0);
        }
        lemma_no_targets_no_errors(rest, names);
        let h = hs.last();
        assert(hs[hs.len() - 1].forward_to@.len() == 0);
        assert(targets_of(h).len() == 0);
        assert(!targets_of(h).contains(h.name@));
    }
}

/// A configuration whose handler names are distinct and whose handlers
/// forward to nobody passes validation.
pub proof fn lemma_config_without_forwarding_is_valid(hs: Seq<HandlerConfig>)
    requires
        names_of(hs).no_duplicates(),
        forall|i: int| 0 <= i < hs.len() ==> #[trigger] hs[i].forward_to@.len() == 0,
    ensures
        rule_errors(hs).len() == 0,
        !has_forward_cycle(hs),
{
    lemma_no_duplicate_names_no_errors(names_of(hs));
    lemma_no_targets_no_errors(hs, names_of(hs));
    if has_forward_cycle(hs) {
        let c = choose|c: Seq<Seq<char>>| is_forward_cycle(hs, c);
        let k: int = 0;
        assert(forwards_to(hs, c[k], c[k + 1]));
        let i = choose|i: int| #[trigger] handler_forwards(hs, i, c[k], c[k + 1]);
        assert(hs[i].forward_to@.len() == 0);
    }
}

proof fn lemma_no_duplicate_errors_gives_distinct_names(names: Seq<Seq<char>>)
    requires
        duplicate_name_errors(names).len() == 0,
    ensures
        names.no_duplicates(),
    decreases names.len(),
{
    if names.len() > 0 {
        let rest = names.drop_last();
        let prev = duplicate_name_errors(rest);
        if rest.contains(names.last()) {
            assert(duplicate_name_errors(names).len() == prev.len() + 1);
        }
        lemma_no_duplicate_errors_gives_distinct_names(rest);
        assert forall|a: int, b: int| 0 <= a < names.len() && 0 <= b < names.len() && a != b
            implies names[a] != names[b] by {
            if a < rest.len() && b < rest.len() {
                assert(rest[a] != rest[b]);
            } else if a < rest.len() {
                assert(rest[a] == names[a]);
                assert(!rest.contains(names.last()));
            } else {
                assert(rest[b] == names[b]);
                assert(!rest.contains(names.last()));
            }
        }
    }
}

proof fn lemma_no_target_errors_gives_known_targets(handler: Seq<char>, targets: Seq<Seq<char>>, names: Seq<Seq<char>>)
    requires
        invalid_target_errors(handler, targets, names).len() == 0,
    ensures
        forall|k: int| 0 <= k < targets.len() ==> names.contains(#[trigger] targets[k]),
    decreases targets.len(),
{
    if targets.len() > 0 {
        let rest = targets.drop_last();
        if !names.contains(targets.last()) {
            assert(invalid_target_errors(handler, targets, names).len()
                == invalid_target_errors(handler, rest, names).len() + 1);
        }
        lemma_no_target_errors_gives_known_targets(handler, rest, names);
        assert forall|k: int| 0 <= k < targets.len() implies names.contains(#[trigger] targets[k]) by {
            if k < rest.len() {
                assert(rest[k] == targets[k]);
            }
        }
    }
}

proof fn lemma_no_forward_errors_per_handler(hs: Seq<HandlerConfig>, names: Seq<Seq<char>>)
    requires
        forward_rule_errors(hs, names).len() == 0,
    ensures
        forall|i: int| 0 <= i < hs.len() ==> (#[trigger] handler_rule_errors(hs[i], names)).len() == 0,
    decreases hs.len(),
{
    if hs.len() > 0 {
        let rest = hs.drop_last();
        lemma_no_forward_errors_per_handler(rest, names);
        assert forall|i: int| 0 <= i < hs.len() implies (#[trigger] handler_rule_errors(hs[i], names)).len() == 0 by {
            if i < rest.len() {
                assert(rest[i] == hs[i]);
            }
        }
    }
}

/// A configuration that passes validation has distinct handler names, and
/// every handler forwards only to handlers that exist and never to itself.
pub proof fn lemma_valid_config_is_well_formed(hs: Seq<HandlerConfig>)
    requires
        rule_errors(hs).len() == 0,
    ensures
        names_of(hs).no_duplicates(),
        forall|i: int, k: int| 0 <= i < hs.len() && 0 <= k < targets_of(hs[i]).len()
            ==> names_of(hs).contains(#[trigger] targets_of(hs[i])[k]),
        forall|i: int| 0 <= i < hs.len() ==> !(#[trigger] targets_of(hs[i])).contains(hs[i].name@),
{
    let names = names_of(hs);
    lemma_no_duplicate_errors_gives_distinct_names(names);
    lemma_no_forward_errors_per_handler(hs, names);
    assert forall|i: int, k: int| 0 <= i < hs.len() && 0 <= k < targets_of(hs[i]).len()
        implies names.contains(#[trigger] targets_of(hs[i])[k]) by {
        assert(handler_rule_errors(hs[i], names).len() == 0);
        lemma_no_target_errors_gives_known_targets(hs[i].name@, targets_of(hs[i]), names);
    }
    assert forall|i: int| 0 <= i < hs.len() implies !(#[trigger] targets_of(hs[i])).contains(hs[i].name@) by {
        assert(handler_rule_errors(hs[i], names).len() == 0);
    }
}

proof fn lemma_known_targets_no_errors(handler: Seq<char>, targets: Seq<Seq<char>>, names: Seq<Seq<char>>)
    requires
        forall|k: int| 0 <= k < targets.len() ==> names.contains(#[trigger] targets[k]),
    ensures
        invalid_target_errors(handler, targets, names).len() == 0,
    decreases targets.len(),
{
    if targets.len() > 0 {
        let rest = targets.drop_last();
        assert forall|k: int| 0 <= k < rest.len() implies names.contains(#[trigger] rest[k]) by {
            assert(rest[k] == targets[k]);
        }
        lemma_known_targets_no_errors(handler, rest, names);
        assert(names.contains(targets[targets.len() - 1]));
    }
}

proof fn lemma_well_formed_handlers_no_errors(hs: Seq<HandlerConfig>, names: Seq<Seq<char>>)
    requires
        forall|i: int, k: int| 0 <= i < hs.len() && 0 <= k < targets_of(hs[i]).len()
            ==> names.contains(#[trigger] targets_of(hs[i])[k]),
        forall|i: int| 0 <= i < hs.len() ==> !(#[trigger] targets_of(hs[i])).contains(hs[i].name@),
    ensures
        forward_rule_errors(hs, names).len() == 0,
    decreases hs.len(),
{
    if hs.len() > 0 {
        let rest = hs.drop_last();
        assert forall|i: int, k: int| 0 <= i < rest.len() && 0 <= k < targets_of(rest[i]).len()
            implies names.contains(#[trigger] targets_of(rest[i])[k]) by {
            assert(rest[i] == hs[i]);
        }
        assert forall|i: int| 0 <= i < rest.len() implies !(#[trigger] targets_of(rest[i])).contains(rest[i].name@) by {
            assert(rest[i] == hs[i]);
            assert(!targets_of(hs[i]).contains(hs[i].name@));
        }
        lemma_well_formed_handlers_no_errors(rest, names);
        let h = hs[hs.len() - 1];
        assert(!targets_of(h).contains(h.name@));
        assert forall|k: int| 0 <= k < targets_of(h).len() implies names.contains(#[trigger] targets_of(h)[k]) by {
            assert(names.contains(targets_of(hs[hs.len() - 1])[k]));
        }
        lemma_known_targets_no_errors(h.name@, targets_of(h), names);
    }
}

/// A configuration with distinct handler names, in which every target names
/// an existing handler and no handler lists its own exact name, breaks none
/// of the rules but the cycle rule; so it passes validation exactly when its
/// forwarding has no cycle. A target that merely starts with the handler's
/// name is no self-forwarding.
pub proof fn lemma_well_formed_config_is_valid(hs: Seq<HandlerConfig>)
    requires
        names_of(hs).no_duplicates(),
        forall|i: int, k: int| 0 <= i < hs.len() && 0 <= k < targets_of(hs[i]).len()
            ==> names_of(hs).contains(#[trigger] targets_of(hs[i])[k]),
        forall|i: int| 0 <= i < hs.len() ==> !(#[trigger] targets_of(hs[i])).contains(hs[i].name@),
    ensures
        rule_errors(hs).len() == 0,
{
    lemma_no_duplicate_names_no_errors(names_of(hs));
    lemma_well_formed_handlers_no_errors(hs, names_of(hs));
}

/// A handler that forwards to its own name closes a forwarding cycle.
pub proof fn lemma_self_forwarding_is_a_cycle(hs: Seq<HandlerConfig>, i: int)
    requires
        0 <= i < hs.len(),
        targets_of(hs[i]).contains(hs[i].name@),
    ensures
        has_forward_cycle(hs),
        is_forward_cycle(hs, seq![hs[i].name@, hs[i].name@]),
{
    let n = hs[i].name@;
    let c = seq![n, n];
    assert(handler_forwards(hs, i, c[0], c[1]));
    assert(forwards_to(hs, c[0], c[1]));
    assert(is_forward_cycle(hs, c));
}

} // verus!
