use rustyhook::command_executor::CommandResult;
use rustyhook::config::{EventType, HandlerConfig, Options, RetryConfig, ShellConfig};
use rustyhook::event::keys;
use rustyhook::event_time::EventTime;
use rustyhook::handlers::cron_handler::{cron_source_text, plan_cron_wait, validate_cron_expression, CronSchedule, CronWait};
use rustyhook::handlers::filesystem_handler::{Debouncer, FsChangeKind, IDLE_SLEEP_MS};
use rustyhook::handlers::sqs_handler::{message_disposition, message_forward_event, MessageDisposition};
use rustyhook::handlers::webhook_handler::{
    constant_time_compare, get_expected_path, RateLimiter, WebhookDecision, WebhookGate,
};
use rustyhook::launch::{plan_handler, HandlerPlan};
use rustyhook::glob::{glob_match, path_is_kept};

#[test]
fn test_validate_cron_expression_valid() {
    // Standard 6-field cron (seconds minutes hours day month weekday)
    assert!(validate_cron_expression("0 0 * * * *").is_ok());
    assert!(validate_cron_expression("*/5 * * * * *").is_ok());
    assert!(validate_cron_expression("0 30 9 * * Mon-Fri").is_ok());
}

#[test]
fn test_validate_cron_expression_invalid() {
    // Invalid expressions
    assert!(validate_cron_expression("invalid").is_err());
    assert!(validate_cron_expression("60 * * * * *").is_err()); // 60 seconds invalid
    assert!(validate_cron_expression("").is_err());
}

#[test]
fn test_create_cron_handler_invalid_expression() {
    let err = validate_cron_expression("invalid cron").unwrap_err();
    assert_eq!(err.expression, "invalid cron");
}

#[test]
fn test_create_cron_handler_valid_expression() {
    assert!(validate_cron_expression("0 * * * * *").is_ok());
    assert!(validate_cron_expression("0 0 0 1 1 * 2099").is_ok());
}

#[test]
fn test_plan_cron_wait() {
    let now = EventTime::from_unix(1000, 500_000_000).unwrap();
    let next = EventTime::from_unix(1002, 250_000_000).unwrap();
    assert_eq!(
        plan_cron_wait(&now, Some(&next)),
        CronWait::Sleep { secs: 1, nanos: 750_000_000 }
    );
    assert_eq!(plan_cron_wait(&now, Some(&now)), CronWait::Sleep { secs: 0, nanos: 0 });
    assert_eq!(plan_cron_wait(&next, Some(&now)), CronWait::RetryLater { secs: 60 });
    assert_eq!(plan_cron_wait(&now, None), CronWait::Stop);
}

#[test]
fn test_get_expected_path() {
    assert_eq!(get_expected_path("/webhook"), "/webhook");
    assert_eq!(get_expected_path("/api/v1/hook"), "/api/v1/hook");
}

#[test]
fn test_constant_time_compare() {
    // Equal strings
    assert!(constant_time_compare("secret", "secret"));
    assert!(constant_time_compare("", ""));
    assert!(constant_time_compare("a", "a"));

    // Different strings of same length
    assert!(!constant_time_compare("secret", "secreT"));
    assert!(!constant_time_compare("aaaaaa", "aaaaab"));
    assert!(!constant_time_compare("a", "b"));

    // Different lengths
    assert!(!constant_time_compare("secret", "secrets"));
    assert!(!constant_time_compare("secrets", "secret"));
    assert!(!constant_time_compare("", "a"));
    assert!(!constant_time_compare("a", ""));
}

#[test]
fn test_rate_limiter_allows_requests_within_limit() {
    let mut limiter = RateLimiter::new(10, None); // 10 requests per second

    // Should allow up to 10 requests immediately (burst capacity)
    for _ in 0..10 {
        assert!(limiter.try_acquire());
    }
}

#[test]
fn test_rate_limiter_blocks_excess_requests() {
    let mut limiter = RateLimiter::new(2, Some(2)); // 2 requests per second, burst of 2

    // First 2 should succeed (burst capacity)
    assert!(limiter.try_acquire());
    assert!(limiter.try_acquire());

    // Third should fail (no tokens left)
    assert!(!limiter.try_acquire());
}

#[test]
fn test_rate_limiter_refills_over_time() {
    let mut limiter = RateLimiter::new_at(10, Some(1), 5_000); // 10/sec rate, 1 burst

    // Use the one token
    assert!(limiter.try_acquire_at(5_000));
    assert!(!limiter.try_acquire_at(5_000));

    // 150ms later at 10/sec there is at least 1 token
    assert!(limiter.try_acquire_at(5_150));
}

#[test]
fn test_rate_limiter_fixed_times() {
    let mut limiter = RateLimiter::new_at(2, Some(3), 0);
    assert!(limiter.try_acquire_at(0));
    assert!(limiter.try_acquire_at(0));
    assert!(limiter.try_acquire_at(0));
    assert!(!limiter.try_acquire_at(0));
    // 2 tokens per second: half a token after 250 ms, one after 500 ms
    assert!(!limiter.try_acquire_at(250));
    assert!(limiter.try_acquire_at(500));
    assert!(!limiter.try_acquire_at(500));
    // a clock that goes back refills nothing
    assert!(!limiter.try_acquire_at(100));
    // a long pause refills only up to the capacity
    for _ in 0..3 {
        assert!(limiter.try_acquire_at(1_000_000));
    }
    assert!(!limiter.try_acquire_at(1_000_000));
}

#[test]
fn test_webhook_decisions() {
    let mut open = WebhookGate::new("/webhook".to_string(), None, None, None, 0);
    assert_eq!(open.check_request("/webhook", None, 0), WebhookDecision::Accepted);
    assert_eq!(open.check_request("/invalid", None, 0), WebhookDecision::NotFound);

    let mut guarded = WebhookGate::new("/webhook".to_string(), Some("secret-token".to_string()), None, None, 0);
    assert_eq!(guarded.check_request("/webhook", Some("secret-token"), 0), WebhookDecision::Accepted);
    assert_eq!(guarded.check_request("/webhook", None, 0), WebhookDecision::Unauthorized);
    assert_eq!(guarded.check_request("/webhook", Some("wrong-token"), 0), WebhookDecision::Unauthorized);
    assert_eq!(guarded.check_request("/other", Some("secret-token"), 0), WebhookDecision::NotFound);
}

#[test]
fn test_webhook_rate_limit_decisions() {
    let mut gate = WebhookGate::new("/webhook".to_string(), None, Some(2), None, 0);
    assert_eq!(gate.check_request("/webhook", None, 10), WebhookDecision::Accepted);
    assert_eq!(gate.check_request("/webhook", None, 10), WebhookDecision::Accepted);
    // requests on other paths do not use tokens
    assert_eq!(gate.check_request("/elsewhere", None, 10), WebhookDecision::NotFound);
    assert_eq!(gate.check_request("/webhook", None, 10), WebhookDecision::TooManyRequests);
}

#[test]
fn test_webhook_rate_limit_before_auth() {
    let mut gate = WebhookGate::new("/hook".to_string(), Some("t".to_string()), Some(1), None, 0);
    assert_eq!(gate.check_request("/hook", None, 0), WebhookDecision::Unauthorized);
    // the unauthorized request used the only token
    assert_eq!(gate.check_request("/hook", Some("t"), 0), WebhookDecision::TooManyRequests);
}

#[test]
fn test_webhook_responses() {
    assert_eq!(WebhookDecision::Accepted.status_code(), 200);
    assert_eq!(WebhookDecision::Accepted.body(), "Webhook received");
    assert_eq!(WebhookDecision::NotFound.status_code(), 404);
    assert_eq!(WebhookDecision::NotFound.body(), "Not Found");
    assert_eq!(WebhookDecision::Unauthorized.status_code(), 401);
    assert_eq!(WebhookDecision::Unauthorized.body(), "Unauthorized");
    assert_eq!(WebhookDecision::TooManyRequests.status_code(), 429);
    assert_eq!(WebhookDecision::TooManyRequests.body(), "Too Many Requests");
}

#[test]
fn test_debouncer_batches_changes() {
    let mut d = Debouncer::new();
    assert_eq!(d.sleep_millis(0), IDLE_SLEEP_MS);
    assert!(d.fire().is_none());

    let a = vec!["/w/a.txt".to_string()];
    let b = vec!["/w/b.txt".to_string(), "/w/a.txt".to_string()];
    let none: Vec<String> = Vec::new();
    assert!(d.record(FsChangeKind::Create, &a, &none, &none, 1_000, 500));
    assert_eq!(d.sleep_millis(1_100), 400);
    assert!(!d.record(FsChangeKind::Other, &a, &none, &none, 1_200, 500));
    assert_eq!(d.sleep_millis(1_100), 400);
    assert!(d.record(FsChangeKind::Modify, &b, &none, &none, 1_300, 500));
    assert_eq!(d.sleep_millis(1_100), 700);
    assert_eq!(d.sleep_millis(2_000), 0);

    let batch = d.fire().unwrap();
    let mut changes = batch.changes.clone();
    changes.sort();
    assert_eq!(
        changes,
        vec![
            ("/w/a.txt".to_string(), "modify".to_string()),
            ("/w/b.txt".to_string(), "modify".to_string()),
        ]
    );
    let event = batch.forward_event("fs-handler");
    assert_eq!(event.source_handler, "fs-handler");
    assert_eq!(event.get(keys::FILE_PATH), Some(&batch.changes[0].0));
    assert_eq!(event.get(keys::FILE_EVENT_KIND), Some(&"modify".to_string()));

    assert!(d.fire().is_none());
    assert_eq!(d.sleep_millis(5_000), IDLE_SLEEP_MS);
}

#[test]
fn test_fs_change_labels() {
    assert_eq!(FsChangeKind::Create.label(), "create");
    assert_eq!(FsChangeKind::Modify.label(), "modify");
    assert_eq!(FsChangeKind::Remove.label(), "remove");
    assert_eq!(FsChangeKind::Other.label(), "other");
}

#[test]
fn test_sqs_message_disposition() {
    assert_eq!(
        message_disposition(&CommandResult::Success, true),
        MessageDisposition { delete: true, forward: true }
    );
    assert_eq!(
        message_disposition(&CommandResult::Success, false),
        MessageDisposition { delete: true, forward: false }
    );
    assert_eq!(
        message_disposition(&CommandResult::Timeout, true),
        MessageDisposition { delete: false, forward: false }
    );
}

#[test]
fn test_sqs_forward_event() {
    let event = message_forward_event("sqs-handler", Some("body"), Some("id-1"), None);
    assert_eq!(event.source_handler, "sqs-handler");
    assert_eq!(event.get(keys::SQS_MESSAGE_BODY), Some(&"body".to_string()));
    assert_eq!(event.get(keys::SQS_MESSAGE_ID), Some(&"id-1".to_string()));
    assert_eq!(event.get(keys::SQS_RECEIPT_HANDLE), Some(&String::new()));
}

fn handler(event_type: EventType) -> HandlerConfig {
    HandlerConfig {
        event_type,
        name: "h".to_string(),
        options: Options {
            options_type: "t".to_string(),
            queue_url: None,
            poll_interval: None,
            port: None,
            path: None,
            aws_region: None,
            cron_expression: None,
            debounce_ms: 100,
            include_patterns: Vec::new(),
            exclude_patterns: Vec::new(),
            auth_token: None,
            rate_limit: None,
            health_path: None,
        },
        shell: "echo".to_string(),
        timeout: 300,
        retry: RetryConfig::default(),
        forward_to: Vec::new(),
        working_dir: None,
        shell_program: ShellConfig::Direct,
    }
}

#[test]
fn test_plan_handler() {
    let mut sqs = handler(EventType::Sqs);
    assert_eq!(plan_handler(&sqs), HandlerPlan::MissingOptions);
    sqs.options.queue_url = Some("http://q".to_string());
    sqs.options.poll_interval = Some(10);
    assert_eq!(
        plan_handler(&sqs),
        HandlerPlan::Sqs { queue_url: "http://q".to_string(), poll_interval: 10 }
    );

    let mut hook = handler(EventType::Webhook);
    hook.options.port = Some(8080);
    assert_eq!(plan_handler(&hook), HandlerPlan::MissingOptions);
    hook.options.path = Some("/p".to_string());
    assert_eq!(plan_handler(&hook), HandlerPlan::Webhook { port: 8080, path: "/p".to_string() });

    let mut fs = handler(EventType::Filesystem);
    assert_eq!(plan_handler(&fs), HandlerPlan::MissingOptions);
    fs.options.path = Some("/tmp".to_string());
    assert_eq!(plan_handler(&fs), HandlerPlan::Filesystem { path: "/tmp".to_string() });

    let mut cron = handler(EventType::Cron);
    assert_eq!(plan_handler(&cron), HandlerPlan::MissingCronExpression);
    cron.options.cron_expression = Some("* * * * * *".to_string());
    assert_eq!(plan_handler(&cron), HandlerPlan::Cron { cron_expression: "* * * * * *".to_string() });

    assert_eq!(plan_handler(&handler(EventType::WebPolling)), HandlerPlan::NotImplemented);
    assert_eq!(plan_handler(&handler(EventType::Database)), HandlerPlan::NotImplemented);
}

#[test]
fn test_cron_schedule_parse_and_next_time() {
    let schedule = CronSchedule::parse("0 * * * * *").unwrap();
    assert_eq!(schedule.expression(), "0 * * * * *");
    let now = EventTime::now();
    let next = schedule.next_time().unwrap();
    assert!(next.secs() > now.secs() - 1);
    assert_eq!(next.secs() % 60, 0);
    assert_eq!(next.nanos(), 0);
    match plan_cron_wait(&now, Some(&next)) {
        CronWait::Sleep { secs, .. } => assert!(secs <= 60),
        other => panic!("unexpected wait {:?}", other),
    }
    let err = CronSchedule::parse("61 * * * * *").err().unwrap();
    assert_eq!(err.expression, "61 * * * * *");
}

#[test]
fn test_cron_schedule_in_the_past_has_no_next_time() {
    let schedule = CronSchedule::parse("0 0 0 1 1 * 2000").unwrap();
    assert!(schedule.next_time().is_none());
}

#[test]
fn test_webhook_health_path_bypasses_auth_and_rate_limit() {
    let mut gate = WebhookGate::new(
        "/hook".to_string(),
        Some("t".to_string()),
        Some(1),
        Some("/health".to_string()),
        0,
    );
    assert_eq!(gate.check_request("/hook", Some("t"), 0), WebhookDecision::Accepted);
    assert_eq!(gate.check_request("/hook", Some("t"), 0), WebhookDecision::TooManyRequests);
    assert_eq!(gate.check_request("/health", None, 0), WebhookDecision::Healthy);
    assert_eq!(gate.check_request("/health", None, 0), WebhookDecision::Healthy);
    assert_eq!(WebhookDecision::Healthy.status_code(), 200);
    assert_eq!(WebhookDecision::Healthy.body(), "OK");
    assert_eq!(gate.check_request("/other", None, 0), WebhookDecision::NotFound);
}

#[test]
fn test_cron_five_field_expressions() {
    assert_eq!(cron_source_text("0 2 * * *"), "0 0 2 * * *");
    assert_eq!(cron_source_text("0 0 2 * * *"), "0 0 2 * * *");
    assert!(validate_cron_expression("0 2 * * *").is_ok());
    assert!(validate_cron_expression("0 * * * *").is_ok());
    let schedule = CronSchedule::parse("0 2 * * *").unwrap();
    assert_eq!(schedule.expression(), "0 2 * * *");
    let next = schedule.next_time().unwrap();
    assert_eq!(next.secs() % 86400, 7200);
}

#[test]
fn test_rate_limiter_grants_in_window() {
    let mut limiter = RateLimiter::new_at(10, Some(1), 1_000);
    assert!(limiter.try_acquire_at(1_000));
    assert!(!limiter.try_acquire_at(1_000));
    assert!(limiter.try_acquire_at(1_150));

    let mut limiter = RateLimiter::new_at(5, None, 0);
    let mut granted: u64 = 0;
    for t in 0..2_000u64 {
        if limiter.try_acquire_at(t) {
            granted += 1;
        }
    }
    // capacity 5 plus 5 per second over 1999 ms
    assert!(granted <= 5 + 5 * 1_999 / 1_000);
    assert_eq!(granted, 14);
}

fn strings(v: &[&str]) -> Vec<String> {
    v.iter().map(|s| s.to_string()).collect()
}

#[test]
fn test_glob_match() {
    assert!(glob_match("*.rs", "/home/me/src/main.rs"));
    assert!(glob_match("*.rs", "main.rs"));
    assert!(!glob_match("*.rs", "/home/me/src/main.rs.bak"));
    assert!(glob_match("src/**/*.toml", "/home/me/src/a/b/c.toml"));
    assert!(glob_match("src/**/*.toml", "/home/me/src/c.toml"));
    assert!(!glob_match("src/**/*.toml", "/home/me/lib/c.toml"));
    assert!(glob_match("target/**", "/p/target/debug/x"));
    assert!(glob_match("?.txt", "/p/a.txt"));
    assert!(!glob_match("?.txt", "/p/ab.txt"));
    assert!(glob_match("*.tmp", "x.tmp"));
    assert!(!glob_match("a*b", "/a/b"));
    assert!(glob_match("", "/p/"));
}

#[test]
fn test_include_and_exclude_patterns() {
    let inc = strings(&["*.rs", "src/**/*.toml"]);
    let exc = strings(&["*.tmp", "target/**"]);
    let none: Vec<String> = Vec::new();
    assert!(path_is_kept(&none, &none, "/any/file"));
    assert!(path_is_kept(&inc, &none, "/p/main.rs"));
    assert!(!path_is_kept(&inc, &none, "/p/readme.md"));
    assert!(!path_is_kept(&none, &exc, "/p/x.tmp"));
    assert!(!path_is_kept(&inc, &exc, "/p/target/gen.rs"));
    assert!(path_is_kept(&inc, &exc, "/p/src/cfg/a.toml"));
}

#[test]
fn test_debouncer_ignores_filtered_paths() {
    let inc = strings(&["*.rs"]);
    let exc = strings(&["target/**"]);
    let mut d = Debouncer::new();
    let skipped = strings(&["/p/readme.md", "/p/target/x.rs"]);
    assert!(!d.record(FsChangeKind::Create, &skipped, &inc, &exc, 0, 100));
    assert!(d.fire().is_none());
    assert_eq!(d.sleep_millis(0), IDLE_SLEEP_MS);
    let mixed = strings(&["/p/readme.md", "/p/src/lib.rs"]);
    assert!(d.record(FsChangeKind::Modify, &mixed, &inc, &exc, 10, 100));
    assert_eq!(d.sleep_millis(10), 100);
    let batch = d.fire().unwrap();
    assert_eq!(batch.changes, vec![("/p/src/lib.rs".to_string(), "modify".to_string())]);
}

#[test]
fn test_cron_next_time_after_fixed_instant() {
    let schedule = CronSchedule::parse("0 2 * * *").unwrap();
    let start = EventTime::from_unix(1431648000, 0).unwrap();
    let next = schedule.next_time_after(&start).unwrap();
    assert_eq!(next.secs(), 1431655200);
    assert_eq!(next.nanos(), 0);
    let at_two = EventTime::from_unix(1431655200, 0).unwrap();
    assert_eq!(schedule.next_time_after(&at_two).unwrap().secs(), 1431655200 + 86400);
    let last = EventTime::from_unix(8_210_266_876_799, 0).unwrap();
    assert!(schedule.next_time_after(&last).is_none());
    let now = EventTime::now();
    assert!(now.secs() >= 0 && now.secs() < 8_210_266_876_799);
}

#[test]
fn test_rate_limiter_clock_run_burst() {
    let mut limiter = RateLimiter::new(10, None);
    let mut granted = 0;
    for _ in 0..10 {
        if limiter.try_acquire() {
            granted += 1;
        }
    }
    assert_eq!(granted, 10);
}
