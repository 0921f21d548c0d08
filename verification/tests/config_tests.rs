use rustyhook::config::{
    default_backoff_multiplier, default_debounce_ms, default_max_delay_ms, default_retry_delay_ms,
    default_timeout, validate_config, Config, EventType, HandlerConfig, Options, RetryConfig,
    ShellConfig, ValidationError,
};

fn options(options_type: &str) -> Options {
    Options {
        options_type: options_type.to_string(),
        queue_url: None,
        poll_interval: None,
        port: None,
        path: None,
        aws_region: None,
        cron_expression: None,
        debounce_ms: default_debounce_ms(),
        include_patterns: Vec::new(),
        exclude_patterns: Vec::new(),
        auth_token: None,
        rate_limit: None,
        health_path: None,
    }
}

fn handler(event_type: EventType, name: &str, shell: &str, forward_to: &[&str]) -> HandlerConfig {
    HandlerConfig {
        event_type,
        name: name.to_string(),
        options: options("http"),
        shell: shell.to_string(),
        timeout: default_timeout(),
        retry: RetryConfig::default(),
        forward_to: forward_to.iter().map(|s| s.to_string()).collect(),
        working_dir: None,
        shell_program: ShellConfig::Simple("sh".to_string()),
    }
}

fn webhook(name: &str, port: u16, path: &str, shell: &str, forward_to: &[&str]) -> HandlerConfig {
    let mut h = handler(EventType::Webhook, name, shell, forward_to);
    h.options.port = Some(port);
    h.options.path = Some(path.to_string());
    h
}

fn filesystem(name: &str, path: &str, shell: &str, forward_to: &[&str]) -> HandlerConfig {
    let mut h = handler(EventType::Filesystem, name, shell, forward_to);
    h.options.options_type = "filesystem".to_string();
    h.options.path = Some(path.to_string());
    h
}

#[test]
fn test_defaults() {
    assert_eq!(default_timeout(), 300);
    assert_eq!(default_retry_delay_ms(), 1000);
    assert_eq!(default_backoff_multiplier(), 2000);
    assert_eq!(default_max_delay_ms(), 60000);
    assert_eq!(default_debounce_ms(), 100);
}

#[test]
fn test_retry_config_default_impl() {
    let default = RetryConfig::default();
    assert_eq!(default.max_retries, 0);
    assert_eq!(default.delay_ms, 1000);
    // 2.0, written in thousandths
    assert_eq!(default.backoff_multiplier_milli, 2000);
    assert_eq!(default.max_delay_ms, 60000);
}

#[test]
fn test_validate_config_valid() {
    let config = Config {
        handlers: vec![
            filesystem("handler-a", "/tmp", "echo \"a\"", &["handler-b"]),
            webhook("handler-b", 8080, "/b", "echo \"b\"", &[]),
        ],
    };
    let result = validate_config(&config);
    assert!(result.is_ok(), "Expected valid config: {:?}", result);
}

#[test]
fn test_validate_config_duplicate_names() {
    let config = Config {
        handlers: vec![
            webhook("duplicate", 8080, "/a", "echo \"a\"", &[]),
            webhook("duplicate", 8081, "/b", "echo \"b\"", &[]),
        ],
    };
    let result = validate_config(&config);
    assert!(result.is_err());
    let errors = result.unwrap_err();
    assert!(errors.iter().any(|e| matches!(
        e,
        ValidationError::DuplicateHandlerName { name } if name == "duplicate"
    )));
}

#[test]
fn test_validate_config_invalid_target() {
    let config = Config {
        handlers: vec![webhook("handler-a", 8080, "/a", "echo \"a\"", &["nonexistent"])],
    };
    let result = validate_config(&config);
    assert!(result.is_err());
    let errors = result.unwrap_err();
    assert!(errors.iter().any(|e| matches!(
        e,
        ValidationError::InvalidForwardTarget { handler, target }
            if handler == "handler-a" && target == "nonexistent"
    )));
}

#[test]
fn test_validate_config_self_forwarding() {
    let config = Config {
        handlers: vec![webhook("self-forward", 8080, "/a", "echo \"a\"", &["self-forward"])],
    };
    let result = validate_config(&config);
    assert!(result.is_err());
    let errors = result.unwrap_err();
    assert!(errors.iter().any(|e| matches!(
        e,
        ValidationError::SelfForwarding { handler } if handler == "self-forward"
    )));
}

#[test]
fn test_validate_config_circular_dependency_direct() {
    let config = Config {
        handlers: vec![
            webhook("handler-a", 8080, "/a", "echo \"a\"", &["handler-b"]),
            webhook("handler-b", 8081, "/b", "echo \"b\"", &["handler-a"]),
        ],
    };
    let result = validate_config(&config);
    assert!(result.is_err());
    let errors = result.unwrap_err();
    assert!(
        errors
            .iter()
            .any(|e| matches!(e, ValidationError::CircularDependency { .. })),
        "Expected CircularDependency error, got: {:?}",
        errors
    );
}

#[test]
fn test_validate_config_circular_dependency_chain() {
    let config = Config {
        handlers: vec![
            webhook("handler-a", 8080, "/a", "echo \"a\"", &["handler-b"]),
            webhook("handler-b", 8081, "/b", "echo \"b\"", &["handler-c"]),
            webhook("handler-c", 8082, "/c", "echo \"c\"", &["handler-a"]),
        ],
    };
    let result = validate_config(&config);
    assert!(result.is_err());
    let errors = result.unwrap_err();
    assert!(
        errors
            .iter()
            .any(|e| matches!(e, ValidationError::CircularDependency { .. })),
        "Expected CircularDependency error in chain, got: {:?}",
        errors
    );
}

#[test]
fn test_validate_config_no_forward_to() {
    let config = Config {
        handlers: vec![webhook("standalone", 8080, "/a", "echo \"a\"", &[])],
    };
    let result = validate_config(&config);
    assert!(result.is_ok());
}

#[test]
fn test_validate_config_multiple_errors() {
    let config = Config {
        handlers: vec![webhook("handler-a", 8080, "/a", "echo \"a\"", &["nonexistent", "handler-a"])],
    };
    let result = validate_config(&config);
    assert!(result.is_err());
    let errors = result.unwrap_err();
    // Should have both InvalidForwardTarget and SelfForwarding errors
    assert!(
        errors.len() >= 2,
        "Expected at least 2 errors, got: {:?}",
        errors
    );
}

#[test]
fn test_validation_error_display() {
    assert_eq!(
        ValidationError::DuplicateHandlerName {
            name: "foo".to_string()
        }
        .to_string(),
        "Duplicate handler name: 'foo'"
    );

    assert_eq!(
        ValidationError::InvalidForwardTarget {
            handler: "a".to_string(),
            target: "b".to_string()
        }
        .to_string(),
        "Handler 'a' forwards to unknown handler 'b'"
    );

    assert_eq!(
        ValidationError::SelfForwarding {
            handler: "x".to_string()
        }
        .to_string(),
        "Handler 'x' cannot forward to itself"
    );

    assert_eq!(
        ValidationError::CircularDependency {
            cycle: vec!["a".to_string(), "b".to_string(), "a".to_string()]
        }
        .to_string(),
        "Circular dependency detected: a -> b -> a"
    );
}

#[test]
fn test_validate_config_fan_out() {
    let config = Config {
        handlers: vec![
            filesystem("source", "/tmp", "echo \"source\"", &["target-1", "target-2", "target-3"]),
            webhook("target-1", 8081, "/1", "echo \"1\"", &[]),
            webhook("target-2", 8082, "/2", "echo \"2\"", &[]),
            webhook("target-3", 8083, "/3", "echo \"3\"", &[]),
        ],
    };
    let result = validate_config(&config);
    assert!(result.is_ok(), "Fan-out should be valid: {:?}", result);
}

#[test]
fn test_validate_config_linear_chain() {
    let config = Config {
        handlers: vec![
            filesystem("step-1", "/tmp", "echo \"1\"", &["step-2"]),
            webhook("step-2", 8081, "/2", "echo \"2\"", &["step-3"]),
            webhook("step-3", 8082, "/3", "echo \"3\"", &[]),
        ],
    };
    let result = validate_config(&config);
    assert!(result.is_ok(), "Linear chain should be valid: {:?}", result);
}

#[test]
fn test_validate_config_exact_error_list() {
    // duplicates first, then per handler: self-forwarding, unknown targets; the cycle last
    let config = Config {
        handlers: vec![
            webhook("a", 8080, "/a", "echo a", &["ghost", "a"]),
            webhook("b", 8081, "/b", "echo b", &[]),
            webhook("b", 8082, "/c", "echo c", &["phantom"]),
        ],
    };
    let errors = validate_config(&config).unwrap_err();
    assert_eq!(
        errors,
        vec![
            ValidationError::DuplicateHandlerName { name: "b".to_string() },
            ValidationError::SelfForwarding { handler: "a".to_string() },
            ValidationError::InvalidForwardTarget { handler: "a".to_string(), target: "ghost".to_string() },
            ValidationError::InvalidForwardTarget { handler: "b".to_string(), target: "phantom".to_string() },
            ValidationError::CircularDependency { cycle: vec!["a".to_string(), "a".to_string()] },
        ]
    );
}

#[test]
fn test_validate_config_reports_the_cycle() {
    let config = Config {
        handlers: vec![
            webhook("entry", 8080, "/e", "echo e", &["x"]),
            webhook("x", 8081, "/x", "echo x", &["y"]),
            webhook("y", 8082, "/y", "echo y", &["z"]),
            webhook("z", 8083, "/z", "echo z", &["x"]),
        ],
    };
    let errors = validate_config(&config).unwrap_err();
    assert_eq!(
        errors,
        vec![ValidationError::CircularDependency {
            cycle: vec!["x".to_string(), "y".to_string(), "z".to_string(), "x".to_string()]
        }]
    );
}

#[test]
fn test_validate_config_cycle_through_every_handler_of_a_name() {
    // every handler named "b" counts for forwarding, so a -> b -> a is a cycle
    let config = Config {
        handlers: vec![
            webhook("a", 8080, "/a", "echo a", &["b"]),
            webhook("b", 8081, "/b1", "echo b1", &["a"]),
            webhook("b", 8082, "/b2", "echo b2", &[]),
        ],
    };
    let errors = validate_config(&config).unwrap_err();
    assert_eq!(errors.len(), 2);
    assert_eq!(errors[0], ValidationError::DuplicateHandlerName { name: "b".to_string() });
    match &errors[1] {
        ValidationError::CircularDependency { cycle } => {
            assert!(
                *cycle == vec!["a".to_string(), "b".to_string(), "a".to_string()]
                    || *cycle == vec!["b".to_string(), "a".to_string(), "b".to_string()]
            );
        }
        other => panic!("unexpected error {:?}", other),
    }
}

#[test]
fn test_validate_config_self_loop_cycle() {
    let config = Config { handlers: vec![webhook("a", 8080, "/a", "echo a", &["a"])] };
    let errors = validate_config(&config).unwrap_err();
    assert_eq!(
        errors,
        vec![
            ValidationError::SelfForwarding { handler: "a".to_string() },
            ValidationError::CircularDependency { cycle: vec!["a".to_string(), "a".to_string()] },
        ]
    );
}

#[test]
fn test_validate_config_empty() {
    assert!(validate_config(&Config { handlers: Vec::new() }).is_ok());
}

#[test]
fn test_config_event_type_names() {
    assert_eq!(EventType::Sqs.to_string(), "SQS");
    assert_eq!(EventType::WebPolling.to_string(), "WebPolling");
    assert_eq!(EventType::Cron.to_string(), "Cron");
    assert_eq!(EventType::Webhook.to_string(), "Webhook");
    assert_eq!(EventType::Filesystem.to_string(), "Filesystem");
    assert_eq!(EventType::Database.to_string(), "Database");
}

#[test]
fn test_valid_config_is_well_formed() {
    let config = Config {
        handlers: vec![
            webhook("a", 8080, "/a", "echo a", &["b", "c"]),
            filesystem("b", "/tmp", "echo b", &["c"]),
            filesystem("c", "/var", "echo c", &[]),
        ],
    };
    assert!(validate_config(&config).is_ok());
    let names: Vec<&String> = config.handlers.iter().map(|h| &h.name).collect();
    for (i, h) in config.handlers.iter().enumerate() {
        for (j, other) in names.iter().enumerate() {
            if i != j {
                assert_ne!(&h.name, *other);
            }
        }
        for t in &h.forward_to {
            assert!(names.contains(&t));
            assert_ne!(t, &h.name);
        }
    }
}
