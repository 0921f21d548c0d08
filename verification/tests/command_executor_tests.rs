use rustyhook::command_executor::{
    classify_outcome, plan_command, CommandLine, CommandResult, ProcessOutcome, RetryState, RetryStep,
};
use rustyhook::config::{RetryConfig, ShellConfig};

fn retry_config(max_retries: u32, delay_ms: u64) -> RetryConfig {
    RetryConfig {
        max_retries,
        delay_ms,
        backoff_multiplier_milli: 2000,
        max_delay_ms: 60000,
    }
}

#[test]
fn test_command_result_is_success() {
    assert!(CommandResult::Success.is_success());
    assert!(!CommandResult::Failed { exit_code: Some(1) }.is_success());
    assert!(!CommandResult::Timeout.is_success());
    assert!(!CommandResult::ExecutionError {
        message: "test".to_string()
    }
    .is_success());
}

#[test]
fn test_command_result_is_retriable() {
    assert!(!CommandResult::Success.is_retriable());
    assert!(CommandResult::Failed { exit_code: Some(1) }.is_retriable());
    assert!(CommandResult::Timeout.is_retriable());
    assert!(CommandResult::ExecutionError {
        message: "test".to_string()
    }
    .is_retriable());
}

#[test]
fn test_shell_config_default() {
    let shell = ShellConfig::from_shell_var(None);
    match shell {
        ShellConfig::Simple(s) => assert!(!s.is_empty()),
        ShellConfig::Direct => panic!("Default should not be None"),
    }
}

#[test]
fn test_shell_config_from_shell_var() {
    assert_eq!(
        ShellConfig::from_shell_var(Some("/bin/zsh".to_string())),
        ShellConfig::Simple("/bin/zsh".to_string())
    );
    assert_eq!(
        ShellConfig::from_shell_var(Some(String::new())),
        ShellConfig::Simple("sh".to_string())
    );
    assert_eq!(
        ShellConfig::from_shell_var(None),
        ShellConfig::Simple("sh".to_string())
    );
}

#[test]
fn test_shell_config_get_shell_command_sh() {
    let shell = ShellConfig::Simple("sh".to_string());
    let (prog, arg) = shell.get_shell_command().unwrap();
    assert_eq!(prog, "sh");
    assert_eq!(arg, "-c");
}

#[test]
fn test_shell_config_get_shell_command_bash() {
    let shell = ShellConfig::Simple("bash".to_string());
    let (prog, arg) = shell.get_shell_command().unwrap();
    assert_eq!(prog, "bash");
    assert_eq!(arg, "-c");
}

#[test]
fn test_shell_config_get_shell_command_zsh() {
    let shell = ShellConfig::Simple("zsh".to_string());
    let (prog, arg) = shell.get_shell_command().unwrap();
    assert_eq!(prog, "zsh");
    assert_eq!(arg, "-c");
}

#[test]
fn test_shell_config_get_shell_command_powershell() {
    let shell = ShellConfig::Simple("powershell".to_string());
    let (prog, arg) = shell.get_shell_command().unwrap();
    assert_eq!(prog, "powershell");
    assert_eq!(arg, "-Command");
}

#[test]
fn test_shell_config_get_shell_command_cmd() {
    let shell = ShellConfig::Simple("cmd".to_string());
    let (prog, arg) = shell.get_shell_command().unwrap();
    assert_eq!(prog, "cmd");
    assert_eq!(arg, "/c");
}

#[test]
fn test_shell_config_none() {
    let shell = ShellConfig::Direct;
    assert!(shell.get_shell_command().is_none());
}

#[test]
fn test_plan_command_through_shell() {
    let line = plan_command("echo 'test'", &ShellConfig::Simple("bash".to_string())).unwrap();
    assert_eq!(
        line,
        CommandLine {
            program: "bash".to_string(),
            args: vec!["-c".to_string(), "echo 'test'".to_string()],
        }
    );
}

#[test]
fn test_plan_command_direct_splits_on_whitespace() {
    let line = plan_command("  ls\t-la \n /tmp  ", &ShellConfig::Direct).unwrap();
    assert_eq!(line.program, "ls");
    assert_eq!(line.args, vec!["-la".to_string(), "/tmp".to_string()]);
    let single = plan_command("pwd", &ShellConfig::Direct).unwrap();
    assert_eq!(single.program, "pwd");
    assert!(single.args.is_empty());
}

#[test]
fn test_plan_command_direct_empty() {
    assert_eq!(
        plan_command("   \t ", &ShellConfig::Direct),
        Err(CommandResult::ExecutionError {
            message: "Empty command".to_string()
        })
    );
    assert_eq!(
        plan_command("", &ShellConfig::Direct),
        Err(CommandResult::ExecutionError {
            message: "Empty command".to_string()
        })
    );
}

#[test]
fn test_classify_outcome() {
    assert_eq!(
        classify_outcome(ProcessOutcome::Exited { success: true, exit_code: Some(0) }),
        CommandResult::Success
    );
    assert_eq!(
        classify_outcome(ProcessOutcome::Exited { success: false, exit_code: Some(1) }),
        CommandResult::Failed { exit_code: Some(1) }
    );
    assert_eq!(
        classify_outcome(ProcessOutcome::Exited { success: false, exit_code: None }),
        CommandResult::Failed { exit_code: None }
    );
    assert_eq!(classify_outcome(ProcessOutcome::TimedOut), CommandResult::Timeout);
    assert_eq!(
        classify_outcome(ProcessOutcome::SpawnFailed { message: "No such file or directory".to_string() }),
        CommandResult::ExecutionError { message: "No such file or directory".to_string() }
    );
}

#[test]
fn test_execute_with_retry_success_no_retry_needed() {
    let config = retry_config(3, 100);
    let mut state = RetryState::new(&config);
    assert_eq!(state.after_attempt(&config, &CommandResult::Success), RetryStep::Stop);
    assert_eq!(state.attempt, 0);
}

#[test]
fn test_execute_with_retry_failure_exhausts_retries() {
    // 2 retries with 50ms initial delay: waits of 50ms and 100ms, then stop
    let config = retry_config(2, 50);
    let failed = CommandResult::Failed { exit_code: Some(1) };
    let mut state = RetryState::new(&config);
    assert_eq!(state.after_attempt(&config, &failed), RetryStep::RetryAfter { delay_ms: 50 });
    assert_eq!(state.after_attempt(&config, &failed), RetryStep::RetryAfter { delay_ms: 100 });
    assert_eq!(state.after_attempt(&config, &failed), RetryStep::Stop);
    assert_eq!(state.attempt, 2);
}

#[test]
fn test_execute_with_retry_no_retry_configured() {
    let config = RetryConfig::default();
    let mut state = RetryState::new(&config);
    assert_eq!(
        state.after_attempt(&config, &CommandResult::Failed { exit_code: Some(1) }),
        RetryStep::Stop
    );
}

#[test]
fn test_execute_with_retry_eventual_success() {
    let config = retry_config(3, 10);
    let failed = CommandResult::Failed { exit_code: Some(1) };
    let mut state = RetryState::new(&config);
    assert_eq!(state.after_attempt(&config, &failed), RetryStep::RetryAfter { delay_ms: 10 });
    assert_eq!(state.after_attempt(&config, &failed), RetryStep::RetryAfter { delay_ms: 20 });
    assert_eq!(state.after_attempt(&config, &CommandResult::Success), RetryStep::Stop);
}

#[test]
fn test_retry_delay_capped_at_max() {
    let config = RetryConfig {
        max_retries: 5,
        delay_ms: 1000,
        backoff_multiplier_milli: 3000,
        max_delay_ms: 5000,
    };
    let mut state = RetryState::new(&config);
    let mut waits = Vec::new();
    loop {
        match state.after_attempt(&config, &CommandResult::Timeout) {
            RetryStep::RetryAfter { delay_ms } => waits.push(delay_ms),
            RetryStep::Stop => break,
        }
    }
    assert_eq!(waits, vec![1000, 3000, 5000, 5000, 5000]);
}

#[test]
fn test_retry_fractional_multiplier() {
    // 1.5 times: 500, 750, 1125
    let config = RetryConfig {
        max_retries: 3,
        delay_ms: 500,
        backoff_multiplier_milli: 1500,
        max_delay_ms: 30000,
    };
    let mut state = RetryState::new(&config);
    let failed = CommandResult::Timeout;
    assert_eq!(state.after_attempt(&config, &failed), RetryStep::RetryAfter { delay_ms: 500 });
    assert_eq!(state.after_attempt(&config, &failed), RetryStep::RetryAfter { delay_ms: 750 });
    assert_eq!(state.after_attempt(&config, &failed), RetryStep::RetryAfter { delay_ms: 1125 });
    assert_eq!(state.after_attempt(&config, &failed), RetryStep::Stop);
}

#[test]
fn test_retry_delay_saturates() {
    let config = RetryConfig {
        max_retries: 2,
        delay_ms: u64::MAX,
        backoff_multiplier_milli: 2000,
        max_delay_ms: u64::MAX,
    };
    let mut state = RetryState::new(&config);
    let failed = CommandResult::Timeout;
    assert_eq!(state.after_attempt(&config, &failed), RetryStep::RetryAfter { delay_ms: u64::MAX });
    assert_eq!(state.current_delay_ms, u64::MAX);
}

#[test]
fn test_retry_first_wait_capped_at_max() {
    let config = RetryConfig {
        max_retries: 2,
        delay_ms: 10_000,
        backoff_multiplier_milli: 2000,
        max_delay_ms: 3_000,
    };
    let failed = CommandResult::Failed { exit_code: Some(1) };
    let mut state = RetryState::new(&config);
    assert_eq!(state.current_delay_ms, 3_000);
    assert_eq!(state.after_attempt(&config, &failed), RetryStep::RetryAfter { delay_ms: 3_000 });
    assert_eq!(state.after_attempt(&config, &failed), RetryStep::RetryAfter { delay_ms: 3_000 });
    assert_eq!(state.after_attempt(&config, &failed), RetryStep::Stop);
}
