use codesign::Architecture;
use codesign::CodeSignError;
use codesign::InstalledRoots;
use codesign::ProcessOutput;
use codesign::SignParams;
use codesign::SignTool;

fn located_tool() -> SignTool {
    let lookup = Some(InstalledRoots {
        kits_root: "C:\\Kits\\10".to_string(),
        versions: Vec::new(),
    });
    SignTool::locate_latest(&lookup, Some(Architecture::Bits64), &vec![true]).unwrap()
}

fn params(timestamp_url: Option<&str>) -> SignParams {
    SignParams {
        digest_algorithm: "sha256".to_string(),
        certificate_thumbprint: "ABCD...1234".to_string(),
        timestamp_url: timestamp_url.map(|u| u.to_string()),
    }
}

#[test]
fn command_matches_documented_invocation() {
    let tool = located_tool();
    let cmd = tool.sign_command("app.exe", &params(Some("http://ts.example.com")));
    assert!(cmd.program.ends_with("signtool.exe"));
    assert_eq!(cmd.program, tool.tool_path());
    assert_eq!(
        cmd.args,
        vec![
            "sign".to_string(),
            "/fd".to_string(),
            "sha256".to_string(),
            "/sha1".to_string(),
            "ABCD...1234".to_string(),
            "/t".to_string(),
            "http://ts.example.com".to_string(),
            "app.exe".to_string(),
        ]
    );
}

#[test]
fn command_omits_timestamp_flag_exactly_when_absent() {
    let tool = located_tool();
    let cmd = tool.sign_command("app.exe", &params(None));
    assert_eq!(
        cmd.args,
        vec![
            "sign".to_string(),
            "/fd".to_string(),
            "sha256".to_string(),
            "/sha1".to_string(),
            "ABCD...1234".to_string(),
            "app.exe".to_string(),
        ]
    );
    assert!(!cmd.args.iter().any(|a| a == "/t"));
    assert!(!cmd.args.iter().any(|a| a.is_empty()));
}

#[test]
fn zero_exit_status_is_success() {
    let outcome = Ok(ProcessOutput {
        exit_code: Some(0),
        stderr: String::new(),
    });
    assert_eq!(codesign::sign_result(outcome), Ok(()));
}

#[test]
fn nonzero_exit_status_carries_code_and_stderr_verbatim() {
    let outcome = Ok(ProcessOutput {
        exit_code: Some(5),
        stderr: "SignTool Error: no certificate\n".to_string(),
    });
    assert_eq!(
        codesign::sign_result(outcome),
        Err(CodeSignError::SignToolError {
            exit_code: 5,
            stderr: "SignTool Error: no certificate\n".to_string(),
        })
    );
}

#[test]
fn exit_without_code_is_reported_as_minus_one() {
    let outcome = Ok(ProcessOutput {
        exit_code: None,
        stderr: "killed".to_string(),
    });
    assert_eq!(
        codesign::sign_result(outcome),
        Err(CodeSignError::SignToolError {
            exit_code: -1,
            stderr: "killed".to_string(),
        })
    );
}

#[test]
fn spawn_failure_keeps_the_description() {
    let outcome = Err("No such file or directory".to_string());
    assert_eq!(
        codesign::sign_result(outcome),
        Err(CodeSignError::SpawnFailed {
            description: "No such file or directory".to_string(),
        })
    );
}

#[test]
fn batch_of_three_with_one_tool_failure_exits_with_its_code() {
    let outcomes = vec![
        Ok(()),
        Err(CodeSignError::SignToolError {
            exit_code: 5,
            stderr: "boom".to_string(),
        }),
        Ok(()),
    ];
    let summary = codesign::batch_summary(&outcomes);
    assert_eq!(summary.error_count, 1);
    assert_eq!(summary.exit_code, 5);
}

#[test]
fn successful_batch_exits_zero() {
    let outcomes: Vec<Result<(), CodeSignError>> = vec![Ok(()), Ok(()), Ok(())];
    let summary = codesign::batch_summary(&outcomes);
    assert_eq!(summary.error_count, 0);
    assert_eq!(summary.exit_code, 0);
}

#[test]
fn later_tool_failure_overrides_earlier_one() {
    let outcomes = vec![
        Err(CodeSignError::SignToolError {
            exit_code: 3,
            stderr: String::new(),
        }),
        Err(CodeSignError::SignToolError {
            exit_code: 7,
            stderr: String::new(),
        }),
        Ok(()),
    ];
    let summary = codesign::batch_summary(&outcomes);
    assert_eq!(summary.error_count, 2);
    assert_eq!(summary.exit_code, 7);
}

#[test]
fn spawn_only_failures_exit_with_the_sentinel() {
    let outcomes = vec![
        Ok(()),
        Err(CodeSignError::SpawnFailed {
            description: "spawn".to_string(),
        }),
    ];
    let summary = codesign::batch_summary(&outcomes);
    assert_eq!(summary.error_count, 1);
    assert_eq!(summary.exit_code, 1);
}

#[test]
fn empty_batch_exits_zero() {
    let outcomes: Vec<Result<(), CodeSignError>> = Vec::new();
    let summary = codesign::batch_summary(&outcomes);
    assert_eq!(summary.error_count, 0);
    assert_eq!(summary.exit_code, 0);
}
