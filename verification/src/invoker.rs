//! Building the signing command and classifying its outcome.
//!
//! One signing run is one subprocess invocation of the resolved tool.  The
//! argument list is constructed here; the caller spawns the process and
//! hands back what it reported, and the outcome is classified here into
//! success or a structured failure.  A batch of files is signed strictly
//! in order, each file's outcome independent of the others'.
use vstd::prelude::*;
use vstd::string::StringExecFns;

use crate::SignParams;
use crate::error::CodeSignError;
use crate::locator::SignTool;

verus! {

/// One constructed subprocess command: the program to run and its
/// argument list in order.
pub struct SignCommand {
    pub program: String,
    pub args: Vec<String>,
}

/// What a finished subprocess reported: its exit code — `None` when it
/// terminated without one — and the captured standard-error text.
pub struct ProcessOutput {
    pub exit_code: Option<i32>,
    pub stderr: String,
}

/// The argument list for one signing run: the fixed verb, the digest
/// algorithm, the certificate selector, the timestamp flag only when a
/// timestamp URL is present, and the target file as the final positional
/// argument.
pub open spec fn spec_sign_args(
    digest: Seq<char>,
    thumbprint: Seq<char>,
    timestamp: Option<Seq<char>>,
    file: Seq<char>,
) -> Seq<Seq<char>> {
    let base = seq!["sign"@, "/fd"@, digest, "/sha1"@, thumbprint];
    let with_ts = match timestamp {
        Some(url) => base + seq!["/t"@, url],
        None => base,
    };
    with_ts.push(file)
}

impl SignTool {
    /// Constructs the subprocess command that signs `file` with `params`,
    /// without running it: the resolved tool as the program, and exactly
    /// the argument list of `spec_sign_args`.
    pub fn sign_command(&self, file: &str, params: &SignParams) -> (r: SignCommand)
        ensures
            r.program@ == self@,
            r.args.deep_view() == spec_sign_args(
                params.digest_algorithm@,
                params.certificate_thumbprint@,
                params.timestamp_url.deep_view(),
                file@,
            ),
    {
        let mut args: Vec<String> = Vec::new();
        args.push("sign".to_owned());
        args.push("/fd".to_owned());
        args.push(params.digest_algorithm.clone());
        args.push("/sha1".to_owned());
        args.push(params.certificate_thumbprint.clone());
        match &params.timestamp_url {
            Some(url) => {
                args.push("/t".to_owned());
                args.push(url.clone());
            },
            None => {},
        }
        args.push(file.to_owned());
        proof {
            if params.timestamp_url is Some {
                assert(args.deep_view() =~= spec_sign_args(
                    params.digest_algorithm@,
                    params.certificate_thumbprint@,
                    params.timestamp_url.deep_view(),
                    file@,
                ));
            } else {
                assert(args.deep_view() =~= spec_sign_args(
                    params.digest_algorithm@,
                    params.certificate_thumbprint@,
                    params.timestamp_url.deep_view(),
                    file@,
                ));
            }
        }
        SignCommand { program: self.tool_path().to_owned(), args }
    }
}

/// Classifies what one subprocess run reported.  A process that could not
/// be started at all carries the OS error description; exit status zero is
/// success; any non-zero exit — or termination without an exit code,
/// reported as code −1 — is a tool failure carrying the exit code and the
/// captured standard-error text verbatim.
pub fn sign_result(outcome: Result<ProcessOutput, String>) -> (r: Result<(), CodeSignError>)
    ensures
        outcome matches Err(m) ==> r == Err::<(), CodeSignError>(
            CodeSignError::SpawnFailed { description: m },
        ),
        outcome matches Ok(out) ==> (match out.exit_code {
            Some(c) => (c == 0 ==> r == Ok::<(), CodeSignError>(())) && (c != 0 ==> r == Err::<
                (),
                CodeSignError,
            >(CodeSignError::SignToolError { exit_code: c, stderr: out.stderr })),
            None => r == Err::<(), CodeSignError>(
                CodeSignError::SignToolError { exit_code: -1i32, stderr: out.stderr },
            ),
        }),
{
    match outcome {
        Err(m) => Err(CodeSignError::SpawnFailed { description: m }),
        Ok(out) => match out.exit_code {
            Some(c) => {
                if c == 0 {
                    Ok(())
                } else {
                    Err(CodeSignError::SignToolError { exit_code: c, stderr: out.stderr })
                }
            },
            None => Err(CodeSignError::SignToolError { exit_code: -1, stderr: out.stderr }),
        },
    }
}

/// How many outcomes of a batch are failures.
pub open spec fn spec_error_count(outcomes: Seq<Result<(), CodeSignError>>) -> int
    decreases outcomes.len(),
{
    if outcomes.len() == 0 {
        0
    } else {
        spec_error_count(outcomes.drop_last()) + (if outcomes.last() is Err {
            1int
        } else {
            0int
        })
    }
}

/// The exit code of the last tool failure in the batch, if any.
pub open spec fn spec_last_tool_exit(outcomes: Seq<Result<(), CodeSignError>>) -> Option<i32>
    decreases outcomes.len(),
{
    if outcomes.len() == 0 {
        None
    } else {
        match outcomes.last() {
            Err(CodeSignError::SignToolError { exit_code, .. }) => Some(exit_code),
            _ => spec_last_tool_exit(outcomes.drop_last()),
        }
    }
}

/// The process exit code a batch mandates: zero when every file signed,
/// else the exit code of the last tool failure, else a fixed sentinel
/// when every failure was a spawn failure.
pub open spec fn spec_batch_exit(outcomes: Seq<Result<(), CodeSignError>>) -> int {
    if spec_error_count(outcomes) == 0 {
        0
    } else {
        match spec_last_tool_exit(outcomes) {
            Some(c) => c as int,
            None => 1,
        }
    }
}

/// The tally of one finished batch.
#[derive(Clone, Copy, Debug, PartialEq, Eq)]
pub struct BatchSummary {
    /// How many files failed to sign.
    pub error_count: usize,
    /// The exit code the whole run should report.
    pub exit_code: i32,
}

/// Tallies the per-file outcomes of a batch: how many failed, and which
/// exit code the run should report — non-zero exactly when some file
/// failed.
#[verifier::loop_isolation(false)]
pub fn batch_summary(outcomes: &Vec<Result<(), CodeSignError>>) -> (r: BatchSummary)
    ensures
        r.error_count == spec_error_count(outcomes@),
        r.exit_code == spec_batch_exit(outcomes@),
{
    let mut error_count: usize = 0;
    let mut last_tool_exit: i32 = 0;
    let mut has_tool_error: bool = false;
    proof {
        assert(outcomes@.take(0) =~= Seq::empty());
    }
    let mut i: usize = 0;
    while i < outcomes.len()
        invariant
            i <= outcomes@.len(),
            error_count <= i,
            error_count == spec_error_count(outcomes@.take(i as int)),
            spec_last_tool_exit(outcomes@.take(i as int)) == (if has_tool_error {
                Some(last_tool_exit)
            } else {
                Option::<i32>::None
            }),
        decreases outcomes@.len() - i,
    {
        proof {
            assert(outcomes@.take(i as int + 1).drop_last() =~= outcomes@.take(i as int));
            assert(outcomes@.take(i as int + 1).last() == outcomes@[i as int]);
        }
        match &outcomes[i] {
            Ok(_) => {},
            Err(e) => {
                error_count = error_count + 1;
                match e {
                    CodeSignError::SignToolError { exit_code, .. } => {
                        last_tool_exit = *exit_code;
                        has_tool_error = true;
                    },
                    _ => {},
                }
            },
        }
        i = i + 1;
    }
    proof {
        assert(outcomes@.take(i as int) =~= outcomes@);
    }
    let exit_code: i32 = if error_count == 0 {
        0
    } else if has_tool_error {
        last_tool_exit
    } else {
        1
    };
    BatchSummary { error_count, exit_code }
}

/// The constructed argument list includes the timestamp flag exactly when
/// a timestamp URL is present: with one, the flag and the URL stand
/// between the certificate selector and the file; with none, nothing at
/// all is emitted in their place.
pub proof fn lemma_timestamp_flag_exact(
    digest: Seq<char>,
    thumbprint: Seq<char>,
    timestamp: Option<Seq<char>>,
    file: Seq<char>,
)
    ensures
        timestamp matches Some(url) ==> spec_sign_args(digest, thumbprint, timestamp, file)
            =~= seq!["sign"@, "/fd"@, digest, "/sha1"@, thumbprint, "/t"@, url, file],
        timestamp is None ==> spec_sign_args(digest, thumbprint, timestamp, file) =~= seq![
            "sign"@,
            "/fd"@,
            digest,
            "/sha1"@,
            thumbprint,
            file,
        ],
{
}

} // verus!
