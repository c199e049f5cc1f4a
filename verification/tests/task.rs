use convey::task::{command_output, CommandRun};

fn exited(success: bool, stdout: &[u8], stderr: &[u8]) -> CommandRun {
    CommandRun::Exited {
        success,
        status: "exit status: 1".to_owned(),
        stdout: stdout.to_vec(),
        stderr: stderr.to_vec(),
    }
}

#[test]
fn a_successful_run_gives_its_output() {
    assert_eq!(command_output("printf", exited(true, b"first\nsecond\n", b"")), Ok("first\nsecond\n".to_owned()));
}

#[test]
fn a_failed_run_reports_its_status_and_trimmed_stderr() {
    assert_eq!(
        command_output("kubectl", exited(false, b"", b"  no context\n")),
        Err("kubectl exited with exit status: 1: no context".to_owned())
    );
    assert_eq!(command_output("kubectl", exited(false, b"", b" \n")), Err("kubectl exited with exit status: 1".to_owned()));
}

#[test]
fn a_run_that_could_not_start_says_why() {
    assert_eq!(
        command_output("missing", CommandRun::NotStarted("No such file or directory (os error 2)".to_owned())),
        Err("failed to execute missing: No such file or directory (os error 2)".to_owned())
    );
}

#[test]
fn output_that_is_not_utf8_is_refused() {
    assert_eq!(
        command_output("printf", exited(true, &[0x66, 0xff], b"")),
        Err("printf produced non-UTF-8 output: invalid utf-8 sequence of 1 bytes from index 1".to_owned())
    );
}
