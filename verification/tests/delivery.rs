use convey::delivery::Delivery;

fn run(text_outcome: Result<(), String>, enter_outcome: Result<(), String>) -> (Vec<&'static str>, Result<(), String>) {
    let mut calls = Vec::new();
    let mut step = Delivery::start();
    let mut text_outcome = Some(text_outcome);
    let mut enter_outcome = Some(enter_outcome);
    loop {
        let outcome = match &step {
            Delivery::SendText => {
                calls.push("text");
                text_outcome.take().unwrap()
            }
            Delivery::SendEnter => {
                calls.push("enter");
                enter_outcome.take().unwrap()
            }
            Delivery::Done(result) => return (calls, result.clone()),
        };
        step = step.advance(outcome);
    }
}

#[test]
fn sends_enter_after_text() {
    let (calls, result) = run(Ok(()), Ok(()));

    assert_eq!(calls, ["text", "enter"]);
    assert!(result.is_ok());
}

#[test]
fn does_not_send_enter_when_sending_text_fails() {
    let (calls, result) = run(Err("text failed".into()), Ok(()));

    assert_eq!(calls, ["text"]);
    assert_eq!(result.err().as_deref(), Some("text failed"));
}

#[test]
fn reports_a_failed_enter() {
    let (calls, result) = run(Ok(()), Err("enter failed".into()));

    assert_eq!(calls, ["text", "enter"]);
    assert_eq!(result.err().as_deref(), Some("enter failed"));
}
