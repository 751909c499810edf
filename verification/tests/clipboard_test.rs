use bd_watcher::clipboard::{helper, ClipboardCopy, CopyStep, HELPER_COUNT};

fn run(outcomes: &[Result<(), String>]) -> (Result<String, String>, Vec<String>) {
    let mut c = ClipboardCopy::new();
    let mut ran = Vec::new();
    let mut next = outcomes.iter();
    loop {
        match c.next_step() {
            CopyStep::Run { bin, .. } => {
                ran.push(bin);
                c.record(next.next().cloned().unwrap());
            }
            CopyStep::Done(r) => return (r, ran),
        }
    }
}

#[test]
fn first_working_helper_wins() {
    let (r, ran) = run(&[Err("pbcopy: not found".into()), Ok(())]);
    assert_eq!(r, Ok("wl-copy".to_string()));
    assert_eq!(ran, vec!["pbcopy".to_string(), "wl-copy".to_string()]);
}

#[test]
fn all_failing_reports_the_last_error() {
    let (r, ran) = run(&[
        Err("a".into()),
        Err("b".into()),
        Err("c".into()),
        Err("xsel: not found".into()),
    ]);
    assert_eq!(r, Err("xsel: not found".to_string()));
    assert_eq!(ran.len(), HELPER_COUNT);
}

#[test]
fn helpers_and_their_arguments() {
    assert_eq!(helper(0), ("pbcopy".to_string(), Vec::<String>::new()));
    assert_eq!(helper(1), ("wl-copy".to_string(), Vec::<String>::new()));
    assert_eq!(
        helper(2),
        ("xclip".to_string(), vec!["-selection".to_string(), "clipboard".to_string()])
    );
    assert_eq!(
        helper(3),
        ("xsel".to_string(), vec!["--clipboard".to_string(), "--input".to_string()])
    );
}
