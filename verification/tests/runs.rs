use usm::instr::USMError;
use usm::usm::USM;

#[test]
fn new_run_renders_nothing() {
    let run = USM::new();
    assert_eq!(run.render(), Vec::<u8>::new());
}

#[test]
fn scan_accumulates_across_calls() {
    let mut run = USM::new();
    assert_eq!(run.scan(&b"push 1".to_vec()), None);
    assert_eq!(run.scan(&b"halt".to_vec()), None);
    assert_eq!(String::from_utf8(run.render()).unwrap(), "0 1\n11\n");
}

#[test]
fn failed_scan_leaves_run_untouched() {
    let mut run = USM::new();
    assert_eq!(run.scan(&b"halt".to_vec()), None);
    assert_eq!(run.scan(&b"foo".to_vec()), Some(USMError::IllegalToken));
    assert_eq!(String::from_utf8(run.render()).unwrap(), "11\n");
}

#[test]
fn scan_of_failing_program_emits_nothing() {
    let mut run = USM::new();
    assert_eq!(
        run.scan(&b"push 1\npush 2\nadd\nbad line here also\n".to_vec()),
        Some(USMError::InvalidArgument)
    );
    assert_eq!(run.render(), Vec::<u8>::new());
}
