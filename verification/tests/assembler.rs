use usm::assemble;
use usm::instr::USMError;

fn assemble_str(src: &str) -> Result<String, USMError> {
    match assemble(&src.as_bytes().to_vec()) {
        Ok(out) => Ok(String::from_utf8(out).unwrap()),
        Err(e) => Err(e),
    }
}

#[test]
fn scenario_arithmetic_program() {
    assert_eq!(assemble_str("push 5\npush 10\nadd\ndump\nhalt\n"), Ok(String::from("0 5\n0 10\n6\n10\n11\n")));
}

#[test]
fn scenario_unknown_mnemonic() {
    assert_eq!(assemble_str("foo\n"), Err(USMError::IllegalToken));
}

#[test]
fn scenario_label_and_jump() {
    assert_eq!(assemble_str("'start:\njmp start\nhalt\n"), Ok(String::from("'start:\n3 start\n11\n")));
}

#[test]
fn scenario_empty_source() {
    assert_eq!(assemble_str(""), Ok(String::new()));
}

#[test]
fn scenario_bad_operand() {
    assert_eq!(assemble_str("push abc\n"), Err(USMError::InvalidArgument));
}

#[test]
fn every_zero_operand_mnemonic() {
    assert_eq!(
        assemble_str("pop\neql\nadd\nsub\nmult\ndiv\ndump\nhalt\n"),
        Ok(String::from("1\n5\n6\n7\n8\n9\n10\n11\n"))
    );
}

#[test]
fn push_and_dup_opcodes() {
    assert_eq!(assemble_str("push 7\ndup 3\n"), Ok(String::from("0 7\n2 3\n")));
}

#[test]
fn jmpif_preserves_label_reference() {
    assert_eq!(assemble_str("jmpif loop\n"), Ok(String::from("4 loop\n")));
}

#[test]
fn label_missing_colon_fails() {
    assert_eq!(assemble_str("'start\n"), Err(USMError::IllegalLabel));
}

#[test]
fn label_keeps_relative_position() {
    assert_eq!(assemble_str("halt\n'mid:\nhalt\n"), Ok(String::from("11\n'mid:\n11\n")));
}

#[test]
fn empty_label_name_is_kept() {
    assert_eq!(assemble_str("':\n"), Ok(String::from("':\n")));
}

#[test]
fn comment_line_is_skipped() {
    assert_eq!(assemble_str("push 1\n# a comment here\nhalt\n"), Ok(String::from("0 1\n11\n")));
}

#[test]
fn two_token_hash_line_is_no_comment() {
    assert_eq!(assemble_str("# short\n"), Err(USMError::IllegalToken));
}

#[test]
fn blank_interior_line_fails() {
    assert_eq!(assemble_str("push 1\n\nhalt\n"), Err(USMError::IllegalToken));
}

#[test]
fn whitespace_only_source_is_empty_program() {
    assert_eq!(assemble_str("  \n\t \n"), Ok(String::new()));
}

#[test]
fn three_tokens_without_hash_fail() {
    assert_eq!(assemble_str("push 1 2\n"), Err(USMError::InvalidArgument));
}

#[test]
fn surrounding_whitespace_is_trimmed() {
    assert_eq!(assemble_str("  push 5  \n\t halt \n"), Ok(String::from("0 5\n11\n")));
}

#[test]
fn tab_joined_tokens_are_one_illegal_token() {
    assert_eq!(assemble_str("push\t5\n"), Err(USMError::IllegalToken));
}

#[test]
fn signed_operands() {
    assert_eq!(assemble_str("push +42\npush -0\npush -17\n"), Ok(String::from("0 42\n0 0\n0 -17\n")));
}

#[test]
fn operand_range_boundaries() {
    assert_eq!(
        assemble_str("push 9223372036854775807\npush -9223372036854775808\n"),
        Ok(String::from("0 9223372036854775807\n0 -9223372036854775808\n"))
    );
    assert_eq!(assemble_str("push 9223372036854775808\n"), Err(USMError::InvalidArgument));
    assert_eq!(assemble_str("push -9223372036854775809\n"), Err(USMError::InvalidArgument));
    assert_eq!(assemble_str("dup 99999999999999999999999\n"), Err(USMError::InvalidArgument));
}

#[test]
fn operand_round_trip() {
    let values: Vec<i64> = vec![0, 1, -1, 5, -5, 1000000, i64::MAX, i64::MIN];
    for v in values {
        let out = assemble_str(&format!("push {}\n", v)).unwrap();
        let line = out.strip_suffix('\n').unwrap();
        let operand = line.strip_prefix("0 ").unwrap();
        assert_eq!(operand.parse::<i64>().unwrap(), v);
        let out = assemble_str(&format!("dup {}\n", v)).unwrap();
        let line = out.strip_suffix('\n').unwrap();
        let operand = line.strip_prefix("2 ").unwrap();
        assert_eq!(operand.parse::<i64>().unwrap(), v);
    }
}

#[test]
fn empty_operand_fails() {
    assert_eq!(assemble_str("push +\n"), Err(USMError::InvalidArgument));
    assert_eq!(assemble_str("push -\n"), Err(USMError::InvalidArgument));
}

#[test]
fn output_line_count_matches_emitting_lines() {
    let out = assemble_str("push 1\n# note of three tokens\npop\n'lbl:\njmp lbl\n").unwrap();
    assert_eq!(out.matches('\n').count(), 4);
}

#[test]
fn first_error_wins() {
    assert_eq!(assemble_str("halt\n'oops\nfoo\n"), Err(USMError::IllegalLabel));
    assert_eq!(assemble_str("halt\nfoo\n'oops\n"), Err(USMError::IllegalToken));
    assert_eq!(assemble_str("push x\nfoo\n"), Err(USMError::InvalidArgument));
}
