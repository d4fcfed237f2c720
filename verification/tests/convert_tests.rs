use tapeconv::convert::convert;
use tapeconv::model::MachineType;
use tapeconv::parse::{ConversionError, ParseTransitionError};

#[test]
fn machine_type_tokens() {
    assert_eq!(MachineType::from_str(";S"), Ok(MachineType::Sipser));
    assert_eq!(MachineType::from_str(";I"), Ok(MachineType::Infinite));
    assert_eq!(
        MachineType::from_str(";X"),
        Err(ConversionError::InvalidHeader(";X".to_string()))
    );
    assert_eq!(
        MachineType::from_str(""),
        Err(ConversionError::InvalidHeader("".to_string()))
    );
}

#[test]
fn end_to_end_infinite_terminal_destination() {
    let input = ";I\na 0 1 r halt\n";
    let (machine_type, text) = convert(input).unwrap();
    assert_eq!(machine_type, MachineType::Infinite);
    let expected = vec![
        "; --- Infinite-to-Sipser Simulation ---",
        "; Start state: 0",
        "0 0 # r q_carry_0",
        "0 1 # r q_carry_1",
        "q_carry_0 0 * r *",
        "q_carry_0 1 0 r q_carry_1",
        "q_carry_1 0 1 r q_carry_0",
        "q_carry_1 1 * r *",
        "q_carry_0 _ 0 r q_write_end_marker",
        "q_carry_1 _ 1 r q_write_end_marker",
        "q_write_end_marker _ $ l q_return_head",
        "q_return_head * * l *",
        "q_return_head # * r sim_0",
        "0 _ # r q_write_end_marker_empty",
        "q_write_end_marker_empty _ $ l sim_0",
        "sim_a 0 1 r halt",
    ]
    .join("\n")
        + "\n";
    assert_eq!(text, expected);
}

#[test]
fn end_to_end_sipser_left_move() {
    let input = ";S\na 0 1 l b\n";
    let (machine_type, text) = convert(input).unwrap();
    assert_eq!(machine_type, MachineType::Sipser);
    let expected = vec![
        "; --- Sipser-to-Infinite Simulation ---",
        "; Start state: 0",
        "0 * * l q_write_wall",
        "q_write_wall _ # r sim_0",
        "sim_a 0 1 l check_left_wall_sim_b",
        "check_left_wall_sim_b * * * sim_b",
        "check_left_wall_sim_b # * * halt",
    ]
    .join("\n")
        + "\n";
    assert_eq!(text, expected);
}

#[test]
fn conversion_is_deterministic() {
    let input = ";I\na 0 1 r b\nb 1 0 l a\n\n; comment\nb 0 0 * halt\n";
    let first = convert(input).unwrap();
    let second = convert(input).unwrap();
    assert_eq!(first, second);
}

#[test]
fn blank_and_comment_lines_are_dropped() {
    let with_noise = ";I\n\n  \n; note\na 0 1 r halt\n";
    let plain = ";I\na 0 1 r halt\n";
    assert_eq!(convert(with_noise).unwrap(), convert(plain).unwrap());
}

#[test]
fn missing_final_newline_is_accepted() {
    let with_newline = ";I\na 0 1 r halt\n";
    let without_newline = ";I\na 0 1 r halt";
    assert_eq!(convert(with_newline).unwrap(), convert(without_newline).unwrap());
}

#[test]
fn empty_file_is_a_header_error() {
    assert_eq!(
        convert(""),
        Err(ConversionError::InvalidHeader("File is empty".to_string()))
    );
}

#[test]
fn unrecognized_header_is_reported() {
    assert_eq!(
        convert("start\na 0 1 r b\n"),
        Err(ConversionError::InvalidHeader("start".to_string()))
    );
}

#[test]
fn four_token_line_reports_count() {
    assert_eq!(
        convert(";I\na 0 1 r\n"),
        Err(ConversionError::ParseError(ParseTransitionError::InvalidPartCount(4)))
    );
}

#[test]
fn bad_direction_reports_token() {
    assert_eq!(
        convert(";I\na 0 1 up b\n"),
        Err(ConversionError::ParseError(ParseTransitionError::InvalidDirection(
            "up".to_string()
        )))
    );
}

#[test]
fn two_char_symbol_reports_symbol() {
    assert_eq!(
        convert(";S\na 0 ab r b\n"),
        Err(ConversionError::ParseError(ParseTransitionError::InvalidSymbol(
            "ab".to_string()
        )))
    );
}

#[test]
fn terminal_destination_stays_verbatim_in_both_pipelines() {
    let (_, inf_text) = convert(";I\na 0 1 l halt_done\n").unwrap();
    assert!(inf_text.contains("sim_a 0 1 l halt_done\n"));
    let (_, sip_text) = convert(";S\na 0 1 l halt_done\n").unwrap();
    assert!(sip_text.contains("sim_a 0 1 l halt_done\n"));
}

#[test]
fn infinite_left_move_gets_full_expansion_chain() {
    let (_, text) = convert(";I\na 0 1 l b\n").unwrap();
    assert!(text.contains("sim_a 0 1 l check_left_sim_b\n"));
    assert!(text.contains("check_right_sim_b $ _ r expand_right_sim_b\n"));
    assert!(text.contains("check_left_sim_b # * r shift_start_sim_b\n"));
    assert!(text.contains("shift_carry_0_sim_b $ 0 r shift_write_end_sim_b\n"));
    assert!(text.contains("shift_return_sim_b # * r sim_b\n"));
}
