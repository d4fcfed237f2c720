use tapeconv::inf_to_sipser::{
    convert_simulation_transitions, generate_check_left_logic, generate_check_right_logic,
    generate_setup_transitions, generate_shift_sub_logic,
};
use tapeconv::model::{get_next_state, is_halt_state, Direction, Transition};
use tapeconv::parse::{parse_line, ParseTransitionError};
use tapeconv::primitives::{
    generate_carry_logic, generate_check_logic, generate_return_head_logic,
};
use tapeconv::rename::rename_original_states;
use tapeconv::render::render_table;
use tapeconv::sipser_to_inf::{convert_sipser_to_infinite, generate_wall_setup_transitions};

fn t(cs: &str, c: char, n: char, d: Direction, ns: &str) -> Transition {
    Transition {
        current_state: cs.to_string(),
        current_symbol: c,
        new_symbol: n,
        direction: d,
        new_state: ns.to_string(),
    }
}

#[test]
fn halt_state_prefix() {
    assert!(is_halt_state("halt"));
    assert!(is_halt_state("halt_accept"));
    assert!(!is_halt_state("hal"));
    assert!(!is_halt_state("xhalt"));
    assert!(!is_halt_state(""));
}

#[test]
fn next_state_keeps_terminal() {
    assert_eq!(get_next_state("halt7", "check".to_string()), "halt7");
    assert_eq!(get_next_state("q1", "check".to_string()), "check");
}

#[test]
fn carry_logic_records() {
    let r = generate_carry_logic("A", "B");
    assert_eq!(
        r,
        vec![
            t("A", '0', '0', Direction::Right, "A"),
            t("A", '1', '0', Direction::Right, "B"),
            t("B", '0', '1', Direction::Right, "A"),
            t("B", '1', '1', Direction::Right, "B"),
        ]
    );
}

#[test]
fn return_head_records() {
    let r = generate_return_head_logic("R", "T");
    assert_eq!(
        r,
        vec![
            t("R", '*', '*', Direction::Left, "R"),
            t("R", '#', '#', Direction::Right, "T"),
        ]
    );
}

#[test]
fn check_logic_records() {
    let r = generate_check_logic("C", "D", '$', '_', Direction::Right, "E");
    assert_eq!(
        r,
        vec![
            t("C", '*', '*', Direction::Stay, "D"),
            t("C", '$', '_', Direction::Right, "E"),
        ]
    );
}

#[test]
fn renamer_prefixes_non_terminals_only() {
    let table = vec![
        t("a", '0', '1', Direction::Right, "b"),
        t("b", '1', '1', Direction::Left, "halt_x"),
        t("halt_x", '0', '0', Direction::Stay, "a"),
    ];
    let renamed = rename_original_states(&table, "sim_");
    assert_eq!(
        renamed,
        vec![
            t("sim_a", '0', '1', Direction::Right, "sim_b"),
            t("sim_b", '1', '1', Direction::Left, "halt_x"),
            t("halt_x", '0', '0', Direction::Stay, "sim_a"),
        ]
    );
}

#[test]
fn setup_cluster_shape() {
    let r = generate_setup_transitions("sim_0");
    assert_eq!(r.len(), 13);
    assert_eq!(r[0], t("0", '0', '#', Direction::Right, "q_carry_0"));
    assert_eq!(r[8], t("q_write_end_marker", '_', '$', Direction::Left, "q_return_head"));
    assert_eq!(r[10], t("q_return_head", '#', '#', Direction::Right, "sim_0"));
    assert_eq!(r[12], t("q_write_end_marker_empty", '_', '$', Direction::Left, "sim_0"));
}

#[test]
fn check_right_cluster_shape() {
    let r = generate_check_right_logic("sim_b");
    assert_eq!(
        r,
        vec![
            t("check_right_sim_b", '*', '*', Direction::Stay, "sim_b"),
            t("check_right_sim_b", '$', '_', Direction::Right, "expand_right_sim_b"),
            t("expand_right_sim_b", '_', '$', Direction::Left, "sim_b"),
        ]
    );
}

#[test]
fn shift_sub_cluster_shape() {
    let r = generate_shift_sub_logic("sim_b", "shift_start_sim_b");
    assert_eq!(r.len(), 15);
    assert_eq!(r[0], t("shift_start_sim_b", '0', '_', Direction::Right, "shift_carry_0_sim_b"));
    assert_eq!(r[2], t("shift_start_sim_b", '_', '_', Direction::Stay, "sim_b"));
    assert_eq!(r[11], t("shift_start_sim_b", '$', '_', Direction::Right, "shift_write_end_sim_b"));
    assert_eq!(
        r[12],
        t("shift_write_end_sim_b", '_', '$', Direction::Left, "shift_return_sim_b")
    );
    assert_eq!(r[14], t("shift_return_sim_b", '#', '#', Direction::Right, "sim_b"));
}

#[test]
fn check_left_cluster_shape() {
    let r = generate_check_left_logic("sim_b");
    assert_eq!(r.len(), 17);
    assert_eq!(r[0], t("check_left_sim_b", '*', '*', Direction::Stay, "sim_b"));
    assert_eq!(r[1], t("check_left_sim_b", '#', '#', Direction::Right, "shift_start_sim_b"));
}

#[test]
fn simulation_rewrite_and_clusters() {
    let table = vec![
        t("sim_a", '0', '1', Direction::Right, "sim_b"),
        t("sim_b", '1', '0', Direction::Stay, "sim_a"),
        t("sim_b", '0', '0', Direction::Left, "halt"),
    ];
    let out = convert_simulation_transitions(&table);
    assert_eq!(out[0], t("sim_a", '0', '1', Direction::Right, "check_right_sim_b"));
    assert_eq!(out[1], t("sim_b", '1', '0', Direction::Stay, "sim_a"));
    assert_eq!(out[2], t("sim_b", '0', '0', Direction::Left, "halt"));
    // two distinct non-terminal destinations, twenty cluster records each
    assert_eq!(out.len(), 3 + 2 * 20);
    assert_eq!(out[3], t("check_right_sim_b", '*', '*', Direction::Stay, "sim_b"));
    assert_eq!(out[23], t("check_right_sim_a", '*', '*', Direction::Stay, "sim_a"));
}

#[test]
fn wall_setup_shape() {
    let r = generate_wall_setup_transitions("sim_0");
    assert_eq!(
        r,
        vec![
            t("0", '*', '*', Direction::Left, "q_write_wall"),
            t("q_write_wall", '_', '#', Direction::Right, "sim_0"),
        ]
    );
}

#[test]
fn sipser_rewrite_and_clusters() {
    let table = vec![
        t("sim_a", '0', '1', Direction::Left, "sim_b"),
        t("sim_b", '1', '0', Direction::Right, "sim_a"),
        t("sim_a", '1', '1', Direction::Left, "halt"),
    ];
    let out = convert_sipser_to_infinite(&table);
    assert_eq!(out[0], t("sim_a", '0', '1', Direction::Left, "check_left_wall_sim_b"));
    assert_eq!(out[1], t("sim_b", '1', '0', Direction::Right, "sim_a"));
    assert_eq!(out[2], t("sim_a", '1', '1', Direction::Left, "halt"));
    assert_eq!(out.len(), 3 + 2);
    assert_eq!(out[3], t("check_left_wall_sim_b", '*', '*', Direction::Stay, "sim_b"));
    assert_eq!(out[4], t("check_left_wall_sim_b", '#', '#', Direction::Stay, "halt"));
}

#[test]
fn render_compresses_wildcards() {
    assert_eq!(t("a", '0', '1', Direction::Right, "b").render(), "a 0 1 r b");
    assert_eq!(t("a", '0', '0', Direction::Stay, "a").render(), "a 0 * * *");
    assert_eq!(t("a", '#', '#', Direction::Left, "b").render(), "a # * l b");
}

#[test]
fn render_table_joins_lines() {
    let table = vec![
        t("a", '0', '1', Direction::Right, "b"),
        t("b", '1', '1', Direction::Left, "a"),
    ];
    assert_eq!(render_table(&table), "a 0 1 r b\nb 1 * l a\n");
}

#[test]
fn round_trip_plain_record() {
    let original = t("a", '0', '1', Direction::Right, "b");
    let reparsed = parse_line(&original.render()).unwrap();
    assert_eq!(reparsed, original);
}

#[test]
fn round_trip_wildcard_record() {
    let original = t("state", '0', '0', Direction::Stay, "state");
    let line = original.render();
    assert_eq!(line, "state 0 * * *");
    let reparsed = parse_line(&line).unwrap();
    // expand each wildcard from the context it was derived from
    let new_symbol = if reparsed.new_symbol == '*' {
        reparsed.current_symbol
    } else {
        reparsed.new_symbol
    };
    let new_state = if reparsed.new_state == "*" {
        reparsed.current_state.clone()
    } else {
        reparsed.new_state.clone()
    };
    let expanded = Transition {
        current_state: reparsed.current_state.clone(),
        current_symbol: reparsed.current_symbol,
        new_symbol,
        direction: reparsed.direction,
        new_state,
    };
    assert_eq!(expanded, original);
}

#[test]
fn parse_line_reads_five_tokens() {
    assert_eq!(
        parse_line("  a  0 1   r  b ; trailing comment").unwrap(),
        t("a", '0', '1', Direction::Right, "b")
    );
}

#[test]
fn parse_line_blank_and_comment_only() {
    assert_eq!(parse_line(""), Err(ParseTransitionError::Empty));
    assert_eq!(parse_line("   \t "), Err(ParseTransitionError::Empty));
    assert_eq!(parse_line("; only a comment"), Err(ParseTransitionError::Empty));
}

#[test]
fn parse_line_unicode_whitespace_is_blank() {
    // vertical tab, form feed, next line, no-break space, em space, ideographic space
    assert_eq!(parse_line("\u{000B}"), Err(ParseTransitionError::Empty));
    assert_eq!(parse_line("\u{000C}\u{0085}"), Err(ParseTransitionError::Empty));
    assert_eq!(
        parse_line("\u{00A0}\u{2003}\u{3000}"),
        Err(ParseTransitionError::Empty)
    );
}

#[test]
fn parse_line_tokenizes_on_unicode_whitespace() {
    assert_eq!(
        parse_line("a\u{000B}0\u{00A0}1\u{2003}r\u{3000}b").unwrap(),
        t("a", '0', '1', Direction::Right, "b")
    );
}

#[test]
fn parse_line_wrong_part_count() {
    assert_eq!(parse_line("a 0 1 r"), Err(ParseTransitionError::InvalidPartCount(4)));
    assert_eq!(parse_line("a 0 1 r b c"), Err(ParseTransitionError::InvalidPartCount(6)));
}

#[test]
fn parse_line_bad_symbol() {
    assert_eq!(
        parse_line("a 00 1 r b"),
        Err(ParseTransitionError::InvalidSymbol("00".to_string()))
    );
    assert_eq!(
        parse_line("a 0 11 r b"),
        Err(ParseTransitionError::InvalidSymbol("11".to_string()))
    );
}

#[test]
fn parse_line_bad_direction() {
    assert_eq!(
        parse_line("a 0 1 x b"),
        Err(ParseTransitionError::InvalidDirection("x".to_string()))
    );
    assert_eq!(
        parse_line("a 0 1 rr b"),
        Err(ParseTransitionError::InvalidDirection("rr".to_string()))
    );
}

#[test]
fn direction_tokens() {
    assert_eq!(Direction::from_str("l"), Ok(Direction::Left));
    assert_eq!(Direction::from_str("r"), Ok(Direction::Right));
    assert_eq!(Direction::from_str("*"), Ok(Direction::Stay));
    assert!(Direction::from_str("up").is_err());
}
