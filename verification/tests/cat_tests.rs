use catsum::annotate::{
    append_line_number, generate_output, remove_consecutive_empty_lines, resolve_number_mode,
    NumberMode, RunState,
};
use catsum::reflow::unwrap_lines;

fn generate_test_string(n_lines: usize) -> String {
    let mut output: String = "".to_owned();
    match n_lines {
        0 => output,
        1 => String::from("Line 1"),
        2.. => {
            for i in 1..n_lines {
                output.push_str(&format!("Line {}\n", i));
            }
            output.push_str(&format!("Line {}", n_lines - 1));
            output
        }
    }
}

fn generate_test_vector(n_lines: usize) -> Vec<String> {
    let mut lines = vec![];
    for i in 1..=n_lines {
        lines.push(format!("Line {}", i).to_owned());
    }
    lines
}

#[test]
fn unwrap_lines_() {
    let unwrapped = unwrap_lines("".to_owned());
    assert_eq!(1, unwrapped.len());

    let n: usize = 3;
    let orig_lines = generate_test_string(n);
    let unwrapped = unwrap_lines(orig_lines);
    assert_eq!(n, unwrapped.len());

    let n = 100;
    let orig_lines = generate_test_string(n);
    let unwrapped = unwrap_lines(orig_lines);
    assert_eq!(n, unwrapped.len());
}

#[test]
fn append_line_number_check_returned_size() {
    const N: usize = 100;
    let orig_lines = generate_test_vector(N);

    let mod_lines = append_line_number(orig_lines, false, 0_usize);
    assert_eq!(N, mod_lines.0.len());
    assert_eq!(N, mod_lines.1);
}

#[test]
fn append_line_number_check_indexing() {
    const N: usize = 100;
    let orig_lines = generate_test_vector(N);

    let mod_lines = append_line_number(orig_lines, false, 0_usize);
    for (i, line) in mod_lines.0.iter().enumerate() {
        let mut tokens = line.split_whitespace();
        assert_eq!(i + 1, tokens.next().unwrap().parse::<usize>().unwrap())
    }
}

#[test]
fn remove_consecutive_empty_lines_empty_input() {
    let orig_lines = vec![];
    let mod_lines = remove_consecutive_empty_lines(orig_lines, 0_usize);
    assert_eq!(0, mod_lines.0.len());
    assert_eq!(0, mod_lines.1);

    const N: usize = 100;

    let mut orig_lines = vec![];
    for _ in 0..N {
        orig_lines.push(String::from(""));
    }

    let mod_lines = remove_consecutive_empty_lines(orig_lines, 0_usize);
    assert_eq!(1, mod_lines.0.len()); // one line of the repeated chunk remains
    assert_eq!(N, mod_lines.1);
}

#[test]
fn remove_consecutive_empty_lines_check_count() {
    const N: usize = 100;
    let mut orig_lines = generate_test_vector(N);

    for _ in 0..100 {
        orig_lines.push(String::from(""));
    }

    assert_eq!(N + 100, orig_lines.len());
    let mod_lines = remove_consecutive_empty_lines(orig_lines, 0_usize);
    assert_eq!(N + 1, mod_lines.0.len());
    assert_eq!(N, mod_lines.1);

    // calling the function again should not remove more lines, but should
    // report the empty line at the end

    let mod_lines = remove_consecutive_empty_lines(mod_lines.0, 0_usize);
    assert_eq!(N + 1, mod_lines.0.len());
    assert_eq!(1, mod_lines.1);
}

#[test]
fn reflow_keeps_single_lines() {
    // A blob with no newline is exactly one line, unchanged.
    for text in ["", "plain", "Line 1", "a b c"] {
        let unwrapped = unwrap_lines(text.to_owned());
        assert_eq!(vec![text.to_owned()], unwrapped);
    }
}

#[test]
fn reflow_counts_newlines() {
    // k embedded newlines yield k + 1 lines.
    let unwrapped = unwrap_lines("a\nb\nc".to_owned());
    assert_eq!(vec!["a", "b", "c"], unwrapped);
    let unwrapped = unwrap_lines("a\n".to_owned());
    assert_eq!(vec!["a", ""], unwrapped);
    let unwrapped = unwrap_lines("\n\n".to_owned());
    assert_eq!(vec!["", "", ""], unwrapped);
}

#[test]
fn squeeze_carries_across_units() {
    // The first unit ends in empty lines, the second begins with them:
    // only the first empty line of the whole run survives.
    // "a\n\n" splits into "a" and two empty lines; one empty survives
    // and the run counter leaves at 2.
    let unit1 = unwrap_lines("a\n\n".to_owned());
    let (out1, run1) = remove_consecutive_empty_lines(unit1, 0);
    assert_eq!(vec!["a", ""], out1);
    assert_eq!(2, run1);

    let unit2 = unwrap_lines("\n\nb".to_owned());
    let (out2, run2) = remove_consecutive_empty_lines(unit2, run1);
    assert_eq!(vec!["b"], out2);
    assert_eq!(0, run2);
}

#[test]
fn squeeze_output_is_fixed_point_with_fresh_counter() {
    let lines = unwrap_lines("\n\n\na\n\n\nb\n\n".to_owned());
    let (out, _) = remove_consecutive_empty_lines(lines, 0);
    let (again, _) = remove_consecutive_empty_lines(out.clone(), 0);
    assert_eq!(out, again);
}

#[test]
fn squeeze_and_number_all_scenario() {
    let lines = unwrap_lines("Line 1\nLine 2\n\n\nLine 3".to_owned());
    let (out, empties, last) = generate_output(lines, true, false, true, 0, 0);
    assert_eq!(vec!["1 Line 1", "2 Line 2", "3 ", "4 Line 3"], out);
    assert_eq!(0, empties);
    assert_eq!(4, last);
}

#[test]
fn numbering_continues_across_files() {
    let file_a = unwrap_lines("Line 1\nLine 2".to_owned());
    let (out_a, empties, last) = generate_output(file_a, false, false, true, 0, 0);
    assert_eq!(vec!["1 Line 1", "2 Line 2"], out_a);

    let file_b = unwrap_lines("Line 3\nLine 4".to_owned());
    let (out_b, _, last_b) = generate_output(file_b, false, false, true, empties, last);
    assert_eq!(vec!["3 Line 3", "4 Line 4"], out_b);
    assert_eq!(4, last_b);
}

#[test]
fn number_nonblank_skips_blank_lines() {
    let lines = unwrap_lines("Line 1\nLine 2\n\n\nLine 3".to_owned());
    let (out, _, last) = generate_output(lines, false, true, true, 0, 0);
    assert_eq!(vec!["1 Line 1", "2 Line 2", "", "", "3 Line 3"], out);
    assert_eq!(3, last);
}

#[test]
fn run_state_carries_both_counters() {
    // Unit 1 ends in a blank run; unit 2 opens with blanks that the
    // carried run swallows, and its numbering continues where unit 1
    // stopped.
    let mut state = RunState::new();
    let out1 = state.process_unit(unwrap_lines("a\nb\n\n".to_owned()), true, false, true);
    assert_eq!(vec!["1 a", "2 b", "3 "], out1);
    assert_eq!(3, state.last_line_number);
    assert_eq!(2, state.trailing_blank_run);

    let out2 = state.process_unit(unwrap_lines("\nc".to_owned()), true, false, true);
    assert_eq!(vec!["4 c"], out2);
    assert_eq!(4, state.last_line_number);
    assert_eq!(0, state.trailing_blank_run);
}

#[test]
fn number_mode_precedence() {
    assert_eq!(NumberMode::Off, resolve_number_mode(false, false));
    assert_eq!(NumberMode::AllLines, resolve_number_mode(false, true));
    assert_eq!(NumberMode::NonBlankOnly, resolve_number_mode(true, false));
    // Non-blank-only overrides number-all when both are requested.
    assert_eq!(NumberMode::NonBlankOnly, resolve_number_mode(true, true));
}

#[test]
fn number_column_width_follows_unit_size() {
    let lines = generate_test_vector(10);
    let (out, last) = append_line_number(lines, false, 0);
    assert_eq!(" 1 Line 1", out[0]);
    assert_eq!("10 Line 10", out[9]);
    assert_eq!(10, last);
}
