use e4s_cl_completion::{ArgumentCount, Command, ExpectedType, Option_};

fn texts(items: &[&str]) -> Vec<String> {
    items.iter().map(|item| item.to_string()).collect()
}

fn flag(names: &[&str], arguments: ArgumentCount) -> Option_ {
    Option_ {
        names: texts(names),
        values: vec![],
        arguments,
        expected_type: ExpectedType::Unknown(),
    }
}

fn parent() -> Command {
    Command {
        name: "run".to_string(),
        subcommands: vec![],
        positionals: vec![],
        options: vec![
            flag(&["-f", "--files"], ArgumentCount::Any()),
            flag(&["--quiet"], ArgumentCount::Fixed(0)),
            flag(&["--color"], ArgumentCount::AtMostOne()),
        ],
    }
}

#[test]
fn fixed_arity_takes_its_number_of_tokens() {
    let line = texts(&["a", "b", "c"]);
    let mut position = 0;
    let taken = flag(&["--pair"], ArgumentCount::Fixed(2)).consume_args(
        &parent(),
        &line,
        &mut position,
    );
    assert_eq!(taken, texts(&["a", "b"]));
    assert_eq!(position, 2);
}

#[test]
fn fixed_arity_stops_at_the_empty_token() {
    let line = texts(&["a", "", "c"]);
    let mut position = 0;
    let taken = flag(&["--triple"], ArgumentCount::Fixed(3)).consume_args(
        &parent(),
        &line,
        &mut position,
    );
    assert_eq!(taken, texts(&["a"]));
    assert!(taken.len() < 3);
    assert_eq!(position, 1);
}

#[test]
fn fixed_arity_stops_at_the_end_of_the_line() {
    let line = texts(&["x", "a"]);
    let mut position = 1;
    let taken = flag(&["--pair"], ArgumentCount::Fixed(2)).consume_args(
        &parent(),
        &line,
        &mut position,
    );
    assert_eq!(taken, texts(&["a"]));
    assert_eq!(position, 2);
}

#[test]
fn arity_of_zero_takes_nothing() {
    let line = texts(&["", "a"]);
    let mut position = 0;
    let taken = flag(&["--quiet"], ArgumentCount::Fixed(0)).consume_args(
        &parent(),
        &line,
        &mut position,
    );
    assert_eq!(taken, Vec::<String>::new());
    assert_eq!(position, 0);
}

#[test]
fn at_most_one_takes_a_token_that_names_an_option() {
    let line = texts(&["--quiet", "rest"]);
    let mut position = 0;
    let taken = flag(&["--color"], ArgumentCount::AtMostOne()).consume_args(
        &parent(),
        &line,
        &mut position,
    );
    assert_eq!(taken, texts(&["--quiet"]));
    assert_eq!(position, 1);
}

#[test]
fn at_most_one_leaves_a_token_that_names_no_option() {
    let line = texts(&["always", "rest"]);
    let mut position = 0;
    let taken = flag(&["--color"], ArgumentCount::AtMostOne()).consume_args(
        &parent(),
        &line,
        &mut position,
    );
    assert_eq!(taken, Vec::<String>::new());
    assert_eq!(position, 0);
}

#[test]
fn at_most_one_at_the_end_of_the_line() {
    let line = texts(&["--color"]);
    let mut position = 1;
    let taken = flag(&["--color"], ArgumentCount::AtMostOne()).consume_args(
        &parent(),
        &line,
        &mut position,
    );
    assert_eq!(taken, Vec::<String>::new());
    assert_eq!(position, 1);
}

#[test]
fn any_takes_tokens_up_to_the_next_option() {
    let line = texts(&["a", "b", "--quiet", "c"]);
    let mut position = 0;
    let taken = flag(&["--files"], ArgumentCount::Any()).consume_args(
        &parent(),
        &line,
        &mut position,
    );
    assert_eq!(taken, texts(&["a", "b"]));
    assert_eq!(position, 2);
}

#[test]
fn at_least_one_takes_tokens_up_to_the_end() {
    let line = texts(&["--files", "a", "", "b"]);
    let mut position = 1;
    let taken = flag(&["--files"], ArgumentCount::AtLeastOne()).consume_args(
        &parent(),
        &line,
        &mut position,
    );
    assert_eq!(taken, texts(&["a", "", "b"]));
    assert_eq!(position, 4);
}

#[test]
fn position_behind_the_line_takes_nothing() {
    let line = texts(&["a"]);
    let mut position = 5;
    let taken = flag(&["--files"], ArgumentCount::Any()).consume_args(
        &parent(),
        &line,
        &mut position,
    );
    assert_eq!(taken, Vec::<String>::new());
    assert_eq!(position, 5);
}

#[test]
fn complete_wants_no_empty_token_among_those_asked_for() {
    let pair = flag(&["--pair"], ArgumentCount::Fixed(2));
    assert!(pair.complete(&texts(&["a", "b"]), 0));
    assert!(!pair.complete(&texts(&["a", ""]), 0));
    assert!(!pair.complete(&texts(&["", "b"]), 0));
    assert!(pair.complete(&texts(&["a", "b", ""]), 0));
    assert!(pair.complete(&texts(&["a"]), 0));
    assert!(pair.complete(&texts(&["", "a", "b"]), 1));
    assert!(pair.complete(&texts(&["a"]), 7));
}

#[test]
fn complete_holds_of_the_other_arities() {
    let line = texts(&["", ""]);
    assert!(flag(&["--color"], ArgumentCount::AtMostOne()).complete(&line, 0));
    assert!(flag(&["--files"], ArgumentCount::Any()).complete(&line, 0));
    assert!(flag(&["--files"], ArgumentCount::AtLeastOne()).complete(&line, 0));
    assert!(flag(&["--quiet"], ArgumentCount::Fixed(0)).complete(&line, 0));
}

#[test]
fn position_moves_by_the_number_of_arguments() {
    let line = texts(&["x", "a", "b", "", "--quiet", "c"]);
    for arguments in [
        ArgumentCount::Fixed(0),
        ArgumentCount::Fixed(1),
        ArgumentCount::Fixed(5),
        ArgumentCount::AtMostOne(),
        ArgumentCount::AtLeastOne(),
        ArgumentCount::Any(),
    ] {
        let option = flag(&["--any"], arguments);
        for start in 0..7 {
            let mut position = start;
            let taken = option.consume_args(&parent(), &line, &mut position);
            assert_eq!(position, start + taken.len());
            if start <= line.len() {
                assert_eq!(taken, line[start..position].to_vec());
            }
        }
    }
}
