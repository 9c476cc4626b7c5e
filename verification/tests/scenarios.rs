use e4s_cl_completion::{
    routine, ArgumentCount, Command, ExpectedType, Option_, Positional, Profile,
};

fn strings(items: &[&str]) -> Vec<String> {
    items.iter().map(|item| item.to_string()).collect()
}

fn sorted(mut items: Vec<String>) -> Vec<String> {
    items.sort();
    items
}

fn profiles() -> Vec<Profile> {
    vec![Profile { name: "dev".to_string() }, Profile { name: "prod".to_string() }]
}

fn grammar() -> Command {
    Command {
        name: "tool".to_string(),
        subcommands: vec![
            Command {
                name: "launch".to_string(),
                subcommands: vec![],
                positionals: vec![],
                options: vec![
                    Option_ {
                        names: strings(&["--profile"]),
                        values: vec![],
                        arguments: ArgumentCount::Fixed(1),
                        expected_type: ExpectedType::Profile(),
                    },
                    Option_ {
                        names: strings(&["--image"]),
                        values: vec![],
                        arguments: ArgumentCount::Fixed(1),
                        expected_type: ExpectedType::Path(),
                    },
                ],
            },
            Command {
                name: "rm".to_string(),
                subcommands: vec![],
                positionals: vec![
                    Positional {
                        arguments: ArgumentCount::Fixed(1),
                        expected_type: ExpectedType::Unknown(),
                    },
                ],
                options: vec![],
            },
        ],
        positionals: vec![],
        options: vec![
            Option_ {
                names: strings(&["-v", "--verbose"]),
                values: vec![],
                arguments: ArgumentCount::Fixed(0),
                expected_type: ExpectedType::Unknown(),
            },
        ],
    }
}

#[test]
fn option_waiting_for_its_value_offers_the_profiles() {
    let found = routine(&strings(&["tool", "launch", "--profile", ""]), &grammar(), &profiles());
    assert_eq!(sorted(found), strings(&["dev", "prod"]));
}

#[test]
fn partial_option_name_is_completed() {
    let found = routine(&strings(&["tool", "launch", "--pro"]), &grammar(), &profiles());
    assert_eq!(found, strings(&["--profile"]));
}

#[test]
fn positional_of_unknown_type_offers_nothing() {
    let found = routine(&strings(&["tool", "rm", ""]), &grammar(), &profiles());
    assert_eq!(found, Vec::<String>::new());
}

#[test]
fn top_level_offers_subcommands_and_options() {
    let found = routine(&strings(&["tool", ""]), &grammar(), &profiles());
    assert_eq!(sorted(found), strings(&["--verbose", "-v", "launch", "rm"]));
}

#[test]
fn partial_value_is_completed_among_the_profiles() {
    let found = routine(&strings(&["tool", "launch", "--profile", "pr"]), &grammar(), &profiles());
    assert_eq!(found, strings(&["prod"]));
}

#[test]
fn used_option_is_not_offered_again() {
    let found = routine(
        &strings(&["tool", "launch", "--profile", "dev", ""]),
        &grammar(),
        &profiles(),
    );
    assert_eq!(found, strings(&["--image"]));
}

#[test]
fn completing_twice_gives_the_same() {
    let line = strings(&["tool", "launch", "--"]);
    let first = routine(&line, &grammar(), &profiles());
    let second = routine(&line, &grammar(), &profiles());
    assert_eq!(first, strings(&["--profile", "--image"]));
    assert_eq!(first, second);
}

#[test]
fn hidden_entries_are_never_offered() {
    let mut root = grammar();
    root.subcommands.push(Command {
        name: "__internal".to_string(),
        subcommands: vec![],
        positionals: vec![],
        options: vec![],
    });
    root.options.push(Option_ {
        names: strings(&["__debug", "--debug"]),
        values: vec![],
        arguments: ArgumentCount::Fixed(0),
        expected_type: ExpectedType::Unknown(),
    });
    let all = routine(&strings(&["tool", ""]), &root, &profiles());
    assert_eq!(all, strings(&["-v", "--verbose", "--debug", "launch", "rm"]));
    let typed = routine(&strings(&["tool", "__"]), &root, &profiles());
    assert_eq!(typed, Vec::<String>::new());
}

#[test]
fn hidden_profile_names_are_not_offered() {
    let names = vec![Profile { name: "__scratch".to_string() }, Profile { name: "dev".to_string() }];
    let found = routine(&strings(&["tool", "launch", "--profile", ""]), &grammar(), &names);
    assert_eq!(found, strings(&["dev"]));
}

#[test]
fn every_completion_begins_with_the_last_token() {
    let found = routine(&strings(&["tool", "l"]), &grammar(), &profiles());
    assert_eq!(found, strings(&["launch"]));
    let none = routine(&strings(&["tool", "x"]), &grammar(), &profiles());
    assert_eq!(none, Vec::<String>::new());
}

#[test]
fn no_tokens_offer_the_root() {
    let found = routine(&Vec::new(), &grammar(), &profiles());
    assert_eq!(found, strings(&["-v", "--verbose", "launch", "rm"]));
}

#[test]
fn subcommand_taken_as_a_value_is_no_boundary() {
    let mut root = grammar();
    root.options.push(Option_ {
        names: strings(&["--target"]),
        values: strings(&["launch", "local"]),
        arguments: ArgumentCount::Fixed(1),
        expected_type: ExpectedType::Unknown(),
    });
    let found = routine(&strings(&["tool", "--target", "launch"]), &root, &profiles());
    assert_eq!(found, strings(&["launch"]));
    let typed = routine(&strings(&["tool", "--target", "l"]), &root, &profiles());
    assert_eq!(typed, strings(&["launch", "local"]));
}

#[test]
fn empty_tokens_before_a_subcommand_are_passed_over() {
    let found = routine(&strings(&["", "tool", "launch", ""]), &grammar(), &profiles());
    assert_eq!(found, strings(&["--profile", "--image"]));
}
