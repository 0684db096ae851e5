use game_of_life::cfg::{Config, ConfigError};
use game_of_life::engine::run;

/// The text of the file that the arguments of these tests name.
const FIRST_INPUT: &str = "\
6
. . . . . .
1 1 1 . . .
. . . . . .
. . . . 1 .
. . . . 1 .
. . . . 1 .
";

/// What reading the file named by the arguments gives.
fn read(args: &[String]) -> Option<String> {
    match args.get(1).map(|name| name.as_str()) {
        Some("input/game-of-life-in1.txt") => Some(FIRST_INPUT.to_string()),
        _ => None,
    }
}

fn new_config(args: &[String]) -> Result<Config, String> {
    Config::new(args, read(args)).map_err(|error| error.message())
}

#[test]
fn should_fail_on_argument_count() {
    let args = [];
    match new_config(&args) {
        Err(err_str) if err_str.starts_with("Invalid number of arguments") => (),
        _ => panic!(),
    }
}

#[test]
fn config_new_should_fail_on_file_access() {
    let args = ["exe".to_string(), "/inaccessible_file".to_string(), "0".to_string()];
    match new_config(&args) {
        Err(err_str) if err_str.starts_with("Unable to open file") => (),
        _ => panic!(),
    }
}

#[test]
fn config_new_should_fail_on_step_count() {
    let args = ["exe".to_string(), "input/game-of-life-in1.txt".to_string(), "-1".to_string()];
    match new_config(&args) {
        Err(err_str) if err_str.starts_with("Invalid step number") => (),
        _ => panic!(),
    }
}

#[test]
fn config_new_should_succeed() {
    let args = ["exe".to_string(), "input/game-of-life-in1.txt".to_string(), "3".to_string()];
    assert!(new_config(&args).is_ok());
}

#[test]
fn config_new_should_return_correct_config() -> Result<(), String> {
    let args = ["exe".to_string(), "input/game-of-life-in1.txt".to_string(), "3".to_string()];
    let config = new_config(&args)?;

    assert_ne!(config.starting_board.len(), 0);
    assert_eq!(config.steps, 3);
    Ok(())
}

fn arguments(all: &[&str]) -> Vec<String> {
    all.iter().map(|argument| argument.to_string()).collect()
}

fn error_of(args: &[&str], file: Option<&str>) -> ConfigError {
    match Config::new(&arguments(args), file.map(|text| text.to_string())) {
        Ok(_) => panic!("the arguments made settings"),
        Err(error) => error,
    }
}

#[test]
fn config_takes_the_board_without_the_white_space_around_it() {
    let config = Config::new(&arguments(&["exe", "board", "0"]), Some("\n 1\n1 \n\n".to_string()))
        .ok()
        .unwrap();
    assert_eq!(config.starting_board, "1\n1");
    assert_eq!(config.steps, 0);
}

#[test]
fn config_reads_the_board_as_a_fixed_grid() {
    let config = Config::new(&arguments(&["exe", "board", "1"]), Some(FIRST_INPUT.to_string()))
        .ok()
        .unwrap();
    let texts = run(config).unwrap();
    assert_eq!(texts.len(), 2);
    assert_eq!(
        texts[0],
        ". . . . . .\n1 1 1 . . .\n. . . . . .\n. . . . 1 .\n. . . . 1 .\n. . . . 1 .\n"
    );
    assert_eq!(
        texts[1],
        ". 1 . . . .\n. 1 . . . .\n. 1 . . . .\n. . . . . .\n. . . 1 1 1\n. . . . . .\n"
    );
}

#[test]
fn config_wants_three_arguments() {
    for args in [&[][..], &["exe"][..], &["exe", "board"][..], &["exe", "board", "1", "2"][..]] {
        match error_of(args, Some("0")) {
            ConfigError::ArgumentCountError { found, expected } => {
                assert_eq!(found, args.len());
                assert_eq!(expected, 3);
            }
            _ => panic!(),
        }
    }
}

#[test]
fn config_names_the_file_that_could_not_be_read() {
    match error_of(&["exe", "/inaccessible_file", "0"], None) {
        ConfigError::FileAccessError { file_name } => assert_eq!(file_name, "/inaccessible_file"),
        _ => panic!(),
    }
    // The file is named before the number of steps is looked at.
    match error_of(&["exe", "nowhere", "many"], None) {
        ConfigError::FileAccessError { file_name } => assert_eq!(file_name, "nowhere"),
        _ => panic!(),
    }
}

#[test]
fn config_refuses_a_negative_number_of_steps() {
    match error_of(&["exe", "board", "-1"], Some("0")) {
        ConfigError::StepCountError { found } => assert_eq!(found, Some(-1)),
        _ => panic!(),
    }
    match error_of(&["exe", "board", "-2147483648"], Some("0")) {
        ConfigError::StepCountError { found } => assert_eq!(found, Some(i32::MIN)),
        _ => panic!(),
    }
}

#[test]
fn config_refuses_what_is_no_number_of_steps() {
    for steps in ["", "many", "1.5", "2147483648", " 1", "1 "] {
        match error_of(&["exe", "board", steps], Some("0")) {
            ConfigError::StepCountError { found } => assert_eq!(found, None),
            _ => panic!(),
        }
    }
}

#[test]
fn config_takes_the_greatest_number_of_steps() {
    let config =
        Config::new(&arguments(&["exe", "board", "+2147483647"]), Some("0".to_string())).ok().unwrap();
    assert_eq!(config.steps, i32::MAX);
}

#[test]
fn config_error_in_words() {
    assert_eq!(
        ConfigError::ArgumentCountError { found: 0, expected: 3 }.message(),
        "Invalid number of arguments. Found 0, expected 3"
    );
    assert_eq!(
        ConfigError::ArgumentCountError { found: 12, expected: 3 }.message(),
        "Invalid number of arguments. Found 12, expected 3"
    );
    assert_eq!(
        ConfigError::FileAccessError { file_name: "/inaccessible_file".to_string() }.message(),
        "Unable to open file '/inaccessible_file'."
    );
    assert_eq!(
        ConfigError::StepCountError { found: Some(-1) }.message(),
        "Invalid step number. Found -1"
    );
    assert_eq!(ConfigError::StepCountError { found: None }.message(), "Invalid step number.");
}
