//! The settings of a run: the text of the first board, the number of
//! steps, and the format of the text.

use vstd::prelude::*;
use vstd::string::StringExecFns;
use crate::parser::{fixed_grid, MassingillParser, Parser};
use crate::text::{
    decimal, parse_i32, push_decimal, push_signed_decimal, signed_decimal, signed_value,
    to_chars, to_text, trim, trim_chars,
};

verus! {

/// The number of arguments that a run takes: the program's name, the file
/// with the first board, and the number of steps.
pub const ARGUMENT_COUNT: usize = 3;

/// Why the arguments make no settings.
#[allow(inconsistent_fields)]
#[derive(Debug)]
pub enum ConfigError {
    /// There are `found` arguments where `expected` are needed.
    ArgumentCountError { found: usize, expected: usize },
    /// The file with the first board could not be read.
    FileAccessError { file_name: String },
    /// The number of steps is negative (`found` holds it) or no number.
    StepCountError { found: Option<i32> },
}

/// The mathematical model of a `ConfigError`.
#[allow(inconsistent_fields)]
pub enum ConfigErrorView {
    ArgumentCountError { found: nat, expected: nat },
    FileAccessError { file_name: Seq<char> },
    StepCountError { found: Option<int> },
}

impl View for ConfigError {
    type V = ConfigErrorView;

    open spec fn view(&self) -> ConfigErrorView {
        match self {
            ConfigError::ArgumentCountError { found, expected } => {
                ConfigErrorView::ArgumentCountError {
                    found: *found as nat,
                    expected: *expected as nat,
                }
            },
            ConfigError::FileAccessError { file_name } => ConfigErrorView::FileAccessError {
                file_name: file_name@,
            },
            ConfigError::StepCountError { found } => ConfigErrorView::StepCountError {
                found: match found {
                    Some(steps) => Some(*steps as int),
                    None => None,
                },
            },
        }
    }
}

impl ConfigErrorView {
    /// The error in words.
    pub open spec fn message(self) -> Seq<char> {
        match self {
            ConfigErrorView::ArgumentCountError { found, expected } => {
                "Invalid number of arguments. Found "@ + decimal(found) + ", expected "@
                    + decimal(expected)
            },
            ConfigErrorView::FileAccessError { file_name } => {
                "Unable to open file '"@ + file_name + "'."@
            },
            ConfigErrorView::StepCountError { found: Some(steps) } => {
                "Invalid step number. Found "@ + signed_decimal(steps)
            },
            ConfigErrorView::StepCountError { found: None } => "Invalid step number."@,
        }
    }
}

impl ConfigError {
    /// The error in words.
    pub fn message(&self) -> (text: String)
        ensures
            text@ == self@.message(),
    {
        let mut text = String::new();
        match self {
            ConfigError::ArgumentCountError { found, expected } => {
                text.append("Invalid number of arguments. Found ");
                push_decimal(&mut text, *found as u128);
                text.append(", expected ");
                push_decimal(&mut text, *expected as u128);
            },
            ConfigError::FileAccessError { file_name } => {
                text.append("Unable to open file '");
                text.append(file_name.as_str());
                text.append("'.");
            },
            ConfigError::StepCountError { found: Some(steps) } => {
                text.append("Invalid step number. Found ");
                push_signed_decimal(&mut text, *steps);
            },
            ConfigError::StepCountError { found: None } => {
                text.append("Invalid step number.");
            },
        }
        text
    }
}

/// The settings of a run.
pub struct Config {
    /// The text of the first board.
    pub starting_board: String,
    /// The number of generations to compute.
    pub steps: i32,
    /// The format of `starting_board`.
    pub parser: Box<dyn Parser>,
}

/// The mathematical model of the settings, but for the format.
pub struct ConfigView {
    pub starting_board: Seq<char>,
    pub steps: int,
}

impl View for Config {
    type V = ConfigView;

    open spec fn view(&self) -> ConfigView {
        ConfigView { starting_board: self.starting_board@, steps: self.steps as int }
    }
}

/// The number of steps that an argument writes: a decimal number in the
/// range of `i32`.
pub open spec fn step_count(argument: Seq<char>) -> Option<int> {
    match signed_value(argument) {
        Some(steps) if i32::MIN <= steps <= i32::MAX => Some(steps),
        _ => None,
    }
}

/// The settings that the arguments make, where `file` is the text of the
/// file that the second argument names, or `None` if it could not be read.
/// There must be three arguments. Then the file must have been read; its
/// text, without the white space around it, is the first board. Then the
/// third argument must write a number of steps that is not negative.
pub open spec fn settings(arguments: Seq<Seq<char>>, file: Option<Seq<char>>) -> Result<
    ConfigView,
    ConfigErrorView,
> {
    if arguments.len() != ARGUMENT_COUNT {
        Err(
            ConfigErrorView::ArgumentCountError {
                found: arguments.len(),
                expected: ARGUMENT_COUNT as nat,
            },
        )
    } else {
        match (file, step_count(arguments[2])) {
            (None, _) => Err(ConfigErrorView::FileAccessError { file_name: arguments[1] }),
            (Some(text), Some(steps)) => if steps >= 0 {
                Ok(ConfigView { starting_board: trim(text), steps })
            } else {
                Err(ConfigErrorView::StepCountError { found: Some(steps) })
            },
            (Some(_), None) => Err(ConfigErrorView::StepCountError { found: None }),
        }
    }
}

/// What making the settings gave, taken by its view.
pub open spec fn config_outcome(result: Result<Config, ConfigError>) -> Result<
    ConfigView,
    ConfigErrorView,
> {
    match result {
        Ok(config) => Ok(config@),
        Err(error) => Err(error@),
    }
}

impl Config {
    /// Makes the settings from the arguments of the command line and from
    /// the text of the file that the second argument names, `None` if the
    /// file could not be read. The format is the fixed grid.
    pub fn new(args: &[String], file: Option<String>) -> (result: Result<Config, ConfigError>)
        ensures
            config_outcome(result) == settings(args.deep_view(), file.deep_view()),
            result matches Ok(config) ==> forall|text: Seq<char>|
                #[trigger] config.parser.read(text) == fixed_grid(text),
    {
        if args.len() != ARGUMENT_COUNT {
            return Err(
                ConfigError::ArgumentCountError { found: args.len(), expected: ARGUMENT_COUNT },
            );
        }
        let text = match file {
            Some(text) => text,
            None => {
                return Err(ConfigError::FileAccessError { file_name: args[1].clone() });
            },
        };
        let steps = parse_i32(&to_chars(args[2].as_str()));
        match steps {
            Some(steps) => {
                if steps >= 0 {
                    let starting_board = to_text(&trim_chars(&to_chars(text.as_str())));
                    Ok(Config { starting_board, steps, parser: Box::new(MassingillParser {}) })
                } else {
                    Err(ConfigError::StepCountError { found: Some(steps) })
                }
            },
            None => Err(ConfigError::StepCountError { found: None }),
        }
    }
}

} // verus!
