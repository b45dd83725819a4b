//! The user's configuration: keybinds and panel colors.
pub mod defaults;

use vstd::prelude::*;
use vstd::string::*;

use crate::color_input::{is_white_space, is_whitespace};
use crate::config::defaults::{reports_conflicts, KEYBIND_COUNT};
use crate::text::{decimal, join, join_strings, push_char, push_decimal, push_str, string_views};

pub use defaults::{Colors, ConfigColor, Keybinds};

verus! {

/// The whole configuration file: keybinds and panel colors.
#[derive(Debug)]
pub struct Config {
    pub keybinds: Keybinds,
    pub colors: Colors,
}

impl Default for Config {
    fn default() -> (r: Self)
        ensures
            r.keybinds == Keybinds::spec_default(),
            r.colors == Colors::spec_default(),
    {
        Config { keybinds: Keybinds::default(), colors: Colors::default() }
    }
}


/// The line that reports one key bound more than once.
pub open spec fn conflict_line(key: char, names: Seq<Seq<char>>) -> Seq<char> {
    "Key '"@ + seq![key] + "' duplicated "@ + decimal(names.len()) + " times: "@ + join(names, ", "@)
}

/// The lines of a report of keybind conflicts, one per entry.
pub open spec fn conflict_lines(errors: Seq<(char, Vec<String>)>) -> Seq<Seq<char>> {
    errors.map_values(|e: (char, Vec<String>)| conflict_line(e.0, string_views(e.1@)))
}

/// The message with which loading a configuration fails when keys are bound
/// more than once.
pub open spec fn conflict_report_text(errors: Seq<(char, Vec<String>)>) -> Seq<char> {
    "invalid keybind configuration:\n- "@ + join(conflict_lines(errors), "\n- "@)
}

/// Renders the conflicts that `Keybinds::validate` reports as the message
/// with which loading the configuration fails.
pub fn conflict_report(errors: &Vec<(char, Vec<String>)>) -> (r: String)
    ensures
        r@ == conflict_report_text(errors@),
{
    let mut lines: Vec<String> = Vec::new();
    let mut i: usize = 0;
    while i < errors.len()
        invariant
            i <= errors@.len(),
            string_views(lines@) == conflict_lines(errors@.take(i as int)),
        decreases errors@.len() - i,
    {
        let key = errors[i].0;
        let names = &errors[i].1;
        let mut line = String::from_str("Key '");
        push_char(&mut line, key);
        push_str(&mut line, "' duplicated ");
        push_decimal(&mut line, names.len() as u64);
        push_str(&mut line, " times: ");
        let joined = join_strings(names, ", ");
        push_str(&mut line, joined.as_str());
        let ghost before = string_views(lines@);
        lines.push(line);
        proof {
            assert("Key '"@.push(key) =~= "Key '"@ + seq![key]);
            assert(string_views(lines@) =~= before.push(line@));
            assert(errors@.take(i + 1) =~= errors@.take(i as int).push(errors@[i as int]));
            assert(conflict_lines(errors@.take(i + 1)) =~= conflict_lines(errors@.take(i as int)).push(
                conflict_line(key, string_views(names@)),
            ));
        }
        i = i + 1;
    }
    assert(errors@.take(errors@.len() as int) =~= errors@);
    let body = join_strings(&lines, "\n- ");
    let mut r = String::from_str("invalid keybind configuration:\n- ");
    push_str(&mut r, body.as_str());
    r
}

/// Whether a configuration file holds nothing but white space (such a file
/// is replaced by the default configuration).
pub fn is_blank(contents: &str) -> (r: bool)
    ensures
        r == forall|i: int| 0 <= i < contents@.len() ==> is_white_space(#[trigger] contents@[i]),
{
    let n = contents.unicode_len();
    let mut i: usize = 0;
    while i < n
        invariant
            n == contents@.len(),
            i <= n,
            forall|j: int| 0 <= j < i ==> is_white_space(#[trigger] contents@[j]),
        decreases n - i,
    {
        if !is_whitespace(contents.get_char(i)) {
            return false;
        }
        i = i + 1;
    }
    true
}

/// The configuration as loading accepts it: the configuration itself when no
/// key is bound twice, else the report of the keys bound more than once.
pub fn accept_config(config: Config) -> (r: Result<Config, String>)
    ensures
        r is Ok <==> config.keybinds.conflict_free(),
        r matches Ok(c) ==> c == config,
        r matches Err(message) ==> exists|errors: Seq<(char, Vec<String>)>|
            #[trigger] reports_conflicts(config.keybinds.keys(), errors, KEYBIND_COUNT as nat)
                && message@ == conflict_report_text(errors),
{
    match config.keybinds.validate() {
        Ok(()) => Ok(config),
        Err(errors) => {
            let message = conflict_report(&errors);
            assert(reports_conflicts(config.keybinds.keys(), errors@, KEYBIND_COUNT as nat));
            Err(message)
        },
    }
}

} // verus!
