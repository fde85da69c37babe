use vstd::prelude::*;

use crate::text::chars_of;

verus! {

broadcast use vstd::string::group_string_axioms;

/// How the program is called.
pub const USAGE: &'static str = "Usage:\nminigrep [-i] <QUERY> <FILE>";

/// The flag that turns off case sensitivity.
pub const IGNORE_CASE_FLAG: &'static str = "-i";

/// The error for fewer than three arguments, the program name included.
pub open spec fn not_enough_message() -> Seq<char> {
    "Not enough arguments\n"@ + USAGE@
}

/// The error for more than four arguments, the program name included.
pub open spec fn too_many_message() -> Seq<char> {
    "Too many arguments\n"@ + USAGE@
}

/// The error for four arguments whose first after the program name is not the flag.
pub open spec fn invalid_option_message(option: Seq<char>) -> Seq<char> {
    "First argument '"@ + option + "' is not a valid option\n"@ + USAGE@
}

/// What to search for, where, and whether case matters. The text is borrowed from the
/// argument list.
#[derive(Debug)]
pub struct Config<'a> {
    pub query: &'a str,
    pub filename: &'a str,
    pub case_sensitive: bool,
}

/// Whether `s` is the flag that turns off case sensitivity.
fn is_ignore_case_flag(s: &str) -> (r: bool)
    ensures
        r == (s@ == IGNORE_CASE_FLAG@),
{
    proof {
        reveal_strlit("-i");
    }
    let c = chars_of(s);
    if c.len() == 2 && c[0] == '-' && c[1] == 'i' {
        assert(c@ =~= IGNORE_CASE_FLAG@);
        true
    } else {
        false
    }
}

impl<'a> Config<'a> {
    /// Reads the arguments: the program name, then either `<QUERY> <FILE>`, or the flag
    /// `-i` followed by `<QUERY> <FILE>` to ignore case.
    pub fn parse(args: &'a [String]) -> (r: Result<Config<'a>, String>)
        ensures
            args@.len() == 3 ==> (r matches Ok(c) && c.query@ == args@[1]@ && c.filename@
                == args@[2]@ && c.case_sensitive),
            args@.len() == 4 && args@[1]@ == IGNORE_CASE_FLAG@ ==> (r matches Ok(c)
                && c.query@ == args@[2]@ && c.filename@ == args@[3]@ && !c.case_sensitive),
            args@.len() == 4 && args@[1]@ != IGNORE_CASE_FLAG@ ==> (r matches Err(e) && e@
                == invalid_option_message(args@[1]@)),
            args@.len() < 3 ==> (r matches Err(e) && e@ == not_enough_message()),
            args@.len() > 4 ==> (r matches Err(e) && e@ == too_many_message()),
    {
        let n: usize = args.len();
        if n < 3 {
            let mut e = String::from_str("Not enough arguments\n");
            e.append(USAGE);
            Err(e)
        } else if n > 4 {
            let mut e = String::from_str("Too many arguments\n");
            e.append(USAGE);
            Err(e)
        } else if n == 3 {
            Ok(Config { query: args[1].as_str(), filename: args[2].as_str(), case_sensitive: true })
        } else if is_ignore_case_flag(args[1].as_str()) {
            Ok(Config { query: args[2].as_str(), filename: args[3].as_str(), case_sensitive: false })
        } else {
            let mut e = String::from_str("First argument '");
            e.append(args[1].as_str());
            e.append("' is not a valid option\n");
            e.append(USAGE);
            Err(e)
        }
    }
}

} // verus!
