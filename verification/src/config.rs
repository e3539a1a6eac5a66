//! The validated, immutable description of one search request.

use vstd::prelude::*;
use vstd::string::StringExecFns;

verus! {

/// A raw flag token must be the literal text `true` or `false`.
pub open spec fn is_bool_token(tok: Seq<char>) -> bool {
    tok == "true"@ || tok == "false"@
}

/// One search request: what to look for, where, and how.
pub struct Config {
    pub query: String,
    pub filename: String,
    pub case_sensitive: bool,
    pub line_numbers: bool,
}

impl Config {
    /// Builds a `Config` from raw argument tokens, in the fixed order
    /// query, file name, case-insensitivity flag, line-number flag.
    ///
    /// The third token carries the *insensitive* request, so it is stored
    /// inverted: a raw `true` yields `case_sensitive == false`.
    pub fn new(args: Vec<String>) -> (r: Result<Config, &'static str>)
        ensures
            match r {
                Ok(c) => {
                    &&& args@.len() >= 4
                    &&& is_bool_token(args@[2]@)
                    &&& is_bool_token(args@[3]@)
                    &&& c.query@ == args@[0]@
                    &&& c.filename@ == args@[1]@
                    &&& c.case_sensitive == (args@[2]@ == "false"@)
                    &&& c.line_numbers == (args@[3]@ == "true"@)
                },
                Err(e) => {
                    if args@.len() < 2 {
                        e@ == "not enough arguments"@
                    } else {
                        &&& e@ == "problem with argument parsing"@
                        &&& (args@.len() < 4 || !is_bool_token(args@[2]@) || !is_bool_token(
                            args@[3]@,
                        ))
                    }
                },
            },
    {
        proof {
            reveal_strlit("true");
            reveal_strlit("false");
            assert("true"@.len() == 4);
            assert("false"@.len() == 5);
            assert("true"@ != "false"@);
        }
        if args.len() < 2 {
            return Err("not enough arguments");
        }
        if args.len() < 4 {
            return Err("problem with argument parsing");
        }
        let tru = String::from_str("true");
        let fal = String::from_str("false");
        let case_sensitive: bool;
        if args[2] == fal {
            case_sensitive = true;
        } else if args[2] == tru {
            case_sensitive = false;
        } else {
            return Err("problem with argument parsing");
        }
        let line_numbers: bool;
        if args[3] == fal {
            line_numbers = false;
        } else if args[3] == tru {
            line_numbers = true;
        } else {
            return Err("problem with argument parsing");
        }
        let query = args[0].clone();
        let filename = args[1].clone();
        Ok(Config { query, filename, case_sensitive, line_numbers })
    }
}

} // verus!
