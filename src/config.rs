//! The settings of one search, taken from the command-line arguments.
use vstd::prelude::*;

use crate::mode::{arg_views, determine_case_sensitivity, resolved_ignore_case};

verus! {

/// What to search for, where, and whether case is ignored.
pub struct Config {
    pub query: String,
    pub file_path: String,
    pub ignore_case: bool,
}

impl Config {
    /// Reads the settings from the full argument list (program name first,
    /// then query, then file path, then modifier tokens), given whether the
    /// environment signal is present. Fails when the query or the file path
    /// is missing.
    pub fn build(args: &[String], env_has_ignore_case: bool) -> (r: Result<Config, &'static str>)
        ensures
            r is Err <==> args@.len() < 3,
            r is Err ==> r->Err_0@ == "not enough arguments"@,
            r is Ok ==> {
                let c = r->Ok_0;
                &&& c.query@ == args@[1]@
                &&& c.file_path@ == args@[2]@
                &&& c.ignore_case == resolved_ignore_case(
                    arg_views(args@.skip(3)),
                    env_has_ignore_case,
                )
            },
    {
        if args.len() < 3 {
            return Err("not enough arguments");
        }
        let query = args[1].clone();
        let file_path = args[2].clone();
        let trailing = vstd::slice::slice_subrange(args, 3, args.len());
        assert(trailing@ =~= args@.skip(3));
        let ignore_case = determine_case_sensitivity(trailing, env_has_ignore_case);
        Ok(Config { query, file_path, ignore_case })
    }
}

} // verus!
