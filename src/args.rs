//! Command-line arguments.
use vstd::prelude::*;

verus! {

/// The configuration path named by the arguments (the program's name
/// first): the argument after `--config` or `-c`, or else the first
/// argument itself. `None` without arguments, or when the flag ends them.
pub fn parse_config_path(args: &[String]) -> (r: Option<String>)
    ensures
        args@.len() < 2 ==> r is None,
        args@.len() >= 2 && (args@[1]@ == "--config"@ || args@[1]@ == "-c"@) ==> {
            if args@.len() >= 3 { (r matches Some(p) && p@ == args@[2]@) } else { r is None }
        },
        args@.len() >= 2 && !(args@[1]@ == "--config"@ || args@[1]@ == "-c"@) ==> (r matches Some(p) && p@ == args@[1]@),
{
    if args.len() < 2 {
        return None;
    }
    let long_flag = "--config".to_owned();
    let short_flag = "-c".to_owned();
    let first = &args[1];
    if *first == long_flag || *first == short_flag {
        if args.len() >= 3 {
            Some(args[2].clone())
        } else {
            None
        }
    } else {
        Some(first.clone())
    }
}

} // verus!
