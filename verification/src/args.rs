//! The options of the program, read from its arguments.

use vstd::prelude::*;
use vstd::string::StringExecFns;
use crate::util::chars_of;

verus! {

/// What the program was asked to do.
#[derive(Debug, Clone, PartialEq, Eq)]
pub struct Opts {
    pub program_name: String,
    pub base_path: String,
    pub show_hidden: bool,
}

impl Default for Opts {
    fn default() -> (r: Self)
        ensures
            r.program_name@ == Seq::<char>::empty(),
            r.base_path@ == Seq::<char>::empty(),
            !r.show_hidden,
    {
        Opts { program_name: String::new(), base_path: String::new(), show_hidden: false }
    }
}

/// Why the arguments gave no options.
#[derive(Debug, Clone, PartialEq, Eq)]
pub enum ArgError {
    /// There was no argument at all, not even the program's name.
    MissingProgramName,
    /// An argument that starts with a dash and is no flag of the program.
    WrongFlag(String),
    /// `--help` was given: the caller shows the usage and leaves.
    HelpRequested,
}

/// The flag that asks for hidden entries: `-h`.
pub open spec fn is_show_hidden(arg: Seq<char>) -> bool {
    arg =~= seq!['-', 'h']
}

/// The flag that asks for the usage: `--help`.
pub open spec fn is_help(arg: Seq<char>) -> bool {
    arg =~= seq!['-', '-', 'h', 'e', 'l', 'p']
}

/// An argument that starts with a dash.
pub open spec fn is_flag(arg: Seq<char>) -> bool {
    arg.len() > 0 && arg[0] == '-'
}

/// An argument at which reading ends: any flag but `-h`.
pub open spec fn stops(arg: Seq<char>) -> bool {
    is_flag(arg) && !is_show_hidden(arg)
}

/// The last of the arguments `1..upto` that is no flag, or the empty text.
pub open spec fn last_path(args: Seq<Seq<char>>, upto: int) -> Seq<char>
    decreases upto,
{
    if upto <= 1 {
        Seq::empty()
    } else if !is_flag(args[upto - 1]) {
        args[upto - 1]
    } else {
        last_path(args, upto - 1)
    }
}

/// The directory to start in: the last argument that is no flag, or `.`
/// where there is none or it is empty.
pub open spec fn base_path_of(args: Seq<Seq<char>>) -> Seq<char> {
    if last_path(args, args.len() as int).len() == 0 {
        seq!['.']
    } else {
        last_path(args, args.len() as int)
    }
}

/// Whether `-h` is among the arguments after the program's name.
pub open spec fn asks_for_hidden(args: Seq<Seq<char>>) -> bool {
    exists|i: int| 1 <= i < args.len() && is_show_hidden(#[trigger] args[i])
}

/// Whether reading ends at argument `i`, and at none before it.
pub open spec fn is_first_stop(args: Seq<Seq<char>>, i: int) -> bool {
    &&& 1 <= i < args.len()
    &&& stops(args[i])
    &&& forall|j: int| 1 <= j < i ==> !stops(#[trigger] args[j])
}

/// The texts of the arguments.
pub open spec fn texts(args: Seq<String>) -> Seq<Seq<char>> {
    Seq::new(args.len(), |i: int| args[i]@)
}

/// The text that explains how the program is called.
pub open spec fn usage_text() -> Seq<char> {
    "USAGE:\ndirhop [PATH] [FLAGS]\n\n-h show hidden files\n--help show this help message\n"@
}

impl Opts {
    /// Reads the options from the arguments, the first of which is the
    /// program's name. `-h` asks for hidden entries; `--help` and any other
    /// argument with a dash in front end the reading; of the others the last
    /// is the directory to start in.
    pub fn from_args(args: Vec<String>) -> (r: Result<Opts, ArgError>)
        ensures
            match r {
                Ok(opts) => {
                    &&& args@.len() > 0
                    &&& forall|i: int| 1 <= i < args@.len() ==> !stops(#[trigger] texts(args@)[i])
                    &&& opts.program_name@ == args@[0]@
                    &&& opts.show_hidden == asks_for_hidden(texts(args@))
                    &&& opts.base_path@ == base_path_of(texts(args@))
                },
                Err(ArgError::MissingProgramName) => args@.len() == 0,
                Err(ArgError::HelpRequested) => exists|i: int|
                    is_first_stop(texts(args@), i) && is_help(#[trigger] texts(args@)[i]),
                Err(ArgError::WrongFlag(flag)) => exists|i: int|
                    is_first_stop(texts(args@), i) && !is_help(#[trigger] texts(args@)[i])
                        && flag@ == texts(args@)[i],
            },
    {
        if args.len() == 0 {
            return Err(ArgError::MissingProgramName);
        }
        let ghost all = texts(args@);
        let program_name = args[0].clone();
        let mut base_path = String::new();
        let mut show_hidden = false;
        let mut i: usize = 1;
        while i < args.len()
            invariant
                1 <= i <= args@.len(),
                all == texts(args@),
                forall|j: int| 1 <= j < i ==> !stops(#[trigger] all[j]),
                show_hidden == exists|j: int| 1 <= j < i && is_show_hidden(#[trigger] all[j]),
                base_path@ == last_path(all, i as int),
            decreases args@.len() - i,
        {
            let arg = chars_of(args[i].as_str());
            assert(arg@ == all[i as int]);
            if arg.len() == 2 && arg[0] == '-' && arg[1] == 'h' {
                show_hidden = true;
            } else if arg.len() == 6 && arg[0] == '-' && arg[1] == '-' && arg[2] == 'h' && arg[3]
                == 'e' && arg[4] == 'l' && arg[5] == 'p' {
                assert(is_first_stop(all, i as int));
                return Err(ArgError::HelpRequested);
            } else if arg.len() > 0 && arg[0] == '-' {
                assert(is_first_stop(all, i as int));
                return Err(ArgError::WrongFlag(args[i].clone()));
            } else {
                base_path = args[i].clone();
            }
            i += 1;
        }
        if base_path.as_str().is_empty() {
            base_path = String::from_str(".");
            proof {
                reveal_strlit(".");
                assert(base_path@ =~= seq!['.']);
            }
        }
        Ok(Opts { program_name, base_path, show_hidden })
    }
}

impl ArgError {
    /// What went wrong, in words.
    pub fn message(&self) -> (r: String)
        ensures
            r@ == match self {
                ArgError::MissingProgramName => "Couldn't get program name"@,
                ArgError::WrongFlag(flag) => "wrong flag: "@ + flag@,
                ArgError::HelpRequested => "help requested"@,
            },
    {
        match self {
            ArgError::MissingProgramName => String::from_str("Couldn't get program name"),
            ArgError::WrongFlag(flag) => String::from_str("wrong flag: ").concat(flag.as_str()),
            ArgError::HelpRequested => String::from_str("help requested"),
        }
    }
}

/// The text that explains how the program is called.
pub fn usage() -> (r: String)
    ensures
        r@ == usage_text(),
{
    String::from_str(
        "USAGE:\ndirhop [PATH] [FLAGS]\n\n-h show hidden files\n--help show this help message\n",
    )
}

} // verus!
