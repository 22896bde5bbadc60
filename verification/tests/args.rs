use dirhop::args::{usage, ArgError, Opts};

fn args(list: &[&str]) -> Vec<String> {
    list.iter().map(|s| s.to_string()).collect()
}

#[test]
fn program_name_alone_gives_the_defaults() {
    let opts = Opts::from_args(args(&["dirhop"])).unwrap();
    assert_eq!(
        opts,
        Opts { program_name: "dirhop".to_string(), base_path: ".".to_string(), show_hidden: false }
    );
}

#[test]
fn path_and_flag_in_any_order() {
    let a = Opts::from_args(args(&["dirhop", "/tmp", "-h"])).unwrap();
    let b = Opts::from_args(args(&["dirhop", "-h", "/tmp"])).unwrap();
    assert_eq!(a, b);
    assert_eq!(a.base_path, "/tmp");
    assert!(a.show_hidden);
    assert_eq!(a.program_name, "dirhop");
}

#[test]
fn the_last_path_wins() {
    let opts = Opts::from_args(args(&["dirhop", "/one", "/two", "-h", "/three"])).unwrap();
    assert_eq!(opts.base_path, "/three");
}

#[test]
fn an_empty_path_stands_for_the_current_directory() {
    let opts = Opts::from_args(args(&["dirhop", "/one", ""])).unwrap();
    assert_eq!(opts.base_path, ".");
    assert!(!opts.show_hidden);
}

#[test]
fn no_arguments_at_all_is_an_error() {
    assert_eq!(Opts::from_args(Vec::new()), Err(ArgError::MissingProgramName));
}

#[test]
fn an_unknown_flag_is_an_error() {
    assert_eq!(
        Opts::from_args(args(&["dirhop", "-x"])),
        Err(ArgError::WrongFlag("-x".to_string()))
    );
    assert_eq!(
        Opts::from_args(args(&["dirhop", "/tmp", "-", "-h"])),
        Err(ArgError::WrongFlag("-".to_string()))
    );
    assert_eq!(
        Opts::from_args(args(&["dirhop", "-hh"])),
        Err(ArgError::WrongFlag("-hh".to_string()))
    );
    assert_eq!(
        Opts::from_args(args(&["dirhop", "--helpme"])),
        Err(ArgError::WrongFlag("--helpme".to_string()))
    );
}

#[test]
fn help_ends_the_reading() {
    assert_eq!(Opts::from_args(args(&["dirhop", "--help"])), Err(ArgError::HelpRequested));
    assert_eq!(
        Opts::from_args(args(&["dirhop", "-h", "--help", "-x"])),
        Err(ArgError::HelpRequested)
    );
    assert_eq!(
        Opts::from_args(args(&["dirhop", "-x", "--help"])),
        Err(ArgError::WrongFlag("-x".to_string()))
    );
}

#[test]
fn the_program_name_is_never_read_as_a_flag() {
    let opts = Opts::from_args(args(&["--help", "-h"])).unwrap();
    assert_eq!(opts.program_name, "--help");
    assert!(opts.show_hidden);
    assert_eq!(opts.base_path, ".");
}

#[test]
fn default_options_are_empty() {
    let opts = Opts::default();
    assert_eq!(opts.program_name, "");
    assert_eq!(opts.base_path, "");
    assert!(!opts.show_hidden);
}

#[test]
fn messages_name_the_fault() {
    assert_eq!(ArgError::MissingProgramName.message(), "Couldn't get program name");
    assert_eq!(ArgError::WrongFlag("-x".to_string()).message(), "wrong flag: -x");
    assert_eq!(ArgError::HelpRequested.message(), "help requested");
}

#[test]
fn usage_lists_the_flags() {
    assert_eq!(
        usage(),
        "USAGE:\ndirhop [PATH] [FLAGS]\n\n-h show hidden files\n--help show this help message\n"
    );
}
