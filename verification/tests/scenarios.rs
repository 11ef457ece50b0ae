use getopt::{compile, getopt, scan, ArgType, Error, GotOpt, Opt, PolicyTable};

fn words(items: &[&str]) -> Vec<String> {
    items.iter().map(|item| item.to_string()).collect()
}

fn plain(switch: char) -> Opt {
    Opt { switch, argument: None }
}

fn with_argument(switch: char, argument: &str) -> Opt {
    Opt { switch, argument: Some(argument.to_string()) }
}

#[test]
fn it_works() {
    let got = getopt(words(&["prog", "-v", "-o", "out.txt", "in.txt"]), "vo:").unwrap();
    assert_eq!(got.opts, vec![plain('v'), with_argument('o', "out.txt")]);
    assert_eq!(got.rest, words(&["in.txt"]));
}

#[test]
fn empty_option_string_is_bad() {
    assert_eq!(compile("").unwrap_err(), Error::BadOptionString);
    assert_eq!(getopt(words(&["prog", "-a"]), ""), Err(Error::BadOptionString));
    assert_eq!(getopt(Vec::new(), ""), Err(Error::BadOptionString));
}

#[test]
fn leading_non_letter_is_bad() {
    for optstring in [":", ":a", "1a", "-a", " a", "_", "::", "?ab"] {
        assert_eq!(compile(optstring).unwrap_err(), Error::BadOptionString, "{optstring:?}");
        assert_eq!(
            getopt(words(&["prog"]), optstring),
            Err(Error::BadOptionString),
            "{optstring:?}"
        );
    }
}

#[test]
fn compiles_the_three_policies() {
    let table = compile("ab:c::").unwrap();
    assert_eq!(table.get('a'), Some(ArgType::NoArg));
    assert_eq!(table.get('b'), Some(ArgType::RequiresArg));
    assert_eq!(table.get('c'), Some(ArgType::AcceptsArg));
    assert_eq!(table.get('d'), None);
    assert_eq!(table.get(':'), None);
}

#[test]
fn switch_without_argument() {
    let got = getopt(words(&["prog", "-a"]), "a").unwrap();
    assert_eq!(got.opts, vec![plain('a')]);
    assert!(got.rest.is_empty());
}

#[test]
fn switch_with_required_argument() {
    let got = getopt(words(&["prog", "-b", "val"]), "b:").unwrap();
    assert_eq!(got.opts, vec![with_argument('b', "val")]);
    assert!(got.rest.is_empty());
}

#[test]
fn required_argument_missing() {
    assert_eq!(getopt(words(&["prog", "-b"]), "b:"), Err(Error::MissingArgument('b')));
}

#[test]
fn optional_argument_absent() {
    let got = getopt(words(&["prog", "-c"]), "c::").unwrap();
    assert_eq!(got.opts, vec![plain('c')]);
    assert!(got.rest.is_empty());
}

#[test]
fn unknown_switch() {
    assert_eq!(getopt(words(&["prog", "-x"]), "a"), Err(Error::UnknownSwitch('x')));
}

#[test]
fn cluster_then_rest() {
    let got = getopt(words(&["prog", "-ab", "file.txt"]), "ab").unwrap();
    assert_eq!(got.opts, vec![plain('a'), plain('b')]);
    assert_eq!(got.rest, words(&["file.txt"]));
}

#[test]
fn scan_stops_at_first_plain_argument() {
    let got = getopt(words(&["prog", "file.txt", "-a"]), "a").unwrap();
    assert!(got.opts.is_empty());
    assert_eq!(got.rest, words(&["file.txt", "-a"]));
}

#[test]
fn rest_scans_to_itself() {
    let got = getopt(words(&["prog", "-a", "-b", "x", "file.txt", "-a", "-q"]), "ab:").unwrap();
    assert_eq!(got.rest, words(&["file.txt", "-a", "-q"]));
    for optstring in ["a", "ab:", "q", "z::"] {
        let mut again = words(&["other"]);
        again.extend(got.rest.iter().cloned());
        let second = getopt(again, optstring).unwrap();
        assert!(second.opts.is_empty(), "{optstring:?}");
        assert_eq!(second.rest, got.rest, "{optstring:?}");
    }
    let nothing_left = getopt(words(&["prog", "-a"]), "a").unwrap();
    let second = getopt(words(&["prog"]), "b").unwrap();
    assert_eq!(second, GotOpt { opts: Vec::new(), rest: nothing_left.rest });
}

#[test]
fn optional_argument_present() {
    let got = getopt(words(&["prog", "-c", "val", "more"]), "c::").unwrap();
    assert_eq!(got.opts, vec![with_argument('c', "val")]);
    assert_eq!(got.rest, words(&["more"]));
}

#[test]
fn dash_token_is_no_argument() {
    assert_eq!(getopt(words(&["prog", "-b", "-a"]), "ab:"), Err(Error::MissingArgument('b')));
    let got = getopt(words(&["prog", "-c", "-a"]), "ac::").unwrap();
    assert_eq!(got.opts, vec![plain('c'), plain('a')]);
    assert!(got.rest.is_empty());
}

#[test]
fn arguments_come_from_following_tokens_not_the_cluster() {
    let got = getopt(words(&["prog", "-ab", "val"]), "a:b").unwrap();
    assert_eq!(got.opts, vec![with_argument('a', "val"), plain('b')]);
    assert!(got.rest.is_empty());

    let got = getopt(words(&["prog", "-ab", "x", "y", "z"]), "a:b:").unwrap();
    assert_eq!(got.opts, vec![with_argument('a', "x"), with_argument('b', "y")]);
    assert_eq!(got.rest, words(&["z"]));

    let got = getopt(words(&["prog", "-bfoo"]), "b::f:o").unwrap_err();
    assert_eq!(got, Error::MissingArgument('f'));
}

#[test]
fn an_argument_is_used_once() {
    assert_eq!(getopt(words(&["prog", "-ab", "x"]), "a:b:"), Err(Error::MissingArgument('b')));
    let got = getopt(words(&["prog", "-ab", "x"]), "a::b::").unwrap();
    assert_eq!(got.opts, vec![with_argument('a', "x"), plain('b')]);
    assert!(got.rest.is_empty());
}

#[test]
fn lone_dash_is_an_empty_cluster() {
    let got = getopt(words(&["prog", "-", "-a", "-", "file"]), "a").unwrap();
    assert_eq!(got.opts, vec![plain('a')]);
    assert_eq!(got.rest, words(&["file"]));
    let got = getopt(words(&["prog", "-"]), "a").unwrap();
    assert!(got.opts.is_empty());
    assert!(got.rest.is_empty());
}

#[test]
fn double_dash_names_the_switch_dash() {
    assert_eq!(getopt(words(&["prog", "--"]), "a"), Err(Error::UnknownSwitch('-')));
    assert_eq!(getopt(words(&["prog", "--a"]), "a"), Err(Error::UnknownSwitch('-')));
}

#[test]
fn failure_discards_what_was_found() {
    assert_eq!(
        getopt(words(&["prog", "-a", "-b", "v", "-ax", "rest"]), "ab:"),
        Err(Error::UnknownSwitch('x'))
    );
    assert_eq!(getopt(words(&["prog", "-a", "-ab"]), "ab:"), Err(Error::MissingArgument('b')));
}

#[test]
fn first_failure_is_reported() {
    assert_eq!(getopt(words(&["prog", "-xb"]), "b:"), Err(Error::UnknownSwitch('x')));
    assert_eq!(getopt(words(&["prog", "-bx"]), "b:"), Err(Error::MissingArgument('b')));
}

#[test]
fn switches_after_the_rest_begins_are_not_checked() {
    let got = getopt(words(&["prog", "-a", "stop", "-x", "-b"]), "ab:").unwrap();
    assert_eq!(got.opts, vec![plain('a')]);
    assert_eq!(got.rest, words(&["stop", "-x", "-b"]));
}

#[test]
fn first_argument_is_passed_over_unread() {
    let got = getopt(words(&["-x", "-a"]), "a").unwrap();
    assert_eq!(got.opts, vec![plain('a')]);
    assert!(got.rest.is_empty());
    let got = getopt(words(&["", "file"]), "a").unwrap();
    assert!(got.opts.is_empty());
    assert_eq!(got.rest, words(&["file"]));
}

#[test]
fn no_arguments_at_all() {
    let got = getopt(Vec::new(), "a").unwrap();
    assert_eq!(got, GotOpt { opts: Vec::new(), rest: Vec::new() });
    let got = getopt(words(&["prog"]), "a").unwrap();
    assert_eq!(got, GotOpt { opts: Vec::new(), rest: Vec::new() });
}

#[test]
fn empty_argument_ends_the_scan() {
    let got = getopt(words(&["prog", "-a", "", "-a"]), "a").unwrap();
    assert_eq!(got.opts, vec![plain('a')]);
    assert_eq!(got.rest, words(&["", "-a"]));
    let got = getopt(words(&["prog", "-b", ""]), "b:").unwrap();
    assert_eq!(got.opts, vec![with_argument('b', "")]);
    assert!(got.rest.is_empty());
}

#[test]
fn repeated_switches_stay_in_order() {
    let got = getopt(words(&["prog", "-b", "1", "-a", "-b", "2", "-aa"]), "ab:").unwrap();
    assert_eq!(
        got.opts,
        vec![
            with_argument('b', "1"),
            plain('a'),
            with_argument('b', "2"),
            plain('a'),
            plain('a'),
        ]
    );
    assert!(got.rest.is_empty());
}

#[test]
fn bad_option_string_comes_before_any_scan_failure() {
    assert_eq!(getopt(words(&["prog", "-x"]), "a:::"), Err(Error::BadOptionString));
    assert_eq!(getopt(words(&["prog", "-b"]), "b:1"), Err(Error::BadOptionString));
}

#[test]
fn scan_against_a_table_built_by_hand() {
    let mut table = PolicyTable::new();
    table.insert('n', ArgType::RequiresArg);
    table.insert('-', ArgType::NoArg);
    let got = scan(words(&["prog", "--n", "5", "tail"]), &table).unwrap();
    assert_eq!(got.opts, vec![plain('-'), with_argument('n', "5")]);
    assert_eq!(got.rest, words(&["tail"]));
    let empty = PolicyTable::new();
    assert_eq!(scan(words(&["prog", "-n"]), &empty), Err(Error::UnknownSwitch('n')));
    let got = scan(words(&["prog", "n"]), &empty).unwrap();
    assert_eq!(got.rest, words(&["n"]));
}

#[test]
fn letters_beyond_ascii_are_switches() {
    let got = getopt(words(&["prog", "-éß", "wert", "datei"]), "éß:").unwrap();
    assert_eq!(got.opts, vec![plain('é'), with_argument('ß', "wert")]);
    assert_eq!(got.rest, words(&["datei"]));
    assert_eq!(getopt(words(&["prog", "-京"]), "京:"), Err(Error::MissingArgument('京')));
}

#[test]
fn arguments_are_drawn_in_order() {
    let args = words(&["prog", "-ab", "x", "-c", "-a", "y", "z", "-b"]);
    let got = getopt(args.clone(), "a:b::c").unwrap();
    assert_eq!(got.rest, words(&["z", "-b"]));
    let mut from = 2;
    for opt in &got.opts {
        if let Some(text) = &opt.argument {
            let end = args.len() - got.rest.len();
            let k = (from..end).find(|k| &args[*k] == text).unwrap();
            from = k + 1;
        }
    }
    assert_eq!(
        got.opts,
        vec![with_argument('a', "x"), plain('b'), plain('c'), with_argument('a', "y")]
    );
}

#[test]
fn found_options_follow_their_policies() {
    let args = words(&["prog", "-ab", "x", "-c", "-a", "y", "z"]);
    let table = compile("a:b::c").unwrap();
    let got = scan(args.clone(), &table).unwrap();
    assert_eq!(got.opts.len(), 4);
    for opt in &got.opts {
        let policy = table.get(opt.switch).unwrap();
        match &opt.argument {
            Some(text) => {
                assert_ne!(policy, ArgType::NoArg);
                assert!(!text.starts_with('-'));
                assert!(args[2..].contains(text));
            }
            None => assert_ne!(policy, ArgType::RequiresArg),
        }
    }
    assert_eq!(got.rest, args[args.len() - got.rest.len()..].to_vec());
    assert!(!got.rest[0].starts_with('-'));
}
