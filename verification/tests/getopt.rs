use apr::getopt::{Getopt, GetoptResult, Indicator};
use apr::pool::Pool;

fn collect_long(getopt: &mut Getopt, opts: &[apr::getopt::Option]) -> Vec<GetoptResult> {
    let mut got = vec![];
    loop {
        let r = getopt.getopt_long(opts);
        let end = matches!(r, GetoptResult::End);
        got.push(r);
        if end || got.len() > 20 {
            return got;
        }
    }
}

fn describe(r: &GetoptResult) -> String {
    match r {
        GetoptResult::Option(i, a) => format!("opt {:?} {:?}", i, a),
        GetoptResult::MissingArgument(c) => format!("missing {:?}", c),
        GetoptResult::BadOption(c) => format!("bad {:?}", c),
        GetoptResult::End => "end".to_string(),
    }
}

#[test]
fn test_getopt_long() {
    let pool = Pool::new();
    let args = vec!["test", "-a", "-b", "foo", "-c", "bar"];
    let mut getopt = Getopt::new(&args).unwrap();
    assert_eq!(getopt.args(), &args[..]);
    let opts = vec![
        apr::getopt::Option::new(&pool, "a", false, Indicator::Letter('a'), None),
        apr::getopt::Option::new(&pool, "b", true, Indicator::Letter('b'), None),
        apr::getopt::Option::new(&pool, "c", true, Indicator::Letter('c'), None),
    ];
    let mut got = vec![];
    loop {
        match getopt.getopt_long(&opts) {
            GetoptResult::Option(ch, arg) => got.push((ch, arg)),
            GetoptResult::End => break,
            GetoptResult::BadOption(o) => panic!("unexpected option: {}", o),
            GetoptResult::MissingArgument(o) => panic!("missing argument: {}", o),
        }
    }
    assert_eq!(
        got,
        vec![
            (Indicator::Letter('a'), None),
            (Indicator::Letter('b'), Some("foo".to_owned())),
            (Indicator::Letter('c'), Some("bar".to_owned()))
        ]
    );
}

#[test]
fn test_getopt() {
    let args = vec!["test", "-a", "-b", "foo", "-c", "bar"];
    let mut getopt = Getopt::new(&args).unwrap();
    assert_eq!(getopt.args(), &args[..]);
    getopt.allow_interleaving(true);
    getopt.skip_start(1);
    getopt.skip_end(1);
    let mut got = vec![];
    loop {
        match getopt.getopt("ab:c:") {
            GetoptResult::Option(ch, arg) => got.push((ch, arg)),
            GetoptResult::End => break,
            _ => panic!("unexpected result"),
        }
    }

    assert_eq!(
        got,
        vec![
            (Indicator::Letter('a'), None),
            (Indicator::Letter('b'), Some("foo".to_owned())),
            (Indicator::Letter('c'), Some("bar".to_owned()))
        ]
    );
}

#[test]
fn test_getopt_runs_inline_arguments_and_terminator() {
    let args = vec!["prog", "-xvfname", "--", "-a"];
    let mut getopt = Getopt::new(&args).unwrap();
    let chars: &[char] = &['x', 'v', 'f', ':'];
    let mut got = vec![];
    loop {
        let r = getopt.getopt(chars);
        let end = matches!(r, GetoptResult::End);
        got.push(describe(&r));
        if end {
            break;
        }
    }
    assert_eq!(
        got,
        vec![
            "opt Letter('x') None",
            "opt Letter('v') None",
            "opt Letter('f') Some(\"name\")",
            "end"
        ]
    );
}

#[test]
fn test_getopt_errors() {
    let args = vec!["prog", "-q", "-f"];
    let mut getopt = Getopt::new(&args).unwrap();
    assert!(matches!(getopt.getopt("f:"), GetoptResult::BadOption('q')));
    // A missing argument is a bad option unless the list starts with ':'.
    assert!(matches!(getopt.getopt("f:"), GetoptResult::BadOption('f')));
    assert!(matches!(getopt.getopt("f:"), GetoptResult::End));

    let mut getopt = Getopt::new(&args).unwrap();
    assert!(matches!(getopt.getopt(":f:"), GetoptResult::BadOption('q')));
    assert!(matches!(getopt.getopt(":f:"), GetoptResult::MissingArgument('f')));
}

#[test]
fn test_getopt_stops_at_non_option() {
    let args = vec!["prog", "file", "-a"];
    let mut getopt = Getopt::new(&args).unwrap();
    assert!(matches!(getopt.getopt("a"), GetoptResult::End));
}

#[test]
fn test_getopt_long_names_and_interleaving() {
    let pool = Pool::new();
    let args = vec!["prog", "input", "--level=3", "--name", "x", "-v", "rest"];
    let mut getopt = Getopt::new(&args).unwrap();
    getopt.allow_interleaving(true);
    let opts = vec![
        apr::getopt::Option::new(&pool, "level", true, Indicator::Identifier(1), Some("the level")),
        apr::getopt::Option::new(&pool, "name", true, Indicator::Identifier(2), None),
        apr::getopt::Option::new(&pool, "verbose", false, Indicator::Letter('v'), None),
    ];
    assert_eq!(opts[0].name(), "level");
    assert!(opts[0].has_arg());
    assert_eq!(opts[0].optch(), None);
    assert_eq!(opts[2].optch(), Some(b'v'));
    assert_eq!(opts[0].description(), "the level");
    let got: Vec<String> = collect_long(&mut getopt, &opts).iter().map(describe).collect();
    assert_eq!(
        got,
        vec![
            "opt Identifier(1) Some(\"3\")",
            "opt Identifier(2) Some(\"x\")",
            "opt Letter('v') None",
            "end"
        ]
    );
    // The non-option arguments were moved behind the options.
    assert_eq!(
        getopt.args(),
        vec!["prog", "--level=3", "--name", "x", "-v", "input", "rest"]
    );
}

#[test]
fn test_getopt_long_errors() {
    let pool = Pool::new();
    let opts = vec![
        apr::getopt::Option::new(&pool, "flag", false, Indicator::Letter('f'), None),
        apr::getopt::Option::new(&pool, "file", true, Indicator::Letter('F'), None),
    ];
    let args = vec!["prog", "--nope", "--flag=1", "-z", "--file"];
    let mut getopt = Getopt::new(&args).unwrap();
    let got: Vec<String> = (0..4).map(|_| describe(&getopt.getopt_long(&opts))).collect();
    assert_eq!(
        got,
        vec!["bad '\\0'", "missing 'f'", "bad '\\0'", "missing 'F'"]
    );
}

#[test]
fn test_indicator_conversion() {
    assert_eq!(i32::from(Indicator::Sentinel), 0);
    assert_eq!(i32::from(Indicator::Letter('a')), 97);
    assert_eq!(i32::from(Indicator::Identifier(1)), 256);
    assert_eq!(Indicator::from(0), Indicator::Sentinel);
    assert_eq!(Indicator::from(97), Indicator::Letter('a'));
    assert_eq!(Indicator::from(300), Indicator::Identifier(45));
    assert_eq!(Indicator::from(-1), Indicator::Letter('\u{ff}'));
}
