#![allow(dead_code, unused_imports)]
use rust_args_parser as ap;
use rust_args_parser::{
    CmdHandler, CmdValidator, EnvVars, Error, Matches, OnFlag, OnValue, Token, ValueValidator,
};

struct Ctx;

struct FlagFn(fn(&mut Ctx) -> Result<(), Error>);

impl OnFlag<Ctx> for FlagFn {
    fn fire(&self, ctx: &mut Ctx) -> Result<(), Error> {
        (self.0)(ctx)
    }
}

struct ValueFn(fn(&Token, &mut Ctx) -> Result<(), Error>);

impl OnValue<Ctx> for ValueFn {
    fn accept(&self, value: &Token, ctx: &mut Ctx) -> Result<(), Error> {
        (self.0)(value, ctx)
    }
}

struct CheckFn(fn(&Token) -> Result<(), Error>);

impl ValueValidator for CheckFn {
    fn check(&self, value: &Token) -> Result<(), Error> {
        (self.0)(value)
    }
}

struct CmdCheckFn(fn(&Matches) -> Result<(), Error>);

impl CmdValidator for CmdCheckFn {
    fn check(&self, m: &Matches) -> Result<(), Error> {
        (self.0)(m)
    }
}

struct RunFn(fn(&Matches, &mut Ctx) -> Result<(), Error>);

impl CmdHandler<Ctx> for RunFn {
    fn run(&self, m: &Matches, ctx: &mut Ctx) -> Result<(), Error> {
        (self.0)(m, ctx)
    }
}

fn flag(f: fn(&mut Ctx) -> Result<(), Error>) -> Box<dyn OnFlag<Ctx>> {
    Box::new(FlagFn(f))
}

fn value(f: fn(&Token, &mut Ctx) -> Result<(), Error>) -> Box<dyn OnValue<Ctx>> {
    Box::new(ValueFn(f))
}

fn check(f: fn(&Token) -> Result<(), Error>) -> Box<dyn ValueValidator> {
    Box::new(CheckFn(f))
}

fn cmd_check(f: fn(&Matches) -> Result<(), Error>) -> Box<dyn CmdValidator> {
    Box::new(CmdCheckFn(f))
}

fn run(f: fn(&Matches, &mut Ctx) -> Result<(), Error>) -> Box<dyn CmdHandler<Ctx>> {
    Box::new(RunFn(f))
}

fn argv(a: &[&str]) -> Vec<Token> {
    a.iter().map(|s| Token::text(s)).collect()
}


fn plain_env(auto_help: bool) -> ap::Env {
    ap::Env {
        wrap_cols: 80,
        color: ap::ColorMode::Never,
        suggest: true,
        auto_help,
        version: None,
        author: None,
    }
}

#[test]
fn suggests_for_long_typo_help() {
    let env = plain_env(true);
    let root = ap::CmdSpec::new("demo");
    let mut ctx = Ctx;
    let err = ap::parse(&env, &root, &argv(&["--hlep"]), &EnvVars::new(), &mut ctx).unwrap_err();
    match err {
        ap::Error::UnknownOption { token, suggestions } => {
            assert_eq!(token, "--hlep");
            assert!(suggestions.iter().any(|s| s == "--help"));
        }
        _ => panic!("unexpected error: {}", err.message()),
    }
}

#[test]
fn suggests_for_short_typo_upper_lower_case() {
    let env = plain_env(true);
    let root = ap::CmdSpec::new("demo");
    let err = ap::parse(&env, &root, &argv(&["-H"]), &EnvVars::new(), &mut Ctx).unwrap_err();
    match err {
        ap::Error::UnknownOption { token, suggestions } => {
            assert_eq!(token, "-H");
            assert!(suggestions.iter().any(|s| s == "-h"));
        }
        _ => panic!("unexpected error: {}", err.message()),
    }
}

#[test]
fn suggests_for_unknown_command() {
    let env = plain_env(true);
    let root = ap::CmdSpec::new("demo")
        .subcmd(ap::CmdSpec::new("start"))
        .subcmd(ap::CmdSpec::new("status"));
    let err = ap::parse(&env, &root, &argv(&["stat"]), &EnvVars::new(), &mut Ctx).unwrap_err();
    match err {
        ap::Error::UnknownCommand { token, suggestions } => {
            assert_eq!(token, "stat");
            assert!(suggestions.iter().any(|s| s == "start" || s == "status"));
        }
        _ => panic!("unexpected error: {}", err.message()),
    }
}

#[test]
fn long_suggestions_come_from_declared_opts_only() {
    let env = plain_env(false); // built-ins disabled
    let root = ap::CmdSpec::new("demo")
        .opt(
            ap::OptSpec::value("limit", value(|_, _| Ok(())))
                .short('l')
                .long("limit")
                .help("x")
                .optional(),
        )
        .opt(ap::OptSpec::value("lines", value(|_, _| Ok(()))).long("lines").help("x").optional());
    let mut ctx = Ctx;
    let err = ap::parse(&env, &root, &argv(&["--limti"]), &EnvVars::new(), &mut ctx).unwrap_err();
    match err {
        ap::Error::UnknownOption { suggestions, .. } => {
            // should *not* suggest --help, only declared long options
            assert!(!suggestions.is_empty());
            assert!(suggestions.iter().all(|s| s == "--limit" || s == "--lines"));
        }
        _ => panic!("unexpected error"),
    }
}

#[test]
fn builtin_names_are_candidates_only_where_they_are_recognised() {
    let env = ap::Env {
        wrap_cols: 80,
        color: ap::ColorMode::Never,
        suggest: true,
        auto_help: true,
        version: Some("1"),
        author: None,
    };
    let root: ap::CmdSpec<'_, Ctx> = ap::CmdSpec::new("demo").subcmd(ap::CmdSpec::new("sub"));
    let err = ap::resolve_args(&env, &root, &argv(&["--versio"]), &EnvVars::new()).unwrap_err();
    match err {
        ap::Error::UnknownOption { suggestions, .. } => {
            assert_eq!(suggestions, vec!["--version".to_string()])
        }
        _ => panic!("unexpected error"),
    }
    // below the root the version is no built-in
    let err =
        ap::resolve_args(&env, &root, &argv(&["sub", "--versio"]), &EnvVars::new()).unwrap_err();
    match err {
        ap::Error::UnknownOption { suggestions, .. } => assert!(suggestions.is_empty()),
        _ => panic!("unexpected error"),
    }
    let err =
        ap::resolve_args(&env, &root, &argv(&["sub", "--version"]), &EnvVars::new()).unwrap_err();
    match err {
        ap::Error::UnknownOption { token, .. } => assert_eq!(token, "--version"),
        _ => panic!("unexpected error"),
    }
}
