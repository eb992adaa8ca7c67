#![allow(dead_code, unused_imports)]
use rust_args_parser as ap;
use rust_args_parser::{
    CmdHandler, CmdValidator, EnvVars, Error, Matches, OnFlag, OnValue, Token, ValueValidator,
};

#[derive(Default, Debug)]
struct Ctx {
    verbose: u8,
    json: bool,
    jobs: Option<u32>,
    limit: Option<String>,
    input: Option<Token>,
    files: Vec<Token>,
}

struct FlagFn(fn(&mut Ctx) -> Result<(), Error>);

impl OnFlag<Ctx> for FlagFn {
    fn fire(&self, ctx: &mut Ctx) -> Result<(), Error> {
        (self.0)(ctx)
    }
}

struct ValueFn(fn(&Token, &mut Ctx) -> Result<(), Error>);

impl OnValue<Ctx> for ValueFn {
    fn accept(&self, value: &Token, ctx: &mut Ctx) -> Result<(), Error> {
        (self.0)(value, ctx)
    }
}

struct CheckFn(fn(&Token) -> Result<(), Error>);

impl ValueValidator for CheckFn {
    fn check(&self, value: &Token) -> Result<(), Error> {
        (self.0)(value)
    }
}

struct CmdCheckFn(fn(&Matches) -> Result<(), Error>);

impl CmdValidator for CmdCheckFn {
    fn check(&self, m: &Matches) -> Result<(), Error> {
        (self.0)(m)
    }
}

struct RunFn(fn(&Matches, &mut Ctx) -> Result<(), Error>);

impl CmdHandler<Ctx> for RunFn {
    fn run(&self, m: &Matches, ctx: &mut Ctx) -> Result<(), Error> {
        (self.0)(m, ctx)
    }
}

fn flag(f: fn(&mut Ctx) -> Result<(), Error>) -> Box<dyn OnFlag<Ctx>> {
    Box::new(FlagFn(f))
}

fn value(f: fn(&Token, &mut Ctx) -> Result<(), Error>) -> Box<dyn OnValue<Ctx>> {
    Box::new(ValueFn(f))
}

fn check(f: fn(&Token) -> Result<(), Error>) -> Box<dyn ValueValidator> {
    Box::new(CheckFn(f))
}

fn cmd_check(f: fn(&Matches) -> Result<(), Error>) -> Box<dyn CmdValidator> {
    Box::new(CmdCheckFn(f))
}

fn run(f: fn(&Matches, &mut Ctx) -> Result<(), Error>) -> Box<dyn CmdHandler<Ctx>> {
    Box::new(RunFn(f))
}

fn argv(a: &[&str]) -> Vec<Token> {
    a.iter().map(|s| Token::text(s)).collect()
}

fn env_basic() -> ap::Env {
    ap::Env {
        wrap_cols: 80,
        color: ap::ColorMode::Never,
        suggest: true,
        auto_help: true,
        version: Some("0.1.0"),
        author: Some("Testy McTestface <t@example.com>"),
    }
}

fn lossy(t: &Token) -> String {
    t.lossy()
}

fn inc_verbose(c: &mut Ctx) -> Result<(), Error> {
    c.verbose = c.verbose.saturating_add(1);
    Ok(())
}

fn set_json(c: &mut Ctx) -> Result<(), Error> {
    c.json = true;
    Ok(())
}

fn set_jobs(v: &Token, c: &mut Ctx) -> Result<(), Error> {
    c.jobs = Some(lossy(v).parse().unwrap());
    Ok(())
}

fn set_limit(v: &Token, c: &mut Ctx) -> Result<(), Error> {
    c.limit = Some(lossy(v));
    Ok(())
}

fn set_input(v: &Token, c: &mut Ctx) -> Result<(), Error> {
    c.input = Some(v.clone());
    Ok(())
}

fn push_file(v: &Token, c: &mut Ctx) -> Result<(), Error> {
    c.files.push(v.clone());
    Ok(())
}

#[test]
fn help_and_version_exit_zero() {
    let env = env_basic();
    let root = ap::CmdSpec::new("t")
        .help("T")
        .opt(ap::OptSpec::flag("verbose", flag(inc_verbose)).short('v'));

    let err = ap::parse(&env, &root, &argv(&["-h"]), &EnvVars::new(), &mut Ctx::default())
        .unwrap_err();
    match err {
        ap::Error::ExitMsg { code, .. } => assert_eq!(code, 0),
        _ => panic!("{err:?}"),
    }

    let err = ap::parse(&env, &root, &argv(&["--version"]), &EnvVars::new(), &mut Ctx::default())
        .unwrap_err();
    match err {
        ap::Error::ExitMsg { code, .. } => assert_eq!(code, 0),
        _ => panic!("{err:?}"),
    }
}

#[test]
fn version_and_author_printed() {
    let env = ap::Env {
        wrap_cols: 80,
        color: ap::ColorMode::Never,
        suggest: true,
        auto_help: true,
        version: Some("1.2.3"),
        author: Some("Alice Example"),
    };
    let mk = || {
        ap::CmdSpec::new("prog")
            .opt(ap::OptSpec::flag("verbose", flag(inc_verbose)).short('v'))
            .opt(ap::OptSpec::value("output", value(set_limit)).short('o').metavar("FILE"))
            .pos(ap::PosSpec::new("INPUT", value(set_input)).required())
            .pos(ap::PosSpec::new("EXTRA", value(push_file)).range(0, usize::MAX))
    };
    for (tok, text) in [
        ("--version", "1.2.3"),
        ("-V", "1.2.3"),
        ("--author", "Alice Example"),
        ("-A", "Alice Example"),
    ] {
        let mut ctx = Ctx::default();
        match ap::parse(&env, &mk(), &argv(&[tok]), &EnvVars::new(), &mut ctx) {
            Err(ap::Error::ExitMsg { code: 0, message }) => {
                assert_eq!(message.as_deref(), Some(text))
            }
            other => panic!("expected an exit for {tok}, got {other:?}"),
        }
    }
}

#[test]
fn builtins_are_not_recognised_after_the_end_of_options() {
    let env = env_basic();
    let root = ap::CmdSpec::new("t").pos(ap::PosSpec::new("F", value(push_file)).many());
    let mut ctx = Ctx::default();
    ap::parse(&env, &root, &argv(&["--", "-h", "--version"]), &EnvVars::new(), &mut ctx).unwrap();
    assert_eq!(ctx.files, vec![Token::text("-h"), Token::text("--version")]);
}

#[test]
fn version_is_a_builtin_at_the_root_only_and_only_if_set() {
    let mut env = env_basic();
    let root = ap::CmdSpec::new("t")
        .subcmd(ap::CmdSpec::new("sub").opt(ap::OptSpec::flag("V", flag(inc_verbose)).short('V')));
    let mut ctx = Ctx::default();
    let m = ap::parse(&env, &root, &argv(&["sub", "-V"]), &EnvVars::new(), &mut ctx).unwrap();
    assert_eq!(m.flag_count("V"), 1);
    env.version = None;
    let err = ap::resolve_args(&env, &root, &argv(&["-V"]), &EnvVars::new()).unwrap_err();
    match err {
        ap::Error::UnknownOption { token, .. } => assert_eq!(token, "-V"),
        _ => panic!("{err:?}"),
    }
    env.auto_help = false;
    let err = ap::resolve_args(&env, &root, &argv(&["--help"]), &EnvVars::new()).unwrap_err();
    match err {
        ap::Error::UnknownOption { token, .. } => assert_eq!(token, "--help"),
        _ => panic!("{err:?}"),
    }
}

#[test]
fn help_wins_over_a_declared_option_of_the_same_form() {
    let env = env_basic();
    let root = ap::CmdSpec::new("t").opt(ap::OptSpec::flag("h", flag(inc_verbose)).short('h'));
    let mut ctx = Ctx::default();
    let err = ap::parse(&env, &root, &argv(&["-h"]), &EnvVars::new(), &mut ctx).unwrap_err();
    assert!(matches!(err, ap::Error::ExitMsg { code: 0, .. }));
    assert_eq!(ctx.verbose, 0);
    // inside a cluster the declared option is meant
    let mut ctx = Ctx::default();
    ap::parse(&env, &root, &argv(&["-hh"]), &EnvVars::new(), &mut ctx).unwrap();
    assert_eq!(ctx.verbose, 2);
}
