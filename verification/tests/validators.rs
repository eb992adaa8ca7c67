#![allow(dead_code, unused_imports)]
use rust_args_parser as ap;
use rust_args_parser::{
    CmdHandler, CmdValidator, EnvVars, Error, Matches, OnFlag, OnValue, Token, ValueValidator,
};

#[derive(Default, Debug)]
struct Ctx {
    verbose: u8,
    json: bool,
    jobs: Option<u32>,
    limit: Option<String>,
    input: Option<Token>,
    files: Vec<Token>,
}

struct FlagFn(fn(&mut Ctx) -> Result<(), Error>);

impl OnFlag<Ctx> for FlagFn {
    fn fire(&self, ctx: &mut Ctx) -> Result<(), Error> {
        (self.0)(ctx)
    }
}

struct ValueFn(fn(&Token, &mut Ctx) -> Result<(), Error>);

impl OnValue<Ctx> for ValueFn {
    fn accept(&self, value: &Token, ctx: &mut Ctx) -> Result<(), Error> {
        (self.0)(value, ctx)
    }
}

struct CheckFn(fn(&Token) -> Result<(), Error>);

impl ValueValidator for CheckFn {
    fn check(&self, value: &Token) -> Result<(), Error> {
        (self.0)(value)
    }
}

struct CmdCheckFn(fn(&Matches) -> Result<(), Error>);

impl CmdValidator for CmdCheckFn {
    fn check(&self, m: &Matches) -> Result<(), Error> {
        (self.0)(m)
    }
}

struct RunFn(fn(&Matches, &mut Ctx) -> Result<(), Error>);

impl CmdHandler<Ctx> for RunFn {
    fn run(&self, m: &Matches, ctx: &mut Ctx) -> Result<(), Error> {
        (self.0)(m, ctx)
    }
}

fn flag(f: fn(&mut Ctx) -> Result<(), Error>) -> Box<dyn OnFlag<Ctx>> {
    Box::new(FlagFn(f))
}

fn value(f: fn(&Token, &mut Ctx) -> Result<(), Error>) -> Box<dyn OnValue<Ctx>> {
    Box::new(ValueFn(f))
}

fn check(f: fn(&Token) -> Result<(), Error>) -> Box<dyn ValueValidator> {
    Box::new(CheckFn(f))
}

fn cmd_check(f: fn(&Matches) -> Result<(), Error>) -> Box<dyn CmdValidator> {
    Box::new(CmdCheckFn(f))
}

fn run(f: fn(&Matches, &mut Ctx) -> Result<(), Error>) -> Box<dyn CmdHandler<Ctx>> {
    Box::new(RunFn(f))
}

fn argv(a: &[&str]) -> Vec<Token> {
    a.iter().map(|s| Token::text(s)).collect()
}

fn env_basic() -> ap::Env {
    ap::Env {
        wrap_cols: 80,
        color: ap::ColorMode::Never,
        suggest: true,
        auto_help: true,
        version: Some("0.1.0"),
        author: Some("Testy McTestface <t@example.com>"),
    }
}

fn lossy(t: &Token) -> String {
    t.lossy()
}

fn inc_verbose(c: &mut Ctx) -> Result<(), Error> {
    c.verbose = c.verbose.saturating_add(1);
    Ok(())
}

fn set_json(c: &mut Ctx) -> Result<(), Error> {
    c.json = true;
    Ok(())
}

fn set_jobs(v: &Token, c: &mut Ctx) -> Result<(), Error> {
    c.jobs = Some(lossy(v).parse().unwrap());
    Ok(())
}

fn set_limit(v: &Token, c: &mut Ctx) -> Result<(), Error> {
    c.limit = Some(lossy(v));
    Ok(())
}

fn set_input(v: &Token, c: &mut Ctx) -> Result<(), Error> {
    c.input = Some(v.clone());
    Ok(())
}

fn push_file(v: &Token, c: &mut Ctx) -> Result<(), Error> {
    c.files.push(v.clone());
    Ok(())
}

fn non_empty(v: &Token) -> Result<(), Error> {
    if v.is_empty() {
        Err(Error::User("empty".to_string()))
    } else {
        Ok(())
    }
}

#[test]
fn option_and_positional_validators() {
    let env = env_basic();
    let root = ap::CmdSpec::new("d")
        .opt(ap::OptSpec::value("name", value(set_limit)).long("name").validator(check(non_empty)))
        .pos(ap::PosSpec::new("FILE", value(push_file)).validator(check(non_empty)));

    // ok
    let mut ctx = Ctx::default();
    ap::parse(&env, &root, &argv(&["--name=a", "f.txt"]), &EnvVars::new(), &mut ctx).unwrap();

    // bad option: an empty inline value of a required option is a missing value
    let mut ctx = Ctx::default();
    let err = ap::parse(&env, &root, &argv(&["--name="]), &EnvVars::new(), &mut ctx).unwrap_err();
    match err {
        ap::Error::MissingValue { opt } => assert_eq!(opt, "--name"),
        _ => panic!("{err:?}"),
    }

    // bad positional
    let mut ctx = Ctx::default();
    let err = ap::parse(&env, &root, &argv(&[""]), &EnvVars::new(), &mut ctx).unwrap_err();
    match err {
        ap::Error::User(msg) => assert!(msg.contains("empty")),
        _ => panic!("{err:?}"),
    }
}

#[test]
fn validator_runs_on_env_before_callbacks() {
    let envv = env_basic();
    let root = ap::CmdSpec::new("t").opt(
        ap::OptSpec::value("name", value(set_limit))
            .long("name")
            .env("APP_NAME")
            .validator(check(non_empty)),
    );

    let mut vars = EnvVars::new();
    vars.set("APP_NAME", Token::text("")); // invalid via validator
    let mut ctx = Ctx::default();
    let err = ap::parse(&envv, &root, &[], &vars, &mut ctx).unwrap_err();
    match err {
        ap::Error::User(msg) => assert!(msg.contains("empty")),
        _ => panic!("{err:?}"),
    }
    assert!(ctx.limit.is_none(), "callback must not fire on invalid env value");
}

#[test]
fn validator_rejects_empty_optional_value() {
    let env = env_basic();
    let root = ap::CmdSpec::new("d").opt(
        ap::OptSpec::value("name", value(set_limit))
            .long("name")
            .optional()
            .validator(check(non_empty)),
    );
    let mut ctx = Ctx::default();
    let err = ap::parse(&env, &root, &argv(&["--name="]), &EnvVars::new(), &mut ctx).unwrap_err();
    match err {
        ap::Error::User(msg) => assert!(msg.contains("empty")),
        _ => panic!("{err:?}"),
    }
    assert!(ctx.limit.is_none());
}

#[test]
fn validator_sees_every_repeated_value() {
    let env = env_basic();
    let root = ap::CmdSpec::new("d").opt(
        ap::OptSpec::value("name", value(set_limit))
            .long("name")
            .optional()
            .repeatable()
            .validator(check(non_empty)),
    );
    let mut ctx = Ctx::default();
    let err = ap::parse(&env, &root, &argv(&["--name=a", "--name="]), &EnvVars::new(), &mut ctx)
        .unwrap_err();
    match err {
        ap::Error::User(msg) => assert_eq!(msg, "empty"),
        _ => panic!("{err:?}"),
    }
    assert!(ctx.limit.is_none());
}

#[test]
fn structural_error_comes_before_any_validator() {
    let env = env_basic();
    let root = ap::CmdSpec::new("d")
        .opt(ap::OptSpec::value("name", value(set_limit)).long("name").validator(check(non_empty)))
        .pos(ap::PosSpec::new("FILE", value(push_file)).required())
        .validator(cmd_check(|_| Err(Error::User("never reached".to_string()))));
    let mut ctx = Ctx::default();
    let err = ap::parse(&env, &root, &argv(&["--name", "x"]), &EnvVars::new(), &mut ctx)
        .unwrap_err();
    match err {
        ap::Error::User(msg) => assert_eq!(msg, "missing required positional"),
        _ => panic!("{err:?}"),
    }
    assert!(ctx.limit.is_none());
}
