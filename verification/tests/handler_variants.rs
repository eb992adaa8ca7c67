#![allow(dead_code, unused_imports)]
use rust_args_parser as ap;
use rust_args_parser::{
    CmdHandler, CmdValidator, EnvVars, Error, Matches, OnFlag, OnValue, Token, ValueValidator,
};

#[derive(Default, Debug)]
struct Ctx {
    verbose: u8,
    json: bool,
    jobs: Option<u32>,
    limit: Option<String>,
    input: Option<Token>,
    files: Vec<Token>,
}

struct FlagFn(fn(&mut Ctx) -> Result<(), Error>);

impl OnFlag<Ctx> for FlagFn {
    fn fire(&self, ctx: &mut Ctx) -> Result<(), Error> {
        (self.0)(ctx)
    }
}

struct ValueFn(fn(&Token, &mut Ctx) -> Result<(), Error>);

impl OnValue<Ctx> for ValueFn {
    fn accept(&self, value: &Token, ctx: &mut Ctx) -> Result<(), Error> {
        (self.0)(value, ctx)
    }
}

struct CheckFn(fn(&Token) -> Result<(), Error>);

impl ValueValidator for CheckFn {
    fn check(&self, value: &Token) -> Result<(), Error> {
        (self.0)(value)
    }
}

struct CmdCheckFn(fn(&Matches) -> Result<(), Error>);

impl CmdValidator for CmdCheckFn {
    fn check(&self, m: &Matches) -> Result<(), Error> {
        (self.0)(m)
    }
}

struct RunFn(fn(&Matches, &mut Ctx) -> Result<(), Error>);

impl CmdHandler<Ctx> for RunFn {
    fn run(&self, m: &Matches, ctx: &mut Ctx) -> Result<(), Error> {
        (self.0)(m, ctx)
    }
}

fn flag(f: fn(&mut Ctx) -> Result<(), Error>) -> Box<dyn OnFlag<Ctx>> {
    Box::new(FlagFn(f))
}

fn value(f: fn(&Token, &mut Ctx) -> Result<(), Error>) -> Box<dyn OnValue<Ctx>> {
    Box::new(ValueFn(f))
}

fn check(f: fn(&Token) -> Result<(), Error>) -> Box<dyn ValueValidator> {
    Box::new(CheckFn(f))
}

fn cmd_check(f: fn(&Matches) -> Result<(), Error>) -> Box<dyn CmdValidator> {
    Box::new(CmdCheckFn(f))
}

fn run(f: fn(&Matches, &mut Ctx) -> Result<(), Error>) -> Box<dyn CmdHandler<Ctx>> {
    Box::new(RunFn(f))
}

fn argv(a: &[&str]) -> Vec<Token> {
    a.iter().map(|s| Token::text(s)).collect()
}

fn env_basic() -> ap::Env {
    ap::Env {
        wrap_cols: 80,
        color: ap::ColorMode::Never,
        suggest: true,
        auto_help: true,
        version: Some("0.1.0"),
        author: Some("Testy McTestface <t@example.com>"),
    }
}

fn lossy(t: &Token) -> String {
    t.lossy()
}

fn inc_verbose(c: &mut Ctx) -> Result<(), Error> {
    c.verbose = c.verbose.saturating_add(1);
    Ok(())
}

fn set_json(c: &mut Ctx) -> Result<(), Error> {
    c.json = true;
    Ok(())
}

fn set_jobs(v: &Token, c: &mut Ctx) -> Result<(), Error> {
    c.jobs = Some(lossy(v).parse().unwrap());
    Ok(())
}

fn set_limit(v: &Token, c: &mut Ctx) -> Result<(), Error> {
    c.limit = Some(lossy(v));
    Ok(())
}

fn set_input(v: &Token, c: &mut Ctx) -> Result<(), Error> {
    c.input = Some(v.clone());
    Ok(())
}

fn push_file(v: &Token, c: &mut Ctx) -> Result<(), Error> {
    c.files.push(v.clone());
    Ok(())
}

struct AppErr(&'static str);

impl ap::UserError for AppErr {
    fn kind(&self) -> String {
        "AppErr".to_string()
    }

    fn describe(&self) -> String {
        self.0.to_string()
    }
}

fn app_err(e: &Error) -> &str {
    match e {
        ap::Error::UserAny(f) => {
            assert_eq!(f.kind, "AppErr");
            f.message.as_str()
        }
        other => panic!("unexpected: {other:?}"),
    }
}

#[test]
fn cmd_validator_and_handler_variants() {
    let env = env_basic();

    // validator with a message => Error::User
    let root = ap::CmdSpec::new("t").validator(cmd_check(|_| Err(Error::User("nope".to_string()))));
    let err = ap::parse(&env, &root, &[], &EnvVars::new(), &mut Ctx::default()).unwrap_err();
    match err {
        ap::Error::User(msg) => assert!(msg.contains("nope")),
        other => panic!("unexpected: {other:?}"),
    }

    // validator with a typed error => Error::UserAny
    let root = ap::CmdSpec::new("t").validator(cmd_check(|_| Err(Error::user(&AppErr("bad")))));
    let err = ap::parse(&env, &root, &[], &EnvVars::new(), &mut Ctx::default()).unwrap_err();
    assert_eq!(app_err(&err), "bad");

    // handler executes on leaf
    let root = ap::CmdSpec::new("t").subcmd(ap::CmdSpec::new("ok").handler(run(
        |_m, ctx: &mut Ctx| {
            ctx.json = true;
            Ok(())
        },
    )));
    let mut ctx = Ctx::default();
    ap::parse(&env, &root, &argv(&["ok"]), &EnvVars::new(), &mut ctx).unwrap();
    assert!(ctx.json);

    // handler with a typed error => Error::UserAny
    let root = ap::CmdSpec::new("t")
        .subcmd(ap::CmdSpec::new("fail").handler(run(|_m, _ctx| Err(Error::user(&AppErr("boom"))))));
    let err = ap::parse(&env, &root, &argv(&["fail"]), &EnvVars::new(), &mut Ctx::default())
        .unwrap_err();
    assert_eq!(app_err(&err), "boom");
}

#[test]
fn opt_flag_and_value_variants() {
    let env = env_basic();

    // flag/value
    let root = ap::CmdSpec::new("t")
        .opt(ap::OptSpec::flag("json", flag(set_json)).long("json"))
        .opt(ap::OptSpec::value("limit", value(set_limit)).long("limit"));
    let mut ctx = Ctx::default();
    ap::parse(&env, &root, &argv(&["--json", "--limit", "5"]), &EnvVars::new(), &mut ctx).unwrap();
    assert!(ctx.json);
    assert_eq!(ctx.limit.as_deref(), Some("5"));

    // flag with a typed error => Error::UserAny
    let root = ap::CmdSpec::new("t")
        .opt(ap::OptSpec::flag("json", flag(|_| Err(Error::user(&AppErr("no-json"))))).long("json"));
    let err = ap::parse(&env, &root, &argv(&["--json"]), &EnvVars::new(), &mut Ctx::default())
        .unwrap_err();
    assert_eq!(app_err(&err), "no-json");

    // value with a typed error => Error::UserAny
    let root = ap::CmdSpec::new("t").opt(
        ap::OptSpec::value("limit", value(|_, _| Err(Error::user(&AppErr("no-limit")))))
            .long("limit"),
    );
    let err =
        ap::parse(&env, &root, &argv(&["--limit", "5"]), &EnvVars::new(), &mut Ctx::default())
            .unwrap_err();
    assert_eq!(app_err(&err), "no-limit");
}

#[test]
fn pos_new_and_new_try_variants() {
    let env = env_basic();

    let root = ap::CmdSpec::new("t").pos(ap::PosSpec::new("FILE", value(push_file)));
    let mut ctx = Ctx::default();
    ap::parse(&env, &root, &argv(&["a.txt"]), &EnvVars::new(), &mut ctx).unwrap();
    assert_eq!(ctx.files, vec![Token::text("a.txt")]);

    // positional with a typed error => Error::UserAny
    let root = ap::CmdSpec::new("t")
        .pos(ap::PosSpec::new("FILE", value(|_, _| Err(Error::user(&AppErr("no-file"))))));
    let err = ap::parse(&env, &root, &argv(&["a.txt"]), &EnvVars::new(), &mut Ctx::default())
        .unwrap_err();
    assert_eq!(app_err(&err), "no-file");
}

#[test]
fn only_the_handler_of_the_selected_command_runs() {
    let env = env_basic();
    let root = ap::CmdSpec::new("t")
        .handler(run(|_, c: &mut Ctx| {
            c.limit = Some("root".to_string());
            Ok(())
        }))
        .subcmd(ap::CmdSpec::new("sub").handler(run(|m, c: &mut Ctx| {
            c.limit = Some(m.leaf_path().join("/"));
            Ok(())
        })));
    let mut ctx = Ctx::default();
    ap::parse(&env, &root, &argv(&["sub"]), &EnvVars::new(), &mut ctx).unwrap();
    assert_eq!(ctx.limit.as_deref(), Some("sub"));
    let mut ctx = Ctx::default();
    ap::parse(&env, &root, &[], &EnvVars::new(), &mut ctx).unwrap();
    assert_eq!(ctx.limit.as_deref(), Some("root"));
}

#[test]
fn callbacks_of_a_level_run_before_the_next_level_is_validated() {
    let env = env_basic();
    let root = ap::CmdSpec::new("t")
        .opt(ap::OptSpec::flag("json", flag(set_json)).long("json"))
        .subcmd(ap::CmdSpec::new("sub").pos(ap::PosSpec::new("F", value(push_file)).required()));
    let mut ctx = Ctx::default();
    let err = ap::parse(&env, &root, &argv(&["--json", "sub"]), &EnvVars::new(), &mut ctx)
        .unwrap_err();
    assert_eq!(err.message(), "missing required positional");
    // the root level was complete, so its callback has fired
    assert!(ctx.json);
}

#[test]
fn failure_of_the_scan_fires_no_callback() {
    let env = env_basic();
    let root = ap::CmdSpec::new("t").opt(ap::OptSpec::flag("json", flag(set_json)).long("json"));
    let mut ctx = Ctx::default();
    let err = ap::parse(&env, &root, &argv(&["--json", "--nope"]), &EnvVars::new(), &mut ctx)
        .unwrap_err();
    assert!(matches!(err, ap::Error::UnknownOption { .. }));
    assert!(!ctx.json);
}
