#![allow(dead_code, unused_imports)]
use rust_args_parser as ap;
use rust_args_parser::{
    CmdHandler, CmdValidator, EnvVars, Error, Matches, OnFlag, OnValue, Token, ValueValidator,
};

#[derive(Clone, Default, Debug)]
struct Ctx {
    verbose: usize,
    output: Option<String>,
    jobs: Option<String>,
    mode_a: bool,
    mode_b: bool,
    one_a: bool,
    one_b: bool,
    envd: Option<String>,
    defv: Option<String>,
    ran: bool,
    received: Vec<String>,
}

struct FlagFn(fn(&mut Ctx) -> Result<(), Error>);

impl OnFlag<Ctx> for FlagFn {
    fn fire(&self, ctx: &mut Ctx) -> Result<(), Error> {
        (self.0)(ctx)
    }
}

struct ValueFn(fn(&Token, &mut Ctx) -> Result<(), Error>);

impl OnValue<Ctx> for ValueFn {
    fn accept(&self, value: &Token, ctx: &mut Ctx) -> Result<(), Error> {
        (self.0)(value, ctx)
    }
}

struct CheckFn(fn(&Token) -> Result<(), Error>);

impl ValueValidator for CheckFn {
    fn check(&self, value: &Token) -> Result<(), Error> {
        (self.0)(value)
    }
}

struct CmdCheckFn(fn(&Matches) -> Result<(), Error>);

impl CmdValidator for CmdCheckFn {
    fn check(&self, m: &Matches) -> Result<(), Error> {
        (self.0)(m)
    }
}

struct RunFn(fn(&Matches, &mut Ctx) -> Result<(), Error>);

impl CmdHandler<Ctx> for RunFn {
    fn run(&self, m: &Matches, ctx: &mut Ctx) -> Result<(), Error> {
        (self.0)(m, ctx)
    }
}

fn flag(f: fn(&mut Ctx) -> Result<(), Error>) -> Box<dyn OnFlag<Ctx>> {
    Box::new(FlagFn(f))
}

fn value(f: fn(&Token, &mut Ctx) -> Result<(), Error>) -> Box<dyn OnValue<Ctx>> {
    Box::new(ValueFn(f))
}

fn check(f: fn(&Token) -> Result<(), Error>) -> Box<dyn ValueValidator> {
    Box::new(CheckFn(f))
}

fn cmd_check(f: fn(&Matches) -> Result<(), Error>) -> Box<dyn CmdValidator> {
    Box::new(CmdCheckFn(f))
}

fn run(f: fn(&Matches, &mut Ctx) -> Result<(), Error>) -> Box<dyn CmdHandler<Ctx>> {
    Box::new(RunFn(f))
}

fn argv(a: &[&str]) -> Vec<Token> {
    a.iter().map(|s| Token::text(s)).collect()
}

fn cb_verbose(u: &mut Ctx) -> Result<(), Error> {
    u.verbose += 1;
    Ok(())
}

fn cb_output(v: &Token, u: &mut Ctx) -> Result<(), Error> {
    u.output = Some(v.lossy());
    Ok(())
}

fn cb_jobs(v: &Token, u: &mut Ctx) -> Result<(), Error> {
    u.jobs = Some(v.lossy());
    Ok(())
}

fn cb_one_a(u: &mut Ctx) -> Result<(), Error> {
    u.one_a = true;
    Ok(())
}

fn cb_one_b(u: &mut Ctx) -> Result<(), Error> {
    u.one_b = true;
    Ok(())
}

fn cb_envd(v: &Token, u: &mut Ctx) -> Result<(), Error> {
    u.envd = Some(v.lossy());
    Ok(())
}

fn cb_defv(v: &Token, u: &mut Ctx) -> Result<(), Error> {
    u.defv = Some(v.lossy());
    Ok(())
}

fn env_base() -> ap::Env {
    ap::Env {
        wrap_cols: 80,
        color: ap::ColorMode::Never,
        suggest: true,
        auto_help: true,
        version: Some("1.2.3"),
        author: Some("Alice Example"),
    }
}

fn dispatch_to(
    env: &ap::Env,
    root: &ap::CmdSpec<'static, Ctx>,
    args: &[&str],
    u: &mut Ctx,
) -> Result<Matches, Error> {
    ap::parse(env, root, &argv(args), &EnvVars::new(), u)
}

fn run_cb(name: &'static str) -> Box<dyn CmdHandler<Ctx>> {
    match name {
        "X" => run(|m, u: &mut Ctx| {
            u.ran = true;
            u.received = match m.view().pos_many("X") {
                Some(vs) => vs.iter().map(|t| t.lossy()).collect(),
                None => vec![],
            };
            Ok(())
        }),
        "P" => run(|m, u: &mut Ctx| {
            u.ran = true;
            u.received = match m.view().pos_many("P") {
                Some(vs) => vs.iter().map(|t| t.lossy()).collect(),
                None => vec![],
            };
            Ok(())
        }),
        "ARG" => run(|m, u: &mut Ctx| {
            u.ran = true;
            u.received = match m.view().pos_many("ARG") {
                Some(vs) => vs.iter().map(|t| t.lossy()).collect(),
                None => vec![],
            };
            Ok(())
        }),
        _ => run(|_, u: &mut Ctx| {
            u.ran = true;
            Ok(())
        }),
    }
}

#[test]
fn dispatch_into_sub_and_aliases() {
    let env = env_base();
    let mk = || {
        let sub_add = ap::CmdSpec::new("add")
            .handler(run_cb("X"))
            .pos(ap::PosSpec::new("X", value(|_, _| Ok(()))))
            .alias("create")
            .help("add smth");
        let sub_rm = ap::CmdSpec::new("rm")
            .handler(run_cb(""))
            .alias("remove")
            .alias("delete")
            .help("remove smth");
        ap::CmdSpec::new("prog").subcmd(sub_add).subcmd(sub_rm)
    };

    let mut u1 = Ctx::default();
    let r1 = dispatch_to(&env, &mk(), &["add", "42"], &mut u1);
    assert!(r1.is_ok());
    assert!(u1.ran);
    assert_eq!(u1.received, vec!["42"]);

    let mut u2 = Ctx::default();
    let r2 = dispatch_to(&env, &mk(), &["remove"], &mut u2);
    assert!(r2.is_ok());
    assert!(u2.ran);
}

#[test]
fn unknown_command_when_no_positionals() {
    let env = env_base();
    let root = ap::CmdSpec::new("prog")
        .subcmd(ap::CmdSpec::new("add").handler(run_cb("")))
        .subcmd(ap::CmdSpec::new("rm").handler(run_cb("")));

    let mut u = Ctx::default();
    let e = dispatch_to(&env, &root, &["zzz"], &mut u).unwrap_err();
    match e {
        Error::UnknownCommand { token: s, .. } => assert_eq!(s, "zzz"),
        _ => panic!("wrong error"),
    }
}

#[test]
fn bare_token_becomes_positional_when_schema_present() {
    let env = env_base();
    let sub = ap::CmdSpec::new("sub")
        .handler(run_cb("P"))
        .pos(ap::PosSpec::new("P", value(|_, _| Ok(()))).range(0, usize::MAX));
    let root = ap::CmdSpec::new("prog")
        .handler(run_cb("ARG"))
        .subcmd(sub)
        .pos(ap::PosSpec::new("ARG", value(|_, _| Ok(()))).range(0, usize::MAX));

    let mut u = Ctx::default();
    let r = dispatch_to(&env, &root, &["not-a-sub", "more"], &mut u);
    assert!(r.is_ok());
    assert_eq!(u.received, vec!["not-a-sub", "more"]);
}

#[test]
fn unknown_command_once_the_slots_are_full() {
    let env = env_base();
    let root = ap::CmdSpec::new("prog")
        .subcmd(ap::CmdSpec::new("start"))
        .subcmd(ap::CmdSpec::new("status"))
        .pos(ap::PosSpec::new("ARG", value(|_, _| Ok(()))));
    let mut u = Ctx::default();
    let e = dispatch_to(&env, &root, &["first", "stat"], &mut u).unwrap_err();
    match e {
        Error::UnknownCommand { token, suggestions } => {
            assert_eq!(token, "stat");
            assert_eq!(suggestions, vec!["start".to_string(), "status".to_string()]);
        }
        _ => panic!("wrong error"),
    }
    // a token with a dash is no command name: it finds no slot
    let mut u = Ctx::default();
    let e = dispatch_to(&env, &root, &["first", "-"], &mut u).unwrap_err();
    match e {
        Error::User(msg) => assert_eq!(msg, "too many positional arguments"),
        _ => panic!("wrong error"),
    }
}

#[test]
fn command_builders_and_getters() {
    let root: ap::CmdSpec<'static, Ctx> = ap::CmdSpec::new("prog")
        .help("about")
        .alias("p")
        .alias("pr")
        .group("g", ap::GroupMode::Xor)
        .subcmd(ap::CmdSpec::new("a").alias("b"));
    assert_eq!(root.get_name(), "prog");
    assert_eq!(root.get_help(), Some("about"));
    assert_eq!(root.get_aliases(), &["p", "pr"][..]);
    assert_eq!(root.get_groups().len(), 1);
    assert_eq!(root.get_groups()[0].name, "g");
    assert_eq!(root.get_groups()[0].mode, ap::GroupMode::Xor);
    assert_eq!(root.get_subcommands().len(), 1);
    assert!(root.get_opts().is_empty());
    assert!(root.get_positionals().is_empty());
    assert!(root.get_validator().is_none());
    assert!(root.get_handler().is_none());
    assert!(root.answers_to("prog") && root.answers_to("pr") && !root.answers_to("x"));
    let root = root.handler(run_cb("")).validator(cmd_check(|_| Ok(())));
    assert!(root.get_validator().is_some());
    assert!(root.get_handler().is_some());
}
