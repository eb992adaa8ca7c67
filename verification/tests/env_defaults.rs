#![allow(dead_code, unused_imports)]
use rust_args_parser as ap;
use rust_args_parser::{
    CmdHandler, CmdValidator, EnvVars, Error, Matches, OnFlag, OnValue, Token, ValueValidator,
};

#[derive(Default, Debug)]
struct Ctx {
    verbose: u8,
    json: bool,
    jobs: Option<u32>,
    limit: Option<String>,
    input: Option<Token>,
    files: Vec<Token>,
}

struct FlagFn(fn(&mut Ctx) -> Result<(), Error>);

impl OnFlag<Ctx> for FlagFn {
    fn fire(&self, ctx: &mut Ctx) -> Result<(), Error> {
        (self.0)(ctx)
    }
}

struct ValueFn(fn(&Token, &mut Ctx) -> Result<(), Error>);

impl OnValue<Ctx> for ValueFn {
    fn accept(&self, value: &Token, ctx: &mut Ctx) -> Result<(), Error> {
        (self.0)(value, ctx)
    }
}

struct CheckFn(fn(&Token) -> Result<(), Error>);

impl ValueValidator for CheckFn {
    fn check(&self, value: &Token) -> Result<(), Error> {
        (self.0)(value)
    }
}

struct CmdCheckFn(fn(&Matches) -> Result<(), Error>);

impl CmdValidator for CmdCheckFn {
    fn check(&self, m: &Matches) -> Result<(), Error> {
        (self.0)(m)
    }
}

struct RunFn(fn(&Matches, &mut Ctx) -> Result<(), Error>);

impl CmdHandler<Ctx> for RunFn {
    fn run(&self, m: &Matches, ctx: &mut Ctx) -> Result<(), Error> {
        (self.0)(m, ctx)
    }
}

fn flag(f: fn(&mut Ctx) -> Result<(), Error>) -> Box<dyn OnFlag<Ctx>> {
    Box::new(FlagFn(f))
}

fn value(f: fn(&Token, &mut Ctx) -> Result<(), Error>) -> Box<dyn OnValue<Ctx>> {
    Box::new(ValueFn(f))
}

fn check(f: fn(&Token) -> Result<(), Error>) -> Box<dyn ValueValidator> {
    Box::new(CheckFn(f))
}

fn cmd_check(f: fn(&Matches) -> Result<(), Error>) -> Box<dyn CmdValidator> {
    Box::new(CmdCheckFn(f))
}

fn run(f: fn(&Matches, &mut Ctx) -> Result<(), Error>) -> Box<dyn CmdHandler<Ctx>> {
    Box::new(RunFn(f))
}

fn argv(a: &[&str]) -> Vec<Token> {
    a.iter().map(|s| Token::text(s)).collect()
}

fn env_basic() -> ap::Env {
    ap::Env {
        wrap_cols: 80,
        color: ap::ColorMode::Never,
        suggest: true,
        auto_help: true,
        version: Some("0.1.0"),
        author: Some("Testy McTestface <t@example.com>"),
    }
}

fn lossy(t: &Token) -> String {
    t.lossy()
}

fn inc_verbose(c: &mut Ctx) -> Result<(), Error> {
    c.verbose = c.verbose.saturating_add(1);
    Ok(())
}

fn set_json(c: &mut Ctx) -> Result<(), Error> {
    c.json = true;
    Ok(())
}

fn set_jobs(v: &Token, c: &mut Ctx) -> Result<(), Error> {
    c.jobs = Some(lossy(v).parse().unwrap());
    Ok(())
}

fn set_limit(v: &Token, c: &mut Ctx) -> Result<(), Error> {
    c.limit = Some(lossy(v));
    Ok(())
}

fn set_input(v: &Token, c: &mut Ctx) -> Result<(), Error> {
    c.input = Some(v.clone());
    Ok(())
}

fn push_file(v: &Token, c: &mut Ctx) -> Result<(), Error> {
    c.files.push(v.clone());
    Ok(())
}

#[test]
fn cli_over_env_over_default() {
    let envv = env_basic();
    let root = ap::CmdSpec::new("d")
        .opt(ap::OptSpec::flag("json", flag(set_json)).long("json").env("APP_JSON"))
        .opt(
            ap::OptSpec::value("limit", value(set_limit))
                .long("limit")
                .default_os(Token::text("42")),
        );

    // default applied
    let mut ctx = Ctx::default();
    let m = ap::parse(&envv, &root, &[], &EnvVars::new(), &mut ctx).unwrap();
    assert_eq!(ctx.limit.as_deref(), Some("42"));
    assert!(m.is_set_from("limit", ap::Source::Default));

    // env overrides default
    let mut vars = EnvVars::new();
    vars.set("APP_JSON", Token::text("1"));
    vars.set("APP_LIMIT", Token::text("100")); // just to confirm it doesn't matter when not bound
    let mut ctx = Ctx::default();
    let m = ap::parse(&envv, &root, &[], &vars, &mut ctx).unwrap();
    assert!(ctx.json);
    assert!(m.is_set_from("json", ap::Source::Env));

    // CLI overrides env
    let mut ctx = Ctx::default();
    let argv = argv(&["--limit", "5"]);
    let m = ap::parse(&envv, &root, &argv, &vars, &mut ctx).unwrap();
    assert_eq!(ctx.limit.as_deref(), Some("5"));
    assert!(m.is_set_from("limit", ap::Source::Cli));
}

#[test]
fn all_three_tiers_resolve_to_the_command_line() {
    let envv = env_basic();
    let root = ap::CmdSpec::new("d").opt(
        ap::OptSpec::value("limit", value(set_limit))
            .long("limit")
            .env("LIMIT")
            .default_os(Token::text("42")),
    );
    let mut vars = EnvVars::new();
    vars.set("LIMIT", Token::text("99"));
    let mut ctx = Ctx::default();
    let m = ap::parse(&envv, &root, &argv(&["--limit=5"]), &vars, &mut ctx).unwrap();
    assert_eq!(m.get_value("limit"), Some(&Token::text("5")));
    assert!(m.is_set_from("limit", ap::Source::Cli));
    assert!(!m.is_set_from("limit", ap::Source::Env));
    assert_eq!(ctx.limit.as_deref(), Some("5"));
}

#[test]
fn precedence_holds_below_the_root_where_the_overlay_runs_first() {
    let envv = env_basic();
    let root = ap::CmdSpec::new("d").subcmd(
        ap::CmdSpec::new("sub").opt(
            ap::OptSpec::value("limit", value(set_limit))
                .long("limit")
                .env("LIMIT")
                .default_os(Token::text("42"))
                .repeatable(),
        ),
    );
    let mut vars = EnvVars::new();
    vars.set("LIMIT", Token::text("99"));

    // Without a token the environment wins over the default.
    let m = ap::resolve_args(&envv, &root, &argv(&["sub"]), &vars).unwrap();
    assert_eq!(m.get_value("limit"), Some(&Token::text("99")));
    assert!(m.is_set_from("limit", ap::Source::Env));

    // With tokens only the values of the command line are kept.
    let m = ap::resolve_args(&envv, &root, &argv(&["sub", "--limit", "5", "--limit=6"]), &vars)
        .unwrap();
    assert_eq!(m.get_values("limit").unwrap(), &[Token::text("5"), Token::text("6")][..]);
    assert!(m.is_set_from("limit", ap::Source::Cli));
}

#[test]
fn environment_binds_a_flag_once() {
    let envv = env_basic();
    let root = ap::CmdSpec::new("d")
        .opt(ap::OptSpec::flag("json", flag(inc_verbose)).long("json").env("APP_JSON"));
    let mut vars = EnvVars::new();
    vars.set("APP_JSON", Token::text("anything"));
    let mut ctx = Ctx::default();
    let m = ap::parse(&envv, &root, &[], &vars, &mut ctx).unwrap();
    assert_eq!(m.flag_count("json"), 1);
    assert_eq!(ctx.verbose, 1);
}
