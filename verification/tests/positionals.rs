#![allow(dead_code, unused_imports)]
use rust_args_parser as ap;
use rust_args_parser::{
    CmdHandler, CmdValidator, EnvVars, Error, Matches, OnFlag, OnValue, Token, ValueValidator,
};

#[derive(Default, Debug)]
struct Ctx {
    verbose: u8,
    json: bool,
    jobs: Option<u32>,
    limit: Option<String>,
    input: Option<Token>,
    files: Vec<Token>,
}

struct FlagFn(fn(&mut Ctx) -> Result<(), Error>);

impl OnFlag<Ctx> for FlagFn {
    fn fire(&self, ctx: &mut Ctx) -> Result<(), Error> {
        (self.0)(ctx)
    }
}

struct ValueFn(fn(&Token, &mut Ctx) -> Result<(), Error>);

impl OnValue<Ctx> for ValueFn {
    fn accept(&self, value: &Token, ctx: &mut Ctx) -> Result<(), Error> {
        (self.0)(value, ctx)
    }
}

struct CheckFn(fn(&Token) -> Result<(), Error>);

impl ValueValidator for CheckFn {
    fn check(&self, value: &Token) -> Result<(), Error> {
        (self.0)(value)
    }
}

struct CmdCheckFn(fn(&Matches) -> Result<(), Error>);

impl CmdValidator for CmdCheckFn {
    fn check(&self, m: &Matches) -> Result<(), Error> {
        (self.0)(m)
    }
}

struct RunFn(fn(&Matches, &mut Ctx) -> Result<(), Error>);

impl CmdHandler<Ctx> for RunFn {
    fn run(&self, m: &Matches, ctx: &mut Ctx) -> Result<(), Error> {
        (self.0)(m, ctx)
    }
}

fn flag(f: fn(&mut Ctx) -> Result<(), Error>) -> Box<dyn OnFlag<Ctx>> {
    Box::new(FlagFn(f))
}

fn value(f: fn(&Token, &mut Ctx) -> Result<(), Error>) -> Box<dyn OnValue<Ctx>> {
    Box::new(ValueFn(f))
}

fn check(f: fn(&Token) -> Result<(), Error>) -> Box<dyn ValueValidator> {
    Box::new(CheckFn(f))
}

fn cmd_check(f: fn(&Matches) -> Result<(), Error>) -> Box<dyn CmdValidator> {
    Box::new(CmdCheckFn(f))
}

fn run(f: fn(&Matches, &mut Ctx) -> Result<(), Error>) -> Box<dyn CmdHandler<Ctx>> {
    Box::new(RunFn(f))
}

fn argv(a: &[&str]) -> Vec<Token> {
    a.iter().map(|s| Token::text(s)).collect()
}

fn env_basic() -> ap::Env {
    ap::Env {
        wrap_cols: 80,
        color: ap::ColorMode::Never,
        suggest: true,
        auto_help: true,
        version: Some("0.1.0"),
        author: Some("Testy McTestface <t@example.com>"),
    }
}

fn lossy(t: &Token) -> String {
    t.lossy()
}

fn inc_verbose(c: &mut Ctx) -> Result<(), Error> {
    c.verbose = c.verbose.saturating_add(1);
    Ok(())
}

fn set_json(c: &mut Ctx) -> Result<(), Error> {
    c.json = true;
    Ok(())
}

fn set_jobs(v: &Token, c: &mut Ctx) -> Result<(), Error> {
    c.jobs = Some(lossy(v).parse().unwrap());
    Ok(())
}

fn set_limit(v: &Token, c: &mut Ctx) -> Result<(), Error> {
    c.limit = Some(lossy(v));
    Ok(())
}

fn set_input(v: &Token, c: &mut Ctx) -> Result<(), Error> {
    c.input = Some(v.clone());
    Ok(())
}

fn push_file(v: &Token, c: &mut Ctx) -> Result<(), Error> {
    c.files.push(v.clone());
    Ok(())
}

#[test]
fn range_min_is_enforced() {
    let env = env_basic();
    let root = ap::CmdSpec::new("d").pos(ap::PosSpec::new("FILE", value(push_file)).range(2, 3));

    let mut ctx = Ctx::default();
    // Only 1 provided: expect an error
    let err = ap::parse(&env, &root, &argv(&["a.txt"]), &EnvVars::new(), &mut ctx).unwrap_err();
    match err {
        ap::Error::User(msg) => assert!(msg.contains("below minimum")),
        _ => panic!("{err:?}"),
    }

    // 2..=3 should succeed
    let mut ctx = Ctx::default();
    ap::parse(&env, &root, &argv(&["a", "b"]), &EnvVars::new(), &mut ctx).unwrap();
    let mut ctx = Ctx::default();
    ap::parse(&env, &root, &argv(&["a", "b", "c"]), &EnvVars::new(), &mut ctx).unwrap();
}

#[test]
fn read_root_and_leaf_scopes() {
    let env = env_basic();
    let root = ap::CmdSpec::new("t")
        .opt(ap::OptSpec::flag("json", flag(set_json)).long("json"))
        .subcmd(ap::CmdSpec::new("sub").pos(ap::PosSpec::new("X", value(push_file))));

    let mut ctx = Ctx::default();
    let m = ap::parse(&env, &root, &argv(&["--json", "sub", "f"]), &EnvVars::new(), &mut ctx)
        .unwrap();

    let rootv = m.at(&[]);
    assert!(rootv.is_set_from("json", ap::Source::Cli));
    let leafv = m.view();
    assert!(leafv.pos_one("X").is_some());
}

#[test]
fn range_boundaries_below_within_and_above() {
    let env = env_basic();
    let root = ap::CmdSpec::new("d").pos(ap::PosSpec::new("FILE", value(push_file)).range(2, 3));

    let err = ap::resolve_args(&env, &root, &argv(&["a"]), &EnvVars::new()).unwrap_err();
    assert_eq!(err.message(), "positional count below minimum");

    let m = ap::resolve_args(&env, &root, &argv(&["a", "b"]), &EnvVars::new()).unwrap();
    assert_eq!(m.get_position("FILE").unwrap(), &[Token::text("a"), Token::text("b")][..]);

    let m = ap::resolve_args(&env, &root, &argv(&["a", "b", "c"]), &EnvVars::new()).unwrap();
    assert_eq!(m.get_position("FILE").unwrap().len(), 3);
    assert_eq!(m.get_position_one("FILE"), Some(&Token::text("a")));

    let err = ap::resolve_args(&env, &root, &argv(&["a", "b", "c", "d"]), &EnvVars::new())
        .unwrap_err();
    match err {
        ap::Error::User(msg) => assert!(msg.contains("too many")),
        _ => panic!("{err:?}"),
    }
}

#[test]
fn missing_required_positional_is_reported() {
    let env = env_basic();
    let root = ap::CmdSpec::new("d").pos(ap::PosSpec::new("FILE", value(push_file)).required());
    let err = ap::resolve_args(&env, &root, &[], &EnvVars::new()).unwrap_err();
    assert_eq!(err.message(), "missing required positional");
}

#[test]
fn token_without_any_slot_is_unexpected() {
    let env = env_basic();
    let root: ap::CmdSpec<'_, Ctx> = ap::CmdSpec::new("d");
    let err = ap::resolve_args(&env, &root, &argv(&["stray"]), &EnvVars::new()).unwrap_err();
    match err {
        ap::Error::UnexpectedPositional { token } => assert_eq!(token, "stray"),
        _ => panic!("{err:?}"),
    }
}

#[test]
fn slots_fill_in_declaration_order() {
    let env = env_basic();
    let root = ap::CmdSpec::new("d")
        .pos(ap::PosSpec::new("A", value(set_input)).required())
        .pos(ap::PosSpec::new("B", value(push_file)).range(1, 2))
        .pos(ap::PosSpec::new("C", value(push_file)).many());
    let mut ctx = Ctx::default();
    let m = ap::parse(&env, &root, &argv(&["1", "2", "3", "4", "5"]), &EnvVars::new(), &mut ctx)
        .unwrap();
    assert_eq!(m.get_position_one("A"), Some(&Token::text("1")));
    assert_eq!(m.get_position("B").unwrap(), &[Token::text("2"), Token::text("3")][..]);
    assert_eq!(m.get_position("C").unwrap(), &[Token::text("4"), Token::text("5")][..]);
    assert_eq!(ctx.input, Some(Token::text("1")));
    assert_eq!(ctx.files.len(), 4);
}

#[test]
fn cardinality_getters() {
    let p = ap::PosSpec::new("A", value(set_input));
    assert_eq!(p.get_cardinality(), ap::PosCardinality::One { required: false });
    assert!(!p.is_required());
    assert!(!p.is_multiple());
    let p = p.required();
    assert!(p.is_required());
    let p = p.many();
    assert!(!p.is_required());
    assert!(p.is_multiple());
    let p = p.range(1, 4).help("files");
    assert_eq!(p.get_cardinality(), ap::PosCardinality::Range { min: 1, max: 4 });
    assert!(p.is_required());
    assert!(p.is_multiple());
    assert_eq!(p.get_help(), Some("files"));
    assert_eq!(p.get_name(), "A");
    assert!(p.get_validator().is_none());
}
