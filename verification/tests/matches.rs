#![allow(dead_code, unused_imports)]
use rust_args_parser as ap;
use rust_args_parser::{
    CmdHandler, CmdValidator, EnvVars, Error, Matches, OnFlag, OnValue, Token, ValueValidator,
};

#[derive(Default, Debug)]
struct Ctx {
    verbose: u8,
    json: bool,
    jobs: Option<u32>,
    limit: Option<String>,
    input: Option<Token>,
    files: Vec<Token>,
}

struct FlagFn(fn(&mut Ctx) -> Result<(), Error>);

impl OnFlag<Ctx> for FlagFn {
    fn fire(&self, ctx: &mut Ctx) -> Result<(), Error> {
        (self.0)(ctx)
    }
}

struct ValueFn(fn(&Token, &mut Ctx) -> Result<(), Error>);

impl OnValue<Ctx> for ValueFn {
    fn accept(&self, value: &Token, ctx: &mut Ctx) -> Result<(), Error> {
        (self.0)(value, ctx)
    }
}

struct CheckFn(fn(&Token) -> Result<(), Error>);

impl ValueValidator for CheckFn {
    fn check(&self, value: &Token) -> Result<(), Error> {
        (self.0)(value)
    }
}

struct CmdCheckFn(fn(&Matches) -> Result<(), Error>);

impl CmdValidator for CmdCheckFn {
    fn check(&self, m: &Matches) -> Result<(), Error> {
        (self.0)(m)
    }
}

struct RunFn(fn(&Matches, &mut Ctx) -> Result<(), Error>);

impl CmdHandler<Ctx> for RunFn {
    fn run(&self, m: &Matches, ctx: &mut Ctx) -> Result<(), Error> {
        (self.0)(m, ctx)
    }
}

fn flag(f: fn(&mut Ctx) -> Result<(), Error>) -> Box<dyn OnFlag<Ctx>> {
    Box::new(FlagFn(f))
}

fn value(f: fn(&Token, &mut Ctx) -> Result<(), Error>) -> Box<dyn OnValue<Ctx>> {
    Box::new(ValueFn(f))
}

fn check(f: fn(&Token) -> Result<(), Error>) -> Box<dyn ValueValidator> {
    Box::new(CheckFn(f))
}

fn cmd_check(f: fn(&Matches) -> Result<(), Error>) -> Box<dyn CmdValidator> {
    Box::new(CmdCheckFn(f))
}

fn run(f: fn(&Matches, &mut Ctx) -> Result<(), Error>) -> Box<dyn CmdHandler<Ctx>> {
    Box::new(RunFn(f))
}

fn argv(a: &[&str]) -> Vec<Token> {
    a.iter().map(|s| Token::text(s)).collect()
}

fn env_basic() -> ap::Env {
    ap::Env {
        wrap_cols: 80,
        color: ap::ColorMode::Never,
        suggest: true,
        auto_help: true,
        version: Some("0.1.0"),
        author: Some("Testy McTestface <t@example.com>"),
    }
}

fn lossy(t: &Token) -> String {
    t.lossy()
}

fn inc_verbose(c: &mut Ctx) -> Result<(), Error> {
    c.verbose = c.verbose.saturating_add(1);
    Ok(())
}

fn set_json(c: &mut Ctx) -> Result<(), Error> {
    c.json = true;
    Ok(())
}

fn set_jobs(v: &Token, c: &mut Ctx) -> Result<(), Error> {
    c.jobs = Some(lossy(v).parse().unwrap());
    Ok(())
}

fn set_limit(v: &Token, c: &mut Ctx) -> Result<(), Error> {
    c.limit = Some(lossy(v));
    Ok(())
}

fn set_input(v: &Token, c: &mut Ctx) -> Result<(), Error> {
    c.input = Some(v.clone());
    Ok(())
}

fn push_file(v: &Token, c: &mut Ctx) -> Result<(), Error> {
    c.files.push(v.clone());
    Ok(())
}

#[test]
fn keys_join_path_and_name() {
    assert_eq!(ap::key_for(&[], "name"), "name");
    assert_eq!(ap::key_for(&["a"], "name"), "a.name");
    assert_eq!(ap::key_for(&["a", "b", "c"], "name"), "a.b.c.name");
    assert_eq!(ap::pos_key_for(&[], "FILE"), "@pos.FILE");
    assert_eq!(ap::pos_key_for(&["a"], "FILE"), "a.@pos.FILE");
    assert_eq!(ap::pos_key_for(&["a", "b"], "FILE"), "a.b.@pos.FILE");
    let owned = vec!["a".to_string(), "b".to_string()];
    assert_eq!(rust_args_parser::matches::key_for_strings(&owned, "n"), "a.b.n");
    assert_eq!(rust_args_parser::matches::pos_key_for_strings(&owned, "n"), "a.b.@pos.n");
    assert_eq!(rust_args_parser::matches::key_for_strings(&vec![], "n"), "n");
    assert_eq!(rust_args_parser::matches::pos_key_for_strings(&vec![], "n"), "@pos.n");
}

#[test]
fn store_records_values_sources_and_counts() {
    let env = env_basic();
    let root = ap::CmdSpec::new("t")
        .opt(ap::OptSpec::flag("k", flag(inc_verbose)).short('k'))
        .opt(ap::OptSpec::value("v", value(set_limit)).short('v'))
        .opt(
            ap::OptSpec::value("w", value(set_limit))
                .short('w')
                .default_os(Token::text("d"))
                .repeatable(),
        )
        .pos(ap::PosSpec::new("p", value(push_file)).many())
        .subcmd(
            ap::CmdSpec::new("sub")
                .opt(ap::OptSpec::flag("e", flag(inc_verbose)).short('e').env("E"))
                .opt(ap::OptSpec::flag("f", flag(inc_verbose)).short('f').env("E")),
        );
    let mut vars = EnvVars::new();
    vars.set("E", Token::text("1"));
    let args = vec![
        Token::text("-kk"),
        Token::text("-v1"),
        Token::text("-v2"),
        Token::text("-w1"),
        Token::text("-w2"),
        Token::text("a"),
        Token::raw(vec![1, 2]),
        Token::text("c"),
        Token::text("sub"),
        Token::text("-e"),
    ];
    let m = ap::resolve_args(&env, &root, &args, &vars).unwrap();

    assert!(!m.has("none"));
    assert_eq!(m.count("none"), 0);
    assert_eq!(m.count("k"), 2);
    assert!(m.has_from("k", ap::Source::Cli));
    assert!(!m.has_from("k", ap::Source::Env));
    assert!(matches!(m.stored("k"), Some(ap::Value::Flag)));
    assert_eq!(m.first_at("k"), None);
    assert!(m.all_at("k").is_none());

    // a flag bound from the environment on entry, then given on the command
    // line: counting starts again
    assert_eq!(m.count("sub.e"), 1);
    assert!(m.has_from("sub.e", ap::Source::Cli));
    assert_eq!(m.count("sub.f"), 1);
    assert!(m.has_from("sub.f", ap::Source::Env));

    assert_eq!(m.first_at("v"), Some(&Token::text("2")));
    assert_eq!(m.all_at("v").unwrap(), &[Token::text("2")][..]);
    assert!(matches!(m.stored("v"), Some(ap::Value::One(_))));

    assert_eq!(m.all_at("w").unwrap(), &[Token::text("1"), Token::text("2")][..]);
    assert!(m.has_from("w", ap::Source::Cli));

    assert_eq!(
        m.all_at("@pos.p").unwrap(),
        &[Token::text("a"), Token::raw(vec![1, 2]), Token::text("c")][..]
    );
    assert_eq!(m.first_at("@pos.p"), Some(&Token::text("a")));
    assert!(m.has_from("@pos.p", ap::Source::Cli));

    assert_eq!(m.leaf_path(), vec!["sub"]);
    assert_eq!(m.view().path(), &["sub"][..]);
    assert_eq!(m.at(&["z"]).path(), &["z"][..]);

    // without a token for it the default stands, as a single value
    let m = ap::resolve_args(&env, &root, &[], &vars).unwrap();
    assert!(m.has_from("w", ap::Source::Default));
    assert!(matches!(m.stored("w"), Some(ap::Value::One(_))));
    assert_eq!(m.first_at("w"), Some(&Token::text("d")));
}

#[test]
fn scoped_views_read_at_their_own_path() {
    let env = env_basic();
    let root = ap::CmdSpec::new("t")
        .opt(ap::OptSpec::value("name", value(set_limit)).long("name").repeatable())
        .subcmd(
            ap::CmdSpec::new("sub")
                .opt(ap::OptSpec::value("name", value(set_limit)).long("name"))
                .pos(ap::PosSpec::new("F", value(push_file)).many()),
        );
    let mut ctx = Ctx::default();
    let m = ap::parse(
        &env,
        &root,
        &argv(&["--name", "r1", "--name=r2", "sub", "--name", "s", "f1", "f2"]),
        &EnvVars::new(),
        &mut ctx,
    )
    .unwrap();
    let rootv = m.at(&[]);
    assert_eq!(rootv.value("name"), Some(&Token::text("r1")));
    assert_eq!(rootv.values("name").unwrap(), &[Token::text("r1"), Token::text("r2")][..]);
    assert!(rootv.pos_many("F").is_none());
    assert!(rootv.path().is_empty());
    let leaf = m.view();
    assert_eq!(leaf.path(), &["sub"][..]);
    assert_eq!(leaf.value("name"), Some(&Token::text("s")));
    assert_eq!(leaf.values("name").unwrap(), &[Token::text("s")][..]);
    assert_eq!(leaf.pos_many("F").unwrap(), &[Token::text("f1"), Token::text("f2")][..]);
    assert_eq!(leaf.pos_one("F"), Some(&Token::text("f1")));
    assert!(leaf.is_set("name") && leaf.is_set_from("name", ap::Source::Cli));
    assert!(!leaf.is_set("other"));
    assert_eq!(leaf.flag_count("name"), 0);
    assert_eq!(m.get_values("name").unwrap(), &[Token::text("s")][..]);
    assert!(m.is_set("name"));
    assert!(m.at(&["nowhere"]).value("name").is_none());
}

#[test]
fn parsing_twice_yields_the_same_result() {
    let env = env_basic();
    let root = ap::CmdSpec::new("t")
        .opt(ap::OptSpec::flag("verbose", flag(inc_verbose)).short('v'))
        .opt(
            ap::OptSpec::value("limit", value(set_limit))
                .long("limit")
                .env("LIMIT")
                .default_os(Token::text("1")),
        )
        .subcmd(ap::CmdSpec::new("sub").pos(ap::PosSpec::new("F", value(push_file)).many()));
    let mut vars = EnvVars::new();
    vars.set("LIMIT", Token::text("7"));
    let args = argv(&["-vv", "sub", "a", "--", "-b"]);
    let first = ap::parse(&env, &root, &args, &vars, &mut Ctx::default()).unwrap();
    let second = ap::parse(&env, &root, &args, &vars, &mut Ctx::default()).unwrap();
    let third = ap::resolve_args(&env, &root, &args, &vars).unwrap();
    assert_eq!(format!("{first:?}"), format!("{second:?}"));
    assert_eq!(format!("{first:?}"), format!("{third:?}"));
    assert_eq!(first.leaf_path(), second.leaf_path());
    assert_eq!(first.at(&[]).flag_count("verbose"), 2);
    assert_eq!(second.at(&[]).value("limit"), Some(&Token::text("7")));
}

#[test]
fn tokens_compare_copy_and_show() {
    let t = Token::text("abc");
    assert_eq!(t.as_text(), Some("abc"));
    assert!(t.same(&t.duplicate()));
    assert!(!t.same(&Token::text("abd")));
    assert!(!t.is_empty());
    assert!(Token::text("").is_empty());
    let r = Token::raw(vec![0x61, 0xff]);
    assert_eq!(r.as_text(), None);
    assert!(r.same(&r.duplicate()));
    assert!(!r.same(&Token::raw(vec![0x61])));
    assert!(!r.same(&Token::text("a")));
    assert_eq!(r.lossy(), "a\u{fffd}");
    assert_eq!(t.lossy(), "abc");
    assert!(Token::raw(vec![]).is_empty());
}

#[test]
fn environment_variables_are_a_plain_mapping() {
    let mut vars = EnvVars::new();
    assert_eq!(vars.get("A"), None);
    vars.set("A", Token::text("1"));
    vars.set("B", Token::text("2"));
    vars.set("A", Token::text("3"));
    assert_eq!(vars.get("A"), Some(&Token::text("3")));
    assert_eq!(vars.get("B"), Some(&Token::text("2")));
    assert_eq!(vars.get("a"), None);
}

#[test]
fn dict_keeps_the_last_binding_of_a_key() {
    let mut d: rust_args_parser::dict::Dict<usize> = rust_args_parser::dict::Dict::new();
    assert!(!d.contains("x"));
    assert_eq!(d.put("x", 1), None);
    assert_eq!(d.put("y", 2), None);
    assert_eq!(d.put("x", 3), Some(1));
    assert_eq!(d.get("x"), Some(&3));
    assert_eq!(d.get("y"), Some(&2));
    assert_eq!(d.get("z"), None);
    assert!(d.contains("y"));
}

#[test]
fn default_settings() {
    let e = ap::Env::default();
    assert_eq!(e.wrap_cols, 80);
    assert_eq!(e.color, ap::ColorMode::Auto);
    assert!(e.suggest);
    assert!(e.auto_help);
    assert!(e.version.is_none());
    assert!(e.author.is_none());
    assert_ne!(ap::Status::Unset, ap::Status::SetBy(ap::Source::Cli));
}

#[test]
fn structural_check_of_one_level() {
    let env = env_basic();
    let lenient = ap::CmdSpec::new("t")
        .opt(ap::OptSpec::flag("a", flag(set_json)).long("a"))
        .opt(ap::OptSpec::flag("b", flag(set_json)).long("b"))
        .pos(ap::PosSpec::new("F", value(push_file)).many());
    let strict = ap::CmdSpec::new("t")
        .opt(ap::OptSpec::flag("a", flag(set_json)).group("g"))
        .opt(ap::OptSpec::flag("b", flag(set_json)).group("g"))
        .group("g", ap::GroupMode::Xor)
        .pos(ap::PosSpec::new("F", value(push_file)).range(1, 2));
    let bound = |args: &[&str]| ap::resolve_args(&env, &lenient, &argv(args), &EnvVars::new()).unwrap();

    let err = ap::check_level(&bound(&[]), &[], &strict).unwrap_err();
    assert_eq!(err.message(), "positional count below minimum");
    assert!(ap::check_level(&bound(&["f"]), &[], &strict).is_ok());
    assert!(ap::check_level(&bound(&["f", "--a"]), &[], &strict).is_ok());
    let m = bound(&["f", "--a", "--b"]);
    let err = ap::check_level(&m, &[], &strict).unwrap_err();
    assert_eq!(err.message(), "options in group 'g' are mutually exclusive");
    // at another path the same keys do not count
    let err = ap::check_level(&m, &["sub"], &strict).unwrap_err();
    assert_eq!(err.message(), "positional count below minimum");
}
