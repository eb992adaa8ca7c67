#![allow(dead_code, unused_imports)]
use rust_args_parser as ap;
use rust_args_parser::{
    CmdHandler, CmdValidator, EnvVars, Error, Matches, OnFlag, OnValue, Token, ValueValidator,
};

#[derive(Default)]
struct Ctx {
    json: bool,
    ran: bool,
    seen: Vec<String>,
}

struct FlagFn(fn(&mut Ctx) -> Result<(), Error>);

impl OnFlag<Ctx> for FlagFn {
    fn fire(&self, ctx: &mut Ctx) -> Result<(), Error> {
        (self.0)(ctx)
    }
}

struct ValueFn(fn(&Token, &mut Ctx) -> Result<(), Error>);

impl OnValue<Ctx> for ValueFn {
    fn accept(&self, value: &Token, ctx: &mut Ctx) -> Result<(), Error> {
        (self.0)(value, ctx)
    }
}

struct CheckFn(fn(&Token) -> Result<(), Error>);

impl ValueValidator for CheckFn {
    fn check(&self, value: &Token) -> Result<(), Error> {
        (self.0)(value)
    }
}

struct CmdCheckFn(fn(&Matches) -> Result<(), Error>);

impl CmdValidator for CmdCheckFn {
    fn check(&self, m: &Matches) -> Result<(), Error> {
        (self.0)(m)
    }
}

struct RunFn(fn(&Matches, &mut Ctx) -> Result<(), Error>);

impl CmdHandler<Ctx> for RunFn {
    fn run(&self, m: &Matches, ctx: &mut Ctx) -> Result<(), Error> {
        (self.0)(m, ctx)
    }
}

fn flag(f: fn(&mut Ctx) -> Result<(), Error>) -> Box<dyn OnFlag<Ctx>> {
    Box::new(FlagFn(f))
}

fn value(f: fn(&Token, &mut Ctx) -> Result<(), Error>) -> Box<dyn OnValue<Ctx>> {
    Box::new(ValueFn(f))
}

fn check(f: fn(&Token) -> Result<(), Error>) -> Box<dyn ValueValidator> {
    Box::new(CheckFn(f))
}

fn cmd_check(f: fn(&Matches) -> Result<(), Error>) -> Box<dyn CmdValidator> {
    Box::new(CmdCheckFn(f))
}

fn run(f: fn(&Matches, &mut Ctx) -> Result<(), Error>) -> Box<dyn CmdHandler<Ctx>> {
    Box::new(RunFn(f))
}

fn argv(a: &[&str]) -> Vec<Token> {
    a.iter().map(|s| Token::text(s)).collect()
}


#[test]
fn root_flag_then_sub_long_ok() {
    let env = ap::Env::default();
    let mut ctx = Ctx::default();

    let root = ap::CmdSpec::new("mybin")
        .opt(
            ap::OptSpec::flag(
                "json",
                flag(|c: &mut Ctx| {
                    c.json = true;
                    Ok(())
                }),
            )
            .long("json"),
        )
        .subcmd(ap::CmdSpec::new("test").handler(run(|_, c: &mut Ctx| {
            assert!(c.json);
            c.ran = true;
            Ok(())
        })));

    ap::parse(&env, &root, &argv(&["--json", "test"]), &EnvVars::new(), &mut ctx).unwrap();
    assert!(ctx.ran);
}

#[test]
fn root_short_then_sub_ok() {
    let env = ap::Env::default();
    let mut ctx = Ctx::default();

    let root = ap::CmdSpec::new("mybin")
        .opt(
            ap::OptSpec::flag(
                "v",
                flag(|c: &mut Ctx| {
                    c.json = true;
                    Ok(())
                }),
            )
            .short('v'),
        )
        .subcmd(ap::CmdSpec::new("go").handler(run(|_, c: &mut Ctx| {
            assert!(c.json);
            Ok(())
        })));

    ap::parse(&env, &root, &argv(&["-v", "go"]), &EnvVars::new(), &mut ctx).unwrap();
}

#[test]
fn double_dash_still_blocks_descent() {
    let env = ap::Env::default();

    // Root accepts positionals; ensure we DO NOT descend to subcommand after `--`.
    let root = ap::CmdSpec::new("mybin")
        .handler(run(|m, c: &mut Ctx| {
            c.seen = m.view().pos_many("test").unwrap().iter().map(|t| t.lossy()).collect();
            Ok(())
        }))
        .subcmd(ap::CmdSpec::new("test").handler(run(|_, _c: &mut Ctx| {
            panic!("should not descend after --");
        })))
        .pos(ap::PosSpec::new("test", value(|_, _| Ok(()))));

    let mut ctx = Ctx::default();
    ap::parse(&env, &root, &argv(&["--", "test"]), &EnvVars::new(), &mut ctx).unwrap();
    assert_eq!(ctx.seen, vec!["test"]);
}

#[test]
fn root_default_applies_when_argv_starts_with_sub() {
    #[derive(Default)]
    struct Seen {
        sock: Option<String>,
        seen: bool,
        another_seen: bool,
    }
    struct SetSock;
    impl OnValue<Seen> for SetSock {
        fn accept(&self, v: &Token, c: &mut Seen) -> Result<(), Error> {
            c.sock = Some(v.lossy());
            Ok(())
        }
    }
    struct Another;
    impl OnValue<Seen> for Another {
        fn accept(&self, _: &Token, c: &mut Seen) -> Result<(), Error> {
            c.another_seen = true;
            Ok(())
        }
    }
    struct Server;
    impl CmdHandler<Seen> for Server {
        fn run(&self, _: &Matches, c: &mut Seen) -> Result<(), Error> {
            assert_eq!(c.sock.as_deref(), Some("/tmp/splicer.sock"));
            c.seen = true;
            Ok(())
        }
    }

    let root = ap::CmdSpec::new("mybin")
        .opt(
            ap::OptSpec::value("socket", Box::new(SetSock))
                .long("socket")
                .default_os(Token::text("/tmp/splicer.sock"))
                .metavar("PATH")
                .help("Socket path"),
        )
        .opt(ap::OptSpec::value("another", Box::new(Another)).long("another"))
        .subcmd(ap::CmdSpec::new("server").handler(Box::new(Server)));

    let env = ap::Env::default();
    let mut ctx = Seen::default();
    ap::parse(&env, &root, &argv(&["server"]), &EnvVars::new(), &mut ctx).unwrap();
    assert!(ctx.seen);
    assert!(!ctx.another_seen);
    assert_eq!(ctx.sock, Some("/tmp/splicer.sock".to_string()));
}
