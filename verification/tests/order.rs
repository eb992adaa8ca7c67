use rust_args_parser as ap;
use rust_args_parser::{
    CmdHandler, CmdValidator, EnvVars, Error, Matches, OnFlag, OnValue, Token, ValueValidator,
};
use std::cell::RefCell;
use std::rc::Rc;

type Log = Rc<RefCell<Vec<String>>>;

struct Fire(&'static str);

impl OnFlag<Vec<String>> for Fire {
    fn fire(&self, ctx: &mut Vec<String>) -> Result<(), Error> {
        ctx.push(format!("fire {}", self.0));
        Ok(())
    }
}

struct Take(&'static str);

impl OnValue<Vec<String>> for Take {
    fn accept(&self, value: &Token, ctx: &mut Vec<String>) -> Result<(), Error> {
        ctx.push(format!("take {} {}", self.0, value.lossy()));
        Ok(())
    }
}

struct FailOn(&'static str);

impl OnValue<Vec<String>> for FailOn {
    fn accept(&self, value: &Token, ctx: &mut Vec<String>) -> Result<(), Error> {
        if value.lossy() == self.0 {
            return Err(Error::User(format!("no {}", self.0)));
        }
        ctx.push(format!("take {}", value.lossy()));
        Ok(())
    }
}

struct Check(&'static str, Log);

impl ValueValidator for Check {
    fn check(&self, value: &Token) -> Result<(), Error> {
        self.1.borrow_mut().push(format!("check {} {}", self.0, value.lossy()));
        Ok(())
    }
}

struct CheckAll(&'static str, Log);

impl CmdValidator for CheckAll {
    fn check(&self, _: &Matches) -> Result<(), Error> {
        self.1.borrow_mut().push(format!("check command {}", self.0));
        Ok(())
    }
}

struct Run(&'static str);

impl CmdHandler<Vec<String>> for Run {
    fn run(&self, m: &Matches, ctx: &mut Vec<String>) -> Result<(), Error> {
        ctx.push(format!("run {} at {}", self.0, m.leaf_path().join("/")));
        Ok(())
    }
}

fn argv(a: &[&str]) -> Vec<Token> {
    a.iter().map(|s| Token::text(s)).collect()
}

fn strings(a: &[&str]) -> Vec<String> {
    a.iter().map(|s| s.to_string()).collect()
}

fn schema(log: &Log) -> ap::CmdSpec<'static, Vec<String>> {
    ap::CmdSpec::new("t")
        .opt(ap::OptSpec::flag("a", Box::new(Fire("a"))).short('a'))
        .opt(
            ap::OptSpec::value("b", Box::new(Take("b")))
                .short('b')
                .repeatable()
                .validator(Box::new(Check("b", log.clone()))),
        )
        .pos(
            ap::PosSpec::new("P", Box::new(Take("P")))
                .range(0, 2)
                .validator(Box::new(Check("P", log.clone()))),
        )
        .validator(Box::new(CheckAll("t", log.clone())))
        .handler(Box::new(Run("t")))
        .subcmd(
            ap::CmdSpec::new("sub")
                .opt(ap::OptSpec::flag("x", Box::new(Fire("x"))).short('x'))
                .pos(ap::PosSpec::new("Q", Box::new(Take("Q"))).many())
                .validator(Box::new(CheckAll("sub", log.clone())))
                .handler(Box::new(Run("sub"))),
        )
}

#[test]
fn hooks_are_called_level_by_level_in_declaration_order() {
    let log: Log = Rc::new(RefCell::new(Vec::new()));
    let root = schema(&log);
    let mut ctx: Vec<String> = Vec::new();
    let args = argv(&["p1", "-b1", "-aa", "-b", "2", "p2", "sub", "q1", "-xxx", "q2"]);
    let m = ap::parse(&ap::Env::default(), &root, &args, &EnvVars::new(), &mut ctx).unwrap();
    assert_eq!(m.leaf_path(), vec!["sub"]);
    assert_eq!(
        ctx,
        strings(&[
            "fire a",
            "fire a",
            "take b 1",
            "take b 2",
            "take P p1",
            "take P p2",
            "fire x",
            "fire x",
            "fire x",
            "take Q q1",
            "take Q q2",
            "run sub at sub",
        ])
    );
    assert_eq!(
        *log.borrow(),
        strings(&["check b 1", "check b 2", "check P p1", "check P p2", "check command t", "check command sub"])
    );
}

#[test]
fn the_first_failing_callback_ends_the_parse_and_what_was_done_stays() {
    let log: Log = Rc::new(RefCell::new(Vec::new()));
    let root = ap::CmdSpec::new("t")
        .opt(ap::OptSpec::flag("a", Box::new(Fire("a"))).short('a'))
        .pos(ap::PosSpec::new("P", Box::new(FailOn("bad"))).many())
        .pos(ap::PosSpec::new("Q", Box::new(Take("Q"))))
        .validator(Box::new(CheckAll("t", log.clone())))
        .handler(Box::new(Run("t")));
    let mut ctx: Vec<String> = Vec::new();
    let err = ap::parse(
        &ap::Env::default(),
        &root,
        &argv(&["-a", "one", "bad", "two"]),
        &EnvVars::new(),
        &mut ctx,
    )
    .unwrap_err();
    assert_eq!(err.message(), "no bad");
    assert_eq!(ctx, strings(&["fire a", "take one"]));
    assert_eq!(*log.borrow(), strings(&["check command t"]));
}

#[test]
fn a_command_without_a_handler_runs_none() {
    let root = ap::CmdSpec::new("t")
        .handler(Box::new(Run("t")))
        .subcmd(ap::CmdSpec::new("sub").opt(ap::OptSpec::flag("x", Box::new(Fire("x"))).short('x')));
    let mut ctx: Vec<String> = Vec::new();
    ap::parse(&ap::Env::default(), &root, &argv(&["sub", "-x"]), &EnvVars::new(), &mut ctx)
        .unwrap();
    assert_eq!(ctx, strings(&["fire x"]));
}
