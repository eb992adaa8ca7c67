//! The declarative schema: commands, options, positionals and groups.

use crate::error::Error;
use crate::matches::{opt_token, Matches};
use crate::text::{same_text, slice_texts};
use crate::token::{Token, TokenView};
use vstd::prelude::*;
use vstd::string::*;

verus! {

/// Color mode for help rendering. Help is colorized only for `Always`;
/// who wants `Auto` decided by the terminal or the environment decides it
/// before rendering.
#[derive(Clone, Copy, Debug, PartialEq, Eq, Structural)]
pub enum ColorMode {
    Auto,
    Always,
    Never,
}

/// Settings of one parse or render session.
#[derive(Clone, Copy, Debug)]
pub struct Env {
    /// Wrap columns for help. `0` means no wrapping.
    pub wrap_cols: usize,
    /// Whether help is colorized.
    pub color: ColorMode,
    /// Whether errors carry suggestions.
    pub suggest: bool,
    /// Whether `-h` and `--help` are recognised.
    pub auto_help: bool,
    /// The version shown for `-V` and `--version` at the root, if any.
    pub version: Option<&'static str>,
    /// The author shown for `-A` and `--author` at the root, if any.
    pub author: Option<&'static str>,
}

impl Default for Env {
    fn default() -> (e: Self)
        ensures
            e.wrap_cols == 80,
            e.color == ColorMode::Auto,
            e.suggest,
            e.auto_help,
            e.version is None,
            e.author is None,
    {
        Env {
            wrap_cols: 80,
            color: ColorMode::Auto,
            suggest: true,
            auto_help: true,
            version: None,
            author: None,
        }
    }
}

/// Whether an option keeps one value or accumulates all of them.
#[derive(Clone, Copy, Debug, PartialEq, Eq, Structural)]
pub enum Repeat {
    Single,
    Many,
}

/// Rule over the options that share a group name.
#[derive(Clone, Copy, Debug, PartialEq, Eq, Structural)]
pub enum GroupMode {
    /// At most one member may be set.
    Xor,
    /// At least one member must be set.
    ReqOne,
}

/// Provenance of a binding.
#[derive(Clone, Copy, Debug, PartialEq, Eq, Structural)]
pub enum Source {
    Cli,
    Env,
    Default,
}

/// What an option takes on the command line.
#[derive(Clone, Copy, Debug, PartialEq, Eq, Structural)]
pub enum ArgKind {
    /// A flag.
    NoValue,
    /// A value that must be given, inline or as the next token.
    RequiredValue,
    /// A value that may be given.
    OptionalValue,
}

/// How many values a positional slot takes.
#[derive(Clone, Copy, Debug, PartialEq, Eq, Structural)]
pub enum PosCardinality {
    One { required: bool },
    Many,
    Range { min: usize, max: usize },
}

/// Callback of a flag: applies one occurrence to the caller's context.
pub trait OnFlag<Ctx> {
    /// Whether a call that finds the context as `before` may leave it as
    /// `after` and return `r`. An implementation that says nothing of
    /// itself leaves this as it is: every outcome is possible.
    open spec fn fired(&self, before: Ctx, after: Ctx, r: Result<(), Error>) -> bool {
        true
    }

    fn fire(&self, ctx: &mut Ctx) -> (r: Result<(), Error>)
        ensures
            self.fired(*old(ctx), *final(ctx), r),
    ;
}

/// Callback of a value: applies one bound value to the caller's context.
pub trait OnValue<Ctx> {
    /// Whether a call with `value` that finds the context as `before` may
    /// leave it as `after` and return `r`. An implementation that says
    /// nothing of itself leaves this as it is: every outcome is possible.
    open spec fn accepted(
        &self,
        value: &Token,
        before: Ctx,
        after: Ctx,
        r: Result<(), Error>,
    ) -> bool {
        true
    }

    fn accept(&self, value: &Token, ctx: &mut Ctx) -> (r: Result<(), Error>)
        ensures
            self.accepted(value, *old(ctx), *final(ctx), r),
    ;
}

/// Validator of a single bound value.
pub trait ValueValidator {
    fn check(&self, value: &Token) -> Result<(), Error>;
}

/// Validator of a command, given the bindings made so far.
pub trait CmdValidator {
    fn check(&self, m: &Matches) -> Result<(), Error>;
}

/// Handler of the selected command, run after all callbacks.
pub trait CmdHandler<Ctx> {
    /// Whether a call with the bindings `m` that finds the context as
    /// `before` may leave it as `after` and return `r`. An implementation
    /// that says nothing of itself leaves this as it is: every outcome is
    /// possible.
    open spec fn ran(&self, m: &Matches, before: Ctx, after: Ctx, r: Result<(), Error>) -> bool {
        true
    }

    fn run(&self, m: &Matches, ctx: &mut Ctx) -> (r: Result<(), Error>)
        ensures
            self.ran(m, *old(ctx), *final(ctx), r),
    ;
}

/// Whether `r` is an outcome that a validator gives for a value.
pub open spec fn may_check<V: ValueValidator + ?Sized>(
    vf: &V,
    value: &Token,
    r: Result<(), Error>,
) -> bool {
    call_ensures(V::check, (vf, value), r)
}

/// Whether `r` is an outcome that a command validator gives for the
/// bindings.
pub open spec fn may_check_all<V: CmdValidator + ?Sized>(
    cv: &V,
    m: &Matches,
    r: Result<(), Error>,
) -> bool {
    call_ensures(V::check, (cv, m), r)
}

/// Whether a value callback, handed `value` in the context `before`, may
/// leave the context as `after` and return `r`.
pub open spec fn may_accept<Ctx, T: OnValue<Ctx> + ?Sized>(
    cb: &T,
    value: &Token,
    before: Ctx,
    after: Ctx,
    r: Result<(), Error>,
) -> bool {
    cb.accepted(value, before, after, r)
}

/// Whether a flag callback, fired in the context `before`, may leave the
/// context as `after` and return `r`.
pub open spec fn may_fire<Ctx, T: OnFlag<Ctx> + ?Sized>(
    cb: &T,
    before: Ctx,
    after: Ctx,
    r: Result<(), Error>,
) -> bool {
    cb.fired(before, after, r)
}

/// Whether a handler, run on the bindings `m` in the context `before`, may
/// leave the context as `after` and return `r`.
pub open spec fn may_run<Ctx, T: CmdHandler<Ctx> + ?Sized>(
    h: &T,
    m: &Matches,
    before: Ctx,
    after: Ctx,
    r: Result<(), Error>,
) -> bool {
    h.ran(m, before, after, r)
}

/// What an optional string slice stands for.
pub open spec fn opt_text(o: Option<&str>) -> Option<Seq<char>> {
    match o {
        Some(s) => Some(s@),
        None => None,
    }
}

/// The mathematical value of an [`OptSpec`].
pub struct OptView {
    pub name: Seq<char>,
    pub short: Option<char>,
    pub long: Option<Seq<char>>,
    pub metavar: Option<Seq<char>>,
    pub help: Option<Seq<char>>,
    pub env: Option<Seq<char>>,
    pub default: Option<TokenView>,
    pub group: Option<Seq<char>>,
    pub repeat: Repeat,
    pub kind: ArgKind,
    pub numeric: bool,
    /// Whether a flag callback is set.
    pub flag_sink: bool,
    /// Whether a value callback is set.
    pub value_sink: bool,
    /// Whether a validator is set.
    pub validated: bool,
}

impl OptView {
    /// Whether the option takes a value, required or optional.
    pub open spec fn takes_value(self) -> bool {
        self.kind != ArgKind::NoValue
    }
}

/// Option (flag or value-bearing).
#[verifier::reject_recursive_types(Ctx)]
pub struct OptSpec<'a, Ctx> {
    name: &'a str,
    short: Option<char>,
    long: Option<&'a str>,
    metavar: Option<&'a str>,
    help: Option<&'a str>,
    env: Option<&'a str>,
    default: Option<Token>,
    group: Option<&'a str>,
    repeat: Repeat,
    kind: ArgKind,
    numeric: bool,
    on_value: Option<Box<dyn OnValue<Ctx>>>,
    on_flag: Option<Box<dyn OnFlag<Ctx>>>,
    validator: Option<Box<dyn ValueValidator>>,
}

impl<'a, Ctx> View for OptSpec<'a, Ctx> {
    type V = OptView;

    closed spec fn view(&self) -> OptView {
        OptView {
            name: self.name@,
            short: self.short,
            long: opt_text(self.long),
            metavar: opt_text(self.metavar),
            help: opt_text(self.help),
            env: opt_text(self.env),
            default: match self.default {
                Some(t) => Some(t@),
                None => None,
            },
            group: opt_text(self.group),
            repeat: self.repeat,
            kind: self.kind,
            numeric: self.numeric,
            flag_sink: self.on_flag is Some,
            value_sink: self.on_value is Some,
            validated: self.validator is Some,
        }
    }
}

impl OptView {
    /// Whether the callbacks match the kind: a flag has a flag callback and
    /// no value callback, a value-taking option the reverse.
    pub open spec fn sinks_match(self) -> bool {
        &&& self.flag_sink == (self.kind == ArgKind::NoValue)
        &&& self.value_sink == (self.kind != ArgKind::NoValue)
    }
}

impl<'a, Ctx> OptSpec<'a, Ctx> {
    /// Whether `r` is an outcome that the option's validator gives for a
    /// value; an option without a validator has every value pass.
    pub closed spec fn validates(&self, value: &Token, r: Result<(), Error>) -> bool {
        match self.validator {
            Some(vf) => may_check::<dyn ValueValidator>(&*vf, value, r),
            None => r is Ok,
        }
    }

    /// Whether the option's value callback, handed `value` in the context
    /// `before`, may leave the context as `after` and return `r`; without
    /// a value callback nothing is done: the context stays, and that is a
    /// success.
    pub closed spec fn takes(
        &self,
        value: &Token,
        before: Ctx,
        after: Ctx,
        r: Result<(), Error>,
    ) -> bool {
        match self.on_value {
            Some(cb) => may_accept::<Ctx, dyn OnValue<Ctx>>(&*cb, value, before, after, r),
            None => r is Ok && after == before,
        }
    }

    /// Whether the option's flag callback, fired in the context `before`,
    /// may leave the context as `after` and return `r`; without a flag
    /// callback nothing is done: the context stays, and that is a success.
    pub closed spec fn fires(&self, before: Ctx, after: Ctx, r: Result<(), Error>) -> bool {
        match self.on_flag {
            Some(cb) => may_fire::<Ctx, dyn OnFlag<Ctx>>(&*cb, before, after, r),
            None => r is Ok && after == before,
        }
    }

    /// Exactly one of the two callbacks is set, the one that the kind asks
    /// for.
    #[verifier::type_invariant]
    spec fn inv(self) -> bool {
        &&& (self.on_flag is Some) == (self.kind == ArgKind::NoValue)
        &&& (self.on_value is Some) == (self.kind != ArgKind::NoValue)
    }

    /// Create a flag. Other fields are set via builder methods.
    pub fn flag(name: &'a str, cb: Box<dyn OnFlag<Ctx>>) -> (o: Self)
        ensures
            o@ == (OptView {
                name: name@,
                short: None,
                long: None,
                metavar: None,
                help: None,
                env: None,
                default: None,
                group: None,
                repeat: Repeat::Single,
                kind: ArgKind::NoValue,
                numeric: false,
                flag_sink: true,
                value_sink: false,
                validated: false,
            }),
    {
        OptSpec {
            name,
            short: None,
            long: None,
            metavar: None,
            help: None,
            env: None,
            default: None,
            group: None,
            repeat: Repeat::Single,
            kind: ArgKind::NoValue,
            numeric: false,
            on_value: None,
            on_flag: Some(cb),
            validator: None,
        }
    }

    /// Create an option with a required value. Other fields are set via
    /// builder methods.
    pub fn value(name: &'a str, cb: Box<dyn OnValue<Ctx>>) -> (o: Self)
        ensures
            o@ == (OptView {
                name: name@,
                short: None,
                long: None,
                metavar: None,
                help: None,
                env: None,
                default: None,
                group: None,
                repeat: Repeat::Single,
                kind: ArgKind::RequiredValue,
                numeric: false,
                flag_sink: false,
                value_sink: true,
                validated: false,
            }),
    {
        OptSpec {
            name,
            short: None,
            long: None,
            metavar: None,
            help: None,
            env: None,
            default: None,
            group: None,
            repeat: Repeat::Single,
            kind: ArgKind::RequiredValue,
            numeric: false,
            on_value: Some(cb),
            on_flag: None,
            validator: None,
        }
    }

    /// Set the short form, as in `-v`.
    pub fn short(self, s: char) -> (o: Self)
        ensures
            o@ == (OptView { short: Some(s), ..self@ }),
    {
        let mut o = self;
        proof {
            use_type_invariant(&o);
        }
        o.short = Some(s);
        o
    }

    /// Set the long form, as in `--verbose`.
    pub fn long(self, l: &'a str) -> (o: Self)
        ensures
            o@ == (OptView { long: Some(l@), ..self@ }),
    {
        let mut o = self;
        proof {
            use_type_invariant(&o);
        }
        o.long = Some(l);
        o
    }

    /// Set the name shown for the value in help.
    pub fn metavar(self, mv: &'a str) -> (o: Self)
        ensures
            o@ == (OptView { metavar: Some(mv@), ..self@ }),
    {
        let mut o = self;
        proof {
            use_type_invariant(&o);
        }
        o.metavar = Some(mv);
        o
    }

    /// Set the help text.
    pub fn help(self, h: &'a str) -> (o: Self)
        ensures
            o@ == (OptView { help: Some(h@), ..self@ }),
    {
        let mut o = self;
        proof {
            use_type_invariant(&o);
        }
        o.help = Some(h);
        o
    }

    /// Name the environment variable that binds the option where the command
    /// line does not.
    pub fn env(self, name: &'a str) -> (o: Self)
        ensures
            o@ == (OptView { env: Some(name@), ..self@ }),
    {
        let mut o = self;
        proof {
            use_type_invariant(&o);
        }
        o.env = Some(name);
        o
    }

    /// Set the value that binds the option where nothing else does.
    pub fn default_os(self, val: Token) -> (o: Self)
        ensures
            o@ == (OptView { default: Some(val@), ..self@ }),
    {
        let mut o = self;
        proof {
            use_type_invariant(&o);
        }
        o.default = Some(val);
        o
    }

    /// Make the option a member of a group of its command.
    pub fn group(self, g: &'a str) -> (o: Self)
        ensures
            o@ == (OptView { group: Some(g@), ..self@ }),
    {
        let mut o = self;
        proof {
            use_type_invariant(&o);
        }
        o.group = Some(g);
        o
    }

    /// Keep only the last value given.
    pub fn single(self) -> (o: Self)
        ensures
            o@ == (OptView { repeat: Repeat::Single, ..self@ }),
    {
        let mut o = self;
        proof {
            use_type_invariant(&o);
        }
        o.repeat = Repeat::Single;
        o
    }

    /// Accumulate all the values given.
    pub fn repeatable(self) -> (o: Self)
        ensures
            o@ == (OptView { repeat: Repeat::Many, ..self@ }),
    {
        let mut o = self;
        proof {
            use_type_invariant(&o);
        }
        o.repeat = Repeat::Many;
        o
    }

    /// Make the value optional. An occurrence without a value is recorded
    /// like that of a flag: it is counted, and no value callback fires for
    /// it. A flag stays a flag.
    pub fn optional(self) -> (o: Self)
        ensures
            o@ == (OptView {
                kind: if self@.kind == ArgKind::NoValue {
                    ArgKind::NoValue
                } else {
                    ArgKind::OptionalValue
                },
                ..self@
            }),
    {
        let mut o = self;
        proof {
            use_type_invariant(&o);
        }
        if o.kind != ArgKind::NoValue {
            o.kind = ArgKind::OptionalValue;
        }
        o
    }

    /// Let an optional value take a following token that looks like a
    /// number, even where it begins with a dash.
    pub fn numeric(self) -> (o: Self)
        ensures
            o@ == (OptView { numeric: true, ..self@ }),
    {
        let mut o = self;
        proof {
            use_type_invariant(&o);
        }
        o.numeric = true;
        o
    }

    /// Set the validator of the values.
    pub fn validator(self, v: Box<dyn ValueValidator>) -> (o: Self)
        ensures
            o@ == (OptView { validated: true, ..self@ }),
    {
        let mut o = self;
        proof {
            use_type_invariant(&o);
        }
        o.validator = Some(v);
        o
    }

    /// The logical name, by which the option is found in the results.
    pub fn get_name(&self) -> (r: &'a str)
        ensures
            r@ == self@.name,
    {
        self.name
    }

    /// The short form.
    pub fn get_short(&self) -> (r: Option<char>)
        ensures
            r == self@.short,
    {
        self.short
    }

    /// The long form.
    pub fn get_long(&self) -> (r: Option<&'a str>)
        ensures
            opt_text(r) == self@.long,
    {
        self.long
    }

    /// The name shown for the value in help.
    pub fn get_metavar(&self) -> (r: Option<&'a str>)
        ensures
            opt_text(r) == self@.metavar,
    {
        self.metavar
    }

    /// The help text.
    pub fn get_help(&self) -> (r: Option<&'a str>)
        ensures
            opt_text(r) == self@.help,
    {
        self.help
    }

    /// The environment variable that the option reads.
    pub fn get_env(&self) -> (r: Option<&'a str>)
        ensures
            opt_text(r) == self@.env,
    {
        self.env
    }

    /// The default value.
    pub fn get_default(&self) -> (r: Option<&Token>)
        ensures
            opt_token(r) == self@.default,
    {
        self.default.as_ref()
    }

    /// The group that the option is a member of.
    pub fn get_group(&self) -> (r: Option<&'a str>)
        ensures
            opt_text(r) == self@.group,
    {
        self.group
    }

    /// Whether the option takes a value, required or optional.
    pub fn is_value(&self) -> (r: bool)
        ensures
            r == self@.takes_value(),
    {
        self.kind != ArgKind::NoValue
    }

    /// The kind of the option; the callbacks of every option match it.
    pub fn get_kind(&self) -> (r: ArgKind)
        ensures
            r == self@.kind,
            self@.sinks_match(),
    {
        proof {
            use_type_invariant(self);
        }
        self.kind
    }

    /// Whether the option carries the numeric hint.
    pub fn is_numeric(&self) -> (r: bool)
        ensures
            r == self@.numeric,
    {
        self.numeric
    }

    /// Whether values accumulate.
    pub fn get_repeat(&self) -> (r: Repeat)
        ensures
            r == self@.repeat,
    {
        self.repeat
    }

    /// The value callback.
    pub fn get_on_value(&self) -> (r: Option<&Box<dyn OnValue<Ctx>>>)
        ensures
            r matches Some(b) ==> forall|v: &Token, c: Ctx, d: Ctx, x: Result<(), Error>|
                #![trigger self.takes(v, c, d, x)]
                #![trigger may_accept::<Ctx, dyn OnValue<Ctx>>(&**b, v, c, d, x)]
                self.takes(v, c, d, x) == may_accept::<Ctx, dyn OnValue<Ctx>>(&**b, v, c, d, x),
            r is None ==> forall|v: &Token, c: Ctx, d: Ctx, x: Result<(), Error>|
                #[trigger] self.takes(v, c, d, x) == (x is Ok && d == c),
            r is Some == self@.value_sink,
    {
        self.on_value.as_ref()
    }

    /// The flag callback.
    pub fn get_on_flag(&self) -> (r: Option<&Box<dyn OnFlag<Ctx>>>)
        ensures
            r matches Some(b) ==> forall|c: Ctx, d: Ctx, x: Result<(), Error>|
                #![trigger self.fires(c, d, x)]
                #![trigger may_fire::<Ctx, dyn OnFlag<Ctx>>(&**b, c, d, x)]
                self.fires(c, d, x) == may_fire::<Ctx, dyn OnFlag<Ctx>>(&**b, c, d, x),
            r is None ==> forall|c: Ctx, d: Ctx, x: Result<(), Error>|
                #[trigger] self.fires(c, d, x) == (x is Ok && d == c),
            r is Some == self@.flag_sink,
    {
        self.on_flag.as_ref()
    }

    /// The validator of the values.
    pub fn get_validator(&self) -> (r: Option<&Box<dyn ValueValidator>>)
        ensures
            r matches Some(b) ==> forall|v: &Token, x: Result<(), Error>|
                #![trigger self.validates(v, x)]
                #![trigger may_check::<dyn ValueValidator>(&**b, v, x)]
                self.validates(v, x) == may_check::<dyn ValueValidator>(&**b, v, x),
            r is None ==> forall|v: &Token, x: Result<(), Error>|
                #[trigger] self.validates(v, x) == x is Ok,
            r is Some == self@.validated,
    {
        self.validator.as_ref()
    }
}

impl PosCardinality {
    /// The least number of values that the slot must take.
    pub open spec fn least(self) -> nat {
        match self {
            PosCardinality::One { required } => if required {
                1
            } else {
                0
            },
            PosCardinality::Many => 0,
            PosCardinality::Range { min, max } => min as nat,
        }
    }

    /// Whether a slot that holds `count` values takes one more.
    pub open spec fn open_at(self, count: nat) -> bool {
        match self {
            PosCardinality::One { required } => count < 1,
            PosCardinality::Many => true,
            PosCardinality::Range { min, max } => count < max,
        }
    }
}

/// The mathematical value of a [`PosSpec`].
pub struct PosView {
    pub name: Seq<char>,
    pub help: Option<Seq<char>>,
    pub card: PosCardinality,
    pub validated: bool,
}

/// Positional argument specification.
#[verifier::reject_recursive_types(Ctx)]
pub struct PosSpec<'a, Ctx> {
    name: &'a str,
    help: Option<&'a str>,
    card: PosCardinality,
    on_value: Box<dyn OnValue<Ctx>>,
    validator: Option<Box<dyn ValueValidator>>,
}

impl<'a, Ctx> View for PosSpec<'a, Ctx> {
    type V = PosView;

    closed spec fn view(&self) -> PosView {
        PosView {
            name: self.name@,
            help: opt_text(self.help),
            card: self.card,
            validated: self.validator is Some,
        }
    }
}

impl PosCardinality {
    /// Whether the bounds are in order: the least number of values is not
    /// above the greatest.
    pub open spec fn in_order(self) -> bool {
        self matches PosCardinality::Range { min, max } ==> min <= max
    }
}

impl<'a, Ctx> PosSpec<'a, Ctx> {
    /// Whether `r` is an outcome that the slot's validator gives for a
    /// value; a slot without a validator has every value pass.
    pub closed spec fn validates(&self, value: &Token, r: Result<(), Error>) -> bool {
        match self.validator {
            Some(vf) => may_check::<dyn ValueValidator>(&*vf, value, r),
            None => r is Ok,
        }
    }

    /// Whether the slot's callback, handed `value` in the context `before`,
    /// may leave the context as `after` and return `r`.
    pub closed spec fn takes(
        &self,
        value: &Token,
        before: Ctx,
        after: Ctx,
        r: Result<(), Error>,
    ) -> bool {
        may_accept::<Ctx, dyn OnValue<Ctx>>(&*self.on_value, value, before, after, r)
    }

    /// The bounds of a range are in order.
    #[verifier::type_invariant]
    spec fn inv(self) -> bool {
        self.card.in_order()
    }

    /// A positional that takes at most one value.
    pub fn new(name: &'a str, cb: Box<dyn OnValue<Ctx>>) -> (p: Self)
        ensures
            p@ == (PosView {
                name: name@,
                help: None,
                card: PosCardinality::One { required: false },
                validated: false,
            }),
    {
        PosSpec {
            name,
            help: None,
            card: PosCardinality::One { required: false },
            on_value: cb,
            validator: None,
        }
    }

    /// Set the help text.
    pub fn help(self, h: &'a str) -> (p: Self)
        ensures
            p@ == (PosView { help: Some(h@), ..self@ }),
    {
        let mut p = self;
        proof {
            use_type_invariant(&p);
        }
        p.help = Some(h);
        p
    }

    /// Take exactly one value, which must be given.
    pub fn required(self) -> (p: Self)
        ensures
            p@ == (PosView { card: PosCardinality::One { required: true }, ..self@ }),
    {
        let mut p = self;
        proof {
            use_type_invariant(&p);
        }
        p.card = PosCardinality::One { required: true };
        p
    }

    /// Take any number of values.
    pub fn many(self) -> (p: Self)
        ensures
            p@ == (PosView { card: PosCardinality::Many, ..self@ }),
    {
        let mut p = self;
        proof {
            use_type_invariant(&p);
        }
        p.card = PosCardinality::Many;
        p
    }

    /// Take between `min` and `max` values.
    pub fn range(self, min: usize, max: usize) -> (p: Self)
        requires
            min <= max,
        ensures
            p@ == (PosView { card: PosCardinality::Range { min, max }, ..self@ }),
    {
        let mut p = self;
        proof {
            use_type_invariant(&p);
        }
        p.card = PosCardinality::Range { min, max };
        p
    }

    /// Set the validator of the values.
    pub fn validator(self, v: Box<dyn ValueValidator>) -> (p: Self)
        ensures
            p@ == (PosView { validated: true, ..self@ }),
    {
        let mut p = self;
        proof {
            use_type_invariant(&p);
        }
        p.validator = Some(v);
        p
    }

    /// The logical name, by which the positional is found in the results.
    pub fn get_name(&self) -> (r: &'a str)
        ensures
            r@ == self@.name,
    {
        self.name
    }

    /// The help text.
    pub fn get_help(&self) -> (r: Option<&'a str>)
        ensures
            opt_text(r) == self@.help,
    {
        self.help
    }

    /// The cardinality of the slot; the bounds of a range are in order.
    pub fn get_cardinality(&self) -> (r: PosCardinality)
        ensures
            r == self@.card,
            r.in_order(),
    {
        proof {
            use_type_invariant(self);
        }
        self.card
    }

    /// Whether at least one value must be given.
    pub fn is_required(&self) -> (r: bool)
        ensures
            r == (self@.card.least() > 0),
    {
        match self.card {
            PosCardinality::One { required } => required,
            PosCardinality::Many => false,
            PosCardinality::Range { min, max } => min > 0,
        }
    }

    /// Whether the slot is declared for more than one value.
    pub fn is_multiple(&self) -> (r: bool)
        ensures
            r == !(self@.card is One),
    {
        match self.card {
            PosCardinality::One { required } => false,
            _ => true,
        }
    }

    /// The value callback of the slot: what it gives for a value is what
    /// the slot takes the value with.
    pub fn get_on_value(&self) -> (r: &Box<dyn OnValue<Ctx>>)
        ensures
            forall|v: &Token, c: Ctx, d: Ctx, x: Result<(), Error>|
                #![trigger self.takes(v, c, d, x)]
                #![trigger may_accept::<Ctx, dyn OnValue<Ctx>>(&**r, v, c, d, x)]
                self.takes(v, c, d, x) == may_accept::<Ctx, dyn OnValue<Ctx>>(&**r, v, c, d, x),
    {
        &self.on_value
    }

    /// The validator of the values.
    pub fn get_validator(&self) -> (r: Option<&Box<dyn ValueValidator>>)
        ensures
            r matches Some(b) ==> forall|v: &Token, x: Result<(), Error>|
                #![trigger self.validates(v, x)]
                #![trigger may_check::<dyn ValueValidator>(&**b, v, x)]
                self.validates(v, x) == may_check::<dyn ValueValidator>(&**b, v, x),
            r is None ==> forall|v: &Token, x: Result<(), Error>|
                #[trigger] self.validates(v, x) == x is Ok,
            r is Some == self@.validated,
    {
        self.validator.as_ref()
    }
}

/// The mathematical value of a [`GroupDecl`].
pub struct GroupView {
    pub name: Seq<char>,
    pub mode: GroupMode,
}

/// Group declaration. A group belongs to the command that declares it, and
/// its members are the options of that command that name it.
pub struct GroupDecl<'a> {
    pub name: &'a str,
    pub mode: GroupMode,
}

impl<'a> View for GroupDecl<'a> {
    type V = GroupView;

    open spec fn view(&self) -> GroupView {
        GroupView { name: self.name@, mode: self.mode }
    }
}

/// The mathematical value of a [`CmdSpec`]: the command and, below it, the
/// tree of its subcommands.
pub struct CmdView {
    pub name: Seq<char>,
    pub help: Option<Seq<char>>,
    pub aliases: Seq<Seq<char>>,
    pub opts: Seq<OptView>,
    pub positionals: Seq<PosView>,
    pub subs: Seq<CmdView>,
    pub groups: Seq<GroupView>,
    /// Whether a command validator is set.
    pub validated: bool,
    /// Whether a handler is set.
    pub handled: bool,
}

/// Index of the first command among `subs[k..]` that `s` names.
pub open spec fn first_sub_from(subs: Seq<CmdView>, s: Seq<char>, k: int) -> Option<int>
    decreases subs.len() - k,
{
    if k < 0 || k >= subs.len() {
        None
    } else if subs[k].answers_to(s) {
        Some(k)
    } else {
        first_sub_from(subs, s, k + 1)
    }
}

/// Index of the last option among `opts[..n]` whose long form is `name`.
pub open spec fn last_long(opts: Seq<OptView>, name: Seq<char>, n: int) -> Option<int>
    decreases n,
{
    if n <= 0 {
        None
    } else if opts[n - 1].long == Some(name) {
        Some(n - 1)
    } else {
        last_long(opts, name, n - 1)
    }
}

/// Index of the last option among `opts[..n]` whose short form is `c`.
pub open spec fn last_short(opts: Seq<OptView>, c: char, n: int) -> Option<int>
    decreases n,
{
    if n <= 0 {
        None
    } else if opts[n - 1].short == Some(c) {
        Some(n - 1)
    } else {
        last_short(opts, c, n - 1)
    }
}

impl CmdView {
    /// Whether `s` is the command's name or one of its aliases.
    pub open spec fn answers_to(self, s: Seq<char>) -> bool {
        self.name == s || self.aliases.contains(s)
    }

    /// The first subcommand that `s` names.
    pub open spec fn find_sub(self, s: Seq<char>) -> Option<int> {
        first_sub_from(self.subs, s, 0)
    }

    /// The option that the long form `name` selects: of several options
    /// with that long form, the one declared last.
    pub open spec fn find_long(self, name: Seq<char>) -> Option<int> {
        last_long(self.opts, name, self.opts.len() as int)
    }

    /// The option that the short form `c` selects: of several, the last.
    pub open spec fn find_short(self, c: char) -> Option<int> {
        last_short(self.opts, c, self.opts.len() as int)
    }
}

/// The first match is in range and names the command; nothing before it does.
pub proof fn law_first_sub(subs: Seq<CmdView>, s: Seq<char>, k: int)
    requires
        0 <= k,
    ensures
        match first_sub_from(subs, s, k) {
            Some(i) => k <= i < subs.len() && subs[i].answers_to(s) && forall|j: int|
                k <= j < i ==> !(#[trigger] subs[j]).answers_to(s),
            None => forall|j: int| k <= j < subs.len() ==> !(#[trigger] subs[j]).answers_to(s),
        },
    decreases subs.len() - k,
{
    if k < subs.len() && !subs[k].answers_to(s) {
        law_first_sub(subs, s, k + 1);
    }
}

/// The option selected by a long form is in range and has that long form.
pub proof fn law_last_long(opts: Seq<OptView>, name: Seq<char>, n: int)
    requires
        n <= opts.len(),
    ensures
        match last_long(opts, name, n) {
            Some(i) => 0 <= i < n && opts[i].long == Some(name),
            None => forall|j: int| 0 <= j < n ==> (#[trigger] opts[j]).long != Some(name),
        },
    decreases n,
{
    if n > 0 && opts[n - 1].long != Some(name) {
        law_last_long(opts, name, n - 1);
    }
}

/// The option selected by a short form is in range and has that short form.
pub proof fn law_last_short(opts: Seq<OptView>, c: char, n: int)
    requires
        n <= opts.len(),
    ensures
        match last_short(opts, c, n) {
            Some(i) => 0 <= i < n && opts[i].short == Some(c),
            None => forall|j: int| 0 <= j < n ==> (#[trigger] opts[j]).short != Some(c),
        },
    decreases n,
{
    if n > 0 && opts[n - 1].short != Some(c) {
        law_last_short(opts, c, n - 1);
    }
}

/// Command specification.
#[verifier::reject_recursive_types(Ctx)]
pub struct CmdSpec<'a, Ctx> {
    name: &'a str,
    help: Option<&'a str>,
    aliases: Vec<&'a str>,
    opts: Vec<OptSpec<'a, Ctx>>,
    positionals: Vec<PosSpec<'a, Ctx>>,
    subcommands: Vec<CmdSpec<'a, Ctx>>,
    groups: Vec<GroupDecl<'a>>,
    validate_cmd: Option<Box<dyn CmdValidator>>,
    handler: Option<Box<dyn CmdHandler<Ctx>>>,
}

/// The value of a command, with the values of its subcommands below it.
pub closed spec fn cmd_view<'a, Ctx>(c: CmdSpec<'a, Ctx>) -> CmdView
    decreases c,
{
    CmdView {
        name: c.name@,
        help: opt_text(c.help),
        aliases: slice_texts(c.aliases@),
        opts: Seq::new(c.opts@.len(), |i: int| c.opts@[i]@),
        positionals: Seq::new(c.positionals@.len(), |i: int| c.positionals@[i]@),
        subs: Seq::new(
            c.subcommands@.len(),
            |i: int|
                if 0 <= i < c.subcommands@.len() {
                    cmd_view(c.subcommands@[i])
                } else {
                    arbitrary()
                },
        ),
        groups: Seq::new(c.groups@.len(), |i: int| c.groups@[i]@),
        validated: c.validate_cmd is Some,
        handled: c.handler is Some,
    }
}

impl<'a, Ctx> View for CmdSpec<'a, Ctx> {
    type V = CmdView;

    closed spec fn view(&self) -> CmdView {
        cmd_view(*self)
    }
}

/// The values of a list of options.
pub open spec fn opt_views<'a, Ctx>(s: Seq<OptSpec<'a, Ctx>>) -> Seq<OptView> {
    Seq::new(s.len(), |i: int| s[i]@)
}

/// The values of a list of positionals.
pub open spec fn pos_views<'a, Ctx>(s: Seq<PosSpec<'a, Ctx>>) -> Seq<PosView> {
    Seq::new(s.len(), |i: int| s[i]@)
}

/// The values of a list of commands.
pub open spec fn cmd_views<'a, Ctx>(s: Seq<CmdSpec<'a, Ctx>>) -> Seq<CmdView> {
    Seq::new(s.len(), |i: int| s[i]@)
}

/// The values of a list of group declarations.
pub open spec fn group_views<'a>(s: Seq<GroupDecl<'a>>) -> Seq<GroupView> {
    Seq::new(s.len(), |i: int| s[i]@)
}

impl<'a, Ctx> CmdSpec<'a, Ctx> {
    /// The options that the command holds, in declaration order.
    pub closed spec fn opt_list(&self) -> Seq<OptSpec<'a, Ctx>> {
        self.opts@
    }

    /// The positional slots that the command holds, in declaration order.
    pub closed spec fn slot_list(&self) -> Seq<PosSpec<'a, Ctx>> {
        self.positionals@
    }

    /// Whether `r` is an outcome that the command's validator gives for
    /// the bindings; a command without a validator lets them pass.
    pub closed spec fn validates(&self, m: &Matches, r: Result<(), Error>) -> bool {
        match self.validate_cmd {
            Some(cv) => may_check_all::<dyn CmdValidator>(&*cv, m, r),
            None => r is Ok,
        }
    }

    /// Whether the command's handler, run on the bindings `m` in the
    /// context `before`, may leave the context as `after` and return `r`;
    /// without a handler nothing is done: the context stays, and that is a
    /// success.
    pub closed spec fn runs(
        &self,
        m: &Matches,
        before: Ctx,
        after: Ctx,
        r: Result<(), Error>,
    ) -> bool {
        match self.handler {
            Some(h) => may_run::<Ctx, dyn CmdHandler<Ctx>>(&*h, m, before, after, r),
            None => r is Ok && after == before,
        }
    }

    /// The subcommands that the command holds, in declaration order.
    pub closed spec fn sub_list(&self) -> Seq<CmdSpec<'a, Ctx>> {
        self.subcommands@
    }

    /// A command with nothing declared.
    pub fn new(name: &'a str) -> (c: Self)
        ensures
            c@ == (CmdView {
                name: name@,
                help: None,
                aliases: Seq::empty(),
                opts: Seq::empty(),
                positionals: Seq::empty(),
                subs: Seq::empty(),
                groups: Seq::empty(),
                validated: false,
                handled: false,
            }),
    {
        let c = CmdSpec {
            name,
            help: None,
            aliases: Vec::new(),
            opts: Vec::new(),
            positionals: Vec::new(),
            subcommands: Vec::new(),
            groups: Vec::new(),
            validate_cmd: None,
            handler: None,
        };
        assert(c@.aliases =~= Seq::empty());
        assert(c@.opts =~= Seq::empty());
        assert(c@.positionals =~= Seq::empty());
        assert(c@.subs =~= Seq::empty());
        assert(c@.groups =~= Seq::empty());
        c
    }

    /// Set the help text.
    pub fn help(self, s: &'a str) -> (c: Self)
        ensures
            c@ == (CmdView { help: Some(s@), ..self@ }),
    {
        let mut c = self;
        c.help = Some(s);
        assert(c@.opts =~= self@.opts);
        assert(c@.positionals =~= self@.positionals);
        assert(c@.subs =~= self@.subs);
        assert(c@.groups =~= self@.groups);
        c
    }

    /// Add a name by which the command is selected as well.
    pub fn alias(self, a: &'a str) -> (c: Self)
        ensures
            c@ == (CmdView { aliases: self@.aliases.push(a@), ..self@ }),
    {
        let mut c = self;
        c.aliases.push(a);
        assert(c@.aliases =~= self@.aliases.push(a@));
        assert(c@.opts =~= self@.opts);
        assert(c@.positionals =~= self@.positionals);
        assert(c@.subs =~= self@.subs);
        assert(c@.groups =~= self@.groups);
        c
    }

    /// Declare an option.
    pub fn opt(self, o: OptSpec<'a, Ctx>) -> (c: Self)
        ensures
            c@ == (CmdView { opts: self@.opts.push(o@), ..self@ }),
    {
        let mut c = self;
        c.opts.push(o);
        assert(c@.opts =~= self@.opts.push(o@));
        assert(c@.positionals =~= self@.positionals);
        assert(c@.subs =~= self@.subs);
        assert(c@.groups =~= self@.groups);
        c
    }

    /// Declare the next positional slot.
    pub fn pos(self, p: PosSpec<'a, Ctx>) -> (c: Self)
        ensures
            c@ == (CmdView { positionals: self@.positionals.push(p@), ..self@ }),
    {
        let mut c = self;
        c.positionals.push(p);
        assert(c@.positionals =~= self@.positionals.push(p@));
        assert(c@.opts =~= self@.opts);
        assert(c@.subs =~= self@.subs);
        assert(c@.groups =~= self@.groups);
        c
    }

    /// Declare a subcommand.
    pub fn subcmd(self, sub: Self) -> (c: Self)
        ensures
            c@ == (CmdView { subs: self@.subs.push(sub@), ..self@ }),
    {
        let mut c = self;
        c.subcommands.push(sub);
        assert(c@.subs =~= self@.subs.push(sub@));
        assert(c@.opts =~= self@.opts);
        assert(c@.positionals =~= self@.positionals);
        assert(c@.groups =~= self@.groups);
        c
    }

    /// Declare a group and its rule. A group belongs to the command that
    /// declares it: groups of one name in different commands are independent.
    pub fn group(self, name: &'a str, mode: GroupMode) -> (c: Self)
        ensures
            c@ == (CmdView {
                groups: self@.groups.push(GroupView { name: name@, mode }),
                ..self@
            }),
    {
        let mut c = self;
        c.groups.push(GroupDecl { name, mode });
        assert(c@.groups =~= self@.groups.push(GroupView { name: name@, mode }));
        assert(c@.opts =~= self@.opts);
        assert(c@.positionals =~= self@.positionals);
        assert(c@.subs =~= self@.subs);
        c
    }

    /// Set the validator of the command.
    pub fn validator(self, cb: Box<dyn CmdValidator>) -> (c: Self)
        ensures
            c@ == (CmdView { validated: true, ..self@ }),
    {
        let mut c = self;
        c.validate_cmd = Some(cb);
        assert(c@.opts =~= self@.opts);
        assert(c@.positionals =~= self@.positionals);
        assert(c@.subs =~= self@.subs);
        assert(c@.groups =~= self@.groups);
        c
    }

    /// Set the handler of the command. Only the handler of the selected
    /// command is run.
    pub fn handler(self, cb: Box<dyn CmdHandler<Ctx>>) -> (c: Self)
        ensures
            c@ == (CmdView { handled: true, ..self@ }),
    {
        let mut c = self;
        c.handler = Some(cb);
        assert(c@.opts =~= self@.opts);
        assert(c@.positionals =~= self@.positionals);
        assert(c@.subs =~= self@.subs);
        assert(c@.groups =~= self@.groups);
        c
    }

    /// The name of the command.
    pub fn get_name(&self) -> (r: &'a str)
        ensures
            r@ == self@.name,
    {
        self.name
    }

    /// The help text.
    pub fn get_help(&self) -> (r: Option<&'a str>)
        ensures
            opt_text(r) == self@.help,
    {
        self.help
    }

    /// The other names of the command.
    pub fn get_aliases(&self) -> (r: &[&'a str])
        ensures
            slice_texts(r@) == self@.aliases,
    {
        self.aliases.as_slice()
    }

    /// The options, in declaration order.
    pub fn get_opts(&self) -> (r: &[OptSpec<'a, Ctx>])
        ensures
            r@ == self.opt_list(),
            opt_views(r@) == self@.opts,
    {
        let r = self.opts.as_slice();
        assert(opt_views(r@) =~= self@.opts);
        r
    }

    /// The positional slots, in declaration order.
    pub fn get_positionals(&self) -> (r: &[PosSpec<'a, Ctx>])
        ensures
            r@ == self.slot_list(),
            pos_views(r@) == self@.positionals,
    {
        let r = self.positionals.as_slice();
        assert(pos_views(r@) =~= self@.positionals);
        r
    }

    /// The subcommands, in declaration order.
    pub fn get_subcommands(&self) -> (r: &[Self])
        ensures
            r@ == self.sub_list(),
            cmd_views(r@) == self@.subs,
    {
        let r = self.subcommands.as_slice();
        assert(cmd_views(r@) =~= self@.subs);
        r
    }

    /// The groups, in declaration order.
    pub fn get_groups(&self) -> (r: &[GroupDecl<'a>])
        ensures
            group_views(r@) == self@.groups,
    {
        let r = self.groups.as_slice();
        assert(group_views(r@) =~= self@.groups);
        r
    }

    /// The validator of the command.
    pub fn get_validator(&self) -> (r: Option<&Box<dyn CmdValidator>>)
        ensures
            r matches Some(b) ==> forall|m: &Matches, x: Result<(), Error>|
                #![trigger self.validates(m, x)]
                #![trigger may_check_all::<dyn CmdValidator>(&**b, m, x)]
                self.validates(m, x) == may_check_all::<dyn CmdValidator>(&**b, m, x),
            r is None ==> forall|m: &Matches, x: Result<(), Error>|
                #[trigger] self.validates(m, x) == x is Ok,
            r is Some == self@.validated,
    {
        self.validate_cmd.as_ref()
    }

    /// The handler of the command.
    pub fn get_handler(&self) -> (r: Option<&Box<dyn CmdHandler<Ctx>>>)
        ensures
            r matches Some(b) ==> forall|m: &Matches, c: Ctx, d: Ctx, x: Result<(), Error>|
                #![trigger self.runs(m, c, d, x)]
                #![trigger may_run::<Ctx, dyn CmdHandler<Ctx>>(&**b, m, c, d, x)]
                self.runs(m, c, d, x) == may_run::<Ctx, dyn CmdHandler<Ctx>>(&**b, m, c, d, x),
            r is None ==> forall|m: &Matches, c: Ctx, d: Ctx, x: Result<(), Error>|
                #[trigger] self.runs(m, c, d, x) == (x is Ok && d == c),
            r is Some == self@.handled,
    {
        self.handler.as_ref()
    }

    /// Whether `needle` is the command's name or one of its aliases.
    pub fn answers_to(&self, needle: &str) -> (r: bool)
        ensures
            r == self@.answers_to(needle@),
    {
        if same_text(self.name, needle) {
            return true;
        }
        let ghost al = self@.aliases;
        let mut i: usize = 0;
        while i < self.aliases.len()
            invariant
                i <= self.aliases.len(),
                al == slice_texts(self.aliases@),
                forall|j: int| 0 <= j < i ==> al[j] != needle@,
            decreases self.aliases.len() - i,
        {
            if same_text(self.aliases[i], needle) {
                assert(al[i as int] == needle@);
                return true;
            }
            i += 1;
        }
        false
    }

    /// The first subcommand that `needle` names, by name or alias.
    pub fn find_sub(&self, needle: &str) -> (r: Option<&Self>)
        ensures
            r matches Some(c) ==> self@.find_sub(needle@) matches Some(k) && *c
                == self.sub_list()[k] && self.sub_list().contains(*c),
            match r {
                Some(c) => self@.find_sub(needle@) matches Some(k) && c@ == self@.subs[k],
                None => self@.find_sub(needle@) is None,
            },
    {
        let ghost subs = self@.subs;
        let mut i: usize = 0;
        while i < self.subcommands.len()
            invariant
                i <= self.subcommands.len(),
                subs == self@.subs,
                subs.len() == self.subcommands@.len(),
                forall|j: int|
                    0 <= j < subs.len() ==> #[trigger] subs[j] == self.subcommands@[j]@,
                first_sub_from(subs, needle@, 0) == first_sub_from(subs, needle@, i as int),
            decreases self.subcommands.len() - i,
        {
            if self.subcommands[i].answers_to(needle) {
                assert(self.sub_list()[i as int] == self.subcommands@[i as int]);
                return Some(&self.subcommands[i]);
            }
            i += 1;
        }
        None
    }

    /// Position of the option that the long form `name` selects.
    pub fn find_long(&self, name: &str) -> (r: Option<usize>)
        ensures
            match r {
                Some(i) => self@.find_long(name@) == Some(i as int) && i < self@.opts.len(),
                None => self@.find_long(name@) is None,
            },
    {
        let ghost opts = self@.opts;
        let mut i: usize = self.opts.len();
        while i > 0
            invariant
                i <= self.opts.len(),
                opts == self@.opts,
                opts.len() == self.opts@.len(),
                forall|j: int| 0 <= j < opts.len() ==> #[trigger] opts[j] == self.opts@[j]@,
                last_long(opts, name@, opts.len() as int) == last_long(opts, name@, i as int),
            decreases i,
        {
            i -= 1;
            let hit = match self.opts[i].get_long() {
                Some(l) => same_text(l, name),
                None => false,
            };
            if hit {
                return Some(i);
            }
        }
        None
    }

    /// Position of the option that the short form `c` selects.
    pub fn find_short(&self, c: char) -> (r: Option<usize>)
        ensures
            match r {
                Some(i) => self@.find_short(c) == Some(i as int) && i < self@.opts.len(),
                None => self@.find_short(c) is None,
            },
    {
        let ghost opts = self@.opts;
        let mut i: usize = self.opts.len();
        while i > 0
            invariant
                i <= self.opts.len(),
                opts == self@.opts,
                opts.len() == self.opts@.len(),
                forall|j: int| 0 <= j < opts.len() ==> #[trigger] opts[j] == self.opts@[j]@,
                last_short(opts, c, opts.len() as int) == last_short(opts, c, i as int),
            decreases i,
        {
            i -= 1;
            let hit = match self.opts[i].get_short() {
                Some(s) => s == c,
                None => false,
            };
            if hit {
                return Some(i);
            }
        }
        None
    }
}

} // verus!
