//! The resolution engine as a mathematical model.
//!
//! A [`Cursor`] walks the argument vector while descending the command
//! tree; [`step`] says what one token does to it, [`scan`] runs it over the
//! whole vector, and [`resolve`] adds the overlay of environment and default
//! values and the structural checks of every level.

use crate::error::ErrorView;
use crate::help::help_text;
use crate::matches::{key_text, pos_key_text, MatchesView, ValueView};
use crate::schema::{ArgKind, CmdView, Env, GroupMode, GroupView, OptView, PosCardinality, PosView, Source};
use crate::suggest::suggestions;
use crate::token::TokenView;
use crate::util::looks_like_number;
use vstd::prelude::*;

verus! {

/// The engine's position in the argument vector's interpretation: the chain
/// of commands entered so far and the state of the current one.
pub struct Cursor {
    /// The commands from the root to the current one; never empty.
    pub stack: Seq<CmdView>,
    /// Whether `--` was seen in the current command.
    pub positional_only: bool,
    /// The positional slot that is being filled.
    pub pos_idx: int,
    /// How many values that slot holds.
    pub pos_fill: nat,
    /// The bindings made so far.
    pub m: MatchesView,
}

/// The names of the commands below the root, in order.
pub open spec fn path_of(stack: Seq<CmdView>) -> Seq<Seq<char>> {
    Seq::new((stack.len() - 1) as nat, |i: int| stack[i + 1].name)
}

/// The names of all the commands, the root included.
pub open spec fn names_of(stack: Seq<CmdView>) -> Seq<Seq<char>> {
    Seq::new(stack.len(), |i: int| stack[i].name)
}

impl Cursor {
    /// The current command.
    pub open spec fn node(self) -> CmdView {
        self.stack.last()
    }

    /// The path of the current command.
    pub open spec fn path(self) -> Seq<Seq<char>> {
        path_of(self.stack)
    }

    /// Whether the current command is the root.
    pub open spec fn at_root(self) -> bool {
        self.stack.len() == 1
    }

    /// The same cursor with other bindings.
    pub open spec fn with_matches(self, m: MatchesView) -> Cursor {
        Cursor { m, ..self }
    }
}

/// The cursor before the first token.
pub open spec fn start(root: CmdView) -> Cursor {
    Cursor {
        stack: seq![root],
        positional_only: false,
        pos_idx: 0,
        pos_fill: 0,
        m: MatchesView::empty(),
    }
}

/// What one step of matching does: it binds and consumes tokens, or fails.
pub enum Bound {
    Took { m: MatchesView, used: int },
    Fail { error: ErrorView },
}

/// What one token does to the cursor.
pub enum Step {
    Go { cursor: Cursor, next: int },
    Halt { error: ErrorView },
}

// ---------------------------------------------------------------------
// Built-ins and diagnostics
// ---------------------------------------------------------------------
/// The exit that a built-in token asks for: help anywhere, version and
/// author at the root only.
pub open spec fn builtin_exit(env: Env, stack: Seq<CmdView>, s: Seq<char>) -> Option<ErrorView> {
    if env.auto_help && (s == "-h"@ || s == "--help"@) {
        Some(
            ErrorView::ExitMsg {
                code: 0,
                message: Some(help_text(env, names_of(stack), stack.last())),
            },
        )
    } else if stack.len() == 1 && env.version is Some && (s == "-V"@ || s == "--version"@) {
        Some(ErrorView::ExitMsg { code: 0, message: Some(env.version->0@) })
    } else if stack.len() == 1 && env.author is Some && (s == "-A"@ || s == "--author"@) {
        Some(ErrorView::ExitMsg { code: 0, message: Some(env.author->0@) })
    } else {
        None
    }
}

/// The long forms that the first `n` options declare.
pub open spec fn longs_of(opts: Seq<OptView>, n: int) -> Seq<Seq<char>>
    decreases n,
{
    if n <= 0 {
        Seq::empty()
    } else {
        match opts[n - 1].long {
            Some(l) => longs_of(opts, n - 1).push(l),
            None => longs_of(opts, n - 1),
        }
    }
}

/// The short forms that the first `n` options declare, each as a text.
pub open spec fn shorts_of(opts: Seq<OptView>, n: int) -> Seq<Seq<char>>
    decreases n,
{
    if n <= 0 {
        Seq::empty()
    } else {
        match opts[n - 1].short {
            Some(c) => shorts_of(opts, n - 1).push(seq![c]),
            None => shorts_of(opts, n - 1),
        }
    }
}

/// The names and aliases of the first `n` commands.
pub open spec fn command_names(subs: Seq<CmdView>, n: int) -> Seq<Seq<char>>
    decreases n,
{
    if n <= 0 {
        Seq::empty()
    } else {
        command_names(subs, n - 1).push(subs[n - 1].name) + subs[n - 1].aliases
    }
}

/// The built-in names that are recognised here, in long or short form.
pub open spec fn builtin_names(env: Env, at_root: bool, long: bool) -> Seq<Seq<char>> {
    (if at_root && env.author is Some {
        seq![if long { "author"@ } else { "A"@ }]
    } else {
        Seq::empty()
    }) + (if at_root && env.version is Some {
        seq![if long { "version"@ } else { "V"@ }]
    } else {
        Seq::empty()
    }) + (if env.auto_help {
        seq![if long { "help"@ } else { "h"@ }]
    } else {
        Seq::empty()
    })
}

/// Each item with `prefix` before it.
pub open spec fn prefixed(prefix: Seq<char>, items: Seq<Seq<char>>) -> Seq<Seq<char>> {
    Seq::new(items.len(), |i: int| prefix + items[i])
}

/// The error for a long option that the command does not declare.
pub open spec fn unknown_long(env: Env, node: CmdView, at_root: bool, name: Seq<char>) -> ErrorView {
    ErrorView::UnknownOption {
        token: "--"@ + name,
        suggestions: if env.suggest {
            prefixed(
                "--"@,
                suggestions(
                    name,
                    longs_of(node.opts, node.opts.len() as int) + builtin_names(env, at_root, true),
                ),
            )
        } else {
            Seq::empty()
        },
    }
}

/// The error for a short option that the command does not declare.
pub open spec fn unknown_short(env: Env, node: CmdView, at_root: bool, c: char) -> ErrorView {
    ErrorView::UnknownOption {
        token: "-"@.push(c),
        suggestions: if env.suggest {
            prefixed(
                "-"@,
                suggestions(
                    seq![c],
                    shorts_of(node.opts, node.opts.len() as int) + builtin_names(
                        env,
                        at_root,
                        false,
                    ),
                ),
            )
        } else {
            Seq::empty()
        },
    }
}

/// The error for a bare token where a subcommand was expected.
pub open spec fn unknown_command(env: Env, node: CmdView, s: Seq<char>) -> ErrorView {
    ErrorView::UnknownCommand {
        token: s,
        suggestions: if env.suggest {
            suggestions(s, command_names(node.subs, node.subs.len() as int))
        } else {
            Seq::empty()
        },
    }
}

// ---------------------------------------------------------------------
// Overlay of environment and default values
// ---------------------------------------------------------------------
/// The environment overlay for one option: an option that has no binding
/// yet and names a variable that is set is bound from it.
pub open spec fn env_step(
    m: MatchesView,
    path: Seq<Seq<char>>,
    o: OptView,
    vars: Map<Seq<char>, TokenView>,
) -> MatchesView {
    let key = key_text(path, o.name);
    if !m.is_set(key) && o.env is Some && vars.contains_key(o.env->0) {
        if o.takes_value() {
            m.with_bound(key, vars[o.env->0], Source::Env)
        } else {
            m.with_flag(key, Source::Env)
        }
    } else {
        m
    }
}

/// The environment overlay for the first `n` options, in declaration order.
pub open spec fn overlay_env(
    m: MatchesView,
    path: Seq<Seq<char>>,
    opts: Seq<OptView>,
    vars: Map<Seq<char>, TokenView>,
    n: int,
) -> MatchesView
    decreases n,
{
    if n <= 0 {
        m
    } else {
        env_step(overlay_env(m, path, opts, vars, n - 1), path, opts[n - 1], vars)
    }
}

/// Whether another member of the group of option `idx` is bound.
pub open spec fn group_taken(
    m: MatchesView,
    path: Seq<Seq<char>>,
    opts: Seq<OptView>,
    idx: int,
) -> bool {
    opts[idx].group is Some && exists|j: int|
        0 <= j < opts.len() && j != idx && (#[trigger] opts[j]).group == opts[idx].group
            && m.is_set(key_text(path, opts[j].name))
}

/// The default overlay for option `idx`: its default is bound if the option
/// has no binding yet and no other member of its group has one.
pub open spec fn default_step(
    m: MatchesView,
    path: Seq<Seq<char>>,
    opts: Seq<OptView>,
    idx: int,
) -> MatchesView {
    let o = opts[idx];
    let key = key_text(path, o.name);
    if !m.is_set(key) && o.default is Some && !group_taken(m, path, opts, idx) {
        m.with_bound(key, o.default->0, Source::Default)
    } else {
        m
    }
}

/// The default overlay for the first `n` options, in declaration order.
pub open spec fn overlay_defaults(
    m: MatchesView,
    path: Seq<Seq<char>>,
    opts: Seq<OptView>,
    n: int,
) -> MatchesView
    decreases n,
{
    if n <= 0 {
        m
    } else {
        default_step(overlay_defaults(m, path, opts, n - 1), path, opts, n - 1)
    }
}

/// The overlay of one command: environment first, then defaults.
pub open spec fn overlay(
    m: MatchesView,
    path: Seq<Seq<char>>,
    cmd: CmdView,
    vars: Map<Seq<char>, TokenView>,
) -> MatchesView {
    overlay_defaults(
        overlay_env(m, path, cmd.opts, vars, cmd.opts.len() as int),
        path,
        cmd.opts,
        cmd.opts.len() as int,
    )
}

// ---------------------------------------------------------------------
// Options
// ---------------------------------------------------------------------
/// An occurrence of `o` without a value.
pub open spec fn bind_flag(m: MatchesView, path: Seq<Seq<char>>, o: OptView) -> MatchesView {
    m.with_flag(key_text(path, o.name), Source::Cli)
}

/// An occurrence of `o` with the value `v`.
pub open spec fn bind_value(
    m: MatchesView,
    path: Seq<Seq<char>>,
    o: OptView,
    v: TokenView,
) -> MatchesView {
    m.with_value(key_text(path, o.name), v, o.repeat)
}

/// Whether a text begins with a dash.
pub open spec fn dashed(t: Seq<char>) -> bool {
    t.len() > 0 && t[0] == '-'
}

/// An optional value that was not given inline: the next token decides.
/// A lone `-` is consumed and stands for no value; with the numeric hint a
/// token that looks like a number is the value; any other token that begins
/// with a dash is left alone; anything else is the value.
pub open spec fn optional_step(
    m: MatchesView,
    path: Seq<Seq<char>>,
    o: OptView,
    argv: Seq<TokenView>,
    i: int,
) -> Bound {
    if i + 1 >= argv.len() {
        Bound::Took { m: bind_flag(m, path, o), used: 1 }
    } else {
        match argv[i + 1] {
            TokenView::Text(t) => if t == "-"@ {
                Bound::Took { m: bind_flag(m, path, o), used: 2 }
            } else if o.numeric && looks_like_number(t) {
                Bound::Took { m: bind_value(m, path, o, argv[i + 1]), used: 2 }
            } else if dashed(t) {
                Bound::Took { m: bind_flag(m, path, o), used: 1 }
            } else {
                Bound::Took { m: bind_value(m, path, o, argv[i + 1]), used: 2 }
            },
            TokenView::Raw(_) => Bound::Took { m: bind_value(m, path, o, argv[i + 1]), used: 2 },
        }
    }
}

/// One occurrence of the option `o`, written as `label`, with the value
/// that came in the same token, if any.
pub open spec fn dispatch(
    m: MatchesView,
    path: Seq<Seq<char>>,
    o: OptView,
    label: Seq<char>,
    inline: Option<Seq<char>>,
    argv: Seq<TokenView>,
    i: int,
) -> Bound {
    match o.kind {
        ArgKind::NoValue => Bound::Took { m: bind_flag(m, path, o), used: 1 },
        ArgKind::RequiredValue => match inline {
            Some(v) => if v.len() == 0 {
                Bound::Fail { error: ErrorView::MissingValue { opt: label } }
            } else {
                Bound::Took { m: bind_value(m, path, o, TokenView::Text(v)), used: 1 }
            },
            None => if i + 1 < argv.len() {
                Bound::Took { m: bind_value(m, path, o, argv[i + 1]), used: 2 }
            } else {
                Bound::Fail { error: ErrorView::MissingValue { opt: label } }
            },
        },
        ArgKind::OptionalValue => match inline {
            Some(v) => Bound::Took { m: bind_value(m, path, o, TokenView::Text(v)), used: 1 },
            None => optional_step(m, path, o, argv, i),
        },
    }
}

/// Whether a text is a long option: it begins with two dashes.
pub open spec fn starts_long(s: Seq<char>) -> bool {
    s.len() >= 2 && s[0] == '-' && s[1] == '-'
}

/// Position of the first `=` at or after `k`, or the length if there is none.
pub open spec fn first_eq(s: Seq<char>, k: int) -> int
    decreases s.len() - k,
{
    if k < 0 || k >= s.len() {
        s.len() as int
    } else if s[k] == '=' {
        k
    } else {
        first_eq(s, k + 1)
    }
}

/// A long option `--name` or `--name=value`, looked up in the current
/// command only.
pub open spec fn long_step(
    env: Env,
    node: CmdView,
    at_root: bool,
    m: MatchesView,
    path: Seq<Seq<char>>,
    s: Seq<char>,
    argv: Seq<TokenView>,
    i: int,
) -> Bound {
    let e = first_eq(s, 2);
    let name = s.subrange(2, e);
    let inline = if e < s.len() {
        Some(s.skip(e + 1))
    } else {
        None
    };
    match node.find_long(name) {
        None => Bound::Fail { error: unknown_long(env, node, at_root, name) },
        Some(idx) => dispatch(m, path, node.opts[idx], "--"@ + name, inline, argv, i),
    }
}

/// Whether a text is a cluster of short options: it begins with a dash,
/// has something after it, and is not a number whose first character no
/// short option claims.
pub open spec fn is_cluster(node: CmdView, s: Seq<char>) -> bool {
    s.len() >= 2 && s[0] == '-' && !(node.find_short(s[1]) is None && looks_like_number(s))
}

/// The walk through a short cluster from position `p`: flags are bound one
/// by one; the first option that takes a value takes the rest of the token,
/// or the next token, and ends the walk.
pub open spec fn short_walk(
    env: Env,
    node: CmdView,
    at_root: bool,
    m: MatchesView,
    path: Seq<Seq<char>>,
    s: Seq<char>,
    p: int,
    argv: Seq<TokenView>,
    i: int,
) -> Bound
    decreases s.len() - p,
{
    if p < 0 || p >= s.len() {
        Bound::Took { m, used: 1 }
    } else {
        match node.find_short(s[p]) {
            None => Bound::Fail { error: unknown_short(env, node, at_root, s[p]) },
            Some(idx) => {
                let o = node.opts[idx];
                if o.kind == ArgKind::NoValue {
                    short_walk(env, node, at_root, bind_flag(m, path, o), path, s, p + 1, argv, i)
                } else {
                    dispatch(
                        m,
                        path,
                        o,
                        "-"@.push(s[p]),
                        if p + 1 < s.len() {
                            Some(s.skip(p + 1))
                        } else {
                            None
                        },
                        argv,
                        i,
                    )
                }
            },
        }
    }
}

// ---------------------------------------------------------------------
// Positionals
// ---------------------------------------------------------------------
/// The slot that takes the next positional value: the current one while it
/// is open, else the next that is; with the number of values it holds.
pub open spec fn open_slot(pos: Seq<PosView>, idx: int, fill: nat) -> Option<(int, nat)>
    decreases pos.len() - idx,
{
    if idx < 0 || idx >= pos.len() {
        None
    } else if pos[idx].card.open_at(fill) {
        Some((idx, fill))
    } else {
        open_slot(pos, idx + 1, 0)
    }
}

/// The error for a token that no positional slot takes.
pub open spec fn no_slot_error(node: CmdView, tok: TokenView) -> ErrorView {
    if node.positionals.len() > 0 {
        ErrorView::User("too many positional arguments"@)
    } else {
        ErrorView::UnexpectedPositional { token: tok.lossy() }
    }
}

/// A token bound as the next positional value.
pub open spec fn positional_step(c: Cursor, tok: TokenView, i: int) -> Step {
    match open_slot(c.node().positionals, c.pos_idx, c.pos_fill) {
        Some((j, fill)) => Step::Go {
            cursor: Cursor {
                pos_idx: j,
                pos_fill: fill + 1,
                m: c.m.with_positional(
                    pos_key_text(c.path(), c.node().positionals[j].name),
                    tok,
                ),
                ..c
            },
            next: i + 1,
        },
        None => Step::Halt { error: no_slot_error(c.node(), tok) },
    }
}

// ---------------------------------------------------------------------
// The cursor
// ---------------------------------------------------------------------
/// Entering the subcommand `k` of the current command: the new command
/// starts with fresh positional state, and its overlay is applied at once.
pub open spec fn descend(c: Cursor, k: int, vars: Map<Seq<char>, TokenView>) -> Cursor {
    let stack = c.stack.push(c.node().subs[k]);
    Cursor {
        stack,
        positional_only: false,
        pos_idx: 0,
        pos_fill: 0,
        m: overlay(c.m, path_of(stack), c.node().subs[k], vars),
    }
}

/// Whether a bare token is taken for a mistyped subcommand: the command
/// has subcommands and no positional slot that would take the token.
pub open spec fn wants_command(c: Cursor, s: Seq<char>) -> bool {
    !dashed(s) && c.node().subs.len() > 0 && open_slot(
        c.node().positionals,
        c.pos_idx,
        c.pos_fill,
    ) is None
}

/// The outcome of an option match as a step of the cursor.
pub open spec fn lift(c: Cursor, b: Bound, i: int) -> Step {
    match b {
        Bound::Took { m, used } => Step::Go { cursor: c.with_matches(m), next: i + used },
        Bound::Fail { error } => Step::Halt { error },
    }
}

/// What the token at `i` does. Before `--`, a text token is tried in turn
/// as the end-of-options mark, a built-in, a subcommand, a long option and
/// a short cluster; what is left, and every token after `--`, is a
/// positional value.
pub open spec fn step(
    env: Env,
    vars: Map<Seq<char>, TokenView>,
    c: Cursor,
    argv: Seq<TokenView>,
    i: int,
) -> Step {
    match argv[i] {
        TokenView::Text(s) => if c.positional_only {
            positional_step(c, argv[i], i)
        } else if s == "--"@ {
            Step::Go { cursor: Cursor { positional_only: true, ..c }, next: i + 1 }
        } else if builtin_exit(env, c.stack, s) is Some {
            Step::Halt { error: builtin_exit(env, c.stack, s)->0 }
        } else if c.node().find_sub(s) is Some {
            Step::Go { cursor: descend(c, c.node().find_sub(s)->0, vars), next: i + 1 }
        } else if starts_long(s) {
            lift(c, long_step(env, c.node(), c.at_root(), c.m, c.path(), s, argv, i), i)
        } else if is_cluster(c.node(), s) {
            lift(c, short_walk(env, c.node(), c.at_root(), c.m, c.path(), s, 1, argv, i), i)
        } else if wants_command(c, s) {
            Step::Halt { error: unknown_command(env, c.node(), s) }
        } else {
            positional_step(c, argv[i], i)
        },
        TokenView::Raw(_) => positional_step(c, argv[i], i),
    }
}

/// The cursor after the tokens from `i` on, or the first error.
pub open spec fn run(
    env: Env,
    vars: Map<Seq<char>, TokenView>,
    c: Cursor,
    argv: Seq<TokenView>,
    i: int,
) -> Result<Cursor, ErrorView>
    decreases argv.len() - i,
{
    if i < 0 || i >= argv.len() {
        Ok(c)
    } else {
        match step(env, vars, c, argv, i) {
            Step::Halt { error } => Err(error),
            Step::Go { cursor, next } => if i < next <= argv.len() {
                run(env, vars, cursor, argv, next)
            } else {
                Ok(cursor)
            },
        }
    }
}

/// The scan of a whole argument vector from the root.
pub open spec fn scan(
    env: Env,
    root: CmdView,
    argv: Seq<TokenView>,
    vars: Map<Seq<char>, TokenView>,
) -> Result<Cursor, ErrorView> {
    run(env, vars, start(root), argv, 0)
}

// ---------------------------------------------------------------------
// Structural checks of one level
// ---------------------------------------------------------------------
/// How many values are bound at `key`.
pub open spec fn bound_count(m: MatchesView, key: Seq<char>) -> nat {
    if m.values.contains_key(key) {
        match m.values[key] {
            ValueView::Flag => 0,
            ValueView::One(_) => 1,
            ValueView::Many(vs) => vs.len(),
        }
    } else {
        0
    }
}

/// The arity error of one positional slot, if it has one.
pub open spec fn slot_error(m: MatchesView, path: Seq<Seq<char>>, p: PosView) -> Option<
    ErrorView,
> {
    let key = pos_key_text(path, p.name);
    match p.card {
        PosCardinality::One { required } => if required && !m.values.contains_key(key) {
            Some(ErrorView::User("missing required positional"@))
        } else {
            None
        },
        PosCardinality::Many => None,
        PosCardinality::Range { min, max } => if bound_count(m, key) < min {
            Some(ErrorView::User("positional count below minimum"@))
        } else {
            None
        },
    }
}

/// The first arity error among the first `n` positional slots.
pub open spec fn arity_error(
    m: MatchesView,
    path: Seq<Seq<char>>,
    pos: Seq<PosView>,
    n: int,
) -> Option<ErrorView>
    decreases n,
{
    if n <= 0 {
        None
    } else {
        match arity_error(m, path, pos, n - 1) {
            Some(e) => Some(e),
            None => slot_error(m, path, pos[n - 1]),
        }
    }
}

/// How many of the first `n` options are members of group `g` and bound,
/// from whatever source.
pub open spec fn group_hits(
    m: MatchesView,
    path: Seq<Seq<char>>,
    opts: Seq<OptView>,
    g: Seq<char>,
    n: int,
) -> nat
    decreases n,
{
    if n <= 0 {
        0
    } else {
        group_hits(m, path, opts, g, n - 1) + if opts[n - 1].group == Some(g) && m.is_set(
            key_text(path, opts[n - 1].name),
        ) {
            1nat
        } else {
            0nat
        }
    }
}

/// The error of one group, if its rule is broken.
pub open spec fn group_error(
    m: MatchesView,
    path: Seq<Seq<char>>,
    opts: Seq<OptView>,
    g: GroupView,
) -> Option<ErrorView> {
    let hits = group_hits(m, path, opts, g.name, opts.len() as int);
    match g.mode {
        GroupMode::Xor => if hits > 1 {
            Some(ErrorView::User("options in group '"@ + g.name + "' are mutually exclusive"@))
        } else {
            None
        },
        GroupMode::ReqOne => if hits == 0 {
            Some(
                ErrorView::User("one of the options in group '"@ + g.name + "' is required"@),
            )
        } else {
            None
        },
    }
}

/// The first group error among the first `n` groups.
pub open spec fn groups_error(
    m: MatchesView,
    path: Seq<Seq<char>>,
    cmd: CmdView,
    n: int,
) -> Option<ErrorView>
    decreases n,
{
    if n <= 0 {
        None
    } else {
        match groups_error(m, path, cmd, n - 1) {
            Some(e) => Some(e),
            None => group_error(m, path, cmd.opts, cmd.groups[n - 1]),
        }
    }
}

/// The structural error of one level: arity first, then groups.
pub open spec fn level_error(m: MatchesView, path: Seq<Seq<char>>, cmd: CmdView) -> Option<
    ErrorView,
> {
    match arity_error(m, path, cmd.positionals, cmd.positionals.len() as int) {
        Some(e) => Some(e),
        None => groups_error(m, path, cmd, cmd.groups.len() as int),
    }
}

// ---------------------------------------------------------------------
// All levels
// ---------------------------------------------------------------------
/// The path of level `k` of a stack (level 0 is the root).
pub open spec fn level_path(stack: Seq<CmdView>, k: int) -> Seq<Seq<char>> {
    path_of(stack.take(k + 1))
}

/// Overlay and structural check of the first `n` levels, root first.
pub open spec fn settle(
    m: MatchesView,
    stack: Seq<CmdView>,
    vars: Map<Seq<char>, TokenView>,
    n: int,
) -> Result<MatchesView, ErrorView>
    decreases n,
{
    if n <= 0 {
        Ok(m)
    } else {
        match settle(m, stack, vars, n - 1) {
            Err(e) => Err(e),
            Ok(m1) => {
                let path = level_path(stack, n - 1);
                let m2 = overlay(m1, path, stack[n - 1], vars);
                match level_error(m2, path, stack[n - 1]) {
                    Some(e) => Err(e),
                    None => Ok(m2),
                }
            },
        }
    }
}

/// The bindings that an argument vector resolves to where no callback or
/// validator objects: the scan, then overlay and structural checks of every
/// level from the root to the selected command, whose path is recorded.
pub open spec fn resolve(
    env: Env,
    root: CmdView,
    argv: Seq<TokenView>,
    vars: Map<Seq<char>, TokenView>,
) -> Result<MatchesView, ErrorView> {
    match scan(env, root, argv, vars) {
        Err(e) => Err(e),
        Ok(c) => match settle(c.m, c.stack, vars, c.stack.len() as int) {
            Err(e) => Err(e),
            Ok(m) => Ok(m.with_leaf(c.path())),
        },
    }
}

/// The error that is certain before any callback or validator runs: that
/// of the scan, or the structural error of the root level.
pub open spec fn early_error(
    env: Env,
    root: CmdView,
    argv: Seq<TokenView>,
    vars: Map<Seq<char>, TokenView>,
) -> Option<ErrorView> {
    match scan(env, root, argv, vars) {
        Err(e) => Some(e),
        Ok(c) => level_error(overlay(c.m, Seq::empty(), c.stack[0], vars), Seq::empty(), c.stack[0]),
    }
}

// ---------------------------------------------------------------------
// Where no callback or validator is called
// ---------------------------------------------------------------------
/// Whether no validator and no callback is called for the option `o`: it
/// holds no value to validate or hand on, and no occurrence to fire for.
pub open spec fn option_silent(m: MatchesView, path: Seq<Seq<char>>, o: OptView) -> bool {
    let key = key_text(path, o.name);
    if !m.values.contains_key(key) {
        true
    } else {
        match m.values[key] {
            ValueView::Flag => !o.flag_sink || m.count_at(key) == 0,
            ValueView::One(_) => !o.validated && !o.value_sink,
            ValueView::Many(vs) => vs.len() == 0 || (!o.validated && !o.value_sink),
        }
    }
}

/// Whether no validator and no callback of one level is called: the
/// command has no validator, no positional of it holds a value, and each of
/// its options is silent.
pub open spec fn level_silent(m: MatchesView, path: Seq<Seq<char>>, cmd: CmdView) -> bool {
    &&& !cmd.validated
    &&& forall|i: int| 0 <= i < cmd.opts.len() ==> option_silent(m, path, #[trigger] cmd.opts[i])
    &&& forall|i: int|
        0 <= i < cmd.positionals.len() ==> bound_count(
            m,
            pos_key_text(path, (#[trigger] cmd.positionals[i]).name),
        ) == 0
}

/// Whether a parse calls no validator, no callback and no handler: every
/// level that is reached is silent, and the selected command has no handler.
pub open spec fn silent_run(
    env: Env,
    root: CmdView,
    argv: Seq<TokenView>,
    vars: Map<Seq<char>, TokenView>,
) -> bool {
    match scan(env, root, argv, vars) {
        Err(_) => true,
        Ok(c) => !c.stack.last().handled && forall|k: int|
            0 <= k < c.stack.len() ==> (#[trigger] settle(c.m, c.stack, vars, k + 1) matches Ok(
                m,
            ) ==> level_silent(m, level_path(c.stack, k), c.stack[k])),
    }
}

/// An arity error found among the first `n` slots is the arity error of
/// any longer prefix.
pub proof fn lemma_arity_error_stands(
    m: MatchesView,
    path: Seq<Seq<char>>,
    pos: Seq<PosView>,
    n: int,
    total: int,
)
    requires
        n <= total,
        arity_error(m, path, pos, n) is Some,
    ensures
        arity_error(m, path, pos, total) == arity_error(m, path, pos, n),
    decreases total - n,
{
    if n < total {
        lemma_arity_error_stands(m, path, pos, n, total - 1);
    }
}

/// A group error found among the first `n` groups is the group error of
/// any longer prefix.
pub proof fn lemma_groups_error_stands(
    m: MatchesView,
    path: Seq<Seq<char>>,
    cmd: CmdView,
    n: int,
    total: int,
)
    requires
        n <= total,
        groups_error(m, path, cmd, n) is Some,
    ensures
        groups_error(m, path, cmd, total) == groups_error(m, path, cmd, n),
    decreases total - n,
{
    if n < total {
        lemma_groups_error_stands(m, path, cmd, n, total - 1);
    }
}

/// An error found while settling the first `n` levels is the error of
/// settling any more of them.
pub proof fn lemma_settle_error_stands(
    m: MatchesView,
    stack: Seq<CmdView>,
    vars: Map<Seq<char>, TokenView>,
    n: int,
    total: int,
)
    requires
        n <= total,
        settle(m, stack, vars, n) is Err,
    ensures
        settle(m, stack, vars, total) == settle(m, stack, vars, n),
    decreases total - n,
{
    if n < total {
        lemma_settle_error_stands(m, stack, vars, n, total - 1);
    }
}

} // verus!
