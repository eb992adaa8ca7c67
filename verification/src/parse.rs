//! The resolution engine: the scan of the argument vector, the overlay of
//! environment and default values, validation, and the callbacks.

use crate::error::{Error, ErrorView};
use crate::help::render_help_with_path;
use crate::matches::{
    key_for, key_text, pos_key_for, pos_key_text, Matches, MatchesView, Value, ValueView,
};
use crate::model::{
    arity_error, bound_count, builtin_exit, builtin_names, command_names, descend, dispatch,
    early_error, first_eq, group_hits, group_taken, groups_error, is_cluster,
    lemma_arity_error_stands, lemma_groups_error_stands, lemma_settle_error_stands, level_error,
    level_path, level_silent, long_step, longs_of, names_of, no_slot_error, open_slot,
    option_silent, optional_step, overlay, overlay_defaults, overlay_env, path_of, prefixed,
    resolve, run, scan, settle, short_walk, shorts_of, silent_run, start, starts_long, step,
    unknown_command, unknown_long, unknown_short, Bound, Cursor, Step,
};
use crate::schema::{
    cmd_views, group_views, may_accept, may_check, may_check_all, may_fire, may_run, opt_views,
    pos_views, ArgKind, CmdHandler, CmdSpec, CmdValidator, CmdView, Env, GroupMode, OnFlag,
    OnValue, OptSpec, PosCardinality, PosSpec, Source, ValueValidator,
};
use crate::suggest::best_suggestions;
use crate::text::{chars_of, owned, same_text, slice_texts, spells, text_of, texts};
use crate::token::{token_views, Token, TokenView};
use crate::util::looks_like_number_chars;
use crate::vars::EnvVars;
use vstd::prelude::*;
use vstd::string::*;

verus! {

/// The values of a chain of commands.
pub open spec fn stack_views<'a, Ctx>(s: Seq<&'a CmdSpec<'a, Ctx>>) -> Seq<CmdView> {
    Seq::new(s.len(), |i: int| (*s[i])@)
}

/// What the result of a parse stands for: the bindings, or the error.
pub open spec fn outcome(r: Result<Matches, Error>) -> Result<MatchesView, ErrorView> {
    match r {
        Ok(m) => Ok(m.model()),
        Err(e) => Err(e@),
    }
}

/// What an optional error stands for.
spec fn opt_error(r: Option<Error>) -> Option<ErrorView> {
    match r {
        Some(e) => Some(e@),
        None => None,
    }
}

/// Whether the result of a matcher is what the model says: the number of
/// tokens used and the new bindings, or the error.
spec fn realizes(r: Result<usize, Error>, m: MatchesView, b: Bound) -> bool {
    match b {
        Bound::Took { m: mv, used } => r matches Ok(u) && u == used && m == mv,
        Bound::Fail { error } => r matches Err(e) && e@ == error,
    }
}

/// Whether a matcher that succeeded used one or two tokens, all of them
/// inside the argument vector.
spec fn in_bounds(r: Result<usize, Error>, i: usize, len: usize) -> bool {
    r matches Ok(u) ==> 1 <= u <= 2 && i + u <= len
}

/// The same for a matcher that may decline.
spec fn in_bounds_if(r: Result<Option<usize>, Error>, i: usize, len: usize) -> bool {
    r matches Ok(Some(u)) ==> 1 <= u <= 2 && i + u <= len
}

/// Whether the result of a matcher that may decline is what the model
/// says, `applies` telling whether the matcher is the one to take the token.
spec fn realizes_if(
    r: Result<Option<usize>, Error>,
    before: MatchesView,
    after: MatchesView,
    applies: bool,
    b: Bound,
) -> bool {
    if applies {
        match b {
            Bound::Took { m: mv, used } => r matches Ok(Some(u)) && u == used && after == mv,
            Bound::Fail { error } => r matches Err(e) && e@ == error,
        }
    } else {
        r matches Ok(None) && after == before
    }
}

fn names_of_stack<'a, Ctx>(stack: &Vec<&'a CmdSpec<'a, Ctx>>) -> (names: Vec<&'a str>)
    ensures
        slice_texts(names@) == names_of(stack_views(stack@)),
{
    let mut names: Vec<&'a str> = Vec::new();
    let mut i: usize = 0;
    while i < stack.len()
        invariant
            i <= stack.len(),
            names@.len() == i,
            forall|k: int| 0 <= k < i ==> (#[trigger] names@[k])@ == (*stack@[k])@.name,
        decreases stack.len() - i,
    {
        names.push(stack[i].get_name());
        i += 1;
    }
    assert(slice_texts(names@) =~= names_of(stack_views(stack@)));
    names
}

/// The exit that a built-in token asks for, if the token is one.
fn try_handle_builtins<'a, Ctx>(
    env: &Env,
    stack: &Vec<&'a CmdSpec<'a, Ctx>>,
    current: &CmdSpec<'a, Ctx>,
    chars: &Vec<char>,
) -> (r: Option<Error>)
    requires
        stack@.len() > 0,
        current@ == (*stack@.last())@,
    ensures
        opt_error(r) == builtin_exit(*env, stack_views(stack@), chars@),
{
    let n = chars.len();
    assert(chars@.subrange(0, n as int) =~= chars@);
    assert(stack_views(stack@).last() == current@);
    if env.auto_help && (spells(chars, 0, n, "-h") || spells(chars, 0, n, "--help")) {
        let names = names_of_stack(stack);
        let msg = render_help_with_path(env, names.as_slice(), current);
        return Some(Error::ExitMsg { code: 0, message: Some(msg) });
    }
    if stack.len() == 1 {
        if let Some(ver) = env.version {
            if spells(chars, 0, n, "-V") || spells(chars, 0, n, "--version") {
                return Some(Error::ExitMsg { code: 0, message: Some(owned(ver)) });
            }
        }
        if let Some(auth) = env.author {
            if spells(chars, 0, n, "-A") || spells(chars, 0, n, "--author") {
                return Some(Error::ExitMsg { code: 0, message: Some(owned(auth)) });
            }
        }
    }
    None
}

/// The built-in names that are recognised here, appended to `cands`.
fn push_builtin_names(cands: &mut Vec<String>, env: &Env, at_root: bool, long: bool)
    ensures
        texts(final(cands)@) == texts(old(cands)@) + builtin_names(*env, at_root, long),
{
    let ghost before = texts(cands@);
    if at_root && env.author.is_some() {
        let name = if long {
            "author"
        } else {
            "A"
        };
        cands.push(owned(name));
    }
    if at_root && env.version.is_some() {
        let name = if long {
            "version"
        } else {
            "V"
        };
        cands.push(owned(name));
    }
    if env.auto_help {
        let name = if long {
            "help"
        } else {
            "h"
        };
        cands.push(owned(name));
    }
    assert(texts(cands@) =~= before + builtin_names(*env, at_root, long));
}

/// Each item with `prefix` before it.
fn with_prefix(prefix: &str, items: &Vec<String>) -> (out: Vec<String>)
    ensures
        texts(out@) == prefixed(prefix@, texts(items@)),
{
    let mut out: Vec<String> = Vec::new();
    let mut i: usize = 0;
    while i < items.len()
        invariant
            i <= items.len(),
            out@.len() == i,
            forall|k: int| 0 <= k < i ==> (#[trigger] out@[k])@ == prefix@ + items@[k]@,
        decreases items.len() - i,
    {
        let mut s = owned(prefix);
        s.append(items[i].as_str());
        out.push(s);
        i += 1;
    }
    assert(texts(out@) =~= prefixed(prefix@, texts(items@)));
    out
}

/// The error for a long option that the command does not declare.
fn unknown_long_error<'a, Ctx>(env: &Env, name: &str, cmd: &CmdSpec<'a, Ctx>, path: &[&str]) -> (e:
    Error)
    ensures
        e@ == unknown_long(*env, cmd@, path@.len() == 0, name@),
{
    let mut token = owned("--");
    token.append(name);
    let suggestions = if env.suggest {
        let opts = cmd.get_opts();
        let ghost ov = cmd@.opts;
        let mut cands: Vec<String> = Vec::new();
        let mut i: usize = 0;
        assert(texts(cands@) =~= longs_of(ov, 0));
        while i < opts.len()
            invariant
                i <= opts.len(),
                ov == opt_views(opts@),
                texts(cands@) == longs_of(ov, i as int),
            decreases opts.len() - i,
        {
            let ghost before = texts(cands@);
            if let Some(l) = opts[i].get_long() {
                cands.push(owned(l));
                assert(texts(cands@) =~= before.push(l@));
            }
            i += 1;
        }
        push_builtin_names(&mut cands, env, path.len() == 0, true);
        let best = best_suggestions(name, &cands);
        with_prefix("--", &best)
    } else {
        let v: Vec<String> = Vec::new();
        assert(texts(v@) =~= Seq::empty());
        v
    };
    Error::UnknownOption { token, suggestions }
}

/// The error for a short option that the command does not declare.
fn unknown_short_error<'a, Ctx>(env: &Env, c: char, cmd: &CmdSpec<'a, Ctx>, path: &[&str]) -> (e:
    Error)
    ensures
        e@ == unknown_short(*env, cmd@, path@.len() == 0, c),
{
    let mut token = owned("-");
    token.push(c);
    let suggestions = if env.suggest {
        let opts = cmd.get_opts();
        let ghost ov = cmd@.opts;
        let mut cands: Vec<String> = Vec::new();
        let mut i: usize = 0;
        assert(texts(cands@) =~= shorts_of(ov, 0));
        while i < opts.len()
            invariant
                i <= opts.len(),
                ov == opt_views(opts@),
                texts(cands@) == shorts_of(ov, i as int),
            decreases opts.len() - i,
        {
            let ghost before = texts(cands@);
            if let Some(s) = opts[i].get_short() {
                let mut t = String::new();
                t.push(s);
                assert(t@ =~= seq![s]);
                cands.push(t);
                assert(texts(cands@) =~= before.push(seq![s]));
            }
            i += 1;
        }
        push_builtin_names(&mut cands, env, path.len() == 0, false);
        let mut needle = String::new();
        needle.push(c);
        assert(needle@ =~= seq![c]);
        let best = best_suggestions(needle.as_str(), &cands);
        with_prefix("-", &best)
    } else {
        let v: Vec<String> = Vec::new();
        assert(texts(v@) =~= Seq::empty());
        v
    };
    Error::UnknownOption { token, suggestions }
}

/// The error for a bare token where a subcommand was expected.
fn unknown_command_error<'a, Ctx>(env: &Env, name: &str, cmd: &CmdSpec<'a, Ctx>) -> (e: Error)
    ensures
        e@ == unknown_command(*env, cmd@, name@),
{
    let suggestions = if env.suggest {
        let subs = cmd.get_subcommands();
        let ghost sv = cmd@.subs;
        let mut cands: Vec<String> = Vec::new();
        let mut i: usize = 0;
        assert(texts(cands@) =~= command_names(sv, 0));
        while i < subs.len()
            invariant
                i <= subs.len(),
                sv == cmd_views(subs@),
                texts(cands@) == command_names(sv, i as int),
            decreases subs.len() - i,
        {
            let ghost before = texts(cands@);
            cands.push(owned(subs[i].get_name()));
            assert(texts(cands@) =~= before.push(sv[i as int].name));
            let aliases = subs[i].get_aliases();
            let ghost al = sv[i as int].aliases;
            let ghost base = texts(cands@);
            let mut j: usize = 0;
            while j < aliases.len()
                invariant
                    j <= aliases.len(),
                    al == slice_texts(aliases@),
                    texts(cands@) =~= base + al.take(j as int),
                decreases aliases.len() - j,
            {
                let ghost prior = texts(cands@);
                cands.push(owned(aliases[j]));
                assert(texts(cands@) =~= prior.push(al[j as int]));
                assert(al.take(j + 1) =~= al.take(j as int).push(al[j as int]));
                j += 1;
            }
            assert(al.take(aliases.len() as int) =~= al);
            i += 1;
        }
        best_suggestions(name, &cands)
    } else {
        let v: Vec<String> = Vec::new();
        assert(texts(v@) =~= Seq::empty());
        v
    };
    Error::UnknownCommand { token: owned(name), suggestions }
}

/// An optional value that was not given inline: the next token decides.
fn optional_value<'a, Ctx>(
    m: &mut Matches,
    path: &[&str],
    o: &OptSpec<'a, Ctx>,
    argv: &[Token],
    i: usize,
) -> (r: Result<usize, Error>)
    requires
        i < argv.len(),
    ensures
        realizes(
            r,
            final(m).model(),
            optional_step(old(m).model(), slice_texts(path@), o@, token_views(argv@), i as int),
        ),
        r is Err ==> final(m).model() == old(m).model(),
        in_bounds(r, i, argv@.len() as usize),
{
    let key = key_for(path, o.get_name());
    if i + 1 >= argv.len() {
        m.set_flag(key.as_str(), Source::Cli);
        return Ok(1);
    }
    let next = &argv[i + 1];
    assert(token_views(argv@)[i + 1] == next@);
    match next.as_text() {
        Some(t) => {
            let tc = chars_of(t);
            let n = tc.len();
            assert(tc@.subrange(0, n as int) =~= tc@);
            if spells(&tc, 0, n, "-") {
                m.set_flag(key.as_str(), Source::Cli);
                Ok(2)
            } else if o.is_numeric() && looks_like_number_chars(&tc) {
                m.set_val(key.as_str(), next.duplicate(), o.get_repeat());
                Ok(2)
            } else if n > 0 && tc[0] == '-' {
                m.set_flag(key.as_str(), Source::Cli);
                Ok(1)
            } else {
                m.set_val(key.as_str(), next.duplicate(), o.get_repeat());
                Ok(2)
            }
        },
        None => {
            m.set_val(key.as_str(), next.duplicate(), o.get_repeat());
            Ok(2)
        },
    }
}

/// What an optional string stands for.
spec fn opt_string(o: Option<String>) -> Option<Seq<char>> {
    match o {
        Some(s) => Some(s@),
        None => None,
    }
}

/// One occurrence of the option `o`, written as `label`, with the value
/// that came in the same token, if any.
fn bind_option<'a, Ctx>(
    m: &mut Matches,
    path: &[&str],
    o: &OptSpec<'a, Ctx>,
    label: String,
    inline: Option<String>,
    argv: &[Token],
    i: usize,
) -> (r: Result<usize, Error>)
    requires
        i < argv.len(),
    ensures
        realizes(
            r,
            final(m).model(),
            dispatch(
                old(m).model(),
                slice_texts(path@),
                o@,
                label@,
                opt_string(inline),
                token_views(argv@),
                i as int,
            ),
        ),
        r is Err ==> final(m).model() == old(m).model(),
        in_bounds(r, i, argv@.len() as usize),
{
    let key = key_for(path, o.get_name());
    match o.get_kind() {
        ArgKind::NoValue => {
            m.set_flag(key.as_str(), Source::Cli);
            Ok(1)
        },
        ArgKind::RequiredValue => match inline {
            Some(v) => {
                if v.as_str().is_empty() {
                    Err(Error::MissingValue { opt: label })
                } else {
                    m.set_val(key.as_str(), Token::Text(v), o.get_repeat());
                    Ok(1)
                }
            },
            None => {
                if i + 1 < argv.len() {
                    assert(token_views(argv@)[i + 1] == argv@[i + 1]@);
                    m.set_val(key.as_str(), argv[i + 1].duplicate(), o.get_repeat());
                    Ok(2)
                } else {
                    Err(Error::MissingValue { opt: label })
                }
            },
        },
        ArgKind::OptionalValue => match inline {
            Some(v) => {
                m.set_val(key.as_str(), Token::Text(v), o.get_repeat());
                Ok(1)
            },
            None => optional_value(m, path, o, argv, i),
        },
    }
}

fn find_eq(chars: &Vec<char>, from: usize) -> (e: usize)
    requires
        from <= chars.len(),
    ensures
        e == first_eq(chars@, from as int),
        from <= e <= chars.len(),
{
    let mut k: usize = from;
    while k < chars.len() && chars[k] != '='
        invariant
            from <= k <= chars.len(),
            first_eq(chars@, from as int) == first_eq(chars@, k as int),
        decreases chars.len() - k,
    {
        k += 1;
    }
    k
}

/// A long option `--name` or `--name=value`, if the token is one.
fn try_parse_long<'a, Ctx>(
    env: &Env,
    current: &CmdSpec<'a, Ctx>,
    m: &mut Matches,
    path: &[&str],
    argv: &[Token],
    i: usize,
    chars: &Vec<char>,
) -> (r: Result<Option<usize>, Error>)
    requires
        i < argv.len(),
    ensures
        realizes_if(
            r,
            old(m).model(),
            final(m).model(),
            starts_long(chars@),
            long_step(
                *env,
                current@,
                path@.len() == 0,
                old(m).model(),
                slice_texts(path@),
                chars@,
                token_views(argv@),
                i as int,
            ),
        ),
        r is Err ==> final(m).model() == old(m).model(),
        in_bounds_if(r, i, argv@.len() as usize),
{
    let n = chars.len();
    if !(n >= 2 && chars[0] == '-' && chars[1] == '-') {
        return Ok(None);
    }
    let e = find_eq(chars, 2);
    let name = text_of(chars, 2, e);
    let inline = if e < n {
        let v = text_of(chars, e + 1, n);
        assert(chars@.subrange(e + 1, n as int) =~= chars@.skip(e + 1));
        Some(v)
    } else {
        None
    };
    match current.find_long(name.as_str()) {
        None => Err(unknown_long_error(env, name.as_str(), current, path)),
        Some(idx) => {
            let opts = current.get_opts();
            let mut label = owned("--");
            label.append(name.as_str());
            match bind_option(m, path, &opts[idx], label, inline, argv, i) {
                Ok(used) => Ok(Some(used)),
                Err(e) => Err(e),
            }
        },
    }
}

/// A cluster of short options, if the token is one.
fn try_parse_short_or_numeric<'a, Ctx>(
    env: &Env,
    current: &CmdSpec<'a, Ctx>,
    m: &mut Matches,
    path: &[&str],
    argv: &[Token],
    i: usize,
    chars: &Vec<char>,
) -> (r: Result<Option<usize>, Error>)
    requires
        i < argv.len(),
    ensures
        realizes_if(
            r,
            old(m).model(),
            final(m).model(),
            is_cluster(current@, chars@),
            short_walk(
                *env,
                current@,
                path@.len() == 0,
                old(m).model(),
                slice_texts(path@),
                chars@,
                1,
                token_views(argv@),
                i as int,
            ),
        ),
        in_bounds_if(r, i, argv@.len() as usize),
{
    let n = chars.len();
    if !(n >= 2 && chars[0] == '-') {
        return Ok(None);
    }
    // A number whose first character no short option claims is no cluster.
    if current.find_short(chars[1]).is_none() && looks_like_number_chars(chars) {
        return Ok(None);
    }
    let ghost m0 = m.model();
    let ghost sp = slice_texts(path@);
    let ghost av = token_views(argv@);
    let opts = current.get_opts();
    let mut p: usize = 1;
    while p < n
        invariant
            1 <= p <= n,
            n == chars@.len(),
            i < argv.len(),
            is_cluster(current@, chars@),
            m0 == old(m).model(),
            sp == slice_texts(path@),
            av == token_views(argv@),
            opt_views(opts@) == current@.opts,
            short_walk(*env, current@, path@.len() == 0, m0, sp, chars@, 1, av, i as int)
                == short_walk(
                *env,
                current@,
                path@.len() == 0,
                m.model(),
                sp,
                chars@,
                p as int,
                av,
                i as int,
            ),
        decreases n - p,
    {
        let c = chars[p];
        match current.find_short(c) {
            None => {
                return Err(unknown_short_error(env, c, current, path));
            },
            Some(idx) => {
                let o = &opts[idx];
                assert(o@ == current@.opts[idx as int]);
                if o.get_kind() == ArgKind::NoValue {
                    let key = key_for(path, o.get_name());
                    m.set_flag(key.as_str(), Source::Cli);
                } else {
                    let mut label = owned("-");
                    label.push(c);
                    let inline = if p + 1 < n {
                        let v = text_of(chars, p + 1, n);
                        assert(chars@.subrange(p + 1, n as int) =~= chars@.skip(p + 1));
                        Some(v)
                    } else {
                        None
                    };
                    return match bind_option(m, path, o, label, inline, argv, i) {
                        Ok(used) => Ok(Some(used)),
                        Err(e) => Err(e),
                    };
                }
            },
        }
        p += 1;
    }
    Ok(Some(1))
}

/// Whether a slot that holds `fill` values takes one more.
fn slot_open(card: PosCardinality, fill: usize) -> (r: bool)
    ensures
        r == card.open_at(fill as nat),
{
    match card {
        PosCardinality::One { required } => fill < 1,
        PosCardinality::Many => true,
        PosCardinality::Range { min, max } => fill < max,
    }
}

/// The slot that takes the next positional value, with its fill.
fn find_open_slot<'a, Ctx>(pos: &[PosSpec<'a, Ctx>], idx: usize, fill: usize) -> (r: Option<
    (usize, usize),
>)
    ensures
        match open_slot(pos_views(pos@), idx as int, fill as nat) {
            Some((j, f)) => r matches Some((rj, rf)) && rj == j && rf == f && rj < pos@.len() && (rf
                == fill || rf == 0),
            None => r is None,
        },
{
    let ghost pv = pos_views(pos@);
    if idx >= pos.len() {
        return None;
    }
    if slot_open(pos[idx].get_cardinality(), fill) {
        return Some((idx, fill));
    }
    let mut j: usize = idx + 1;
    while j < pos.len()
        invariant
            idx < j <= pos.len(),
            pv == pos_views(pos@),
            open_slot(pv, idx as int, fill as nat) == open_slot(pv, j as int, 0),
        decreases pos.len() - j,
    {
        if slot_open(pos[j].get_cardinality(), 0) {
            return Some((j, 0));
        }
        j += 1;
    }
    None
}

/// A token bound as the next positional value, if a slot takes it.
fn try_push_positional<'a, Ctx>(
    current: &CmdSpec<'a, Ctx>,
    m: &mut Matches,
    path: &[&str],
    pos_idx: &mut usize,
    pos_fill: &mut usize,
    tok: &Token,
) -> (r: Option<usize>)
    requires
        *old(pos_fill) < usize::MAX,
    ensures
        match open_slot(current@.positionals, *old(pos_idx) as int, *old(pos_fill) as nat) {
            Some((j, f)) => r == Some(1usize) && *final(pos_idx) == j && *final(pos_fill) == f + 1
                && (f == *old(pos_fill) || f == 0) && final(m).model() == old(m).model().with_positional(
                pos_key_text(slice_texts(path@), current@.positionals[j].name),
                tok@,
            ),
            None => r is None && *final(pos_idx) == *old(pos_idx) && *final(pos_fill) == *old(pos_fill) && final(m).model() == old(m).model(),
        },
{
    let positionals = current.get_positionals();
    match find_open_slot(positionals, *pos_idx, *pos_fill) {
        None => None,
        Some((j, f)) => {
            let key = pos_key_for(path, positionals[j].get_name());
            m.push_pos(key.as_str(), tok.duplicate());
            *pos_idx = j;
            *pos_fill = f + 1;
            Some(1)
        },
    }
}

/// Whether another member of the group of option `idx` is bound.
fn group_is_taken<'a, Ctx>(m: &Matches, path: &[&str], opts: &[OptSpec<'a, Ctx>], idx: usize) -> (r:
    bool)
    requires
        idx < opts@.len(),
    ensures
        r == group_taken(m.model(), slice_texts(path@), opt_views(opts@), idx as int),
{
    let ghost ov = opt_views(opts@);
    let ghost sp = slice_texts(path@);
    let g = match opts[idx].get_group() {
        Some(g) => g,
        None => {
            return false;
        },
    };
    let mut j: usize = 0;
    while j < opts.len()
        invariant
            j <= opts.len(),
            idx < opts@.len(),
            ov == opt_views(opts@),
            sp == slice_texts(path@),
            ov[idx as int].group == Some(g@),
            forall|k: int|
                0 <= k < j ==> !(k != idx && (#[trigger] ov[k]).group == ov[idx as int].group
                    && m.model().is_set(key_text(sp, ov[k].name))),
        decreases opts.len() - j,
    {
        if j != idx {
            if let Some(h) = opts[j].get_group() {
                if same_text(h, g) {
                    let key = key_for(path, opts[j].get_name());
                    if m.has(key.as_str()) {
                        assert(ov[j as int].group == ov[idx as int].group);
                        return true;
                    }
                }
            }
        }
        j += 1;
    }
    false
}

/// The overlay of one command from one source: environment values for
/// `Source::Env`, defaults for `Source::Default`.
fn eager_overlay<'a, Ctx>(
    m: &mut Matches,
    path: &[&str],
    cmd: &CmdSpec<'a, Ctx>,
    vars: &EnvVars,
    src: Source,
)
    ensures
        final(m).model() == match src {
            Source::Env => overlay_env(
                old(m).model(),
                slice_texts(path@),
                cmd@.opts,
                vars@,
                cmd@.opts.len() as int,
            ),
            Source::Default => overlay_defaults(
                old(m).model(),
                slice_texts(path@),
                cmd@.opts,
                cmd@.opts.len() as int,
            ),
            Source::Cli => old(m).model(),
        },
{
    let ghost m0 = m.model();
    let ghost sp = slice_texts(path@);
    let opts = cmd.get_opts();
    let ghost ov = cmd@.opts;
    let mut i: usize = 0;
    while i < opts.len()
        invariant
            i <= opts.len(),
            sp == slice_texts(path@),
            ov == opt_views(opts@),
            m.model() == match src {
                Source::Env => overlay_env(m0, sp, ov, vars@, i as int),
                Source::Default => overlay_defaults(m0, sp, ov, i as int),
                Source::Cli => m0,
            },
        decreases opts.len() - i,
    {
        let o = &opts[i];
        assert(o@ == ov[i as int]);
        let key = key_for(path, o.get_name());
        if !m.has(key.as_str()) {
            match src {
                Source::Env => {
                    if let Some(var) = o.get_env() {
                        if let Some(v) = vars.get(var) {
                            if o.is_value() {
                                m.bind(key.as_str(), v.duplicate(), Source::Env);
                            } else {
                                m.set_flag(key.as_str(), Source::Env);
                            }
                        }
                    }
                },
                Source::Default => {
                    if let Some(d) = o.get_default() {
                        if !group_is_taken(m, path, opts, i) {
                            m.bind(key.as_str(), d.duplicate(), Source::Default);
                        }
                    }
                },
                Source::Cli => {},
            }
        }
        i += 1;
    }
}

/// The overlay of one command: environment first, then defaults.
fn overlay_env_and_defaults<'a, Ctx>(
    m: &mut Matches,
    path: &[&str],
    cmd: &CmdSpec<'a, Ctx>,
    vars: &EnvVars,
)
    ensures
        final(m).model() == overlay(old(m).model(), slice_texts(path@), cmd@, vars@),
{
    eager_overlay(m, path, cmd, vars, Source::Env);
    eager_overlay(m, path, cmd, vars, Source::Default);
}

/// The arity check of the positional slots of one command.
fn check_arity<'a, Ctx>(m: &Matches, path: &[&str], cmd: &CmdSpec<'a, Ctx>) -> (r: Result<
    (),
    Error,
>)
    ensures
        match arity_error(
            m.model(),
            slice_texts(path@),
            cmd@.positionals,
            cmd@.positionals.len() as int,
        ) {
            Some(e) => r matches Err(x) && x@ == e,
            None => r is Ok,
        },
{
    let ghost sp = slice_texts(path@);
    let pos = cmd.get_positionals();
    let ghost pv = cmd@.positionals;
    let mut i: usize = 0;
    while i < pos.len()
        invariant
            i <= pos.len(),
            sp == slice_texts(path@),
            pv == pos_views(pos@),
            pv == cmd@.positionals,
            arity_error(m.model(), sp, pv, i as int) is None,
        decreases pos.len() - i,
    {
        let p = &pos[i];
        assert(p@ == pv[i as int]);
        let key = pos_key_for(path, p.get_name());
        let stored = m.stored(key.as_str());
        match p.get_cardinality() {
            PosCardinality::One { required } => {
                if required && stored.is_none() {
                    proof {
                        lemma_arity_error_stands(m.model(), sp, pv, i + 1, pv.len() as int);
                    }
                    return Err(Error::User(owned("missing required positional")));
                }
            },
            PosCardinality::Many => {},
            PosCardinality::Range { min, max } => {
                let count: usize = match stored {
                    Some(Value::One(_)) => 1,
                    Some(Value::Many(vs)) => vs.len(),
                    _ => 0,
                };
                assert(count == bound_count(m.model(), key@));
                if count < min {
                    proof {
                        lemma_arity_error_stands(m.model(), sp, pv, i + 1, pv.len() as int);
                    }
                    return Err(Error::User(owned("positional count below minimum")));
                }
            },
        }
        i += 1;
    }
    Ok(())
}

/// How many members of the group `g` are bound.
fn count_group_hits<'a, Ctx>(m: &Matches, path: &[&str], opts: &[OptSpec<'a, Ctx>], g: &str) -> (hits:
    usize)
    ensures
        hits == group_hits(
            m.model(),
            slice_texts(path@),
            opt_views(opts@),
            g@,
            opts@.len() as int,
        ),
{
    let ghost sp = slice_texts(path@);
    let ghost ov = opt_views(opts@);
    let mut hits: usize = 0;
    let mut j: usize = 0;
    while j < opts.len()
        invariant
            j <= opts.len(),
            hits <= j,
            sp == slice_texts(path@),
            ov == opt_views(opts@),
            hits == group_hits(m.model(), sp, ov, g@, j as int),
        decreases opts.len() - j,
    {
        let o = &opts[j];
        assert(o@ == ov[j as int]);
        let member = match o.get_group() {
            Some(h) => same_text(h, g),
            None => false,
        };
        if member {
            let key = key_for(path, o.get_name());
            if m.has(key.as_str()) {
                hits += 1;
            }
        }
        j += 1;
    }
    hits
}

/// The check of the group rules of one command.
fn check_groups<'a, Ctx>(m: &Matches, path: &[&str], cmd: &CmdSpec<'a, Ctx>) -> (r: Result<
    (),
    Error,
>)
    ensures
        match groups_error(m.model(), slice_texts(path@), cmd@, cmd@.groups.len() as int) {
            Some(e) => r matches Err(x) && x@ == e,
            None => r is Ok,
        },
{
    let ghost sp = slice_texts(path@);
    let groups = cmd.get_groups();
    let opts = cmd.get_opts();
    let ghost gv = cmd@.groups;
    let mut i: usize = 0;
    while i < groups.len()
        invariant
            i <= groups.len(),
            sp == slice_texts(path@),
            gv == group_views(groups@),
            gv == cmd@.groups,
            opt_views(opts@) == cmd@.opts,
            groups_error(m.model(), sp, cmd@, i as int) is None,
        decreases groups.len() - i,
    {
        let g = &groups[i];
        assert(g@ == gv[i as int]);
        let hits = count_group_hits(m, path, opts, g.name);
        match g.mode {
            GroupMode::Xor => {
                if hits > 1 {
                    let mut s = owned("options in group '");
                    s.append(g.name);
                    s.append("' are mutually exclusive");
                    proof {
                        lemma_groups_error_stands(m.model(), sp, cmd@, i + 1, gv.len() as int);
                    }
                    return Err(Error::User(s));
                }
            },
            GroupMode::ReqOne => {
                if hits == 0 {
                    let mut s = owned("one of the options in group '");
                    s.append(g.name);
                    s.append("' is required");
                    proof {
                        lemma_groups_error_stands(m.model(), sp, cmd@, i + 1, gv.len() as int);
                    }
                    return Err(Error::User(s));
                }
            },
        }
        i += 1;
    }
    Ok(())
}

/// The structural checks of one command: the arity of its positional
/// slots, then its group rules.
pub fn check_level<'a, Ctx>(m: &Matches, path: &[&str], cmd: &CmdSpec<'a, Ctx>) -> (r: Result<
    (),
    Error,
>)
    ensures
        match level_error(m.model(), slice_texts(path@), cmd@) {
            Some(e) => r matches Err(x) && x@ == e,
            None => r is Ok,
        },
{
    match check_arity(m, path, cmd) {
        Err(e) => Err(e),
        Ok(()) => check_groups(m, path, cmd),
    }
}

/// How many values a stored value holds.
pub open spec fn value_len(v: ValueView) -> nat {
    match v {
        ValueView::Flag => 0,
        ValueView::One(_) => 1,
        ValueView::Many(vs) => vs.len(),
    }
}

/// The values that a stored value holds, in order.
pub open spec fn tokens_of(v: Value) -> Seq<Token> {
    match v {
        Value::Flag => Seq::empty(),
        Value::One(t) => seq![t],
        Value::Many(vs) => vs@,
    }
}

/// The values that an optional stored value holds.
pub open spec fn stored_tokens(stored: Option<&Value>) -> Seq<Token> {
    match stored {
        Some(v) => tokens_of(*v),
        None => Seq::empty(),
    }
}

/// The values that the store holds at `key`, in order.
pub open spec fn held_tokens(m: &Matches, key: Seq<char>) -> Seq<Token> {
    match m.held(key) {
        Some(v) => tokens_of(v),
        None => Seq::empty(),
    }
}

/// Whether a validator has a success among its outcomes for a value.
pub open spec fn accepts<V: ValueValidator + ?Sized>(vf: &V, v: Token) -> bool {
    exists|x: Result<(), Error>| x is Ok && #[trigger] may_check(vf, &v, x)
}

/// Whether `r` is what comes of checking the values in order: a success
/// where the validator accepts each of them; else what the validator gave
/// for the first value that it did not accept.
pub open spec fn checks_to<V: ValueValidator + ?Sized>(
    vf: &V,
    values: Seq<Token>,
    r: Result<(), Error>,
) -> bool {
    match r {
        Ok(_) => forall|k: int| 0 <= k < values.len() ==> accepts(vf, #[trigger] values[k]),
        Err(_) => exists|k: int|
            0 <= k < values.len() && may_check(vf, &#[trigger] values[k], r) && forall|j: int|
                0 <= j < k ==> accepts(vf, #[trigger] values[j]),
    }
}

/// Hand one value to a validator.
fn check_one<V: ValueValidator + ?Sized>(vf: &V, v: &Token) -> (r: Result<(), Error>)
    ensures
        may_check(vf, v, r),
{
    vf.check(v)
}

/// Run a validator on every value that a binding holds, in order, up to
/// the first that it rejects.
fn validate_values(vf: &Box<dyn ValueValidator>, stored: Option<&Value>) -> (r: Result<(), Error>)
    ensures
        checks_to::<dyn ValueValidator>(&**vf, stored_tokens(stored), r),
        (stored matches Some(v) ==> value_len(v@) == 0) ==> r is Ok,
{
    let ghost values = stored_tokens(stored);
    match stored {
        Some(Value::One(v)) => {
            let r = check_one::<dyn ValueValidator>(&**vf, v);
            proof {
                assert(values =~= seq![*v]);
                assert(values[0] == *v);
                if r is Ok {
                    assert(accepts::<dyn ValueValidator>(&**vf, values[0]));
                }
            }
            r
        },
        Some(Value::Many(vs)) => {
            let mut i: usize = 0;
            while i < vs.len()
                invariant
                    i <= vs.len(),
                    values == vs@,
                    values == stored_tokens(stored),
                    stored matches Some(v) && value_len(v@) == vs@.len(),
                    forall|k: int|
                        0 <= k < i ==> accepts::<dyn ValueValidator>(&**vf, #[trigger] values[k]),
                decreases vs.len() - i,
            {
                let r = check_one::<dyn ValueValidator>(&**vf, &vs[i]);
                match r {
                    Err(e) => {
                        assert(may_check::<dyn ValueValidator>(&**vf, &values[i as int], r));
                        return Err(e);
                    },
                    Ok(()) => {
                        assert(accepts::<dyn ValueValidator>(&**vf, values[i as int]));
                    },
                }
                i += 1;
            }
            Ok(())
        },
        _ => Ok(()),
    }
}

/// Whether the validator of an option lets a value pass.
pub open spec fn option_accepts<'a, Ctx>(o: OptSpec<'a, Ctx>, v: Token) -> bool {
    exists|x: Result<(), Error>| x is Ok && #[trigger] o.validates(&v, x)
}

/// Whether `r` is what comes of validating the values of one option, in
/// order, up to the first that its validator rejects.
pub open spec fn option_checked<'a, Ctx>(
    m: &Matches,
    path: Seq<Seq<char>>,
    o: OptSpec<'a, Ctx>,
    r: Result<(), Error>,
) -> bool {
    let values = held_tokens(m, key_text(path, o@.name));
    match r {
        Ok(_) => forall|k: int| 0 <= k < values.len() ==> option_accepts(o, #[trigger] values[k]),
        Err(_) => exists|k: int|
            0 <= k < values.len() && o.validates(&#[trigger] values[k], r) && forall|j: int|
                0 <= j < k ==> option_accepts(o, #[trigger] values[j]),
    }
}

/// Whether the validator of a positional slot lets a value pass.
pub open spec fn slot_accepts<'a, Ctx>(p: PosSpec<'a, Ctx>, v: Token) -> bool {
    exists|x: Result<(), Error>| x is Ok && #[trigger] p.validates(&v, x)
}

/// Whether `r` is what comes of validating the values of one positional
/// slot, in order, up to the first that its validator rejects.
pub open spec fn slot_checked<'a, Ctx>(
    m: &Matches,
    path: Seq<Seq<char>>,
    p: PosSpec<'a, Ctx>,
    r: Result<(), Error>,
) -> bool {
    let values = held_tokens(m, pos_key_text(path, p@.name));
    match r {
        Ok(_) => forall|k: int| 0 <= k < values.len() ==> slot_accepts(p, #[trigger] values[k]),
        Err(_) => exists|k: int|
            0 <= k < values.len() && p.validates(&#[trigger] values[k], r) && forall|j: int|
                0 <= j < k ==> slot_accepts(p, #[trigger] values[j]),
    }
}

/// Whether the values of the first `n` options all pass their validators.
pub open spec fn options_pass<'a, Ctx>(
    m: &Matches,
    path: Seq<Seq<char>>,
    opts: Seq<OptSpec<'a, Ctx>>,
    n: int,
) -> bool {
    forall|i: int| 0 <= i < n ==> option_checked(m, path, #[trigger] opts[i], Ok(()))
}

/// Whether the values of the first `n` slots all pass their validators.
pub open spec fn slots_pass<'a, Ctx>(
    m: &Matches,
    path: Seq<Seq<char>>,
    slots: Seq<PosSpec<'a, Ctx>>,
    n: int,
) -> bool {
    forall|j: int| 0 <= j < n ==> slot_checked(m, path, #[trigger] slots[j], Ok(()))
}

/// Whether `r` is what comes of the validators of one command, run in the
/// order options, positionals, command: a success where every value
/// passes and the command's validator lets the bindings pass; else the
/// first rejection in that order, as the validator gave it.
pub open spec fn validated<'a, Ctx>(
    m: &Matches,
    path: Seq<Seq<char>>,
    cmd: &CmdSpec<'a, Ctx>,
    r: Result<(), Error>,
) -> bool {
    let opts = cmd.opt_list();
    let slots = cmd.slot_list();
    match r {
        Ok(_) => {
            &&& options_pass(m, path, opts, opts.len() as int)
            &&& slots_pass(m, path, slots, slots.len() as int)
            &&& exists|x: Result<(), Error>| x is Ok && #[trigger] cmd.validates(m, x)
        },
        Err(_) => {
            ||| exists|i: int|
                0 <= i < opts.len() && option_checked(m, path, #[trigger] opts[i], r)
                    && options_pass(m, path, opts, i)
            ||| options_pass(m, path, opts, opts.len() as int) && exists|j: int|
                0 <= j < slots.len() && slot_checked(m, path, #[trigger] slots[j], r)
                    && slots_pass(m, path, slots, j)
            ||| options_pass(m, path, opts, opts.len() as int) && slots_pass(
                m,
                path,
                slots,
                slots.len() as int,
            ) && cmd.validates(m, r)
        },
    }
}

/// Hand the bindings to a command validator.
fn check_all<V: CmdValidator + ?Sized>(cv: &V, m: &Matches) -> (r: Result<(), Error>)
    ensures
        may_check_all(cv, m, r),
{
    cv.check(m)
}

/// The validators of the option `o`, run on its values.
fn validate_option<'a, Ctx>(m: &Matches, path: &[&str], o: &OptSpec<'a, Ctx>) -> (r: Result<
    (),
    Error,
>)
    ensures
        option_checked(m, slice_texts(path@), *o, r),
        r is Ok ==> option_checked(m, slice_texts(path@), *o, Ok(())),
        option_silent(m.model(), slice_texts(path@), o@) ==> r is Ok,
{
    let ghost sp = slice_texts(path@);
    let ghost values = held_tokens(m, key_text(sp, o@.name));
    match o.get_validator() {
        Some(vf) => {
            let key = key_for(path, o.get_name());
            let r = validate_values(vf, m.stored(key.as_str()));
            proof {
                assert forall|k: int| #![auto]
                    0 <= k < values.len() && accepts::<dyn ValueValidator>(
                        &**vf,
                        values[k],
                    ) implies option_accepts(*o, values[k]) by {
                    let x = choose|x: Result<(), Error>|
                        x is Ok && #[trigger] may_check::<dyn ValueValidator>(
                            &**vf,
                            &values[k],
                            x,
                        );
                    assert(o.validates(&values[k], x));
                }
                if r is Err {
                    let k = choose|k: int|
                        0 <= k < values.len() && may_check::<dyn ValueValidator>(
                            &**vf,
                            &#[trigger] values[k],
                            r,
                        ) && forall|j: int|
                            0 <= j < k ==> accepts::<dyn ValueValidator>(
                                &**vf,
                                #[trigger] values[j],
                            );
                    assert(o.validates(&values[k], r));
                }
            }
            r
        },
        None => {
            proof {
                assert forall|k: int| 0 <= k < values.len() implies option_accepts(
                    *o,
                    #[trigger] values[k],
                ) by {
                    assert(o.validates(&values[k], Ok(())));
                }
            }
            Ok(())
        },
    }
}

/// The validators of the positional slot `p`, run on its values.
fn validate_slot<'a, Ctx>(m: &Matches, path: &[&str], p: &PosSpec<'a, Ctx>) -> (r: Result<
    (),
    Error,
>)
    ensures
        slot_checked(m, slice_texts(path@), *p, r),
        r is Ok ==> slot_checked(m, slice_texts(path@), *p, Ok(())),
        bound_count(m.model(), pos_key_text(slice_texts(path@), p@.name)) == 0 ==> r is Ok,
{
    let ghost sp = slice_texts(path@);
    let ghost values = held_tokens(m, pos_key_text(sp, p@.name));
    match p.get_validator() {
        Some(vf) => {
            let key = pos_key_for(path, p.get_name());
            let r = validate_values(vf, m.stored(key.as_str()));
            proof {
                assert forall|k: int| #![auto]
                    0 <= k < values.len() && accepts::<dyn ValueValidator>(
                        &**vf,
                        values[k],
                    ) implies slot_accepts(*p, values[k]) by {
                    let x = choose|x: Result<(), Error>|
                        x is Ok && #[trigger] may_check::<dyn ValueValidator>(
                            &**vf,
                            &values[k],
                            x,
                        );
                    assert(p.validates(&values[k], x));
                }
                if r is Err {
                    let k = choose|k: int|
                        0 <= k < values.len() && may_check::<dyn ValueValidator>(
                            &**vf,
                            &#[trigger] values[k],
                            r,
                        ) && forall|j: int|
                            0 <= j < k ==> accepts::<dyn ValueValidator>(
                                &**vf,
                                #[trigger] values[j],
                            );
                    assert(p.validates(&values[k], r));
                }
            }
            r
        },
        None => {
            proof {
                assert forall|k: int| 0 <= k < values.len() implies slot_accepts(
                    *p,
                    #[trigger] values[k],
                ) by {
                    assert(p.validates(&values[k], Ok(())));
                }
            }
            Ok(())
        },
    }
}

/// The validators of one command: those of its options, then those of its
/// positionals, then that of the command. The first failure ends the run.
fn run_validators<'a, Ctx>(m: &Matches, path: &[&str], cmd: &CmdSpec<'a, Ctx>) -> (r: Result<
    (),
    Error,
>)
    ensures
        validated(m, slice_texts(path@), cmd, r),
        r is Ok ==> validated(m, slice_texts(path@), cmd, Ok(())),
        level_silent(m.model(), slice_texts(path@), cmd@) ==> r is Ok,
{
    let ghost sp = slice_texts(path@);
    let ghost silent = level_silent(m.model(), sp, cmd@);
    let ghost ol = cmd.opt_list();
    let ghost sl = cmd.slot_list();
    let opts = cmd.get_opts();
    let mut i: usize = 0;
    while i < opts.len()
        invariant
            i <= opts.len(),
            sp == slice_texts(path@),
            silent == level_silent(m.model(), sp, cmd@),
            opt_views(opts@) == cmd@.opts,
            opts@ == ol,
            ol == cmd.opt_list(),
            sl == cmd.slot_list(),
            options_pass(m, sp, ol, i as int),
        decreases opts.len() - i,
    {
        assert(opts@[i as int]@ == cmd@.opts[i as int]);
        assert(silent ==> option_silent(m.model(), sp, cmd@.opts[i as int]));
        let r = validate_option(m, path, &opts[i]);
        match r {
            Err(e) => {
                assert(option_checked(m, sp, ol[i as int], r));
                return Err(e);
            },
            Ok(()) => {},
        }
        i += 1;
    }
    let pos = cmd.get_positionals();
    let mut j: usize = 0;
    while j < pos.len()
        invariant
            j <= pos.len(),
            sp == slice_texts(path@),
            silent == level_silent(m.model(), sp, cmd@),
            pos_views(pos@) == cmd@.positionals,
            pos@ == sl,
            ol == cmd.opt_list(),
            sl == cmd.slot_list(),
            options_pass(m, sp, ol, ol.len() as int),
            slots_pass(m, sp, sl, j as int),
        decreases pos.len() - j,
    {
        assert(pos@[j as int]@ == cmd@.positionals[j as int]);
        assert(silent ==> bound_count(
            m.model(),
            pos_key_text(sp, cmd@.positionals[j as int].name),
        ) == 0);
        let r = validate_slot(m, path, &pos[j]);
        match r {
            Err(e) => {
                assert(slot_checked(m, sp, sl[j as int], r));
                return Err(e);
            },
            Ok(()) => {},
        }
        j += 1;
    }
    match cmd.get_validator() {
        Some(cv) => {
            let r = check_all::<dyn CmdValidator>(&**cv, m);
            assert(cmd.validates(m, r));
            r
        },
        None => {
            assert(cmd.validates(m, Ok(())));
            Ok(())
        },
    }
}

/// The validation of one command: the structural checks, whose error is
/// certain where there is one, then the validators, of which the first
/// rejection is the result.
fn validate_level<'a, Ctx>(m: &Matches, path: &[&str], cmd: &CmdSpec<'a, Ctx>) -> (r: Result<
    (),
    Error,
>)
    ensures
        level_error(m.model(), slice_texts(path@), cmd@) matches Some(e) ==> r matches Err(x)
            && x@ == e,
        r is Ok ==> level_error(m.model(), slice_texts(path@), cmd@) is None,
        level_error(m.model(), slice_texts(path@), cmd@) is None && level_silent(
            m.model(),
            slice_texts(path@),
            cmd@,
        ) ==> r is Ok,
        level_error(m.model(), slice_texts(path@), cmd@) is None ==> validated(
            m,
            slice_texts(path@),
            cmd,
            r,
        ),
        r is Ok ==> validated(m, slice_texts(path@), cmd, Ok(())),
{
    match check_level(m, path, cmd) {
        Err(e) => Err(e),
        Ok(()) => run_validators(m, path, cmd),
    }
}

// ---------------------------------------------------------------------
// Chains of calls
// ---------------------------------------------------------------------
/// Whether each of the first `n` steps leads from one state of the list
/// to the next.
pub open spec fn links<C>(step: spec_fn(int, C, C) -> bool, n: int, states: Seq<C>) -> bool {
    forall|k: int| 0 <= k < n ==> #[trigger] step(k, states[k], states[k + 1])
}

/// A chain of `n` steps that leads the context from `before` to `after`:
/// step `k` takes up the context where step `k - 1` left it.
pub open spec fn chain<C>(step: spec_fn(int, C, C) -> bool, n: int, before: C, after: C) -> bool {
    if n <= 0 {
        after == before
    } else {
        exists|states: Seq<C>|
            states.len() == n + 1 && states[0] == before && states[n] == after && #[trigger] links(
                step,
                n,
                states,
            )
    }
}

/// A chain that breaks before its end: some `k` below `n` steps are made,
/// then step `k` fails as `fail` tells, and leaves the context as `after`.
pub open spec fn broken<C>(
    step: spec_fn(int, C, C) -> bool,
    fail: spec_fn(int, C, C) -> bool,
    n: int,
    before: C,
    after: C,
) -> bool {
    exists|k: int, mid: C|
        0 <= k < n && #[trigger] chain(step, k, before, mid) && fail(k, mid, after)
}

/// What comes of `n` steps of which the first failure ends the run: on
/// success the whole chain, on failure the chain up to the step that failed.
pub open spec fn stage<C>(
    step: spec_fn(int, C, C) -> bool,
    fail: spec_fn(int, C, C) -> bool,
    n: int,
    before: C,
    after: C,
    r: Result<(), Error>,
) -> bool {
    match r {
        Ok(_) => chain(step, n, before, after),
        Err(_) => broken(step, fail, n, before, after),
    }
}

/// A chain goes on by one step.
pub proof fn lemma_chain_push<C>(
    step: spec_fn(int, C, C) -> bool,
    n: int,
    before: C,
    mid: C,
    after: C,
)
    requires
        0 <= n,
        chain(step, n, before, mid),
        step(n, mid, after),
    ensures
        chain(step, n + 1, before, after),
{
    if n == 0 {
        let s = seq![before, after];
        assert(links(step, 1, s));
    } else {
        let s = choose|states: Seq<C>|
            states.len() == n + 1 && states[0] == before && states[n] == mid && #[trigger] links(
                step,
                n,
                states,
            );
        let s2 = s.push(after);
        assert forall|k: int| 0 <= k < n + 1 implies #[trigger] step(k, s2[k], s2[k + 1]) by {
            if k < n {
                assert(step(k, s[k], s[k + 1]));
            }
        }
        assert(links(step, n + 1, s2));
    }
}

/// A chain of steps each of which may stand still may stand still.
pub proof fn lemma_chain_idle<C>(step: spec_fn(int, C, C) -> bool, n: int, c: C)
    requires
        forall|k: int| 0 <= k < n ==> #[trigger] step(k, c, c),
    ensures
        chain(step, n, c, c),
{
    if n > 0 {
        let s = Seq::new((n + 1) as nat, |i: int| c);
        assert(links(step, n, s));
    }
}

/// A chain of steps of one kind is a chain of steps of another kind that
/// allows each of them.
pub proof fn lemma_chain_map<C>(
    step: spec_fn(int, C, C) -> bool,
    other: spec_fn(int, C, C) -> bool,
    n: int,
    before: C,
    after: C,
)
    requires
        chain(step, n, before, after),
        forall|k: int, c: C, d: C| 0 <= k < n && #[trigger] step(k, c, d) ==> other(k, c, d),
    ensures
        chain(other, n, before, after),
{
    if n > 0 {
        let s = choose|states: Seq<C>|
            states.len() == n + 1 && states[0] == before && states[n] == after && #[trigger] links(
                step,
                n,
                states,
            );
        assert forall|k: int| 0 <= k < n implies #[trigger] other(k, s[k], s[k + 1]) by {
            assert(step(k, s[k], s[k + 1]));
        }
        assert(links(other, n, s));
    }
}

// ---------------------------------------------------------------------
// Callbacks
// ---------------------------------------------------------------------
/// Whether a value callback, handed `v` in the context `before`, may
/// succeed and leave the context as `after`.
pub open spec fn took<Ctx, T: OnValue<Ctx> + ?Sized>(
    cb: &T,
    v: Token,
    before: Ctx,
    after: Ctx,
) -> bool {
    exists|x: Result<(), Error>|
        x is Ok && #[trigger] may_accept::<Ctx, T>(cb, &v, before, after, x)
}

/// The steps of handing the values, one by one, to a value callback that
/// succeeds.
pub open spec fn feeding<Ctx, T: OnValue<Ctx> + ?Sized>(cb: &T, values: Seq<Token>) -> spec_fn(
    int,
    Ctx,
    Ctx,
) -> bool {
    |k: int, c: Ctx, d: Ctx| took::<Ctx, T>(cb, values[k], c, d)
}

/// The steps of handing a value to a value callback that returns `r`.
pub open spec fn choking<Ctx, T: OnValue<Ctx> + ?Sized>(
    cb: &T,
    values: Seq<Token>,
    r: Result<(), Error>,
) -> spec_fn(int, Ctx, Ctx) -> bool {
    |k: int, c: Ctx, d: Ctx| may_accept::<Ctx, T>(cb, &values[k], c, d, r)
}

/// Whether `r` and the context `after` are what comes of handing the
/// values in order to a value callback, starting in the context `before`:
/// each call takes up the context that the call before it left; the first
/// failure ends the run and is the result.
pub open spec fn feeds_to<Ctx, T: OnValue<Ctx> + ?Sized>(
    cb: &T,
    values: Seq<Token>,
    before: Ctx,
    after: Ctx,
    r: Result<(), Error>,
) -> bool {
    stage(
        feeding::<Ctx, T>(cb, values),
        choking::<Ctx, T>(cb, values, r),
        values.len() as int,
        before,
        after,
        r,
    )
}

/// Hand one value to a value callback.
fn accept_one<Ctx, T: OnValue<Ctx> + ?Sized>(cb: &T, v: &Token, ctx: &mut Ctx) -> (r: Result<
    (),
    Error,
>)
    ensures
        may_accept::<Ctx, T>(cb, v, *old(ctx), *final(ctx), r),
{
    cb.accept(v, ctx)
}

/// Fire a flag callback once.
fn fire_one<Ctx, T: OnFlag<Ctx> + ?Sized>(cb: &T, ctx: &mut Ctx) -> (r: Result<(), Error>)
    ensures
        may_fire::<Ctx, T>(cb, *old(ctx), *final(ctx), r),
{
    cb.fire(ctx)
}

/// Run a handler on the bindings.
fn run_one<Ctx, T: CmdHandler<Ctx> + ?Sized>(h: &T, m: &Matches, ctx: &mut Ctx) -> (r: Result<
    (),
    Error,
>)
    ensures
        may_run::<Ctx, T>(h, m, *old(ctx), *final(ctx), r),
{
    h.run(m, ctx)
}

/// Hand every value that a binding holds to a value callback, in order, up
/// to the first on which it fails.
fn feed_values<Ctx>(cb: &Box<dyn OnValue<Ctx>>, stored: &Value, ctx: &mut Ctx) -> (r: Result<
    (),
    Error,
>)
    ensures
        feeds_to::<Ctx, dyn OnValue<Ctx>>(&**cb, tokens_of(*stored), *old(ctx), *final(ctx), r),
        r is Ok ==> chain(
            feeding::<Ctx, dyn OnValue<Ctx>>(&**cb, tokens_of(*stored)),
            tokens_of(*stored).len() as int,
            *old(ctx),
            *final(ctx),
        ),
        value_len(stored@) == 0 ==> r is Ok && *final(ctx) == *old(ctx),
{
    let ghost values = tokens_of(*stored);
    let ghost step = feeding::<Ctx, dyn OnValue<Ctx>>(&**cb, values);
    match stored {
        Value::One(v) => {
            let r = accept_one::<Ctx, dyn OnValue<Ctx>>(&**cb, v, ctx);
            proof {
                assert(values =~= seq![*v]);
                assert(values[0] == *v);
                assert(chain(step, 0, *old(ctx), *old(ctx)));
                if r is Ok {
                    assert(took::<Ctx, dyn OnValue<Ctx>>(&**cb, values[0], *old(ctx), *ctx));
                    assert(step(0, *old(ctx), *ctx));
                    lemma_chain_push(step, 0, *old(ctx), *old(ctx), *ctx);
                } else {
                    assert(choking::<Ctx, dyn OnValue<Ctx>>(&**cb, values, r)(
                        0,
                        *old(ctx),
                        *ctx,
                    ));
                }
            }
            r
        },
        Value::Many(vs) => {
            let mut i: usize = 0;
            while i < vs.len()
                invariant
                    i <= vs.len(),
                    values == vs@,
                    values == tokens_of(*stored),
                    step == feeding::<Ctx, dyn OnValue<Ctx>>(&**cb, values),
                    value_len(stored@) == vs@.len(),
                    vs@.len() == 0 ==> *ctx == *old(ctx),
                    chain(step, i as int, *old(ctx), *ctx),
                decreases vs.len() - i,
            {
                let ghost mid = *ctx;
                let r = accept_one::<Ctx, dyn OnValue<Ctx>>(&**cb, &vs[i], ctx);
                match r {
                    Err(e) => {
                        assert(choking::<Ctx, dyn OnValue<Ctx>>(&**cb, values, r)(
                            i as int,
                            mid,
                            *ctx,
                        ));
                        return Err(e);
                    },
                    Ok(()) => {
                        assert(took::<Ctx, dyn OnValue<Ctx>>(&**cb, values[i as int], mid, *ctx));
                        assert(step(i as int, mid, *ctx));
                        proof {
                            lemma_chain_push(step, i as int, *old(ctx), mid, *ctx);
                        }
                    },
                }
                i += 1;
            }
            Ok(())
        },
        Value::Flag => {
            assert(values.len() == 0);
            Ok(())
        },
    }
}

/// Whether the value callback of an option, handed `v` in the context
/// `before`, may succeed and leave the context as `after`.
pub open spec fn option_took<'a, Ctx>(o: OptSpec<'a, Ctx>, v: Token, before: Ctx, after: Ctx) -> bool {
    exists|x: Result<(), Error>| x is Ok && #[trigger] o.takes(&v, before, after, x)
}

/// The steps of handing the values to the value callback of an option.
pub open spec fn option_feeding<'a, Ctx>(o: OptSpec<'a, Ctx>, values: Seq<Token>) -> spec_fn(
    int,
    Ctx,
    Ctx,
) -> bool {
    |k: int, c: Ctx, d: Ctx| option_took(o, values[k], c, d)
}

/// The steps of handing a value to the value callback of an option that
/// returns `r`.
pub open spec fn option_choking<'a, Ctx>(
    o: OptSpec<'a, Ctx>,
    values: Seq<Token>,
    r: Result<(), Error>,
) -> spec_fn(int, Ctx, Ctx) -> bool {
    |k: int, c: Ctx, d: Ctx| o.takes(&values[k], c, d, r)
}

/// Whether the flag callback of an option, fired in the context `before`,
/// may succeed and leave the context as `after`.
pub open spec fn option_fired<'a, Ctx>(o: OptSpec<'a, Ctx>, before: Ctx, after: Ctx) -> bool {
    exists|x: Result<(), Error>| x is Ok && #[trigger] o.fires(before, after, x)
}

/// The steps of firing the flag callback of an option.
pub open spec fn option_firing<'a, Ctx>(o: OptSpec<'a, Ctx>) -> spec_fn(int, Ctx, Ctx) -> bool {
    |k: int, c: Ctx, d: Ctx| option_fired(o, c, d)
}

/// The steps of firing the flag callback of an option that returns `r`.
pub open spec fn option_misfiring<'a, Ctx>(o: OptSpec<'a, Ctx>, r: Result<(), Error>) -> spec_fn(
    int,
    Ctx,
    Ctx,
) -> bool {
    |k: int, c: Ctx, d: Ctx| o.fires(c, d, r)
}

/// Whether `r` and the context `after` are what comes of the callbacks of
/// one option, starting in the context `before`. For a flag, its flag
/// callback is fired once for each counted occurrence; for values, its
/// value callback is handed each value in order; the first failure ends
/// the run and is the result. An option that holds nothing calls nothing.
pub open spec fn option_called<'a, Ctx>(
    m: &Matches,
    path: Seq<Seq<char>>,
    o: OptSpec<'a, Ctx>,
    before: Ctx,
    after: Ctx,
    r: Result<(), Error>,
) -> bool {
    let key = key_text(path, o@.name);
    match m.held(key) {
        Some(Value::Flag) => stage(
            option_firing(o),
            option_misfiring(o, r),
            m.model().count_at(key) as int,
            before,
            after,
            r,
        ),
        Some(v) => stage(
            option_feeding(o, tokens_of(v)),
            option_choking(o, tokens_of(v), r),
            tokens_of(v).len() as int,
            before,
            after,
            r,
        ),
        None => r is Ok && after == before,
    }
}

/// Whether the callback of a positional slot, handed `v` in the context
/// `before`, may succeed and leave the context as `after`.
pub open spec fn slot_took<'a, Ctx>(p: PosSpec<'a, Ctx>, v: Token, before: Ctx, after: Ctx) -> bool {
    exists|x: Result<(), Error>| x is Ok && #[trigger] p.takes(&v, before, after, x)
}

/// The steps of handing the values to the callback of a positional slot.
pub open spec fn slot_feeding<'a, Ctx>(p: PosSpec<'a, Ctx>, values: Seq<Token>) -> spec_fn(
    int,
    Ctx,
    Ctx,
) -> bool {
    |k: int, c: Ctx, d: Ctx| slot_took(p, values[k], c, d)
}

/// The steps of handing a value to the callback of a positional slot that
/// returns `r`.
pub open spec fn slot_choking<'a, Ctx>(
    p: PosSpec<'a, Ctx>,
    values: Seq<Token>,
    r: Result<(), Error>,
) -> spec_fn(int, Ctx, Ctx) -> bool {
    |k: int, c: Ctx, d: Ctx| p.takes(&values[k], c, d, r)
}

/// Whether `r` and the context `after` are what comes of the callback of
/// one positional slot, handed each value of the slot in order, starting
/// in the context `before`; the first failure ends the run and is the
/// result.
pub open spec fn slot_called<'a, Ctx>(
    m: &Matches,
    path: Seq<Seq<char>>,
    p: PosSpec<'a, Ctx>,
    before: Ctx,
    after: Ctx,
    r: Result<(), Error>,
) -> bool {
    let values = held_tokens(m, pos_key_text(path, p@.name));
    stage(
        slot_feeding(p, values),
        slot_choking(p, values, r),
        values.len() as int,
        before,
        after,
        r,
    )
}

/// The steps of calling the callbacks of the options, one option after
/// the other, each with success.
pub open spec fn options_calling<'a, Ctx>(
    m: &Matches,
    path: Seq<Seq<char>>,
    opts: Seq<OptSpec<'a, Ctx>>,
) -> spec_fn(int, Ctx, Ctx) -> bool {
    |i: int, c: Ctx, d: Ctx| option_called(m, path, opts[i], c, d, Ok(()))
}

/// The steps of calling the callbacks of an option that end in `r`.
pub open spec fn options_failing<'a, Ctx>(
    m: &Matches,
    path: Seq<Seq<char>>,
    opts: Seq<OptSpec<'a, Ctx>>,
    r: Result<(), Error>,
) -> spec_fn(int, Ctx, Ctx) -> bool {
    |i: int, c: Ctx, d: Ctx| option_called(m, path, opts[i], c, d, r)
}

/// The steps of calling the callbacks of the positional slots, one slot
/// after the other, each with success.
pub open spec fn slots_calling<'a, Ctx>(
    m: &Matches,
    path: Seq<Seq<char>>,
    slots: Seq<PosSpec<'a, Ctx>>,
) -> spec_fn(int, Ctx, Ctx) -> bool {
    |j: int, c: Ctx, d: Ctx| slot_called(m, path, slots[j], c, d, Ok(()))
}

/// The steps of calling the callback of a slot that end in `r`.
pub open spec fn slots_failing<'a, Ctx>(
    m: &Matches,
    path: Seq<Seq<char>>,
    slots: Seq<PosSpec<'a, Ctx>>,
    r: Result<(), Error>,
) -> spec_fn(int, Ctx, Ctx) -> bool {
    |j: int, c: Ctx, d: Ctx| slot_called(m, path, slots[j], c, d, r)
}

/// Whether `r` and the context `after` are what comes of the callbacks of
/// one command, starting in the context `before`: the options in
/// declaration order, then the positional slots in declaration order, each
/// call taking up the context that the call before it left. The first
/// failure ends the run and is the result.
pub open spec fn called<'a, Ctx>(
    m: &Matches,
    path: Seq<Seq<char>>,
    cmd: &CmdSpec<'a, Ctx>,
    before: Ctx,
    after: Ctx,
    r: Result<(), Error>,
) -> bool {
    let opts = cmd.opt_list();
    let slots = cmd.slot_list();
    match r {
        Ok(_) => exists|mid: Ctx|
            #[trigger] chain(options_calling(m, path, opts), opts.len() as int, before, mid)
                && chain(slots_calling(m, path, slots), slots.len() as int, mid, after),
        Err(_) => {
            ||| broken(
                options_calling(m, path, opts),
                options_failing(m, path, opts, r),
                opts.len() as int,
                before,
                after,
            )
            ||| exists|mid: Ctx|
                #[trigger] chain(options_calling(m, path, opts), opts.len() as int, before, mid)
                    && broken(
                    slots_calling(m, path, slots),
                    slots_failing(m, path, slots, r),
                    slots.len() as int,
                    mid,
                    after,
                )
        },
    }
}

/// The callbacks get what is bound: where the callbacks of an option have
/// succeeded on values, the value callback was handed, in order and once
/// each, tokens that are the values that the model holds for the option.
pub proof fn law_option_gets_its_values<'a, Ctx>(
    m: &Matches,
    path: Seq<Seq<char>>,
    o: OptSpec<'a, Ctx>,
    before: Ctx,
    after: Ctx,
) -> (tokens: Seq<Token>)
    requires
        option_called(m, path, o, before, after, Ok(())),
        m.model().values_at(key_text(path, o@.name)) is Some,
    ensures
        Some(token_views(tokens)) == m.model().values_at(key_text(path, o@.name)),
        chain(option_feeding(o, tokens), tokens.len() as int, before, after),
{
    let key = key_text(path, o@.name);
    m.law_held_is_modelled(key);
    let v = m.held(key)->0;
    let tokens = tokens_of(v);
    match v {
        Value::One(t) => {
            assert(token_views(tokens) =~= seq![t@]);
        },
        _ => {},
    }
    tokens
}

/// Where the callbacks of a flag have succeeded, its flag callback was
/// fired once for each occurrence that the model counts, each firing
/// taking up the context that the one before it left.
pub proof fn law_flag_fires_as_counted<'a, Ctx>(
    m: &Matches,
    path: Seq<Seq<char>>,
    o: OptSpec<'a, Ctx>,
    before: Ctx,
    after: Ctx,
)
    requires
        option_called(m, path, o, before, after, Ok(())),
        m.model().values.contains_key(key_text(path, o@.name)),
        m.model().values[key_text(path, o@.name)] == ValueView::Flag,
    ensures
        chain(
            option_firing(o),
            m.model().count_at(key_text(path, o@.name)) as int,
            before,
            after,
        ),
{
    m.law_held_is_modelled(key_text(path, o@.name));
}

/// Where the callback of a positional slot has succeeded, it was handed,
/// in order and once each, tokens that are the values that the model holds
/// for the slot.
pub proof fn law_slot_gets_its_values<'a, Ctx>(
    m: &Matches,
    path: Seq<Seq<char>>,
    p: PosSpec<'a, Ctx>,
    before: Ctx,
    after: Ctx,
) -> (tokens: Seq<Token>)
    requires
        slot_called(m, path, p, before, after, Ok(())),
        m.model().values_at(pos_key_text(path, p@.name)) is Some,
    ensures
        Some(token_views(tokens)) == m.model().values_at(pos_key_text(path, p@.name)),
        chain(slot_feeding(p, tokens), tokens.len() as int, before, after),
{
    let key = pos_key_text(path, p@.name);
    m.law_held_is_modelled(key);
    let v = m.held(key)->0;
    let tokens = tokens_of(v);
    match v {
        Value::One(t) => {
            assert(token_views(tokens) =~= seq![t@]);
        },
        _ => {},
    }
    tokens
}

/// What a value callback does with the values is what the option does
/// with them, where the callback is the option's.
proof fn lemma_option_feeds<'a, Ctx, T: OnValue<Ctx> + ?Sized>(
    o: OptSpec<'a, Ctx>,
    cb: &T,
    values: Seq<Token>,
    before: Ctx,
    after: Ctx,
    r: Result<(), Error>,
)
    requires
        feeds_to::<Ctx, T>(cb, values, before, after, r),
        forall|v: &Token, c: Ctx, d: Ctx, x: Result<(), Error>|
            #![trigger o.takes(v, c, d, x)]
            #![trigger may_accept::<Ctx, T>(cb, v, c, d, x)]
            o.takes(v, c, d, x) == may_accept::<Ctx, T>(cb, v, c, d, x),
    ensures
        stage(
            option_feeding(o, values),
            option_choking(o, values, r),
            values.len() as int,
            before,
            after,
            r,
        ),
{
    let step = feeding::<Ctx, T>(cb, values);
    let other = option_feeding(o, values);
    assert forall|k: int, c: Ctx, d: Ctx| 0 <= k < values.len() && #[trigger] step(
        k,
        c,
        d,
    ) implies other(k, c, d) by {
        let x = choose|x: Result<(), Error>|
            x is Ok && #[trigger] may_accept::<Ctx, T>(cb, &values[k], c, d, x);
        assert(o.takes(&values[k], c, d, x));
    }
    if r is Ok {
        lemma_chain_map(step, other, values.len() as int, before, after);
    } else {
        let (k, mid) = choose|k: int, mid: Ctx|
            0 <= k < values.len() && #[trigger] chain(step, k, before, mid) && choking::<Ctx, T>(
                cb,
                values,
                r,
            )(k, mid, after);
        lemma_chain_map(step, other, k, before, mid);
        assert(chain(other, k, before, mid) && option_choking(o, values, r)(k, mid, after));
    }
}

/// What a value callback does with the values is what the slot does with
/// them, where the callback is the slot's.
proof fn lemma_slot_feeds<'a, Ctx, T: OnValue<Ctx> + ?Sized>(
    p: PosSpec<'a, Ctx>,
    cb: &T,
    values: Seq<Token>,
    before: Ctx,
    after: Ctx,
    r: Result<(), Error>,
)
    requires
        feeds_to::<Ctx, T>(cb, values, before, after, r),
        forall|v: &Token, c: Ctx, d: Ctx, x: Result<(), Error>|
            #![trigger p.takes(v, c, d, x)]
            #![trigger may_accept::<Ctx, T>(cb, v, c, d, x)]
            p.takes(v, c, d, x) == may_accept::<Ctx, T>(cb, v, c, d, x),
    ensures
        stage(
            slot_feeding(p, values),
            slot_choking(p, values, r),
            values.len() as int,
            before,
            after,
            r,
        ),
{
    let step = feeding::<Ctx, T>(cb, values);
    let other = slot_feeding(p, values);
    assert forall|k: int, c: Ctx, d: Ctx| 0 <= k < values.len() && #[trigger] step(
        k,
        c,
        d,
    ) implies other(k, c, d) by {
        let x = choose|x: Result<(), Error>|
            x is Ok && #[trigger] may_accept::<Ctx, T>(cb, &values[k], c, d, x);
        assert(p.takes(&values[k], c, d, x));
    }
    if r is Ok {
        lemma_chain_map(step, other, values.len() as int, before, after);
    } else {
        let (k, mid) = choose|k: int, mid: Ctx|
            0 <= k < values.len() && #[trigger] chain(step, k, before, mid) && choking::<Ctx, T>(
                cb,
                values,
                r,
            )(k, mid, after);
        lemma_chain_map(step, other, k, before, mid);
        assert(chain(other, k, before, mid) && slot_choking(p, values, r)(k, mid, after));
    }
}

/// The callbacks of the option `o`: its flag callback once for each
/// counted occurrence, or its value callback once for each value.
fn call_option<'a, Ctx>(m: &Matches, path: &[&str], o: &OptSpec<'a, Ctx>, ctx: &mut Ctx) -> (r:
    Result<(), Error>)
    ensures
        option_called(m, slice_texts(path@), *o, *old(ctx), *final(ctx), r),
        r is Ok ==> option_called(m, slice_texts(path@), *o, *old(ctx), *final(ctx), Ok(())),
        option_silent(m.model(), slice_texts(path@), o@) ==> r is Ok && *final(ctx) == *old(ctx),
{
    let ghost sp = slice_texts(path@);
    let ghost silent = option_silent(m.model(), sp, o@);
    let key = key_for(path, o.get_name());
    match m.stored(key.as_str()) {
        Some(Value::Flag) => {
            let n = m.count(key.as_str());
            let ghost step = option_firing(*o);
            match o.get_on_flag() {
                Some(cb) => {
                    let mut k: usize = 0;
                    while k < n
                        invariant
                            k <= n,
                            n == m.model().count_at(key@),
                            key@ == key_text(sp, o@.name),
                            m.held(key@) == Some(Value::Flag),
                            step == option_firing(*o),
                            forall|c: Ctx, d: Ctx, x: Result<(), Error>|
                                #![trigger o.fires(c, d, x)]
                                #![trigger may_fire::<Ctx, dyn OnFlag<Ctx>>(&**cb, c, d, x)]
                                o.fires(c, d, x) == may_fire::<Ctx, dyn OnFlag<Ctx>>(
                                    &**cb,
                                    c,
                                    d,
                                    x,
                                ),
                            sp == slice_texts(path@),
                            silent == option_silent(m.model(), sp, o@),
                            silent ==> n == 0,
                            silent ==> *ctx == *old(ctx),
                            chain(step, k as int, *old(ctx), *ctx),
                        decreases n - k,
                    {
                        let ghost mid = *ctx;
                        let r = fire_one::<Ctx, dyn OnFlag<Ctx>>(&**cb, ctx);
                        assert(o.fires(mid, *ctx, r));
                        match r {
                            Err(e) => {
                                assert(option_misfiring(*o, r)(k as int, mid, *ctx));
                                return Err(e);
                            },
                            Ok(()) => {
                                assert(option_fired(*o, mid, *ctx));
                                assert(step(k as int, mid, *ctx));
                                proof {
                                    lemma_chain_push(step, k as int, *old(ctx), mid, *ctx);
                                }
                            },
                        }
                        k += 1;
                    }
                    Ok(())
                },
                None => {
                    proof {
                        assert forall|k: int| 0 <= k < n implies #[trigger] step(
                            k,
                            *ctx,
                            *ctx,
                        ) by {
                            assert(o.fires(*ctx, *ctx, Ok(())));
                            assert(option_fired(*o, *ctx, *ctx));
                        }
                        lemma_chain_idle(step, n as int, *ctx);
                    }
                    Ok(())
                },
            }
        },
        Some(v) => {
            let ghost values = tokens_of(*v);
            match o.get_on_value() {
                Some(cb) => {
                    let r = feed_values(cb, v, ctx);
                    proof {
                        lemma_option_feeds::<Ctx, dyn OnValue<Ctx>>(
                            *o,
                            &**cb,
                            values,
                            *old(ctx),
                            *ctx,
                            r,
                        );
                        if r is Ok {
                            lemma_option_feeds::<Ctx, dyn OnValue<Ctx>>(
                                *o,
                                &**cb,
                                values,
                                *old(ctx),
                                *ctx,
                                Ok(()),
                            );
                        }
                    }
                    r
                },
                None => {
                    proof {
                        let step = option_feeding(*o, values);
                        assert forall|k: int| 0 <= k < values.len() implies #[trigger] step(
                            k,
                            *ctx,
                            *ctx,
                        ) by {
                            assert(o.takes(&values[k], *ctx, *ctx, Ok(())));
                            assert(option_took(*o, values[k], *ctx, *ctx));
                        }
                        lemma_chain_idle(step, values.len() as int, *ctx);
                    }
                    Ok(())
                },
            }
        },
        None => Ok(()),
    }
}

/// The callback of the positional slot `p`, once for each of its values.
fn call_slot<'a, Ctx>(m: &Matches, path: &[&str], p: &PosSpec<'a, Ctx>, ctx: &mut Ctx) -> (r:
    Result<(), Error>)
    ensures
        slot_called(m, slice_texts(path@), *p, *old(ctx), *final(ctx), r),
        r is Ok ==> slot_called(m, slice_texts(path@), *p, *old(ctx), *final(ctx), Ok(())),
        bound_count(m.model(), pos_key_text(slice_texts(path@), p@.name)) == 0 ==> r is Ok
            && *final(ctx) == *old(ctx),
{
    let ghost sp = slice_texts(path@);
    let ghost values = held_tokens(m, pos_key_text(sp, p@.name));
    let key = pos_key_for(path, p.get_name());
    match m.stored(key.as_str()) {
        Some(v) => {
            let cb = p.get_on_value();
            let r = feed_values(cb, v, ctx);
            proof {
                lemma_slot_feeds::<Ctx, dyn OnValue<Ctx>>(*p, &**cb, values, *old(ctx), *ctx, r);
                if r is Ok {
                    lemma_slot_feeds::<Ctx, dyn OnValue<Ctx>>(
                        *p,
                        &**cb,
                        values,
                        *old(ctx),
                        *ctx,
                        Ok(()),
                    );
                }
            }
            r
        },
        None => {
            assert(values.len() == 0);
            Ok(())
        },
    }
}

/// The callbacks of one command, in declaration order: options first, a
/// flag once per counted occurrence and a value callback once per value,
/// then positionals. The first failure ends the run.
fn run_callbacks<'a, Ctx>(m: &Matches, path: &[&str], cmd: &CmdSpec<'a, Ctx>, ctx: &mut Ctx) -> (r:
    Result<(), Error>)
    ensures
        called(m, slice_texts(path@), cmd, *old(ctx), *final(ctx), r),
        r is Ok ==> called(m, slice_texts(path@), cmd, *old(ctx), *final(ctx), Ok(())),
        level_silent(m.model(), slice_texts(path@), cmd@) ==> r is Ok && *final(ctx) == *old(ctx),
{
    let ghost sp = slice_texts(path@);
    let ghost silent = level_silent(m.model(), sp, cmd@);
    let ghost ol = cmd.opt_list();
    let ghost sl = cmd.slot_list();
    let ghost ostep = options_calling(m, sp, ol);
    let ghost sstep = slots_calling(m, sp, sl);
    let opts = cmd.get_opts();
    let mut i: usize = 0;
    while i < opts.len()
        invariant
            i <= opts.len(),
            sp == slice_texts(path@),
            silent == level_silent(m.model(), sp, cmd@),
            opt_views(opts@) == cmd@.opts,
            opts@ == ol,
            ol == cmd.opt_list(),
            sl == cmd.slot_list(),
            ostep == options_calling(m, sp, ol),
            silent ==> *ctx == *old(ctx),
            chain(ostep, i as int, *old(ctx), *ctx),
        decreases opts.len() - i,
    {
        assert(opts@[i as int]@ == cmd@.opts[i as int]);
        assert(silent ==> option_silent(m.model(), sp, cmd@.opts[i as int]));
        let ghost mid = *ctx;
        let r = call_option(m, path, &opts[i], ctx);
        match r {
            Err(e) => {
                assert(options_failing(m, sp, ol, r)(i as int, mid, *ctx));
                return Err(e);
            },
            Ok(()) => {
                assert(ostep(i as int, mid, *ctx));
                proof {
                    lemma_chain_push(ostep, i as int, *old(ctx), mid, *ctx);
                }
            },
        }
        i += 1;
    }
    let ghost turn = *ctx;
    let pos = cmd.get_positionals();
    let mut j: usize = 0;
    while j < pos.len()
        invariant
            j <= pos.len(),
            sp == slice_texts(path@),
            silent == level_silent(m.model(), sp, cmd@),
            pos_views(pos@) == cmd@.positionals,
            pos@ == sl,
            ol == cmd.opt_list(),
            sl == cmd.slot_list(),
            ostep == options_calling(m, sp, ol),
            sstep == slots_calling(m, sp, sl),
            silent ==> *ctx == *old(ctx),
            chain(ostep, ol.len() as int, *old(ctx), turn),
            chain(sstep, j as int, turn, *ctx),
        decreases pos.len() - j,
    {
        assert(pos@[j as int]@ == cmd@.positionals[j as int]);
        assert(silent ==> bound_count(
            m.model(),
            pos_key_text(sp, cmd@.positionals[j as int].name),
        ) == 0);
        let ghost mid = *ctx;
        let r = call_slot(m, path, &pos[j], ctx);
        match r {
            Err(e) => {
                assert(slots_failing(m, sp, sl, r)(j as int, mid, *ctx));
                assert(broken(sstep, slots_failing(m, sp, sl, r), sl.len() as int, turn, *ctx));
                return Err(e);
            },
            Ok(()) => {
                assert(sstep(j as int, mid, *ctx));
                proof {
                    lemma_chain_push(sstep, j as int, turn, mid, *ctx);
                }
            },
        }
        j += 1;
    }
    Ok(())
}

/// Whether each command of the chain after the first is a subcommand of
/// the one before it.
pub open spec fn nested<'a, Ctx>(stack: Seq<&'a CmdSpec<'a, Ctx>>) -> bool {
    forall|k: int|
        0 <= k < stack.len() - 1 ==> stack[k].sub_list().contains(*#[trigger] stack[k + 1])
}

/// Whether a chain of commands begins at `root` and goes down from there,
/// each command a subcommand of the one before it.
pub open spec fn linked<'a, Ctx>(root: &CmdSpec<'a, Ctx>, stack: Seq<&'a CmdSpec<'a, Ctx>>) -> bool {
    stack.len() > 0 && *stack[0] == *root && nested(stack)
}

/// The engine's position while it scans: the chain of commands entered,
/// and the positional state of the current one.
#[verifier::reject_recursive_types(Ctx)]
struct ParseCursor<'a, Ctx> {
    path: Vec<&'a str>,
    stack: Vec<&'a CmdSpec<'a, Ctx>>,
    current: &'a CmdSpec<'a, Ctx>,
    positional_only: bool,
    pos_idx: usize,
    pos_fill: usize,
}

impl<'a, Ctx> ParseCursor<'a, Ctx> {
    /// The stack is not empty, the current command is its last, and the
    /// path holds the names of the commands below the root.
    spec fn wf(&self) -> bool {
        &&& self.stack@.len() > 0
        &&& self.current@ == (*self.stack@.last())@
        &&& *self.current == *self.stack@.last()
        &&& slice_texts(self.path@) == path_of(stack_views(self.stack@))
        &&& nested(self.stack@)
    }

    /// The cursor of the model that this cursor and the bindings `m` make.
    spec fn model(&self, m: MatchesView) -> Cursor {
        Cursor {
            stack: stack_views(self.stack@),
            positional_only: self.positional_only,
            pos_idx: self.pos_idx as int,
            pos_fill: self.pos_fill as nat,
            m,
        }
    }

    fn new(root: &'a CmdSpec<'a, Ctx>) -> (c: Self)
        ensures
            c.wf(),
            c.pos_fill == 0,
            *c.stack@[0] == *root,
            forall|m: MatchesView| #[trigger] c.model(m) == start(root@).with_matches(m),
    {
        let mut stack: Vec<&'a CmdSpec<'a, Ctx>> = Vec::new();
        stack.push(root);
        let c = ParseCursor {
            path: Vec::new(),
            stack,
            current: root,
            positional_only: false,
            pos_idx: 0,
            pos_fill: 0,
        };
        assert(stack_views(c.stack@) =~= seq![root@]);
        assert(slice_texts(c.path@) =~= path_of(stack_views(c.stack@)));
        c
    }

    /// Enter the subcommand `sub` of the current command.
    fn descend(&mut self, sub: &'a CmdSpec<'a, Ctx>)
        requires
            old(self).wf(),
            old(self).current.sub_list().contains(*sub),
        ensures
            final(self).wf(),
            final(self).current@ == sub@,
            final(self).stack@ == old(self).stack@.push(sub),
            stack_views(final(self).stack@) == stack_views(old(self).stack@).push(sub@),
            !final(self).positional_only,
            final(self).pos_idx == 0,
            final(self).pos_fill == 0,
    {
        let ghost before = stack_views(self.stack@);
        let ghost path_before = slice_texts(self.path@);
        let ghost chain_before = self.stack@;
        self.stack.push(sub);
        self.path.push(sub.get_name());
        self.current = sub;
        self.positional_only = false;
        self.pos_idx = 0;
        self.pos_fill = 0;
        assert(stack_views(self.stack@) =~= before.push(sub@));
        assert(slice_texts(self.path@) =~= path_before.push(sub@.name));
        assert(slice_texts(self.path@) =~= path_of(stack_views(self.stack@)));
        assert forall|k: int| 0 <= k < self.stack@.len() - 1 implies self.stack@[k].sub_list().contains(
            *#[trigger] self.stack@[k + 1],
        ) by {
            if k < chain_before.len() - 1 {
                assert(chain_before[k].sub_list().contains(*chain_before[k + 1]));
            }
        }
    }

    /// Apply the overlay of the current command.
    fn eager_overlay_here(&self, m: &mut Matches, vars: &EnvVars)
        ensures
            final(m).model() == overlay(
                old(m).model(),
                slice_texts(self.path@),
                self.current@,
                vars@,
            ),
    {
        overlay_env_and_defaults(m, self.path.as_slice(), self.current, vars);
    }
}

/// The error for a token that no positional slot takes.
fn no_slot<'a, Ctx>(current: &CmdSpec<'a, Ctx>, tok: &Token) -> (e: Error)
    ensures
        e@ == no_slot_error(current@, tok@),
{
    if current.get_positionals().len() > 0 {
        Error::User(owned("too many positional arguments"))
    } else {
        Error::UnexpectedPositional { token: tok.lossy() }
    }
}

/// One step of the scan: what the token at `i` does to the cursor and the
/// bindings, and the index of the token to look at next.
fn advance<'a, Ctx>(
    env: &Env,
    vars: &EnvVars,
    cursor: &mut ParseCursor<'a, Ctx>,
    m: &mut Matches,
    argv: &[Token],
    i: usize,
) -> (r: Result<usize, Error>)
    requires
        old(cursor).wf(),
        i < argv@.len(),
        old(cursor).pos_fill <= i,
    ensures
        match step(
            *env,
            vars@,
            old(cursor).model(old(m).model()),
            token_views(argv@),
            i as int,
        ) {
            Step::Go { cursor: c, next } => r matches Ok(n) && n == next && i < n <= argv@.len()
                && final(cursor).wf() && final(cursor).model(final(m).model()) == c && final(cursor).pos_fill <= n,
            Step::Halt { error } => r matches Err(e) && e@ == error,
        },
        r is Ok ==> final(cursor).stack@[0] == old(cursor).stack@[0],
{
    let tok = &argv[i];
    let ghost c0 = cursor.model(m.model());
    assert(token_views(argv@)[i as int] == tok@);
    assert(c0.node() == cursor.current@);
    assert(c0.path() == slice_texts(cursor.path@));
    assert(c0.at_root() == (cursor.path@.len() == 0));
    if !cursor.positional_only {
        if let Some(s) = tok.as_text() {
            let chars = chars_of(s);
            let n = chars.len();
            assert(chars@.subrange(0, n as int) =~= chars@);
            if spells(&chars, 0, n, "--") {
                cursor.positional_only = true;
                return Ok(i + 1);
            }
            if let Some(e) = try_handle_builtins(env, &cursor.stack, cursor.current, &chars) {
                return Err(e);
            }
            if let Some(sub) = cursor.current.find_sub(s) {
                cursor.descend(sub);
                cursor.eager_overlay_here(m, vars);
                return Ok(i + 1);
            }
            match try_parse_long(env, cursor.current, m, cursor.path.as_slice(), argv, i, &chars) {
                Err(e) => {
                    return Err(e);
                },
                Ok(Some(used)) => {
                    return Ok(i + used);
                },
                Ok(None) => {},
            }
            match try_parse_short_or_numeric(
                env,
                cursor.current,
                m,
                cursor.path.as_slice(),
                argv,
                i,
                &chars,
            ) {
                Err(e) => {
                    return Err(e);
                },
                Ok(Some(used)) => {
                    return Ok(i + used);
                },
                Ok(None) => {},
            }
            if !(n > 0 && chars[0] == '-') && cursor.current.get_subcommands().len() > 0
                && find_open_slot(
                cursor.current.get_positionals(),
                cursor.pos_idx,
                cursor.pos_fill,
            ).is_none() {
                return Err(unknown_command_error(env, s, cursor.current));
            }
        }
    }
    let mut idx = cursor.pos_idx;
    let mut fill = cursor.pos_fill;
    match try_push_positional(cursor.current, m, cursor.path.as_slice(), &mut idx, &mut fill, tok) {
        Some(used) => {
            cursor.pos_idx = idx;
            cursor.pos_fill = fill;
            Ok(i + used)
        },
        None => Err(no_slot(cursor.current, tok)),
    }
}

/// The scan of a whole argument vector from the root: the bindings made
/// on the command line, and the chain of commands that was entered.
fn scan_args<'a, Ctx>(env: &Env, root: &'a CmdSpec<'a, Ctx>, argv: &[Token], vars: &EnvVars) -> (r:
    Result<(Matches, Vec<&'a CmdSpec<'a, Ctx>>), Error>)
    ensures
        match scan(*env, root@, token_views(argv@), vars@) {
            Ok(c) => r matches Ok(p) && p.0.model() == c.m && stack_views(p.1@) == c.stack
                && p.1@.len() > 0 && linked(root, p.1@),
            Err(e) => r matches Err(x) && x@ == e,
        },
{
    let ghost av = token_views(argv@);
    let mut m = Matches::new();
    let mut cursor = ParseCursor::new(root);
    let mut i: usize = 0;
    assert(cursor.model(m.model()) == start(root@));
    while i < argv.len()
        invariant
            i <= argv.len(),
            av == token_views(argv@),
            cursor.wf(),
            *cursor.stack@[0] == *root,
            cursor.pos_fill <= i,
            scan(*env, root@, av, vars@) == run(*env, vars@, cursor.model(m.model()), av, i as int),
        decreases argv.len() - i,
    {
        match advance(env, vars, &mut cursor, &mut m, argv, i) {
            Err(e) => {
                return Err(e);
            },
            Ok(n) => {
                i = n;
            },
        }
    }
    Ok((m, cursor.stack))
}

// ---------------------------------------------------------------------
// The levels of a parse
// ---------------------------------------------------------------------
/// Whether `r` and the context `after` are what comes of the validators
/// and callbacks of one level, on the bindings `m`, starting in the
/// context `before`. The validators come first: where one of them rejects,
/// that is the result and no callback has run. Then come the callbacks.
pub open spec fn level_run<'a, Ctx>(
    m: &Matches,
    path: Seq<Seq<char>>,
    cmd: &CmdSpec<'a, Ctx>,
    before: Ctx,
    after: Ctx,
    r: Result<(), Error>,
) -> bool {
    match r {
        Ok(_) => validated(m, path, cmd, Ok(())) && called(m, path, cmd, before, after, Ok(())),
        Err(_) => {
            ||| validated(m, path, cmd, r) && after == before
            ||| validated(m, path, cmd, Ok(())) && called(m, path, cmd, before, after, r)
        },
    }
}

/// Whether level `k` of the chain is settled as the model settles it, and
/// `r` and the context `after` are what comes of its validators and
/// callbacks on the settled bindings, starting in the context `before`.
pub open spec fn level_done<'a, Ctx>(
    stack: Seq<&'a CmdSpec<'a, Ctx>>,
    scanned: MatchesView,
    vars: Map<Seq<char>, TokenView>,
    k: int,
    before: Ctx,
    after: Ctx,
    r: Result<(), Error>,
) -> bool {
    exists|m: Matches|
        settle(scanned, stack_views(stack), vars, k + 1) == Ok::<MatchesView, ErrorView>(
            m.model(),
        ) && #[trigger] level_run(
            &m,
            level_path(stack_views(stack), k),
            stack[k],
            before,
            after,
            r,
        )
}

/// The steps of a parse after the scan, level by level, each with success.
pub open spec fn levels_passing<'a, Ctx>(
    stack: Seq<&'a CmdSpec<'a, Ctx>>,
    scanned: MatchesView,
    vars: Map<Seq<char>, TokenView>,
) -> spec_fn(int, Ctx, Ctx) -> bool {
    |k: int, c: Ctx, d: Ctx| level_done(stack, scanned, vars, k, c, d, Ok(()))
}

/// The steps of a level whose validators or callbacks end in `r`.
pub open spec fn levels_failing<'a, Ctx>(
    stack: Seq<&'a CmdSpec<'a, Ctx>>,
    scanned: MatchesView,
    vars: Map<Seq<char>, TokenView>,
    r: Result<(), Error>,
) -> spec_fn(int, Ctx, Ctx) -> bool {
    |k: int, c: Ctx, d: Ctx| level_done(stack, scanned, vars, k, c, d, r)
}

/// Whether the handler of a command, run on the bindings `m` in the
/// context `before`, may succeed and leave the context as `after`.
pub open spec fn handled<'a, Ctx>(leaf: &CmdSpec<'a, Ctx>, m: Matches, before: Ctx, after: Ctx) -> bool {
    exists|x: Result<(), Error>| x is Ok && #[trigger] leaf.runs(&m, before, after, x)
}

/// Whether `r` and the context `after` are what comes of a parse after its
/// scan, over the chain of commands that the scan entered, starting in the
/// context `before`; `want` is what the model resolves the input to.
///
/// On success every level, from the root down, has been settled,
/// validated and called, in that order, and then the handler of the last
/// command has run on the bindings that are returned. A failure is the
/// structural error of a level, all levels above it having been settled,
/// validated and called; or what a validator or callback of a level gave,
/// all levels above it having passed; or what the handler gave, all
/// levels having passed.
pub open spec fn finished<'a, Ctx>(
    stack: Seq<&'a CmdSpec<'a, Ctx>>,
    scanned: MatchesView,
    vars: Map<Seq<char>, TokenView>,
    want: Result<MatchesView, ErrorView>,
    before: Ctx,
    after: Ctx,
    r: Result<Matches, Error>,
) -> bool {
    let n = stack.len() as int;
    let steps = levels_passing(stack, scanned, vars);
    let leaf = stack[n - 1];
    match r {
        Ok(m) => want == Ok::<MatchesView, ErrorView>(m.model()) && exists|mid: Ctx|
            #[trigger] chain(steps, n, before, mid) && handled(leaf, m, mid, after),
        Err(e) => {
            ||| exists|k: int|
                0 <= k < n && settle(scanned, stack_views(stack), vars, k + 1) == Err::<
                    MatchesView,
                    ErrorView,
                >(e@) && #[trigger] chain(steps, k, before, after)
            ||| broken(steps, levels_failing(stack, scanned, vars, Err(e)), n, before, after)
            ||| exists|mid: Ctx, m: Matches|
                want == Ok::<MatchesView, ErrorView>(m.model()) && chain(steps, n, before, mid)
                    && #[trigger] leaf.runs(&m, mid, after, Err(e))
        },
    }
}

/// Enter level `k` of the chain: the name of its command joins the path,
/// the root excepted, and its overlay is applied.
fn enter_level<'a, Ctx>(
    m: &mut Matches,
    path: &mut Vec<&'a str>,
    stack: &Vec<&'a CmdSpec<'a, Ctx>>,
    k: usize,
    vars: &EnvVars,
)
    requires
        k < stack@.len(),
        slice_texts(old(path)@) == (if k == 0 {
            Seq::<Seq<char>>::empty()
        } else {
            level_path(stack_views(stack@), k - 1)
        }),
    ensures
        slice_texts(final(path)@) == level_path(stack_views(stack@), k as int),
        final(m).model() == overlay(
            old(m).model(),
            level_path(stack_views(stack@), k as int),
            stack_views(stack@)[k as int],
            vars@,
        ),
{
    let ghost sv = stack_views(stack@);
    let cmd = stack[k];
    assert(cmd@ == sv[k as int]);
    if k > 0 {
        let ghost before = slice_texts(path@);
        path.push(cmd.get_name());
        assert(slice_texts(path@) =~= before.push(cmd@.name));
    }
    assert(slice_texts(path@) =~= level_path(sv, k as int));
    overlay_env_and_defaults(m, path.as_slice(), cmd, vars);
}

/// Resolve an argument vector without running any callback or validator:
/// the scan, then the overlay and the structural checks of every level
/// from the root to the selected command.
pub fn resolve_args<'a, Ctx>(
    env: &Env,
    root: &'a CmdSpec<'a, Ctx>,
    argv: &[Token],
    vars: &EnvVars,
) -> (r: Result<Matches, Error>)
    ensures
        outcome(r) == resolve(*env, root@, token_views(argv@), vars@),
{
    let ghost av = token_views(argv@);
    let (mut m, stack) = match scan_args(env, root, argv, vars) {
        Ok(p) => p,
        Err(e) => {
            return Err(e);
        },
    };
    let ghost c = match scan(*env, root@, av, vars@) {
        Ok(c) => c,
        Err(_) => arbitrary(),
    };
    let ghost sv = stack_views(stack@);
    let mut path: Vec<&'a str> = Vec::new();
    let mut k: usize = 0;
    assert(slice_texts(path@) =~= Seq::<Seq<char>>::empty());
    while k < stack.len()
        invariant
            k <= stack.len(),
            av == token_views(argv@),
            scan(*env, root@, av, vars@) == Ok::<Cursor, ErrorView>(c),
            sv == stack_views(stack@),
            sv == c.stack,
            settle(c.m, sv, vars@, k as int) == Ok::<MatchesView, ErrorView>(m.model()),
            slice_texts(path@) == (if k == 0 {
                Seq::<Seq<char>>::empty()
            } else {
                level_path(sv, k - 1)
            }),
        decreases stack.len() - k,
    {
        enter_level(&mut m, &mut path, &stack, k, vars);
        match check_level(&m, path.as_slice(), stack[k]) {
            Err(e) => {
                proof {
                    lemma_settle_error_stands(c.m, sv, vars@, k + 1, sv.len() as int);
                }
                return Err(e);
            },
            Ok(()) => {},
        }
        k += 1;
    }
    assert(sv.take(sv.len() as int) =~= sv);
    m.set_leaf_path(path.as_slice());
    Ok(m)
}

/// Whether the validators of the root let the bindings pass that the model
/// settles the root with.
pub open spec fn root_validated<'a, Ctx>(
    root: &CmdSpec<'a, Ctx>,
    c: Cursor,
    vars: Map<Seq<char>, TokenView>,
) -> bool {
    exists|m: Matches|
        settle(c.m, c.stack, vars, 1) == Ok::<MatchesView, ErrorView>(m.model())
            && #[trigger] validated(&m, Seq::empty(), root, Ok(()))
}

/// What a parse does: whether `r` and the context `after` are what comes
/// of parsing `argv` against `root`, starting in the context `before`.
///
/// - An error of the scan, or of the structural check of the root, is
///   certain: it comes back as it is, and the context is untouched.
/// - A success holds the bindings that the model resolves the input to.
/// - Where no validator, callback or handler is called at all, the result
///   is exactly that of the model, and the context is untouched.
/// - After a scan that succeeds, the validators, callbacks and handler of
///   the commands that the scan entered are called as [`finished`] tells,
///   and the result is what comes of them.
/// - The context is untouched unless the validators of the root have let
///   its bindings pass: no callback runs before that.
pub open spec fn parsed<'a, Ctx>(
    env: Env,
    root: &'a CmdSpec<'a, Ctx>,
    argv: Seq<TokenView>,
    vars: Map<Seq<char>, TokenView>,
    before: Ctx,
    after: Ctx,
    r: Result<Matches, Error>,
) -> bool {
    &&& early_error(env, root@, argv, vars) matches Some(e) ==> r matches Err(x) && x@ == e
        && after == before
    &&& r matches Ok(m) ==> resolve(env, root@, argv, vars) == Ok::<MatchesView, ErrorView>(
        m.model(),
    )
    &&& silent_run(env, root@, argv, vars) ==> outcome(r) == resolve(env, root@, argv, vars)
        && after == before
    &&& scan(env, root@, argv, vars) matches Ok(c) ==> exists|stack: Seq<&'a CmdSpec<'a, Ctx>>|
        #![trigger linked(root, stack)]
        linked(root, stack) && stack_views(stack) == c.stack && finished(
            stack,
            c.m,
            vars,
            resolve(env, root@, argv, vars),
            before,
            after,
            r,
        )
    &&& after == before || (scan(env, root@, argv, vars) matches Ok(c) && root_validated(
        root,
        c,
        vars,
    ))
}

/// Parsing twice: two parses of one input against one schema that both
/// succeed hold the same bindings, whatever the callbacks did; and where
/// no validator, callback or handler is called, two parses that start in
/// the same context end alike in every respect.
pub proof fn law_parsing_twice<'a, Ctx>(
    env: Env,
    root: &'a CmdSpec<'a, Ctx>,
    argv: Seq<TokenView>,
    vars: Map<Seq<char>, TokenView>,
    before: Ctx,
    first_after: Ctx,
    first: Result<Matches, Error>,
    second_after: Ctx,
    second: Result<Matches, Error>,
)
    requires
        parsed(env, root, argv, vars, before, first_after, first),
        parsed(env, root, argv, vars, before, second_after, second),
    ensures
        first is Ok && second is Ok ==> first->Ok_0.model() == second->Ok_0.model(),
        silent_run(env, root@, argv, vars) ==> outcome(first) == outcome(second) && first_after
            == second_after,
{
}

/// Parse command line arguments.
///
/// The argument vector is scanned against the schema; then, level by level
/// from the root to the selected command, environment and default values
/// are overlaid, arity and group rules are checked, validators are run and
/// callbacks are fired; last the path of the selected command is recorded
/// and its handler is run. The first failure ends the parse; what callbacks
/// did before it stays done.
///
/// What validators, callbacks and the handler do is theirs to decide; the
/// contract says which of them are called, on what, in which order, and
/// what becomes of their results ([`parsed`]).
pub fn parse<'a, Ctx>(
    env: &Env,
    root: &'a CmdSpec<'a, Ctx>,
    argv: &[Token],
    vars: &EnvVars,
    ctx: &mut Ctx,
) -> (r: Result<Matches, Error>)
    ensures
        parsed(*env, root, token_views(argv@), vars@, *old(ctx), *final(ctx), r),
{
    let ghost av = token_views(argv@);
    let ghost silent = silent_run(*env, root@, av, vars@);
    let ghost want = resolve(*env, root@, av, vars@);
    let (mut m, stack) = match scan_args(env, root, argv, vars) {
        Ok(p) => p,
        Err(e) => {
            return Err(e);
        },
    };
    let ghost c = match scan(*env, root@, av, vars@) {
        Ok(c) => c,
        Err(_) => arbitrary(),
    };
    let ghost sv = stack_views(stack@);
    let ghost steps = levels_passing(stack@, c.m, vars@);
    let ghost n = stack@.len() as int;
    let mut path: Vec<&'a str> = Vec::new();
    let mut k: usize = 0;
    assert(slice_texts(path@) =~= Seq::<Seq<char>>::empty());
    while k < stack.len()
        invariant
            k <= stack.len(),
            stack@.len() > 0,
            n == stack@.len(),
            linked(root, stack@),
            silent == silent_run(*env, root@, av, vars@),
            silent ==> *ctx == *old(ctx),
            av == token_views(argv@),
            want == resolve(*env, root@, av, vars@),
            scan(*env, root@, av, vars@) == Ok::<Cursor, ErrorView>(c),
            sv == stack_views(stack@),
            sv == c.stack,
            steps == levels_passing(stack@, c.m, vars@),
            settle(c.m, sv, vars@, k as int) == Ok::<MatchesView, ErrorView>(m.model()),
            slice_texts(path@) == (if k == 0 {
                Seq::<Seq<char>>::empty()
            } else {
                level_path(sv, k - 1)
            }),
            k == 0 ==> *ctx == *old(ctx),
            k > 0 ==> early_error(*env, root@, av, vars@) is None,
            k > 0 ==> root_validated(root, c, vars@),
            chain(steps, k as int, *old(ctx), *ctx),
        decreases stack.len() - k,
    {
        let cmd = stack[k];
        assert(cmd@ == sv[k as int]);
        enter_level(&mut m, &mut path, &stack, k, vars);
        assert(level_path(sv, 0) =~= Seq::<Seq<char>>::empty());
        let ghost sp = slice_texts(path@);
        let ghost mid = *ctx;
        let ghost settled = m;
        proof {
            if level_error(m.model(), sp, cmd@) is Some {
                lemma_settle_error_stands(c.m, sv, vars@, k + 1, sv.len() as int);
            } else {
                assert(settle(c.m, sv, vars@, k + 1) == Ok::<MatchesView, ErrorView>(m.model()));
                assert(silent ==> level_silent(m.model(), level_path(sv, k as int), sv[k as int]));
            }
        }
        let checked = validate_level(&m, path.as_slice(), cmd);
        match checked {
            Err(e) => {
                proof {
                    if level_error(m.model(), sp, cmd@) is None {
                        assert(level_run(&settled, sp, cmd, mid, mid, checked));
                        assert(level_done(stack@, c.m, vars@, k as int, mid, mid, checked));
                        assert(levels_failing(stack@, c.m, vars@, Err(e))(k as int, mid, mid));
                    }
                }
                return Err(e);
            },
            Ok(()) => {
                proof {
                    if k == 0 {
                        assert(sp =~= Seq::<Seq<char>>::empty());
                        assert(*stack@[0] == *root);
                        assert(validated(&settled, Seq::empty(), root, Ok(())));
                    }
                }
            },
        }
        let fired = run_callbacks(&m, path.as_slice(), cmd, ctx);
        match fired {
            Err(e) => {
                proof {
                    assert(level_run(&settled, sp, cmd, mid, *ctx, fired));
                    assert(level_done(stack@, c.m, vars@, k as int, mid, *ctx, fired));
                    assert(levels_failing(stack@, c.m, vars@, Err(e))(k as int, mid, *ctx));
                }
                return Err(e);
            },
            Ok(()) => {
                proof {
                    assert(level_run(&settled, sp, cmd, mid, *ctx, Ok(())));
                    assert(level_done(stack@, c.m, vars@, k as int, mid, *ctx, Ok(())));
                    assert(steps(k as int, mid, *ctx));
                    lemma_chain_push(steps, k as int, *old(ctx), mid, *ctx);
                }
            },
        }
        k += 1;
    }
    assert(sv.take(sv.len() as int) =~= sv);
    m.set_leaf_path(path.as_slice());
    let ghost mid = *ctx;
    let ghost bound = m;
    let leaf = stack[stack.len() - 1];
    match leaf.get_handler() {
        Some(h) => {
            let ran = run_one::<Ctx, dyn CmdHandler<Ctx>>(&**h, &m, ctx);
            assert(leaf.runs(&bound, mid, *ctx, ran));
            match ran {
                Err(e) => {
                    assert(leaf.runs(&bound, mid, *ctx, Err(e)));
                    return Err(e);
                },
                Ok(()) => {
                    assert(handled(leaf, bound, mid, *ctx));
                },
            }
        },
        None => {
            assert(leaf.runs(&bound, mid, mid, Ok(())));
            assert(handled(leaf, bound, mid, *ctx));
        },
    }
    Ok(m)
}

} // verus!
