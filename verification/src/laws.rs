//! Laws of the resolution model, proved once for all inputs.

use crate::error::ErrorView;
use crate::matches::{key_text, MatchesView, ValueView};
use crate::model::{
    arity_error, optional_step, bind_flag, bind_value, default_step, group_error, group_taken, groups_error,
    level_error, level_path, open_slot, overlay, overlay_defaults, overlay_env, positional_step,
    resolve, run, scan, settle, short_walk, slot_error, start, step, Bound, Cursor, Step,
};
use crate::schema::{ArgKind, CmdView, Env, OptView, PosView, Repeat, Source};
use crate::token::TokenView;
use crate::util::looks_like_number;
use vstd::prelude::*;

verus! {

/// Whether two stores hold the same at `key`: the same value, the same
/// provenance and the same flag count, or nothing in both.
pub open spec fn same_at(a: MatchesView, b: MatchesView, key: Seq<char>) -> bool {
    &&& a.values.contains_key(key) == b.values.contains_key(key)
    &&& a.values.contains_key(key) ==> a.values[key] == b.values[key]
    &&& a.status.contains_key(key) == b.status.contains_key(key)
    &&& a.status.contains_key(key) ==> a.status[key] == b.status[key]
    &&& a.flag_counts.contains_key(key) == b.flag_counts.contains_key(key)
    &&& a.flag_counts.contains_key(key) ==> a.flag_counts[key] == b.flag_counts[key]
}

/// What a first value from the command line is stored as.
pub open spec fn cli_stored(rep: Repeat, v: TokenView) -> ValueView {
    match rep {
        Repeat::Single => ValueView::One(v),
        Repeat::Many => ValueView::Many(seq![v]),
    }
}

proof fn lemma_env_keeps(
    m: MatchesView,
    path: Seq<Seq<char>>,
    opts: Seq<OptView>,
    vars: Map<Seq<char>, TokenView>,
    n: int,
    key: Seq<char>,
)
    requires
        n <= opts.len(),
    ensures
        m.is_set(key) ==> same_at(overlay_env(m, path, opts, vars, n), m, key),
        !m.is_set_from(key, Source::Cli) ==> !overlay_env(m, path, opts, vars, n).is_set_from(
            key,
            Source::Cli,
        ),
        !m.is_set_from(key, Source::Default) ==> !overlay_env(
            m,
            path,
            opts,
            vars,
            n,
        ).is_set_from(key, Source::Default),
    decreases n,
{
    if n > 0 {
        lemma_env_keeps(m, path, opts, vars, n - 1, key);
    }
}

proof fn lemma_defaults_keep(
    m: MatchesView,
    path: Seq<Seq<char>>,
    opts: Seq<OptView>,
    n: int,
    key: Seq<char>,
)
    requires
        n <= opts.len(),
    ensures
        m.is_set(key) ==> same_at(overlay_defaults(m, path, opts, n), m, key),
        !m.is_set_from(key, Source::Cli) ==> !overlay_defaults(m, path, opts, n).is_set_from(
            key,
            Source::Cli,
        ),
    decreases n,
{
    if n > 0 {
        lemma_defaults_keep(m, path, opts, n - 1, key);
    }
}

/// Source precedence: the overlay of environment and default values never
/// touches a key that is bound already. What the command line, or an
/// earlier overlay, has bound stays as it is.
pub proof fn law_overlay_keeps_bound(
    m: MatchesView,
    path: Seq<Seq<char>>,
    cmd: CmdView,
    vars: Map<Seq<char>, TokenView>,
    key: Seq<char>,
)
    requires
        m.is_set(key),
    ensures
        same_at(overlay(m, path, cmd, vars), m, key),
{
    let n = cmd.opts.len() as int;
    lemma_env_keeps(m, path, cmd.opts, vars, n, key);
    lemma_defaults_keep(overlay_env(m, path, cmd.opts, vars, n), path, cmd.opts, n, key);
}

/// Precedence: a value given on the command line is what its key resolves
/// to, with the command line as its source, whether the overlay of
/// environment and default values ran before it or runs after it.
pub proof fn law_cli_precedence(
    m: MatchesView,
    path: Seq<Seq<char>>,
    cmd: CmdView,
    vars: Map<Seq<char>, TokenView>,
    o: OptView,
    v: TokenView,
)
    requires
        !m.is_set_from(key_text(path, o.name), Source::Cli),
    ensures
        ({
            let key = key_text(path, o.name);
            let after = bind_value(overlay(m, path, cmd, vars), path, o, v);
            after.values[key] == cli_stored(o.repeat, v) && after.is_set_from(key, Source::Cli)
        }),
        ({
            let key = key_text(path, o.name);
            let after = overlay(bind_value(m, path, o, v), path, cmd, vars);
            after.values[key] == cli_stored(o.repeat, v) && after.is_set_from(key, Source::Cli)
        }),
{
    let key = key_text(path, o.name);
    let n = cmd.opts.len() as int;
    lemma_env_keeps(m, path, cmd.opts, vars, n, key);
    lemma_defaults_keep(overlay_env(m, path, cmd.opts, vars, n), path, cmd.opts, n, key);
    law_overlay_keeps_bound(bind_value(m, path, o, v), path, cmd, vars, key);
}

proof fn lemma_settle_keeps_bound(
    m: MatchesView,
    stack: Seq<CmdView>,
    vars: Map<Seq<char>, TokenView>,
    n: int,
    key: Seq<char>,
)
    requires
        m.is_set(key),
    ensures
        settle(m, stack, vars, n) matches Ok(after) ==> same_at(after, m, key),
    decreases n,
{
    if n > 0 {
        lemma_settle_keeps_bound(m, stack, vars, n - 1, key);
        match settle(m, stack, vars, n - 1) {
            Err(_) => {},
            Ok(m1) => {
                law_overlay_keeps_bound(m1, level_path(stack, n - 1), stack[n - 1], vars, key);
            },
        }
    }
}

/// Precedence, end to end: what the scan of the command line has bound at
/// a key is what a parse that succeeds holds at that key, its source
/// included. Neither the environment nor a default replaces it.
pub proof fn law_scanned_binding_stands(
    env: Env,
    root: CmdView,
    argv: Seq<TokenView>,
    vars: Map<Seq<char>, TokenView>,
    key: Seq<char>,
)
    requires
        scan(env, root, argv, vars) matches Ok(c) && c.m.is_set(key),
    ensures
        resolve(env, root, argv, vars) matches Ok(m) ==> same_at(
            m,
            scan(env, root, argv, vars)->Ok_0.m,
            key,
        ),
{
    let c = scan(env, root, argv, vars)->Ok_0;
    lemma_settle_keeps_bound(c.m, c.stack, vars, c.stack.len() as int, key);
}

/// Group default suppression: where a member of a group is bound, from
/// whatever source, the overlay does not apply the default of another
/// member. If no other option shares that member's key, the member is not
/// bound from a default afterwards.
pub proof fn law_group_blocks_default(
    m: MatchesView,
    path: Seq<Seq<char>>,
    cmd: CmdView,
    vars: Map<Seq<char>, TokenView>,
    a: int,
    b: int,
)
    requires
        0 <= a < cmd.opts.len(),
        0 <= b < cmd.opts.len(),
        a != b,
        cmd.opts[b].group is Some,
        cmd.opts[a].group == cmd.opts[b].group,
        m.is_set(key_text(path, cmd.opts[a].name)),
    ensures
        ({
            let n = cmd.opts.len() as int;
            let before = overlay_defaults(
                overlay_env(m, path, cmd.opts, vars, n),
                path,
                cmd.opts,
                b,
            );
            default_step(before, path, cmd.opts, b) == before
        }),
        ({
            let key = key_text(path, cmd.opts[b].name);
            !m.is_set_from(key, Source::Default) && (forall|j: int|
                0 <= j < cmd.opts.len() && j != b ==> key_text(path, (#[trigger] cmd.opts[j]).name)
                    != key) ==> !overlay(m, path, cmd, vars).is_set_from(key, Source::Default)
        }),
{
    let n = cmd.opts.len() as int;
    let opts = cmd.opts;
    let key_a = key_text(path, opts[a].name);
    let key_b = key_text(path, opts[b].name);
    let m1 = overlay_env(m, path, opts, vars, n);
    lemma_env_keeps(m, path, opts, vars, n, key_a);
    lemma_env_keeps(m, path, opts, vars, n, key_b);
    let before = overlay_defaults(m1, path, opts, b);
    lemma_defaults_keep(m1, path, opts, b, key_a);
    assert(before.is_set(key_a));
    assert(group_taken(before, path, opts, b)) by {
        assert(opts[a].group == opts[b].group && before.is_set(key_text(path, opts[a].name)));
    }
    if !m.is_set_from(key_b, Source::Default) && (forall|j: int|
        0 <= j < opts.len() && j != b ==> key_text(path, (#[trigger] opts[j]).name) != key_b) {
        lemma_defaults_skip(m1, path, opts, n, b, key_a);
    }
}

/// While a group member's key `key_a` is bound, the default overlay of the
/// first `n` options leaves the key of another member `b` of that group
/// without a default, if no other option shares that key.
proof fn lemma_defaults_skip(
    m: MatchesView,
    path: Seq<Seq<char>>,
    opts: Seq<OptView>,
    n: int,
    b: int,
    key_a: Seq<char>,
)
    requires
        0 <= n <= opts.len(),
        0 <= b < opts.len(),
        opts[b].group is Some,
        m.is_set(key_a),
        exists|a: int|
            0 <= a < opts.len() && a != b && (#[trigger] opts[a]).group == opts[b].group
                && key_text(path, opts[a].name) == key_a,
        !m.is_set_from(key_text(path, opts[b].name), Source::Default),
        forall|j: int|
            0 <= j < opts.len() && j != b ==> key_text(path, (#[trigger] opts[j]).name)
                != key_text(path, opts[b].name),
    ensures
        overlay_defaults(m, path, opts, n).is_set(key_a),
        !overlay_defaults(m, path, opts, n).is_set_from(
            key_text(path, opts[b].name),
            Source::Default,
        ),
    decreases n,
{
    if n > 0 {
        lemma_defaults_skip(m, path, opts, n - 1, b, key_a);
        let before = overlay_defaults(m, path, opts, n - 1);
        if n - 1 == b {
            let a = choose|a: int|
                0 <= a < opts.len() && a != b && (#[trigger] opts[a]).group == opts[b].group
                    && key_text(path, opts[a].name) == key_a;
            assert(opts[a].group == opts[b].group && before.is_set(
                key_text(path, opts[a].name),
            ));
            assert(group_taken(before, path, opts, b));
        } else {
            assert(key_text(path, opts[n - 1].name) != key_text(path, opts[b].name));
        }
    }
}

proof fn lemma_env_frame(
    m: MatchesView,
    path: Seq<Seq<char>>,
    opts: Seq<OptView>,
    vars: Map<Seq<char>, TokenView>,
    n: int,
    key: Seq<char>,
)
    requires
        n <= opts.len(),
        forall|j: int| 0 <= j < n ==> key_text(path, (#[trigger] opts[j]).name) != key,
    ensures
        same_at(overlay_env(m, path, opts, vars, n), m, key),
    decreases n,
{
    if n > 0 {
        lemma_env_frame(m, path, opts, vars, n - 1, key);
        assert(key_text(path, opts[n - 1].name) != key);
    }
}

proof fn lemma_defaults_frame(
    m: MatchesView,
    path: Seq<Seq<char>>,
    opts: Seq<OptView>,
    n: int,
    key: Seq<char>,
)
    requires
        n <= opts.len(),
        forall|j: int| 0 <= j < n ==> key_text(path, (#[trigger] opts[j]).name) != key,
    ensures
        same_at(overlay_defaults(m, path, opts, n), m, key),
    decreases n,
{
    if n > 0 {
        lemma_defaults_frame(m, path, opts, n - 1, key);
        assert(key_text(path, opts[n - 1].name) != key);
    }
}

/// The overlay of a command touches only the keys of its own options.
pub proof fn law_overlay_frame(
    m: MatchesView,
    path: Seq<Seq<char>>,
    cmd: CmdView,
    vars: Map<Seq<char>, TokenView>,
    key: Seq<char>,
)
    requires
        forall|j: int|
            0 <= j < cmd.opts.len() ==> key_text(path, (#[trigger] cmd.opts[j]).name) != key,
    ensures
        same_at(overlay(m, path, cmd, vars), m, key),
{
    let n = cmd.opts.len() as int;
    lemma_env_frame(m, path, cmd.opts, vars, n, key);
    lemma_defaults_frame(overlay_env(m, path, cmd.opts, vars, n), path, cmd.opts, n, key);
}

/// The scan only ever adds commands to the chain: the root stays the root.
pub proof fn law_scan_keeps_root(
    env: Env,
    vars: Map<Seq<char>, TokenView>,
    c: Cursor,
    argv: Seq<TokenView>,
    i: int,
)
    requires
        c.stack.len() >= 1,
        0 <= i,
    ensures
        run(env, vars, c, argv, i) matches Ok(d) ==> d.stack.len() >= 1 && d.stack[0]
            == c.stack[0],
    decreases argv.len() - i,
{
    if i < argv.len() {
        match step(env, vars, c, argv, i) {
            Step::Halt { error } => {},
            Step::Go { cursor, next } => {
                assert(cursor.stack.len() >= 1 && cursor.stack[0] == c.stack[0]);
                if i < next <= argv.len() {
                    law_scan_keeps_root(env, vars, cursor, argv, next);
                }
            },
        }
    }
}

/// Whether no option of the levels from `from` on, other than the option
/// `but` of the root, has the key `key`.
pub open spec fn key_is_free(stack: Seq<CmdView>, from: int, but: int, key: Seq<char>) -> bool {
    forall|k: int, j: int|
        from <= k < stack.len() && 0 <= j < stack[k].opts.len() && !(k == 0 && j == but)
            ==> key_text(level_path(stack, k), (#[trigger] stack[k].opts[j]).name) != key
}

proof fn lemma_settle_keeps_undefaulted(
    m: MatchesView,
    stack: Seq<CmdView>,
    vars: Map<Seq<char>, TokenView>,
    n: int,
    b: int,
    key_a: Seq<char>,
)
    requires
        1 <= n <= stack.len(),
        0 <= b < stack[0].opts.len(),
        stack[0].opts[b].group is Some,
        exists|a: int|
            0 <= a < stack[0].opts.len() && a != b && (#[trigger] stack[0].opts[a]).group
                == stack[0].opts[b].group && key_text(Seq::empty(), stack[0].opts[a].name)
                == key_a,
        m.is_set(key_a),
        !m.is_set_from(key_text(Seq::empty(), stack[0].opts[b].name), Source::Default),
        key_is_free(stack, 0, b, key_text(Seq::empty(), stack[0].opts[b].name)),
    ensures
        settle(m, stack, vars, n) matches Ok(after) ==> !after.is_set_from(
            key_text(Seq::empty(), stack[0].opts[b].name),
            Source::Default,
        ),
    decreases n,
{
    let root = stack[0];
    let key_b = key_text(Seq::empty(), root.opts[b].name);
    if n == 1 {
        let path = level_path(stack, 0);
        assert(path =~= Seq::<Seq<char>>::empty());
        let a = choose|a: int|
            0 <= a < root.opts.len() && a != b && (#[trigger] root.opts[a]).group
                == root.opts[b].group && key_text(Seq::empty(), root.opts[a].name) == key_a;
        assert forall|j: int| 0 <= j < root.opts.len() && j != b implies key_text(
            path,
            (#[trigger] root.opts[j]).name,
        ) != key_b by {
            assert(key_text(level_path(stack, 0), stack[0].opts[j].name) != key_b);
        }
        law_group_blocks_default(m, path, root, vars, a, b);
    } else {
        lemma_settle_keeps_undefaulted(m, stack, vars, n - 1, b, key_a);
        match settle(m, stack, vars, n - 1) {
            Err(_) => {},
            Ok(m1) => {
                let path = level_path(stack, n - 1);
                let cmd = stack[n - 1];
                assert forall|j: int| 0 <= j < cmd.opts.len() implies key_text(
                    path,
                    (#[trigger] cmd.opts[j]).name,
                ) != key_b by {
                    assert(key_text(level_path(stack, n - 1), stack[n - 1].opts[j].name) != key_b);
                }
                law_overlay_frame(m1, path, cmd, vars, key_b);
            },
        }
    }
}

/// Group default suppression, end to end, for the options of the root: if
/// the scan has bound one member of a group, a parse that succeeds has not
/// bound another member from its default. (Below the root the overlay
/// runs when a command is entered, before the tokens of that command are
/// read, so a default may be bound there before a member is set.)
pub proof fn law_root_default_suppressed(
    env: Env,
    root: CmdView,
    argv: Seq<TokenView>,
    vars: Map<Seq<char>, TokenView>,
    a: int,
    b: int,
)
    requires
        0 <= a < root.opts.len(),
        0 <= b < root.opts.len(),
        a != b,
        root.opts[b].group is Some,
        root.opts[a].group == root.opts[b].group,
        scan(env, root, argv, vars) matches Ok(c) && c.m.is_set(
            key_text(Seq::empty(), root.opts[a].name),
        ) && !c.m.is_set_from(key_text(Seq::empty(), root.opts[b].name), Source::Default)
            && key_is_free(c.stack, 0, b, key_text(Seq::empty(), root.opts[b].name)),
    ensures
        resolve(env, root, argv, vars) matches Ok(m) ==> !m.is_set_from(
            key_text(Seq::empty(), root.opts[b].name),
            Source::Default,
        ),
{
    let c = scan(env, root, argv, vars)->Ok_0;
    law_scan_keeps_root(env, vars, start(root), argv, 0);
    assert(c.stack[0] == root);
    let key_a = key_text(Seq::empty(), root.opts[a].name);
    assert(root.opts[a].group == root.opts[b].group && key_text(
        Seq::empty(),
        root.opts[a].name,
    ) == key_a);
    lemma_settle_keeps_undefaulted(c.m, c.stack, vars, c.stack.len() as int, b, key_a);
}

/// Numeric lookahead: where an optional value was not given inline and
/// the next token begins with a dash and looks like a number, an option
/// with the numeric hint takes it as its value; an option without the hint
/// stays without a value and leaves the token where it is.
pub proof fn law_numeric_lookahead(
    m: MatchesView,
    path: Seq<Seq<char>>,
    o: OptView,
    argv: Seq<TokenView>,
    i: int,
    t: Seq<char>,
)
    requires
        0 <= i,
        i + 1 < argv.len(),
        argv[i + 1] == TokenView::Text(t),
        t.len() >= 2,
        t[0] == '-',
        looks_like_number(t),
    ensures
        o.numeric ==> optional_step(m, path, o, argv, i) == (Bound::Took {
            m: bind_value(m, path, o, argv[i + 1]),
            used: 2,
        }),
        !o.numeric ==> optional_step(m, path, o, argv, i) == (Bound::Took {
            m: bind_flag(m, path, o),
            used: 1,
        }),
{
    reveal_strlit("-");
    assert(t != "-"@);
}

/// The occurrences of a flag that the command line has counted so far.
pub open spec fn counted(m: MatchesView, key: Seq<char>) -> nat {
    if m.is_set_from(key, Source::Cli) && m.flag_counts.contains_key(key) {
        m.flag_counts[key] as nat
    } else {
        0
    }
}

/// Short cluster counting: a run of one flag's short form to the end of a
/// cluster adds one occurrence for each character. `-vvv` counts three.
pub proof fn law_cluster_counts(
    env: Env,
    node: CmdView,
    at_root: bool,
    m: MatchesView,
    path: Seq<Seq<char>>,
    s: Seq<char>,
    p: int,
    argv: Seq<TokenView>,
    i: int,
    idx: int,
)
    requires
        1 <= p < s.len(),
        0 <= idx < node.opts.len(),
        node.opts[idx].kind == ArgKind::NoValue,
        forall|q: int| p <= q < s.len() ==> node.find_short(#[trigger] s[q]) == Some(idx),
        counted(m, key_text(path, node.opts[idx].name)) + (s.len() - p) <= usize::MAX,
    ensures
        short_walk(env, node, at_root, m, path, s, p, argv, i) matches Bound::Took { m: after, used }
            && used == 1 && after.is_set_from(key_text(path, node.opts[idx].name), Source::Cli)
            && after.count_at(key_text(path, node.opts[idx].name)) == counted(
            m,
            key_text(path, node.opts[idx].name),
        ) + (s.len() - p),
    decreases s.len() - p,
{
    let o = node.opts[idx];
    let key = key_text(path, o.name);
    let m1 = bind_flag(m, path, o);
    assert(node.find_short(s[p]) == Some(idx));
    assert(counted(m1, key) == counted(m, key) + 1);
    if p + 1 < s.len() {
        law_cluster_counts(env, node, at_root, m1, path, s, p + 1, argv, i, idx);
    }
}

/// End of options: after `--` every token of the current command is a
/// positional value. The scan enters no further subcommand, and the mark
/// stays in force to the end of the argument vector.
pub proof fn law_end_of_options(
    env: Env,
    vars: Map<Seq<char>, TokenView>,
    c: Cursor,
    argv: Seq<TokenView>,
    i: int,
)
    requires
        c.positional_only,
        0 <= i,
    ensures
        i < argv.len() ==> step(env, vars, c, argv, i) == positional_step(c, argv[i], i),
        run(env, vars, c, argv, i) matches Ok(d) ==> d.stack == c.stack && d.positional_only,
    decreases argv.len() - i,
{
    if i < argv.len() {
        match step(env, vars, c, argv, i) {
            Step::Halt { error } => {},
            Step::Go { cursor, next } => {
                if i < next <= argv.len() {
                    law_end_of_options(env, vars, cursor, argv, next);
                }
            },
        }
    }
}

/// The slot that takes the next value is the first open one from the
/// current slot on: the current slot with the values it holds, or a later,
/// empty one; there is none only if every slot from the current one on is
/// closed.
pub proof fn law_open_slot(pos: Seq<PosView>, idx: int, fill: nat)
    requires
        0 <= idx,
    ensures
        match open_slot(pos, idx, fill) {
            Some((j, f)) => {
                &&& idx <= j < pos.len()
                &&& pos[j].card.open_at(f)
                &&& f == (if j == idx {
                    fill
                } else {
                    0
                })
                &&& idx < j ==> !pos[idx].card.open_at(fill)
                &&& forall|k: int| idx < k < j ==> !(#[trigger] pos[k]).card.open_at(0)
            },
            None => {
                &&& idx < pos.len() ==> !pos[idx].card.open_at(fill)
                &&& forall|k: int| idx < k < pos.len() ==> !(#[trigger] pos[k]).card.open_at(0)
            },
        },
    decreases pos.len() - idx,
{
    if idx < pos.len() && !pos[idx].card.open_at(fill) {
        law_open_slot(pos, idx + 1, 0);
    }
}

/// Arity: the slots of a command pass the check exactly if each of them
/// holds at least its least number of values.
pub proof fn law_arity_checked(m: MatchesView, path: Seq<Seq<char>>, pos: Seq<PosView>, n: int)
    requires
        0 <= n <= pos.len(),
    ensures
        arity_error(m, path, pos, n) is None <==> forall|i: int|
            0 <= i < n ==> slot_error(m, path, #[trigger] pos[i]) is None,
    decreases n,
{
    if n > 0 {
        law_arity_checked(m, path, pos, n - 1);
    }
}

/// Groups: the groups of a command pass the check exactly if each of them
/// keeps its rule, members bound from any source counting alike.
pub proof fn law_groups_checked(m: MatchesView, path: Seq<Seq<char>>, cmd: CmdView, n: int)
    requires
        0 <= n <= cmd.groups.len(),
    ensures
        groups_error(m, path, cmd, n) is None <==> forall|i: int|
            0 <= i < n ==> group_error(m, path, cmd.opts, #[trigger] cmd.groups[i]) is None,
    decreases n,
{
    if n > 0 {
        law_groups_checked(m, path, cmd, n - 1);
    }
}

/// A level passes its structural check exactly if all its slots and all
/// its groups do.
pub proof fn law_level_checked(m: MatchesView, path: Seq<Seq<char>>, cmd: CmdView)
    ensures
        level_error(m, path, cmd) is None <==> (forall|i: int|
            0 <= i < cmd.positionals.len() ==> slot_error(
                m,
                path,
                #[trigger] cmd.positionals[i],
            ) is None) && (forall|i: int|
            0 <= i < cmd.groups.len() ==> group_error(
                m,
                path,
                cmd.opts,
                #[trigger] cmd.groups[i],
            ) is None),
{
    law_arity_checked(m, path, cmd.positionals, cmd.positionals.len() as int);
    law_groups_checked(m, path, cmd, cmd.groups.len() as int);
}

/// Idempotence: the bindings that an argument vector resolves to are a
/// function of the settings, the schema, the argument vector and the
/// environment variables. Two parses of the same input that both succeed
/// yield the same bindings.
pub proof fn law_same_input_same_result(
    env: Env,
    root: CmdView,
    argv: Seq<TokenView>,
    vars: Map<Seq<char>, TokenView>,
    first: MatchesView,
    second: MatchesView,
)
    requires
        resolve(env, root, argv, vars) == Ok::<MatchesView, ErrorView>(first),
        resolve(env, root, argv, vars) == Ok::<MatchesView, ErrorView>(second),
    ensures
        first == second,
{
}

} // verus!
