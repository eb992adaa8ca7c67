//! Help text for a command: usage line, options, arguments and commands,
//! in aligned columns, with descriptions wrapped at a given width.

use crate::schema::{
    cmd_views, opt_views, pos_views, CmdSpec, CmdView, ColorMode, Env, OptSpec, OptView,
    PosCardinality, PosSpec, PosView,
};
use crate::text::{chars_of, owned, slice_texts, text_of};
use vstd::prelude::*;
use vstd::string::*;

verus! {

// ---------------------------------------------------------------------
// Colours
// ---------------------------------------------------------------------
/// Whether help is colorized: only where the settings say `Always`.
pub open spec fn colored(env: Env) -> bool {
    env.color == ColorMode::Always
}

/// A text between a colour code and the reset code, or as it is.
pub open spec fn tint(on: bool, code: Seq<char>, s: Seq<char>) -> Seq<char> {
    if on {
        code + s + "\x1b[0m"@
    } else {
        s
    }
}

/// The title of the help.
pub open spec fn title_text(on: bool, s: Seq<char>) -> Seq<char> {
    if on {
        "\x1b[1m"@ + "\x1b[4;37m"@ + s + "\x1b[0m"@ + ":"@
    } else {
        s
    }
}

/// The title of a section.
pub open spec fn section_text(on: bool, s: Seq<char>) -> Seq<char> {
    if on {
        "\x1b[4;37m"@ + s + "\x1b[0m"@ + ":"@
    } else {
        s
    }
}

/// An option label.
pub open spec fn option_text(on: bool, s: Seq<char>) -> Seq<char> {
    tint(on, "\x1b[0;94m"@, s)
}

/// A positional label.
pub open spec fn positional_text(on: bool, s: Seq<char>) -> Seq<char> {
    tint(on, "\x1b[0;93m"@, s)
}

/// A metavar.
pub open spec fn metavar_text(on: bool, s: Seq<char>) -> Seq<char> {
    tint(on, "\x1b[0;96m"@, s)
}

/// A command name.
pub open spec fn command_text(on: bool, s: Seq<char>) -> Seq<char> {
    tint(on, "\x1b[0;95m"@, s)
}

/// The program's name in the usage line.
pub open spec fn program_text(on: bool, s: Seq<char>) -> Seq<char> {
    if on {
        "\x1b[0;97m"@ + "\x1b[1m"@ + s + "\x1b[0m"@
    } else {
        s
    }
}

fn paint(on: bool, code: &str, s: &str) -> (r: String)
    ensures
        r@ == tint(on, code@, s@),
{
    if on {
        let mut r = owned(code);
        r.append(s);
        r.append("\x1b[0m");
        r
    } else {
        owned(s)
    }
}

pub fn paint_title(on: bool, s: &str) -> (r: String)
    ensures
        r@ == title_text(on, s@),
{
    if on {
        let mut r = owned("\x1b[1m");
        r.append("\x1b[4;37m");
        r.append(s);
        r.append("\x1b[0m");
        r.append(":");
        r
    } else {
        owned(s)
    }
}

pub fn paint_section(on: bool, s: &str) -> (r: String)
    ensures
        r@ == section_text(on, s@),
{
    if on {
        let mut r = owned("\x1b[4;37m");
        r.append(s);
        r.append("\x1b[0m");
        r.append(":");
        r
    } else {
        owned(s)
    }
}

pub fn paint_option(on: bool, s: &str) -> (r: String)
    ensures
        r@ == option_text(on, s@),
{
    paint(on, "\x1b[0;94m", s)
}

pub fn paint_positional(on: bool, s: &str) -> (r: String)
    ensures
        r@ == positional_text(on, s@),
{
    paint(on, "\x1b[0;93m", s)
}

pub fn paint_metavar(on: bool, s: &str) -> (r: String)
    ensures
        r@ == metavar_text(on, s@),
{
    paint(on, "\x1b[0;96m", s)
}

pub fn paint_command(on: bool, s: &str) -> (r: String)
    ensures
        r@ == command_text(on, s@),
{
    paint(on, "\x1b[0;95m", s)
}

fn paint_program(on: bool, s: &str) -> (r: String)
    ensures
        r@ == program_text(on, s@),
{
    if on {
        let mut r = owned("\x1b[0;97m");
        r.append("\x1b[1m");
        r.append(s);
        r.append("\x1b[0m");
        r
    } else {
        owned(s)
    }
}

// ---------------------------------------------------------------------
// Wrapping
// ---------------------------------------------------------------------
/// `n` spaces.
pub open spec fn spaces(n: int) -> Seq<char> {
    Seq::new(
        if n > 0 {
            n as nat
        } else {
            0
        },
        |i: int| ' ',
    )
}

/// A character that separates words.
pub open spec fn is_space(c: char) -> bool {
    c == ' ' || c == '\t' || c == '\n' || c == '\r' || c == '\x0b' || c == '\x0c'
}

/// Position of the first character at or after `i` that is no space.
pub open spec fn skip_spaces(text: Seq<char>, i: int) -> int
    decreases text.len() - i,
{
    if i < 0 || i >= text.len() {
        text.len() as int
    } else if !is_space(text[i]) {
        i
    } else {
        skip_spaces(text, i + 1)
    }
}

/// Position of the first space at or after `i`.
pub open spec fn word_end(text: Seq<char>, i: int) -> int
    decreases text.len() - i,
{
    if i < 0 || i >= text.len() {
        text.len() as int
    } else if is_space(text[i]) {
        i
    } else {
        word_end(text, i + 1)
    }
}

/// The words of `text` from position `i` on, laid out from column `col`:
/// a word that would pass the column `wrap` goes to a new line, which
/// begins at column `start`; words on one line are a space apart.
pub open spec fn wrap_from(
    text: Seq<char>,
    i: int,
    col: int,
    first: bool,
    start: int,
    wrap: int,
) -> Seq<char>
    decreases text.len() - i,
{
    let b = skip_spaces(text, i);
    let e = word_end(text, b);
    if i < 0 || b >= text.len() || e <= b || b < i || e > text.len() {
        Seq::empty()
    } else {
        let add: int = if first {
            0
        } else {
            1
        };
        let breaks = col + add + (e - b) > wrap && col > start;
        let lead = if breaks {
            "\n"@ + spaces(start)
        } else {
            Seq::empty()
        };
        let col1 = if breaks {
            start
        } else {
            col
        };
        let first1 = breaks || first;
        let gap = if first1 {
            Seq::empty()
        } else {
            " "@
        };
        let col2 = if first1 {
            col1
        } else {
            col1 + 1
        };
        lead + gap + text.subrange(b, e) + wrap_from(text, e, col2 + (e - b), false, start, wrap)
    }
}

/// A description after its label: empty, it is the end of the line; with
/// no wrap width, it stands as it is; else its words are wrapped.
pub open spec fn wrapped(text: Seq<char>, start: int, wrap: int) -> Seq<char> {
    if text.len() == 0 {
        "\n"@
    } else if wrap == 0 {
        text + "\n"@
    } else {
        wrap_from(text, 0, start, true, start, wrap) + "\n"@
    }
}

fn space(c: char) -> (r: bool)
    ensures
        r == is_space(c),
{
    c == ' ' || c == '\t' || c == '\n' || c == '\r' || c == '\x0b' || c == '\x0c'
}

fn find_word(t: &Vec<char>, i: usize) -> (b: usize)
    requires
        i <= t.len(),
    ensures
        b == skip_spaces(t@, i as int),
        i <= b <= t.len(),
        b < t.len() ==> !is_space(t@[b as int]),
{
    let mut k: usize = i;
    while k < t.len() && space(t[k])
        invariant
            i <= k <= t.len(),
            skip_spaces(t@, i as int) == skip_spaces(t@, k as int),
        decreases t.len() - k,
    {
        k += 1;
    }
    k
}

fn find_word_end(t: &Vec<char>, i: usize) -> (e: usize)
    requires
        i <= t.len(),
    ensures
        e == word_end(t@, i as int),
        i <= e <= t.len(),
        i < t.len() && !is_space(t@[i as int]) ==> i < e,
{
    let mut k: usize = i;
    while k < t.len() && !space(t[k])
        invariant
            i <= k <= t.len(),
            word_end(t@, i as int) == word_end(t@, k as int),
            i < t.len() && !is_space(t@[i as int]) && k == i ==> !is_space(t@[k as int]),
        decreases t.len() - k,
    {
        k += 1;
    }
    k
}

fn push_spaces(out: &mut String, n: usize)
    ensures
        final(out)@ == old(out)@ + spaces(n as int),
{
    let ghost base = out@;
    let mut k: usize = 0;
    assert(base + spaces(0) =~= base);
    while k < n
        invariant
            k <= n,
            out@ == base + spaces(k as int),
        decreases n - k,
    {
        out.push(' ');
        assert(spaces(k + 1) =~= spaces(k as int).push(' '));
        assert(out@ =~= base + spaces(k + 1));
        k += 1;
    }
}

fn push_chars(out: &mut String, t: &Vec<char>, from: usize, to: usize)
    requires
        from <= to <= t.len(),
    ensures
        final(out)@ == old(out)@ + t@.subrange(from as int, to as int),
{
    let s = text_of(t, from, to);
    out.append(s.as_str());
}

/// Write `text` after a label that ends before column `start_col`: lines
/// after the first begin at `start_col`, and none passes `wrap` unless a
/// single word does. A `wrap` of zero means no wrapping.
pub fn wrap_after(out: &mut String, text: &str, start_col: usize, wrap: usize)
    ensures
        final(out)@ == old(out)@ + wrapped(text@, start_col as int, wrap as int),
{
    let t = chars_of(text);
    if t.len() == 0 {
        out.append("\n");
        return ;
    }
    if wrap == 0 {
        out.append(text);
        out.append("\n");
        assert(final(out)@ =~= old(out)@ + (text@ + "\n"@));
        return ;
    }
    let ghost base = out@;
    let ghost all = wrap_from(t@, 0, start_col as int, true, start_col as int, wrap as int);
    let mut i: usize = 0;
    let mut col: u128 = start_col as u128;
    let mut first = true;
    loop
        invariant
            i <= t.len(),
            t@ == text@,
            start_col <= col <= start_col + 2 * i,
            base + all =~= out@ + wrap_from(
                t@,
                i as int,
                col as int,
                first,
                start_col as int,
                wrap as int,
            ),
        ensures
            out@ =~= base + all,
        decreases t.len() - i,
    {
        let b = find_word(&t, i);
        if b >= t.len() {
            break ;
        }
        let e = find_word_end(&t, b);
        assert(b < e <= t.len());
        let wlen: u128 = (e - b) as u128;
        let add: u128 = if first {
            0
        } else {
            1
        };
        let ghost before = out@;
        let ghost rest = wrap_from(
            t@,
            i as int,
            col as int,
            first,
            start_col as int,
            wrap as int,
        );
        if col + add + wlen > wrap as u128 && col > start_col as u128 {
            out.append("\n");
            push_spaces(out, start_col);
            col = start_col as u128;
            first = true;
        }
        if !first {
            out.append(" ");
            col += 1;
        }
        push_chars(out, &t, b, e);
        col += wlen;
        first = false;
        i = e;
        assert(before + rest =~= out@ + wrap_from(
            t@,
            i as int,
            col as int,
            first,
            start_col as int,
            wrap as int,
        ));
    }
    out.append("\n");
    assert(final(out)@ =~= old(out)@ + (all + "\n"@));
}

// ---------------------------------------------------------------------
// Usage
// ---------------------------------------------------------------------
/// The commands of the path after the program's name, each after a space.
pub open spec fn usage_commands(on: bool, path: Seq<Seq<char>>, n: int) -> Seq<char>
    decreases n,
{
    if n <= 1 {
        Seq::empty()
    } else {
        usage_commands(on, path, n - 1) + " "@ + command_text(on, path[n - 1])
    }
}

/// Whether a positional must be given, as the usage line shows it.
pub open spec fn slot_required(card: PosCardinality) -> bool {
    match card {
        PosCardinality::One { required } => required,
        PosCardinality::Many => false,
        PosCardinality::Range { min, max } => min > 0,
    }
}

/// Whether a positional may repeat, as the usage line shows it.
pub open spec fn slot_repeats(card: PosCardinality) -> bool {
    match card {
        PosCardinality::One { required } => false,
        PosCardinality::Many => true,
        PosCardinality::Range { min, max } => max > 1,
    }
}

/// A positional in the usage line: `<NAME>` if it must be given, `[NAME]`
/// if not, with `...` after the name if it may repeat.
pub open spec fn usage_slot(on: bool, p: PosView) -> Seq<char> {
    let token = if slot_repeats(p.card) {
        p.name + "..."@
    } else {
        p.name
    };
    " "@ + positional_text(
        on,
        if slot_required(p.card) {
            "<"@ + token + ">"@
        } else {
            "["@ + token + "]"@
        },
    )
}

/// The first `n` positionals in the usage line.
pub open spec fn usage_slots(on: bool, pos: Seq<PosView>, n: int) -> Seq<char>
    decreases n,
{
    if n <= 0 {
        Seq::empty()
    } else {
        usage_slots(on, pos, n - 1) + usage_slot(on, pos[n - 1])
    }
}

/// The head of the usage block: its title, and the program's name at the
/// start of the usage line.
pub open spec fn usage_head(on: bool, path: Seq<Seq<char>>) -> Seq<char> {
    title_text(on, "Usage"@) + "\n"@ + "  "@ + program_text(
        on,
        if path.len() > 0 {
            path[0]
        } else {
            Seq::empty()
        },
    )
}

/// The marks for options and subcommands in the usage line.
pub open spec fn usage_marks(on: bool, at_root: bool, cmd: CmdView) -> Seq<char> {
    (if cmd.opts.len() > 0 || at_root {
        " "@ + option_text(on, "[options]"@)
    } else {
        Seq::empty()
    }) + (if cmd.subs.len() > 0 {
        " "@ + command_text(on, "<command>"@)
    } else {
        Seq::empty()
    })
}

/// The usage block: its title, then the program, the commands of the path,
/// `[options]`, `<command>` and the positionals on one line, then an empty
/// line.
pub open spec fn usage_text(on: bool, path: Seq<Seq<char>>, cmd: CmdView) -> Seq<char> {
    usage_head(on, path) + usage_commands(on, path, path.len() as int) + usage_marks(
        on,
        path.len() <= 1,
        cmd,
    ) + usage_slots(on, cmd.positionals, cmd.positionals.len() as int) + "\n"@ + "\n"@
}

fn push_usage_head(out: &mut String, on: bool, path: &[&str])
    ensures
        final(out)@ == old(out)@ + usage_head(on, slice_texts(path@)),
{
    let ghost sp = slice_texts(path@);
    let title = paint_title(on, "Usage");
    out.append(title.as_str());
    out.append("\n");
    out.append("  ");
    let bin = if path.len() > 0 {
        assert(sp[0] == path@[0]@);
        paint_program(on, path[0])
    } else {
        let none = String::new();
        paint_program(on, none.as_str())
    };
    out.append(bin.as_str());
    assert(final(out)@ =~= old(out)@ + usage_head(on, sp));
}

fn push_usage_commands(out: &mut String, on: bool, path: &[&str])
    ensures
        final(out)@ == old(out)@ + usage_commands(
            on,
            slice_texts(path@),
            slice_texts(path@).len() as int,
        ),
{
    let ghost head = out@;
    let ghost sp = slice_texts(path@);
    let mut i: usize = 1;
    assert(head + usage_commands(on, sp, 1) =~= head);
    while i < path.len()
        invariant
            1 <= i,
            i <= path.len() || i == 1,
            sp == slice_texts(path@),
            out@ == head + usage_commands(on, sp, i as int),
        decreases path.len() - i,
    {
        let c = paint_command(on, path[i]);
        out.append(" ");
        out.append(c.as_str());
        assert(out@ =~= head + usage_commands(on, sp, i + 1));
        i += 1;
    }
    assert(sp.len() == path@.len());
    assert(usage_commands(on, sp, i as int) == usage_commands(on, sp, sp.len() as int));
}

fn push_usage_marks<'a, Ctx>(out: &mut String, on: bool, at_root: bool, cmd: &CmdSpec<'a, Ctx>)
    ensures
        final(out)@ == old(out)@ + usage_marks(on, at_root, cmd@),
{
    if cmd.get_opts().len() > 0 || at_root {
        let o = paint_option(on, "[options]");
        out.append(" ");
        out.append(o.as_str());
    }
    if cmd.get_subcommands().len() > 0 {
        let c = paint_command(on, "<command>");
        out.append(" ");
        out.append(c.as_str());
    }
    assert(final(out)@ =~= old(out)@ + usage_marks(on, at_root, cmd@));
}

fn usage_slot_of<'a, Ctx>(on: bool, p: &PosSpec<'a, Ctx>) -> (r: String)
    ensures
        r@ == usage_slot(on, p@),
{
    let (req, ellip) = match p.get_cardinality() {
        PosCardinality::One { required } => (required, false),
        PosCardinality::Many => (false, true),
        PosCardinality::Range { min, max } => (min > 0, max > 1),
    };
    let mut token = owned(
        if req {
            "<"
        } else {
            "["
        },
    );
    token.append(p.get_name());
    if ellip {
        token.append("...");
    }
    token.append(
        if req {
            ">"
        } else {
            "]"
        },
    );
    proof {
        let name = p@.name;
        let tk = if slot_repeats(p@.card) {
            name + "..."@
        } else {
            name
        };
        if req {
            assert(token@ =~= "<"@ + tk + ">"@);
        } else {
            assert(token@ =~= "["@ + tk + "]"@);
        }
    }
    let painted = paint_positional(on, token.as_str());
    let mut r = owned(" ");
    r.append(painted.as_str());
    r
}

fn push_usage_slots<'a, Ctx>(out: &mut String, on: bool, cmd: &CmdSpec<'a, Ctx>)
    ensures
        final(out)@ == old(out)@ + usage_slots(
            on,
            cmd@.positionals,
            cmd@.positionals.len() as int,
        ),
{
    let ghost mid = out@;
    let pos = cmd.get_positionals();
    let ghost pv = cmd@.positionals;
    let mut j: usize = 0;
    assert(mid + usage_slots(on, pv, 0) =~= mid);
    while j < pos.len()
        invariant
            j <= pos.len(),
            pv == pos_views(pos@),
            out@ == mid + usage_slots(on, pv, j as int),
        decreases pos.len() - j,
    {
        let p = &pos[j];
        assert(p@ == pv[j as int]);
        let slot = usage_slot_of(on, p);
        out.append(slot.as_str());
        assert(out@ =~= mid + usage_slots(on, pv, j + 1));
        j += 1;
    }
}

fn print_usage<'a, Ctx>(out: &mut String, on: bool, path: &[&str], cmd: &CmdSpec<'a, Ctx>)
    ensures
        final(out)@ == old(out)@ + usage_text(on, slice_texts(path@), cmd@),
{
    let ghost sp = slice_texts(path@);
    assert(sp.len() == path@.len());
    push_usage_head(out, on, path);
    push_usage_commands(out, on, path);
    push_usage_marks(out, on, path.len() <= 1, cmd);
    push_usage_slots(out, on, cmd);
    out.append("\n");
    out.append("\n");
    assert(final(out)@ =~= old(out)@ + usage_text(on, sp, cmd@));
}

// ---------------------------------------------------------------------
// Rows and tables
// ---------------------------------------------------------------------
/// One row of a section: a label, plain and as it is shown, and a
/// description.
pub struct RowView {
    pub plain: Seq<char>,
    pub painted: Seq<char>,
    pub desc: Seq<char>,
}

struct Row {
    plain: String,
    painted: String,
    desc: String,
}

impl View for Row {
    type V = RowView;

    closed spec fn view(&self) -> RowView {
        RowView { plain: self.plain@, painted: self.painted@, desc: self.desc@ }
    }
}

spec fn row_views(rows: Seq<Row>) -> Seq<RowView> {
    Seq::new(rows.len(), |i: int| rows[i]@)
}

/// The label of an option: its short form, its long form and its metavar.
pub open spec fn option_label(on: bool, o: OptView) -> Seq<char> {
    let s = match o.short {
        Some(c) => option_text(on, "-"@.push(c)),
        None => Seq::empty(),
    };
    let l = match o.long {
        Some(l) => option_text(on, "--"@ + l),
        None => Seq::empty(),
    };
    let both = if o.short is Some && o.long is Some {
        s + ", "@ + l
    } else {
        s + l
    };
    match o.metavar {
        Some(mv) => both + " "@ + metavar_text(on, mv),
        None => both,
    }
}

/// The description of an option: its help, the variable it reads and its
/// default, with `; ` between those that are there.
pub open spec fn option_desc(o: OptView) -> Seq<char> {
    let a = match o.help {
        Some(h) => h,
        None => Seq::empty(),
    };
    let b = match o.env {
        Some(e) => (if o.help is Some {
            a + "; "@
        } else {
            a
        }) + "Env: "@ + e,
        None => a,
    };
    match o.default {
        Some(d) => (if o.help is Some || o.env is Some {
            b + "; "@
        } else {
            b
        }) + "Default: \""@ + d.lossy() + "\""@,
        None => b,
    }
}

/// The row of an option.
pub open spec fn option_row(on: bool, o: OptView) -> RowView {
    RowView { plain: option_label(false, o), painted: option_label(on, o), desc: option_desc(o) }
}

/// The row of a built-in.
pub open spec fn builtin_row(on: bool, short: Seq<char>, long: Seq<char>, desc: Seq<char>) -> RowView {
    RowView {
        plain: short + ", "@ + long,
        painted: option_text(on, short) + ", "@ + option_text(on, long),
        desc,
    }
}

/// The rows of the built-ins that are recognised here.
pub open spec fn builtin_rows(env: Env, at_root: bool) -> Seq<RowView> {
    let on = colored(env);
    (if env.auto_help {
        seq![builtin_row(on, "-h"@, "--help"@, "Show this help and exit"@)]
    } else {
        Seq::empty()
    }) + (if at_root && env.version is Some {
        seq![builtin_row(on, "-V"@, "--version"@, "Show version and exit"@)]
    } else {
        Seq::empty()
    }) + (if at_root && env.author is Some {
        seq![builtin_row(on, "-A"@, "--author"@, "Show author and exit"@)]
    } else {
        Seq::empty()
    })
}

/// The rows of the first `n` options.
pub open spec fn option_rows(on: bool, opts: Seq<OptView>, n: int) -> Seq<RowView>
    decreases n,
{
    if n <= 0 {
        Seq::empty()
    } else {
        option_rows(on, opts, n - 1).push(option_row(on, opts[n - 1]))
    }
}

/// The rows of the first `n` positionals.
pub open spec fn positional_rows(on: bool, pos: Seq<PosView>, n: int) -> Seq<RowView>
    decreases n,
{
    if n <= 0 {
        Seq::empty()
    } else {
        positional_rows(on, pos, n - 1).push(
            RowView {
                plain: pos[n - 1].name,
                painted: positional_text(on, pos[n - 1].name),
                desc: match pos[n - 1].help {
                    Some(h) => h,
                    None => Seq::empty(),
                },
            },
        )
    }
}

/// The label of a command: its name and the first `n` of its aliases.
pub open spec fn command_label(on: bool, c: CmdView, n: int) -> Seq<char>
    decreases n,
{
    if n <= 0 {
        command_text(on, c.name)
    } else {
        command_label(on, c, n - 1) + ", "@ + command_text(on, c.aliases[n - 1])
    }
}

/// The rows of the first `n` commands.
pub open spec fn command_rows(on: bool, subs: Seq<CmdView>, n: int) -> Seq<RowView>
    decreases n,
{
    if n <= 0 {
        Seq::empty()
    } else {
        command_rows(on, subs, n - 1).push(
            RowView {
                plain: command_label(false, subs[n - 1], subs[n - 1].aliases.len() as int),
                painted: command_label(on, subs[n - 1], subs[n - 1].aliases.len() as int),
                desc: match subs[n - 1].help {
                    Some(h) => h,
                    None => Seq::empty(),
                },
            },
        )
    }
}

/// The length of the longest plain label among the first `n` rows.
pub open spec fn widest(rows: Seq<RowView>, n: int) -> nat
    decreases n,
{
    if n <= 0 {
        0
    } else if rows[n - 1].plain.len() > widest(rows, n - 1) {
        rows[n - 1].plain.len()
    } else {
        widest(rows, n - 1)
    }
}

/// The column at which descriptions begin: two spaces, the widest label,
/// two spaces; no further than the largest `usize`.
pub open spec fn desc_column(width: nat) -> int {
    if width + 4 <= usize::MAX {
        (width + 4) as int
    } else {
        usize::MAX as int
    }
}

/// One row of a table: the label, filled up to `width`, then the
/// description, wrapped.
pub open spec fn table_row(r: RowView, width: nat, wrap: int) -> Seq<char> {
    "  "@ + r.painted + spaces(width - r.plain.len()) + "  "@ + wrapped(
        r.desc,
        desc_column(width),
        wrap,
    )
}

/// The first `n` rows of a table.
pub open spec fn table(rows: Seq<RowView>, width: nat, wrap: int, n: int) -> Seq<char>
    decreases n,
{
    if n <= 0 {
        Seq::empty()
    } else {
        table(rows, width, wrap, n - 1) + table_row(rows[n - 1], width, wrap)
    }
}

/// A whole table, its labels filled up to the widest of them.
pub open spec fn whole_table(rows: Seq<RowView>, wrap: int) -> Seq<char> {
    table(rows, widest(rows, rows.len() as int), wrap, rows.len() as int)
}

proof fn lemma_widest_bounds(rows: Seq<RowView>, n: int, k: int)
    requires
        0 <= k < n <= rows.len(),
    ensures
        rows[k].plain.len() <= widest(rows, n),
    decreases n,
{
    if k < n - 1 {
        lemma_widest_bounds(rows, n - 1, k);
    }
}

fn render_table(out: &mut String, rows: &Vec<Row>, wrap: usize)
    ensures
        final(out)@ == old(out)@ + whole_table(row_views(rows@), wrap as int),
{
    let ghost base = out@;
    let ghost rv = row_views(rows@);
    let mut width: usize = 0;
    let mut lens: Vec<usize> = Vec::new();
    let mut i: usize = 0;
    while i < rows.len()
        invariant
            i <= rows.len(),
            rv == row_views(rows@),
            lens@.len() == i,
            forall|k: int| 0 <= k < i ==> #[trigger] lens@[k] == rv[k].plain.len(),
            width == widest(rv, i as int),
        decreases rows.len() - i,
    {
        let n = rows[i].plain.as_str().unicode_len();
        assert(n == rv[i as int].plain.len());
        if n > width {
            width = n;
        }
        lens.push(n);
        i += 1;
    }
    let start_col: usize = if width <= usize::MAX - 4 {
        width + 4
    } else {
        usize::MAX
    };
    let mut j: usize = 0;
    assert(base + table(rv, width as nat, wrap as int, 0) =~= base);
    while j < rows.len()
        invariant
            j <= rows.len(),
            rv == row_views(rows@),
            lens@.len() == rows@.len(),
            forall|k: int| 0 <= k < rows@.len() ==> #[trigger] lens@[k] == rv[k].plain.len(),
            width == widest(rv, rows@.len() as int),
            start_col == desc_column(width as nat),
            out@ == base + table(rv, width as nat, wrap as int, j as int),
        decreases rows.len() - j,
    {
        let ghost before = out@;
        proof {
            lemma_widest_bounds(rv, rows@.len() as int, j as int);
        }
        out.append("  ");
        out.append(rows[j].painted.as_str());
        push_spaces(out, width - lens[j]);
        out.append("  ");
        wrap_after(out, rows[j].desc.as_str(), start_col, wrap);
        assert(out@ =~= before + table_row(rv[j as int], width as nat, wrap as int));
        assert(out@ =~= base + table(rv, width as nat, wrap as int, j + 1));
        j += 1;
    }
}

fn builtin(on: bool, short: &str, long: &str, desc: &str) -> (r: Row)
    ensures
        r@ == builtin_row(on, short@, long@, desc@),
{
    let mut plain = owned(short);
    plain.append(", ");
    plain.append(long);
    let mut painted = paint_option(on, short);
    painted.append(", ");
    let l = paint_option(on, long);
    painted.append(l.as_str());
    Row { plain, painted, desc: owned(desc) }
}

fn label_of<'a, Ctx>(on: bool, o: &OptSpec<'a, Ctx>) -> (r: String)
    ensures
        r@ == option_label(on, o@),
{
    let mut r = String::new();
    if let Some(c) = o.get_short() {
        let mut s = owned("-");
        s.push(c);
        let p = paint_option(on, s.as_str());
        r.append(p.as_str());
    }
    if let Some(l) = o.get_long() {
        if o.get_short().is_some() {
            r.append(", ");
        }
        let mut s = owned("--");
        s.append(l);
        let p = paint_option(on, s.as_str());
        r.append(p.as_str());
    }
    if let Some(mv) = o.get_metavar() {
        let p = paint_metavar(on, mv);
        r.append(" ");
        r.append(p.as_str());
    }
    assert(r@ =~= option_label(on, o@));
    r
}

fn desc_of<'a, Ctx>(o: &OptSpec<'a, Ctx>) -> (r: String)
    ensures
        r@ == option_desc(o@),
{
    let mut r = String::new();
    if let Some(h) = o.get_help() {
        r.append(h);
    }
    if let Some(e) = o.get_env() {
        if o.get_help().is_some() {
            r.append("; ");
        }
        r.append("Env: ");
        r.append(e);
    }
    if let Some(d) = o.get_default() {
        if o.get_help().is_some() || o.get_env().is_some() {
            r.append("; ");
        }
        r.append("Default: \"");
        let shown = d.lossy();
        r.append(shown.as_str());
        r.append("\"");
    }
    assert(r@ =~= option_desc(o@));
    r
}

fn command_label_of<'a, Ctx>(on: bool, c: &CmdSpec<'a, Ctx>) -> (r: String)
    ensures
        r@ == command_label(on, c@, c@.aliases.len() as int),
{
    let mut r = paint_command(on, c.get_name());
    let aliases = c.get_aliases();
    let mut i: usize = 0;
    while i < aliases.len()
        invariant
            i <= aliases.len(),
            slice_texts(aliases@) == c@.aliases,
            r@ == command_label(on, c@, i as int),
        decreases aliases.len() - i,
    {
        let a = paint_command(on, aliases[i]);
        assert(aliases@[i as int]@ == c@.aliases[i as int]);
        r.append(", ");
        r.append(a.as_str());
        i += 1;
    }
    r
}

// ---------------------------------------------------------------------
// The whole help
// ---------------------------------------------------------------------
/// The rows of the options section: built-ins first, then the options.
pub open spec fn options_rows(env: Env, path: Seq<Seq<char>>, cmd: CmdView) -> Seq<RowView> {
    builtin_rows(env, path.len() <= 1) + option_rows(
        colored(env),
        cmd.opts,
        cmd.opts.len() as int,
    )
}

/// A section: its title and its table; nothing where it has no rows.
pub open spec fn section(env: Env, title: Seq<char>, rows: Seq<RowView>, gap: bool) -> Seq<char> {
    if rows.len() == 0 {
        Seq::empty()
    } else {
        (if gap {
            "\n"@
        } else {
            Seq::empty()
        }) + section_text(colored(env), title) + "\n"@ + whole_table(rows, env.wrap_cols as int)
    }
}

/// The help text of `cmd`, reached by `path` (the program's name first):
/// the command's own help, the usage block, and the sections of options,
/// arguments and commands.
pub open spec fn help_text(env: Env, path: Seq<Seq<char>>, cmd: CmdView) -> Seq<char> {
    let on = colored(env);
    (match cmd.help {
        Some(h) => h + "\n"@ + "\n"@,
        None => Seq::empty(),
    }) + usage_text(on, path, cmd) + section(env, "Options"@, options_rows(env, path, cmd), false)
        + section(
        env,
        "Arguments"@,
        positional_rows(on, cmd.positionals, cmd.positionals.len() as int),
        true,
    ) + section(env, "Commands"@, command_rows(on, cmd.subs, cmd.subs.len() as int), true)
}

fn render_section(out: &mut String, env: &Env, title: &str, rows: &Vec<Row>, gap: bool)
    ensures
        final(out)@ == old(out)@ + section(*env, title@, row_views(rows@), gap),
{
    if rows.len() == 0 {
        assert(final(out)@ =~= old(out)@ + section(*env, title@, row_views(rows@), gap));
        return ;
    }
    if gap {
        out.append("\n");
    }
    let t = paint_section(env.color == ColorMode::Always, title);
    out.append(t.as_str());
    out.append("\n");
    render_table(out, rows, env.wrap_cols);
    assert(final(out)@ =~= old(out)@ + section(*env, title@, row_views(rows@), gap));
}

/// Render the help of `cmd`, reached by `path` (the program's name first).
pub fn render_help_with_path<'a, Ctx>(env: &Env, path: &[&str], cmd: &CmdSpec<'a, Ctx>) -> (s:
    String)
    ensures
        s@ == help_text(*env, slice_texts(path@), cmd@),
{
    let on = env.color == ColorMode::Always;
    let at_root = path.len() <= 1;
    let mut out = String::new();
    if let Some(h) = cmd.get_help() {
        out.append(h);
        out.append("\n");
        out.append("\n");
    }
    print_usage(&mut out, on, path, cmd);
    let ghost head = out@;

    let mut rows: Vec<Row> = Vec::new();
    if env.auto_help {
        rows.push(builtin(on, "-h", "--help", "Show this help and exit"));
    }
    if at_root && env.version.is_some() {
        rows.push(builtin(on, "-V", "--version", "Show version and exit"));
    }
    if at_root && env.author.is_some() {
        rows.push(builtin(on, "-A", "--author", "Show author and exit"));
    }
    assert(row_views(rows@) =~= builtin_rows(*env, at_root));
    let ghost fixed = builtin_rows(*env, at_root);
    let opts = cmd.get_opts();
    let ghost ov = cmd@.opts;
    let mut i: usize = 0;
    assert(fixed + option_rows(on, ov, 0) =~= fixed);
    while i < opts.len()
        invariant
            i <= opts.len(),
            ov == opt_views(opts@),
            row_views(rows@) == fixed + option_rows(on, ov, i as int),
        decreases opts.len() - i,
    {
        let o = &opts[i];
        assert(o@ == ov[i as int]);
        let row = Row { plain: label_of(false, o), painted: label_of(on, o), desc: desc_of(o) };
        let ghost before = row_views(rows@);
        assert(row@ == option_row(on, ov[i as int]));
        let ghost rv = row@;
        rows.push(row);
        assert(row_views(rows@) =~= before.push(rv));
        assert(row_views(rows@) =~= fixed + option_rows(on, ov, i + 1));
        i += 1;
    }
    render_section(&mut out, env, "Options", &rows, false);

    let pos = cmd.get_positionals();
    let ghost pv = cmd@.positionals;
    let mut prows: Vec<Row> = Vec::new();
    let mut j: usize = 0;
    assert(row_views(prows@) =~= positional_rows(on, pv, 0));
    while j < pos.len()
        invariant
            j <= pos.len(),
            pv == pos_views(pos@),
            row_views(prows@) == positional_rows(on, pv, j as int),
        decreases pos.len() - j,
    {
        let p = &pos[j];
        assert(p@ == pv[j as int]);
        let desc = match p.get_help() {
            Some(h) => owned(h),
            None => String::new(),
        };
        let row = Row { plain: owned(p.get_name()), painted: paint_positional(on, p.get_name()), desc };
        prows.push(row);
        assert(row_views(prows@) =~= positional_rows(on, pv, j + 1));
        j += 1;
    }
    render_section(&mut out, env, "Arguments", &prows, true);

    let subs = cmd.get_subcommands();
    let ghost sv = cmd@.subs;
    let mut crows: Vec<Row> = Vec::new();
    let mut k: usize = 0;
    assert(row_views(crows@) =~= command_rows(on, sv, 0));
    while k < subs.len()
        invariant
            k <= subs.len(),
            sv == cmd_views(subs@),
            row_views(crows@) == command_rows(on, sv, k as int),
        decreases subs.len() - k,
    {
        let c = &subs[k];
        assert(c@ == sv[k as int]);
        let desc = match c.get_help() {
            Some(h) => owned(h),
            None => String::new(),
        };
        let row = Row { plain: command_label_of(false, c), painted: command_label_of(on, c), desc };
        crows.push(row);
        assert(row_views(crows@) =~= command_rows(on, sv, k + 1));
        k += 1;
    }
    render_section(&mut out, env, "Commands", &crows, true);
    assert(out@ =~= help_text(*env, slice_texts(path@), cmd@));
    out
}

/// Render the help of a command that stands alone.
pub fn render_help<'a, Ctx>(env: &Env, cmd: &CmdSpec<'a, Ctx>) -> (s: String)
    ensures
        s@ == help_text(*env, Seq::empty(), cmd@),
{
    let path: Vec<&str> = Vec::new();
    assert(slice_texts(path@) =~= Seq::empty());
    render_help_with_path(env, path.as_slice(), cmd)
}

} // verus!
