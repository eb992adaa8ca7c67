//! The result store: bound values, their provenance and flag counts, keyed
//! by command path and logical name.

use crate::dict::Dict;
use crate::schema::{Repeat, Source};
use crate::text::{owned, slice_texts, texts};
use crate::token::{token_views, Token, TokenView};
use vstd::prelude::*;
use vstd::string::*;

verus! {

/// Trusted: `core::slice::from_ref` views one value as a slice of length one,
/// without copying it.
pub assume_specification<T>[ core::slice::from_ref::<T> ](s: &T) -> (r: &[T])
    ensures
        r@ == seq![*s],
;

/// Value container stored in [`Matches`].
#[derive(Clone, Debug)]
pub enum Value {
    Flag,
    One(Token),
    Many(Vec<Token>),
}

/// The mathematical value of a [`Value`].
pub enum ValueView {
    Flag,
    One(TokenView),
    Many(Seq<TokenView>),
}

impl View for Value {
    type V = ValueView;

    open spec fn view(&self) -> ValueView {
        match self {
            Value::Flag => ValueView::Flag,
            Value::One(t) => ValueView::One(t@),
            Value::Many(v) => ValueView::Many(token_views(v@)),
        }
    }
}

/// Whether a key is set and from where.
#[derive(Clone, Copy, Debug, PartialEq, Eq, Structural)]
pub enum Status {
    Unset,
    SetBy(Source),
}

impl View for Status {
    type V = Status;

    open spec fn view(&self) -> Status {
        *self
    }
}

/// Path segments joined by dots.
pub open spec fn joined(path: Seq<Seq<char>>) -> Seq<char>
    decreases path.len(),
{
    if path.len() == 0 {
        Seq::empty()
    } else if path.len() == 1 {
        path[0]
    } else {
        joined(path.drop_last()) + "."@ + path.last()
    }
}

/// The key of an option: the command path and the name, joined by dots.
pub open spec fn key_text(path: Seq<Seq<char>>, name: Seq<char>) -> Seq<char> {
    if path.len() == 0 {
        name
    } else {
        joined(path) + "."@ + name
    }
}

/// The key of a positional: as for an option, with `@pos` before the name.
pub open spec fn pos_key_text(path: Seq<Seq<char>>, name: Seq<char>) -> Seq<char> {
    if path.len() == 0 {
        "@pos"@ + "."@ + name
    } else {
        joined(path) + "."@ + "@pos"@ + "."@ + name
    }
}

fn join_slices(path: &[&str]) -> (s: String)
    ensures
        s@ == joined(slice_texts(path@)),
{
    let ghost p = slice_texts(path@);
    let mut s = String::new();
    let mut i: usize = 0;
    assert(p.take(0).len() == 0);
    while i < path.len()
        invariant
            i <= path.len(),
            p == slice_texts(path@),
            s@ == joined(p.take(i as int)),
        decreases path.len() - i,
    {
        if i > 0 {
            s.append(".");
        }
        s.append(path[i]);
        proof {
            let q = p.take(i + 1);
            assert(q.drop_last() =~= p.take(i as int));
            assert(q.last() == path@[i as int]@);
            if i == 0 {
                assert(s@ =~= q[0]);
            }
        }
        i += 1;
    }
    assert(p.take(path.len() as int) =~= p);
    s
}

fn join_strings(path: &Vec<String>) -> (s: String)
    ensures
        s@ == joined(texts(path@)),
{
    let ghost p = texts(path@);
    let mut s = String::new();
    let mut i: usize = 0;
    assert(p.take(0).len() == 0);
    while i < path.len()
        invariant
            i <= path.len(),
            p == texts(path@),
            s@ == joined(p.take(i as int)),
        decreases path.len() - i,
    {
        if i > 0 {
            s.append(".");
        }
        s.append(path[i].as_str());
        proof {
            let q = p.take(i + 1);
            assert(q.drop_last() =~= p.take(i as int));
            assert(q.last() == path@[i as int]@);
            if i == 0 {
                assert(s@ =~= q[0]);
            }
        }
        i += 1;
    }
    assert(p.take(path.len() as int) =~= p);
    s
}

/// Join a command path and logical name into the key of an option.
pub fn key_for(path: &[&str], name: &str) -> (k: String)
    ensures
        k@ == key_text(slice_texts(path@), name@),
{
    if path.len() == 0 {
        owned(name)
    } else {
        let mut s = join_slices(path);
        s.append(".");
        s.append(name);
        s
    }
}

/// Join a command path and positional name into the key of a positional.
pub fn pos_key_for(path: &[&str], name: &str) -> (k: String)
    ensures
        k@ == pos_key_text(slice_texts(path@), name@),
{
    if path.len() == 0 {
        let mut s = owned("@pos");
        s.append(".");
        s.append(name);
        s
    } else {
        let mut s = join_slices(path);
        s.append(".");
        s.append("@pos");
        s.append(".");
        s.append(name);
        s
    }
}

/// [`key_for`] on an owned path.
pub fn key_for_strings(path: &Vec<String>, name: &str) -> (k: String)
    ensures
        k@ == key_text(texts(path@), name@),
{
    if path.len() == 0 {
        owned(name)
    } else {
        let mut s = join_strings(path);
        s.append(".");
        s.append(name);
        s
    }
}

/// [`pos_key_for`] on an owned path.
pub fn pos_key_for_strings(path: &Vec<String>, name: &str) -> (k: String)
    ensures
        k@ == pos_key_text(texts(path@), name@),
{
    if path.len() == 0 {
        let mut s = owned("@pos");
        s.append(".");
        s.append(name);
        s
    } else {
        let mut s = join_strings(path);
        s.append(".");
        s.append("@pos");
        s.append(".");
        s.append(name);
        s
    }
}

/// The first value that a stored value holds.
pub open spec fn first_value(v: ValueView) -> Option<TokenView> {
    match v {
        ValueView::Flag => None,
        ValueView::One(t) => Some(t),
        ValueView::Many(vs) => if vs.len() > 0 {
            Some(vs[0])
        } else {
            None
        },
    }
}

/// All the values that a stored value holds, a single one as a list of one.
pub open spec fn all_values(v: ValueView) -> Option<Seq<TokenView>> {
    match v {
        ValueView::Flag => None,
        ValueView::One(t) => Some(seq![t]),
        ValueView::Many(vs) => Some(vs),
    }
}

/// A flag count after one more occurrence; it stops at the largest `usize`.
pub open spec fn bumped(c: usize) -> usize {
    if c < usize::MAX {
        (c + 1) as usize
    } else {
        c
    }
}

/// The mathematical value of a [`Matches`].
pub struct MatchesView {
    pub values: Map<Seq<char>, ValueView>,
    pub status: Map<Seq<char>, Status>,
    pub flag_counts: Map<Seq<char>, usize>,
    pub leaf_path: Seq<Seq<char>>,
}

impl MatchesView {
    /// The store before anything is bound.
    pub open spec fn empty() -> MatchesView {
        MatchesView {
            values: Map::empty(),
            status: Map::empty(),
            flag_counts: Map::empty(),
            leaf_path: Seq::empty(),
        }
    }

    /// Whether `key` is bound, from any source.
    pub open spec fn is_set(self, key: Seq<char>) -> bool {
        self.status.contains_key(key)
    }

    /// Whether `key` is bound from `src`.
    pub open spec fn is_set_from(self, key: Seq<char>, src: Source) -> bool {
        self.status.contains_key(key) && self.status[key] == Status::SetBy(src)
    }

    /// How often the flag at `key` occurred.
    pub open spec fn count_at(self, key: Seq<char>) -> usize {
        if self.flag_counts.contains_key(key) {
            self.flag_counts[key]
        } else {
            0
        }
    }

    /// The first value at `key`.
    pub open spec fn value_at(self, key: Seq<char>) -> Option<TokenView> {
        if self.values.contains_key(key) {
            first_value(self.values[key])
        } else {
            None
        }
    }

    /// All values at `key`.
    pub open spec fn values_at(self, key: Seq<char>) -> Option<Seq<TokenView>> {
        if self.values.contains_key(key) {
            all_values(self.values[key])
        } else {
            None
        }
    }

    /// One occurrence of a flag from `src`. Occurrences from the same source
    /// are counted; a first occurrence from another source starts at one.
    pub open spec fn with_flag(self, key: Seq<char>, src: Source) -> MatchesView {
        let n: usize = if self.is_set_from(key, src) && self.flag_counts.contains_key(key) {
            bumped(self.flag_counts[key])
        } else {
            1
        };
        MatchesView {
            values: self.values.insert(key, ValueView::Flag),
            status: self.status.insert(key, Status::SetBy(src)),
            flag_counts: self.flag_counts.insert(key, n),
            leaf_path: self.leaf_path,
        }
    }

    /// A value given on the command line. `Single` keeps the last value;
    /// `Many` accumulates the values given on the command line, and drops
    /// what another source had bound before.
    pub open spec fn with_value(self, key: Seq<char>, v: TokenView, rep: Repeat) -> MatchesView {
        let stored = match rep {
            Repeat::Single => ValueView::One(v),
            Repeat::Many => if self.is_set_from(key, Source::Cli) && self.values.contains_key(key) {
                match self.values[key] {
                    ValueView::Many(vs) => ValueView::Many(vs.push(v)),
                    _ => ValueView::Many(seq![v]),
                }
            } else {
                ValueView::Many(seq![v])
            },
        };
        MatchesView {
            values: self.values.insert(key, stored),
            status: self.status.insert(key, Status::SetBy(Source::Cli)),
            flag_counts: self.flag_counts,
            leaf_path: self.leaf_path,
        }
    }

    /// A single value bound from `src`.
    pub open spec fn with_bound(self, key: Seq<char>, v: TokenView, src: Source) -> MatchesView {
        MatchesView {
            values: self.values.insert(key, ValueView::One(v)),
            status: self.status.insert(key, Status::SetBy(src)),
            flag_counts: self.flag_counts,
            leaf_path: self.leaf_path,
        }
    }

    /// One more value for a positional: the first is stored alone, later
    /// ones make a list.
    pub open spec fn with_positional(self, key: Seq<char>, v: TokenView) -> MatchesView {
        let stored = if self.values.contains_key(key) {
            match self.values[key] {
                ValueView::Many(vs) => ValueView::Many(vs.push(v)),
                ValueView::One(s) => ValueView::Many(seq![s, v]),
                ValueView::Flag => ValueView::One(v),
            }
        } else {
            ValueView::One(v)
        };
        MatchesView {
            values: self.values.insert(key, stored),
            status: self.status.insert(key, Status::SetBy(Source::Cli)),
            flag_counts: self.flag_counts,
            leaf_path: self.leaf_path,
        }
    }

    /// The same store with the leaf path recorded.
    pub open spec fn with_leaf(self, path: Seq<Seq<char>>) -> MatchesView {
        MatchesView { leaf_path: path, ..self }
    }
}

/// What an optional token reference stands for.
pub open spec fn opt_token(r: Option<&Token>) -> Option<TokenView> {
    match r {
        Some(t) => Some(t@),
        None => None,
    }
}

/// What an optional slice of tokens stands for.
pub open spec fn opt_tokens(r: Option<&[Token]>) -> Option<Seq<TokenView>> {
    match r {
        Some(s) => Some(token_views(s@)),
        None => None,
    }
}

/// All parsed values and their sources, keyed by flattened strings, with the
/// path of the selected command.
#[derive(Debug)]
pub struct Matches {
    values: Dict<Value>,
    status: Dict<Status>,
    flag_counts: Dict<usize>,
    leaf_path: Vec<String>,
}

impl Matches {
    /// The mathematical value of this store.
    pub closed spec fn model(&self) -> MatchesView {
        MatchesView {
            values: self.values@,
            status: self.status@,
            flag_counts: self.flag_counts@,
            leaf_path: texts(self.leaf_path@),
        }
    }

    /// The value itself that is stored at `key`, if any. The model holds
    /// its view.
    pub closed spec fn held(&self, key: Seq<char>) -> Option<Value> {
        if self.values.raw().contains_key(key) {
            Some(self.values.raw()[key])
        } else {
            None
        }
    }

    /// The value that is held at a key is the value whose view the model
    /// holds there; where nothing is held the model holds nothing.
    pub proof fn law_held_is_modelled(&self, key: Seq<char>)
        ensures
            match self.held(key) {
                Some(v) => self.model().values.contains_key(key) && self.model().values[key]
                    == v@,
                None => !self.model().values.contains_key(key),
            },
    {
        self.values.law_view_of_raw(key);
    }

    /// An empty store.
    pub(crate) fn new() -> (m: Self)
        ensures
            m.model() == MatchesView::empty(),
    {
        let m = Matches {
            values: Dict::new(),
            status: Dict::new(),
            flag_counts: Dict::new(),
            leaf_path: Vec::new(),
        };
        assert(texts(m.leaf_path@) =~= Seq::empty());
        m
    }

    /// Record the path of the selected command.
    pub(crate) fn set_leaf_path(&mut self, path: &[&str])
        ensures
            final(self).model() == old(self).model().with_leaf(slice_texts(path@)),
    {
        let mut copy: Vec<String> = Vec::new();
        let mut i: usize = 0;
        while i < path.len()
            invariant
                i <= path.len(),
                copy@.len() == i,
                forall|k: int| 0 <= k < i ==> (#[trigger] copy@[k])@ == path@[k]@,
            decreases path.len() - i,
        {
            copy.push(owned(path[i]));
            i += 1;
        }
        assert(texts(copy@) =~= slice_texts(path@));
        self.leaf_path = copy;
    }

    /// Record one occurrence of the flag at `key`.
    pub(crate) fn set_flag(&mut self, key: &str, src: Source)
        ensures
            final(self).model() == old(self).model().with_flag(key@, src),
    {
        let same_source = match self.status.get(key) {
            Some(st) => match st {
                Status::SetBy(s) => *s == src,
                Status::Unset => false,
            },
            None => false,
        };
        let n: usize = if same_source {
            match self.flag_counts.get(key) {
                Some(c) => if *c < usize::MAX {
                    *c + 1
                } else {
                    *c
                },
                None => 1,
            }
        } else {
            1
        };
        self.flag_counts.put(key, n);
        self.values.put(key, Value::Flag);
        self.status.put(key, Status::SetBy(src));
    }

    /// Record a value given on the command line for the option at `key`.
    pub(crate) fn set_val(&mut self, key: &str, val: Token, rep: Repeat)
        ensures
            final(self).model() == old(self).model().with_value(key@, val@, rep),
    {
        let ghost before = self.model();
        match rep {
            Repeat::Single => {
                self.values.put(key, Value::One(val));
            },
            Repeat::Many => {
                let from_cli = match self.status.get(key) {
                    Some(st) => match st {
                        Status::SetBy(s) => *s == Source::Cli,
                        Status::Unset => false,
                    },
                    None => false,
                };
                let ghost v = val@;
                let prev = if from_cli {
                    self.values.put(key, Value::Flag)
                } else {
                    None
                };
                let next = match prev {
                    Some(Value::Many(vs)) => {
                        let mut vs = vs;
                        let ghost old_vs = vs@;
                        vs.push(val);
                        assert(token_views(vs@) =~= token_views(old_vs).push(v));
                        Value::Many(vs)
                    },
                    _ => {
                        let mut vs: Vec<Token> = Vec::new();
                        vs.push(val);
                        assert(token_views(vs@) =~= seq![v]);
                        Value::Many(vs)
                    },
                };
                self.values.put(key, next);
                assert(self.values@ =~= before.with_value(key@, v, rep).values);
            },
        }
        self.status.put(key, Status::SetBy(Source::Cli));
    }

    /// Bind a single value from `src` at `key`.
    pub(crate) fn bind(&mut self, key: &str, val: Token, src: Source)
        ensures
            final(self).model() == old(self).model().with_bound(key@, val@, src),
    {
        self.values.put(key, Value::One(val));
        self.status.put(key, Status::SetBy(src));
    }

    /// Record one more value for the positional at `key`.
    pub(crate) fn push_pos(&mut self, key: &str, val: Token)
        ensures
            final(self).model() == old(self).model().with_positional(key@, val@),
    {
        let ghost before = self.model();
        let ghost v = val@;
        let prev = self.values.put(key, Value::Flag);
        let next = match prev {
            Some(Value::Many(vs)) => {
                let mut vs = vs;
                let ghost old_vs = vs@;
                vs.push(val);
                assert(token_views(vs@) =~= token_views(old_vs).push(v));
                Value::Many(vs)
            },
            Some(Value::One(s)) => {
                let ghost sv = s@;
                let mut vs: Vec<Token> = Vec::new();
                vs.push(s);
                vs.push(val);
                assert(token_views(vs@) =~= seq![sv, v]);
                Value::Many(vs)
            },
            _ => Value::One(val),
        };
        self.values.put(key, next);
        assert(self.values@ =~= before.with_positional(key@, v).values);
        self.status.put(key, Status::SetBy(Source::Cli));
    }

    /// Whether `key` is bound.
    pub fn has(&self, key: &str) -> (r: bool)
        ensures
            r == self.model().is_set(key@),
    {
        self.status.contains(key)
    }

    /// Whether `key` is bound from `src`.
    pub fn has_from(&self, key: &str, src: Source) -> (r: bool)
        ensures
            r == self.model().is_set_from(key@, src),
    {
        match self.status.get(key) {
            Some(st) => match st {
                Status::SetBy(s) => *s == src,
                Status::Unset => false,
            },
            None => false,
        }
    }

    /// How often the flag at `key` occurred.
    pub fn count(&self, key: &str) -> (r: usize)
        ensures
            r == self.model().count_at(key@),
    {
        match self.flag_counts.get(key) {
            Some(c) => *c,
            None => 0,
        }
    }

    /// The stored value at `key`.
    pub fn stored(&self, key: &str) -> (r: Option<&Value>)
        ensures
            match r {
                Some(v) => self.model().values.contains_key(key@) && self.model().values[key@]
                    == v@,
                None => !self.model().values.contains_key(key@),
            },
            match r {
                Some(v) => self.held(key@) == Some(*v),
                None => self.held(key@) is None,
            },
    {
        self.values.get(key)
    }

    /// The first value at `key`.
    pub fn first_at(&self, key: &str) -> (r: Option<&Token>)
        ensures
            opt_token(r) == self.model().value_at(key@),
    {
        match self.values.get(key) {
            Some(Value::One(v)) => Some(v),
            Some(Value::Many(vs)) => {
                if vs.len() > 0 {
                    Some(&vs[0])
                } else {
                    None
                }
            },
            _ => None,
        }
    }

    /// All values at `key`.
    pub fn all_at(&self, key: &str) -> (r: Option<&[Token]>)
        ensures
            opt_tokens(r) == self.model().values_at(key@),
    {
        match self.values.get(key) {
            Some(Value::Many(vs)) => Some(vs.as_slice()),
            Some(Value::One(v)) => {
                let s = core::slice::from_ref(v);
                assert(token_views(s@) =~= seq![v@]);
                Some(s)
            },
            _ => None,
        }
    }

    /// The path of the selected command.
    pub fn leaf_path(&self) -> (r: Vec<&str>)
        ensures
            slice_texts(r@) == self.model().leaf_path,
    {
        let mut out: Vec<&str> = Vec::new();
        let mut i: usize = 0;
        while i < self.leaf_path.len()
            invariant
                i <= self.leaf_path.len(),
                out@.len() == i,
                forall|k: int| 0 <= k < i ==> (#[trigger] out@[k])@ == self.leaf_path@[k]@,
            decreases self.leaf_path.len() - i,
        {
            out.push(self.leaf_path[i].as_str());
            i += 1;
        }
        assert(slice_texts(out@) =~= texts(self.leaf_path@));
        out
    }

    /// Scoped view at the selected command.
    pub fn view(&self) -> (v: MatchView<'_>)
        ensures
            v.scope() == self.model().leaf_path,
            v.source() == self.model(),
    {
        MatchView { m: self, path: self.leaf_path() }
    }

    /// Scoped view at an explicit command path.
    pub fn at<'a>(&'a self, path: &[&'a str]) -> (v: MatchView<'a>)
        ensures
            v.scope() == slice_texts(path@),
            v.source() == self.model(),
    {
        let mut copy: Vec<&'a str> = Vec::new();
        let mut i: usize = 0;
        while i < path.len()
            invariant
                i <= path.len(),
                copy@ =~= path@.take(i as int),
            decreases path.len() - i,
        {
            copy.push(path[i]);
            i += 1;
        }
        assert(copy@ =~= path@);
        MatchView { m: self, path: copy }
    }

    /// All values of a positional of the selected command.
    pub fn get_position(&self, name: &str) -> (r: Option<&[Token]>)
        ensures
            opt_tokens(r) == self.model().values_at(
                pos_key_text(self.model().leaf_path, name@),
            ),
    {
        let k = pos_key_for_strings(&self.leaf_path, name);
        self.all_at(k.as_str())
    }

    /// The first value of a positional of the selected command.
    pub fn get_position_one(&self, name: &str) -> (r: Option<&Token>)
        ensures
            opt_token(r) == self.model().value_at(pos_key_text(self.model().leaf_path, name@)),
    {
        let k = pos_key_for_strings(&self.leaf_path, name);
        self.first_at(k.as_str())
    }

    /// The value of an option of the selected command, the first if repeated.
    pub fn get_value(&self, name: &str) -> (r: Option<&Token>)
        ensures
            opt_token(r) == self.model().value_at(key_text(self.model().leaf_path, name@)),
    {
        let k = key_for_strings(&self.leaf_path, name);
        self.first_at(k.as_str())
    }

    /// All values of an option of the selected command.
    pub fn get_values(&self, name: &str) -> (r: Option<&[Token]>)
        ensures
            opt_tokens(r) == self.model().values_at(key_text(self.model().leaf_path, name@)),
    {
        let k = key_for_strings(&self.leaf_path, name);
        self.all_at(k.as_str())
    }

    /// Whether an option of the selected command is set, from any source.
    pub fn is_set(&self, name: &str) -> (r: bool)
        ensures
            r == self.model().is_set(key_text(self.model().leaf_path, name@)),
    {
        let k = key_for_strings(&self.leaf_path, name);
        self.has(k.as_str())
    }

    /// Whether an option of the selected command is set from `src`.
    pub fn is_set_from(&self, name: &str, src: Source) -> (r: bool)
        ensures
            r == self.model().is_set_from(key_text(self.model().leaf_path, name@), src),
    {
        let k = key_for_strings(&self.leaf_path, name);
        self.has_from(k.as_str(), src)
    }

    /// How often a flag of the selected command occurred.
    pub fn flag_count(&self, name: &str) -> (r: usize)
        ensures
            r == self.model().count_at(key_text(self.model().leaf_path, name@)),
    {
        let k = key_for_strings(&self.leaf_path, name);
        self.count(k.as_str())
    }
}

/// Read-only accessor into [`Matches`], scoped to one command path.
pub struct MatchView<'a> {
    m: &'a Matches,
    path: Vec<&'a str>,
}

impl<'a> MatchView<'a> {
    /// The command path that this view reads at.
    pub closed spec fn scope(&self) -> Seq<Seq<char>> {
        slice_texts(self.path@)
    }

    /// The store that this view reads.
    pub closed spec fn source(&self) -> MatchesView {
        self.m.model()
    }

    /// Current command path for this view.
    pub fn path(&self) -> (r: &[&'a str])
        ensures
            slice_texts(r@) == self.scope(),
    {
        self.path.as_slice()
    }

    /// Whether an option is set in this scope.
    pub fn is_set(&self, name: &str) -> (r: bool)
        ensures
            r == self.source().is_set(key_text(self.scope(), name@)),
    {
        let k = key_for(self.path.as_slice(), name);
        self.m.has(k.as_str())
    }

    /// Whether an option is set in this scope from `src`.
    pub fn is_set_from(&self, name: &str, src: Source) -> (r: bool)
        ensures
            r == self.source().is_set_from(key_text(self.scope(), name@), src),
    {
        let k = key_for(self.path.as_slice(), name);
        self.m.has_from(k.as_str(), src)
    }

    /// How often a flag occurred in this scope.
    pub fn flag_count(&self, name: &str) -> (r: usize)
        ensures
            r == self.source().count_at(key_text(self.scope(), name@)),
    {
        let k = key_for(self.path.as_slice(), name);
        self.m.count(k.as_str())
    }

    /// The value of an option, the first if repeated.
    pub fn value(&self, name: &str) -> (r: Option<&'a Token>)
        ensures
            opt_token(r) == self.source().value_at(key_text(self.scope(), name@)),
    {
        let k = key_for(self.path.as_slice(), name);
        self.m.first_at(k.as_str())
    }

    /// All values of an option.
    pub fn values(&self, name: &str) -> (r: Option<&'a [Token]>)
        ensures
            opt_tokens(r) == self.source().values_at(key_text(self.scope(), name@)),
    {
        let k = key_for(self.path.as_slice(), name);
        self.m.all_at(k.as_str())
    }

    /// The first value of a positional.
    pub fn pos_one(&self, name: &str) -> (r: Option<&'a Token>)
        ensures
            opt_token(r) == self.source().value_at(pos_key_text(self.scope(), name@)),
    {
        let k = pos_key_for(self.path.as_slice(), name);
        self.m.first_at(k.as_str())
    }

    /// All values of a positional.
    pub fn pos_many(&self, name: &str) -> (r: Option<&'a [Token]>)
        ensures
            opt_tokens(r) == self.source().values_at(pos_key_text(self.scope(), name@)),
    {
        let k = pos_key_for(self.path.as_slice(), name);
        self.m.all_at(k.as_str())
    }
}

} // verus!
