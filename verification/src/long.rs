//! Long options: multi-character names introduced by two dashes
//! (`--name`, with an inline value as `--name=value`), each paired with a
//! single-character short alias (`-n`).

use vstd::prelude::*;

use crate::ArgKind;
use crate::Handler;
use crate::OptError;
use crate::text::dashed;
use crate::text::double_dashed;
use crate::text::is_dashdash;
use crate::text::name_of;
use crate::text::opt_text_matches;
use crate::text::split_value;
use crate::text::str_eq;
use crate::text::substring;
use crate::text::token_shape;
use crate::text::value_of;

verus! {

/// A long-option descriptor: a short alias and a long name (both
/// required), an argument expectation, and (for the handled variant) a
/// target slot together with the handler that computes values for it.
pub enum LongOpt<T, H> {
    Unhandled { short_name: char, long_name: String, argkind: ArgKind },
    Handled { short_name: char, long_name: String, argkind: ArgKind, target: T, handler: H },
}

impl<T, H> LongOpt<T, H> {
    /// The single-character alias the descriptor is matched by.
    pub open spec fn spec_short(self) -> char {
        match self {
            LongOpt::Unhandled { short_name, .. } => short_name,
            LongOpt::Handled { short_name, .. } => short_name,
        }
    }

    /// The long name the descriptor is matched by.
    pub open spec fn spec_long(self) -> Seq<char> {
        match self {
            LongOpt::Unhandled { long_name, .. } => long_name@,
            LongOpt::Handled { long_name, .. } => long_name@,
        }
    }

    /// The descriptor's argument expectation.
    pub open spec fn spec_kind(self) -> ArgKind {
        match self {
            LongOpt::Unhandled { argkind, .. } => argkind,
            LongOpt::Handled { argkind, .. } => argkind,
        }
    }

    /// Whether the descriptor carries a handler and a target slot.
    pub open spec fn spec_handled(self) -> bool {
        self is Handled
    }

    /// The current value of the target slot, if the descriptor has one.
    pub open spec fn spec_target(self) -> Option<T> {
        match self {
            LongOpt::Unhandled { .. } => None,
            LongOpt::Handled { target, .. } => Some(target),
        }
    }

    pub fn short_name(&self) -> (c: char)
        ensures
            c == self.spec_short(),
    {
        match self {
            LongOpt::Unhandled { short_name, .. } => *short_name,
            LongOpt::Handled { short_name, .. } => *short_name,
        }
    }

    pub fn long_name(&self) -> (n: &str)
        ensures
            n@ == self.spec_long(),
    {
        match self {
            LongOpt::Unhandled { long_name, .. } => long_name.as_str(),
            LongOpt::Handled { long_name, .. } => long_name.as_str(),
        }
    }

    pub fn argkind(&self) -> (k: ArgKind)
        ensures
            k == self.spec_kind(),
    {
        match self {
            LongOpt::Unhandled { argkind, .. } => *argkind,
            LongOpt::Handled { argkind, .. } => *argkind,
        }
    }

    /// The descriptor with its target slot holding `v`; an unhandled
    /// descriptor (which has no slot) is unchanged.
    pub open spec fn spec_set_target(self, v: T) -> LongOpt<T, H> {
        match self {
            LongOpt::Unhandled { .. } => self,
            LongOpt::Handled { short_name, long_name, argkind, handler, .. } => LongOpt::Handled {
                short_name,
                long_name,
                argkind,
                target: v,
                handler,
            },
        }
    }

    /// Store or reject a handler's result: on `Ok(v)` the target becomes
    /// exactly `v` and no error is reported; on `Err(m)` the descriptor is
    /// left untouched and `m` is reported unmodified. An unhandled
    /// descriptor ignores the result and reports no error.
    pub fn apply_handler_result(&mut self, res: Result<T, String>) -> (r: Option<String>)
        ensures
            !old(self).spec_handled() ==> *final(self) == *old(self) && r is None,
            old(self).spec_handled() ==> match res {
                Ok(v) => r is None && *final(self) == old(self).spec_set_target(v),
                Err(m) => r == Some(m) && *final(self) == *old(self),
            },
    {
        match self {
            LongOpt::Unhandled { .. } => None,
            LongOpt::Handled { target, .. } => {
                match res {
                    Ok(v) => {
                        *target = v;
                        None
                    },
                    Err(m) => Some(m),
                }
            },
        }
    }
}

/// Relates a descriptor before and after a `handle_err` call that returned
/// `r`: identity, kind and handledness never change; an unhandled
/// descriptor stays exactly as it was and reports no error; a handled
/// descriptor's target keeps its old value whenever an error is reported.
pub open spec fn handle_err_post<T, H>(
    pre: LongOpt<T, H>,
    post: LongOpt<T, H>,
    r: Option<String>,
) -> bool {
    &&& post.spec_short() == pre.spec_short()
    &&& post.spec_long() == pre.spec_long()
    &&& post.spec_kind() == pre.spec_kind()
    &&& post.spec_handled() == pre.spec_handled()
    &&& !pre.spec_handled() ==> post == pre && r is None
    &&& r is Some ==> post.spec_target() == pre.spec_target()
}

impl<T, H: Handler<T>> LongOpt<T, H> {
    /// Attempt to handle the extracted value text `arg`. For an unhandled
    /// descriptor this is a no-op that reports no error. For a handled one
    /// the handler runs: on `Ok(v)` the target becomes `v` and no error is
    /// reported; on `Err(m)` the target is untouched and `m` is reported.
    pub fn handle_err(&mut self, arg: &str) -> (r: Option<String>)
        ensures
            handle_err_post(*old(self), *final(self), r),
    {
        let res = match self {
            LongOpt::Unhandled { .. } => {
                return None;
            },
            LongOpt::Handled { handler, .. } => handler.handle(arg),
        };
        self.apply_handler_result(res)
    }
}

/// An ordered table of long-option descriptors. Order is significant only
/// for first-match-wins lookup: if two descriptors share an identity, the
/// earlier one silently shadows the later.
pub struct LongOptions<T, H> {
    opts: Vec<LongOpt<T, H>>,
}

impl<T, H> View for LongOptions<T, H> {
    type V = Seq<LongOpt<T, H>>;

    closed spec fn view(&self) -> Seq<LongOpt<T, H>> {
        self.opts@
    }
}

/// The descriptor a specification tuple stands for: `(alias, name, kind,
/// None)` gives an unhandled descriptor, `(alias, name, kind,
/// Some((target, handler)))` a handled one.
pub open spec fn long_of_spec<T, H>(s: (char, String, ArgKind, Option<(T, H)>)) -> LongOpt<T, H> {
    match s.3 {
        None => LongOpt::Unhandled { short_name: s.0, long_name: s.1, argkind: s.2 },
        Some(pair) => LongOpt::Handled {
            short_name: s.0,
            long_name: s.1,
            argkind: s.2,
            target: pair.0,
            handler: pair.1,
        },
    }
}

impl<T, H> LongOptions<T, H> {
    /// Build a table with one descriptor per specification tuple, in input
    /// order. Identities are not checked for uniqueness: a colliding later
    /// tuple is shadowed at classification time, never rejected.
    #[verifier::loop_isolation(false)]
    pub fn new(specs: Vec<(char, String, ArgKind, Option<(T, H)>)>) -> (r: LongOptions<T, H>)
        ensures
            r@.len() == specs@.len(),
            forall|i: int| 0 <= i < specs@.len() ==> r@[i] == long_of_spec(specs@[i]),
    {
        let mut rest = specs;
        let mut opts: Vec<LongOpt<T, H>> = Vec::new();
        let ghost all = rest@;
        while rest.len() > 0
            invariant
                opts@.len() + rest@.len() == all.len(),
                forall|i: int| 0 <= i < opts@.len() ==> opts@[i] == long_of_spec(all[i]),
                forall|i: int| 0 <= i < rest@.len() ==> rest@[i] == all[opts@.len() + i],
            decreases rest@.len(),
        {
            let ghost n0 = opts@.len();
            let (short, long, kind, handling) = rest.remove(0);
            let ghost opts0 = opts@;
            let d = match handling {
                Some((target, handler)) => LongOpt::Handled {
                    short_name: short,
                    long_name: long,
                    argkind: kind,
                    target,
                    handler,
                },
                None => LongOpt::Unhandled { short_name: short, long_name: long, argkind: kind },
            };
            let ghost dg = d;
            opts.push(d);
            proof {
                vstd::seq::axiom_seq_push_len(opts0, dg);
                assert(dg == long_of_spec(all[n0 as int]));
                assert forall|i: int| 0 <= i < opts@.len() implies opts@[i] == long_of_spec(
                    all[i],
                ) by {
                    if i < opts0.len() {
                        vstd::seq::axiom_seq_push_index_different(opts0, dg, i);
                    } else {
                        vstd::seq::axiom_seq_push_index_same(opts0, dg, i);
                    }
                }
            }
        }
        LongOptions { opts }
    }

    /// How many descriptors the table holds.
    pub fn len(&self) -> (n: usize)
        ensures
            n == self@.len(),
    {
        self.opts.len()
    }

    /// The index of the first descriptor whose long name is `name`, if any.
    pub fn find_long(&self, name: &str) -> (r: Option<usize>)
        ensures
            match r {
                Some(i) => is_first_long(self@, name@, i as int),
                None => no_long(self@, name@),
            },
    {
        let n = self.opts.len();
        let mut i: usize = 0;
        while i < n
            invariant
                i <= n,
                n == self.opts@.len(),
                forall|j: int| 0 <= j < i ==> self.opts@[j].spec_long() != name@,
            decreases n - i,
        {
            if str_eq(self.opts[i].long_name(), name) {
                return Some(i);
            }
            i = i + 1;
        }
        None
    }

    /// The index of the first descriptor whose short alias is `c`, if any.
    pub fn find_short(&self, c: char) -> (r: Option<usize>)
        ensures
            match r {
                Some(i) => is_first_alias(self@, c, i as int),
                None => no_alias(self@, c),
            },
    {
        let n = self.opts.len();
        let mut i: usize = 0;
        while i < n
            invariant
                i <= n,
                n == self.opts@.len(),
                forall|j: int| 0 <= j < i ==> self.opts@[j].spec_short() != c,
            decreases n - i,
        {
            if self.opts[i].short_name() == c {
                return Some(i);
            }
            i = i + 1;
        }
        None
    }

    /// The argument expectation of the descriptor at `i`.
    pub fn kind_at(&self, i: usize) -> (k: ArgKind)
        requires
            i < self@.len(),
        ensures
            k == self@[i as int].spec_kind(),
    {
        self.opts[i].argkind()
    }

    /// The current value of the target slot of the descriptor at `i`, or
    /// `None` if that descriptor is unhandled.
    pub fn target(&self, i: usize) -> (r: Option<&T>)
        requires
            i < self@.len(),
        ensures
            match r {
                Some(t) => self@[i as int].spec_target() == Some(*t),
                None => self@[i as int].spec_target() is None,
            },
    {
        match &self.opts[i] {
            LongOpt::Handled { target, .. } => Some(target),
            LongOpt::Unhandled { .. } => None,
        }
    }
}

impl<T, H: Handler<T>> LongOptions<T, H> {
    /// Run `handle_err` on the descriptor at `i`, leaving every other
    /// descriptor untouched.
    pub fn handle_at(&mut self, i: usize, arg: &str) -> (r: Option<String>)
        requires
            i < old(self)@.len(),
        ensures
            final(self)@.len() == old(self)@.len(),
            forall|j: int|
                0 <= j < final(self)@.len() && j != i ==> final(self)@[j] == old(self)@[j],
            handle_err_post(old(self)@[i as int], final(self)@[i as int], r),
    {
        let o = &mut self.opts[i];
        o.handle_err(arg)
    }
}

/// No descriptor among the first `n` has long name `name`.
pub open spec fn none_long_before<T, H>(opts: Seq<LongOpt<T, H>>, name: Seq<char>, n: int) -> bool {
    forall|j: int| 0 <= j < n ==> opts[j].spec_long() != name
}

/// No descriptor at all has long name `name`.
pub open spec fn no_long<T, H>(opts: Seq<LongOpt<T, H>>, name: Seq<char>) -> bool {
    none_long_before(opts, name, opts.len() as int)
}

/// `i` is the index of the first descriptor with long name `name`.
pub open spec fn is_first_long<T, H>(opts: Seq<LongOpt<T, H>>, name: Seq<char>, i: int) -> bool {
    &&& 0 <= i < opts.len()
    &&& opts[i].spec_long() == name
    &&& none_long_before(opts, name, i)
}

/// The index of the first descriptor with long name `name` (meaningful
/// only when some descriptor has it).
pub open spec fn first_long<T, H>(opts: Seq<LongOpt<T, H>>, name: Seq<char>) -> int {
    choose|i: int| is_first_long(opts, name, i)
}

/// First-match-wins lookup by long name is unambiguous.
pub proof fn lemma_first_long_is<T, H>(opts: Seq<LongOpt<T, H>>, name: Seq<char>, i: int)
    requires
        is_first_long(opts, name, i),
    ensures
        first_long(opts, name) == i,
{
    let j = first_long(opts, name);
    assert(is_first_long(opts, name, j)) by {
        assert(is_first_long(opts, name, i));
    }
    if j < i {
        assert(opts[j].spec_long() != name);
    }
    if j > i {
        assert(opts[i].spec_long() != name);
    }
}

/// No descriptor among the first `n` has short alias `c`.
pub open spec fn none_alias_before<T, H>(opts: Seq<LongOpt<T, H>>, c: char, n: int) -> bool {
    forall|j: int| 0 <= j < n ==> opts[j].spec_short() != c
}

/// No descriptor at all has short alias `c`.
pub open spec fn no_alias<T, H>(opts: Seq<LongOpt<T, H>>, c: char) -> bool {
    none_alias_before(opts, c, opts.len() as int)
}

/// `i` is the index of the first descriptor with short alias `c`.
pub open spec fn is_first_alias<T, H>(opts: Seq<LongOpt<T, H>>, c: char, i: int) -> bool {
    &&& 0 <= i < opts.len()
    &&& opts[i].spec_short() == c
    &&& none_alias_before(opts, c, i)
}

/// The index of the first descriptor with short alias `c` (meaningful
/// only when some descriptor has it).
pub open spec fn first_alias<T, H>(opts: Seq<LongOpt<T, H>>, c: char) -> int {
    choose|i: int| is_first_alias(opts, c, i)
}

/// First-match-wins lookup by short alias is unambiguous.
pub proof fn lemma_first_alias_is<T, H>(opts: Seq<LongOpt<T, H>>, c: char, i: int)
    requires
        is_first_alias(opts, c, i),
    ensures
        first_alias(opts, c) == i,
{
    let j = first_alias(opts, c);
    assert(is_first_alias(opts, c, j)) by {
        assert(is_first_alias(opts, c, i));
    }
    if j < i {
        assert(opts[j].spec_short() != c);
    }
    if j > i {
        assert(opts[i].spec_short() != c);
    }
}

/// The identity an option was passed as: its short alias or its long name.
#[derive(Debug, PartialEq, Eq)]
pub enum LongName {
    Short(char),
    Long(String),
}

/// A ghost identity: the spelled-out form [`LongName`] stands for.
pub enum LongIdent {
    Short(char),
    Long(Seq<char>),
}

/// Whether the passed identity `id` spells the ghost identity `want`.
pub open spec fn long_id_matches(id: LongName, want: LongIdent) -> bool {
    match want {
        LongIdent::Short(c) => id matches LongName::Short(c2) && c2 == c,
        LongIdent::Long(n) => id matches LongName::Long(s) && s@ == n,
    }
}

/// One classified item of the long engine: a free argument passed through
/// verbatim, or an option identified as it was passed, with the outcome of
/// extracting and handling its value.
#[derive(Debug, PartialEq, Eq)]
pub enum PassedLong {
    Free(String),
    Opt(LongName, Result<Option<String>, OptError>),
}

/// The abstract state of a long-option parse: the raw tokens, the current
/// descriptor table, the token index, and whether a `--` terminator has
/// put the parse in free-text mode.
pub struct LongState<T, H> {
    pub toks: Seq<String>,
    pub opts: Seq<LongOpt<T, H>>,
    pub idx: int,
    pub free: bool,
}

/// A well-formed parse state: the token index is in bounds.
pub open spec fn long_wf<T, H>(s: LongState<T, H>) -> bool {
    0 <= s.idx <= s.toks.len()
}

/// The state `pre` with the cursor moved to token `i` and free-text mode
/// `f`; tokens and descriptors unchanged.
pub open spec fn long_at<T, H>(pre: LongState<T, H>, i: int, f: bool) -> LongState<T, H> {
    LongState { toks: pre.toks, opts: pre.opts, idx: i, free: f }
}

/// The item `r` is a free argument spelling `t`.
pub open spec fn long_free_item(r: Option<PassedLong>, t: Seq<char>) -> bool {
    r matches Some(PassedLong::Free(s)) && s@ == t
}

/// The item `r` reports identity `id` failing with exactly the error `e`.
pub open spec fn long_err_item(r: Option<PassedLong>, id: LongIdent, e: OptError) -> bool {
    &&& r matches Some(PassedLong::Opt(id2, res))
    &&& long_id_matches(id2, id)
    &&& res matches Err(e2)
    &&& e2 == e
}

/// Descriptors `a` and `b` agree everywhere except possibly at `i`, where
/// identity, kind and handledness are still preserved (only the target and
/// the handler's own state may move).
pub open spec fn opts_frame<T, H>(a: Seq<LongOpt<T, H>>, b: Seq<LongOpt<T, H>>, i: int) -> bool {
    &&& b.len() == a.len()
    &&& forall|j: int| 0 <= j < a.len() && j != i ==> b[j] == a[j]
    &&& b[i].spec_short() == a[i].spec_short()
    &&& b[i].spec_long() == a[i].spec_long()
    &&& b[i].spec_kind() == a[i].spec_kind()
    &&& b[i].spec_handled() == a[i].spec_handled()
}

/// The option with identity `id` (descriptor `i`) matched with extracted
/// value `arg`, and its handler ran. On handler success the item is `Ok`
/// carrying exactly `arg`; an unhandled descriptor always takes this
/// branch and changes nothing. On handler failure the item is a
/// `HandleError` and the target keeps its old value.
pub open spec fn long_handled_item<T, H>(
    pre: LongState<T, H>,
    post: LongState<T, H>,
    r: Option<PassedLong>,
    id: LongIdent,
    i: int,
    arg: Option<Seq<char>>,
) -> bool {
    &&& opts_frame(pre.opts, post.opts, i)
    &&& r matches Some(PassedLong::Opt(id2, res)) && long_id_matches(id2, id) && match res {
        Ok(a) => opt_text_matches(a, arg) && (!pre.opts[i].spec_handled() ==> post.opts
            == pre.opts),
        Err(e) => {
            &&& e is HandleError
            &&& pre.opts[i].spec_handled()
            &&& post.opts[i].spec_target() == pre.opts[i].spec_target()
        },
    }
}

/// Classification of a `--name[=value]` token. The name (the characters
/// between the dashes and the first `=`) is matched against the long
/// names. Unmatched names yield `Invalid`. A matched `Nil` option rejects
/// an inline value as `Invalid`. A matched `Required` option without an
/// inline value takes the whole next token, or fails with `ArgRequired`
/// when no token is left.
pub open spec fn long_name_step<T, H>(
    pre: LongState<T, H>,
    post: LongState<T, H>,
    r: Option<PassedLong>,
) -> bool {
    let t = pre.toks[pre.idx]@;
    let name = name_of(t, 2);
    let val = value_of(t, 2);
    let id = LongIdent::Long(name);
    if no_long(pre.opts, name) {
        long_err_item(r, id, OptError::Invalid) && post == long_at(pre, pre.idx + 1, false)
    } else {
        let i = first_long(pre.opts, name);
        let k = pre.opts[i].spec_kind();
        match val {
            Some(v) => if k is Nil {
                long_err_item(r, id, OptError::Invalid) && post == long_at(pre, pre.idx + 1, false)
            } else {
                &&& post.idx == pre.idx + 1 && post.free == false
                &&& long_handled_item(pre, post, r, id, i, Some(v))
            },
            None => if k is Required {
                if pre.idx + 1 < pre.toks.len() {
                    &&& post.idx == pre.idx + 2 && post.free == false
                    &&& long_handled_item(pre, post, r, id, i, Some(pre.toks[pre.idx + 1]@))
                } else {
                    long_err_item(r, id, OptError::ArgRequired) && post == long_at(
                        pre,
                        pre.idx + 1,
                        false,
                    )
                }
            } else {
                &&& post.idx == pre.idx + 1 && post.free == false
                &&& long_handled_item(pre, post, r, id, i, None)
            },
        }
    }
}

/// Classification of a single-dash token. Only the exact form `-c` (one
/// dash, one character) can match a short alias; any longer single-dash
/// token yields `Invalid` under the character after the dash. A matched
/// `Required` alias takes the whole next token, or fails with
/// `ArgRequired`; other kinds take no value.
pub open spec fn long_alias_step<T, H>(
    pre: LongState<T, H>,
    post: LongState<T, H>,
    r: Option<PassedLong>,
) -> bool {
    let t = pre.toks[pre.idx]@;
    let c = t[1];
    let id = LongIdent::Short(c);
    if t.len() != 2 || no_alias(pre.opts, c) {
        long_err_item(r, id, OptError::Invalid) && post == long_at(pre, pre.idx + 1, false)
    } else {
        let i = first_alias(pre.opts, c);
        let k = pre.opts[i].spec_kind();
        if k is Required {
            if pre.idx + 1 < pre.toks.len() {
                &&& post.idx == pre.idx + 2 && post.free == false
                &&& long_handled_item(pre, post, r, id, i, Some(pre.toks[pre.idx + 1]@))
            } else {
                long_err_item(r, id, OptError::ArgRequired) && post == long_at(
                    pre,
                    pre.idx + 1,
                    false,
                )
            }
        } else {
            &&& post.idx == pre.idx + 1 && post.free == false
            &&& long_handled_item(pre, post, r, id, i, None)
        }
    }
}

/// The full step relation of the long engine: what one `next_item` call
/// yields and how the state moves, for every well-formed starting state.
/// Exhausted input ends the sequence; after `--` every token is free text;
/// a token that does not open with a dash (or the bare `-`) is free text;
/// `--name[=value]` tokens are matched by long name and `-c` tokens by
/// short alias.
pub open spec fn long_step<T, H>(
    pre: LongState<T, H>,
    post: LongState<T, H>,
    r: Option<PassedLong>,
) -> bool {
    &&& post.toks == pre.toks
    &&& if pre.idx >= pre.toks.len() {
        r is None && post == pre
    } else if pre.free {
        long_free_item(r, pre.toks[pre.idx]@) && post == long_at(pre, pre.idx + 1, true)
    } else {
        let t = pre.toks[pre.idx]@;
        if is_dashdash(t) {
            if pre.idx + 1 >= pre.toks.len() {
                r is None && post == long_at(pre, pre.idx + 1, true)
            } else {
                long_free_item(r, pre.toks[pre.idx + 1]@) && post == long_at(
                    pre,
                    pre.idx + 2,
                    true,
                )
            }
        } else if double_dashed(t) {
            long_name_step(pre, post, r)
        } else if dashed(t) {
            long_alias_step(pre, post, r)
        } else {
            long_free_item(r, t) && post == long_at(pre, pre.idx + 1, false)
        }
    }
}

/// Parsing an empty argument list yields an empty sequence: the very
/// first pull ends it, and nothing changes.
pub proof fn lemma_long_empty<T, H>(
    pre: LongState<T, H>,
    post: LongState<T, H>,
    r: Option<PassedLong>,
)
    requires
        pre.toks.len() == 0,
        0 <= pre.idx,
        long_step(pre, post, r),
    ensures
        r is None,
        post == pre,
{
}

/// A `--name[=value]` token whose name matches no registered long name
/// yields exactly one `Invalid` item under that name and consumes exactly
/// that token; no descriptor is touched.
pub proof fn lemma_long_invalid_name<T, H>(
    pre: LongState<T, H>,
    post: LongState<T, H>,
    r: Option<PassedLong>,
)
    requires
        long_wf(pre),
        !pre.free,
        pre.idx < pre.toks.len(),
        double_dashed(pre.toks[pre.idx]@),
        no_long(pre.opts, name_of(pre.toks[pre.idx]@, 2)),
        long_step(pre, post, r),
    ensures
        long_err_item(r, LongIdent::Long(name_of(pre.toks[pre.idx]@, 2)), OptError::Invalid),
        post == long_at(pre, pre.idx + 1, false),
{
}

/// A `-c` token whose character matches no registered short alias yields
/// exactly one `Invalid` item under that character and consumes exactly
/// that token; no descriptor is touched.
pub proof fn lemma_long_invalid_alias<T, H>(
    pre: LongState<T, H>,
    post: LongState<T, H>,
    r: Option<PassedLong>,
)
    requires
        long_wf(pre),
        !pre.free,
        pre.idx < pre.toks.len(),
        dashed(pre.toks[pre.idx]@),
        !double_dashed(pre.toks[pre.idx]@),
        no_alias(pre.opts, pre.toks[pre.idx]@[1]),
        long_step(pre, post, r),
    ensures
        long_err_item(r, LongIdent::Short(pre.toks[pre.idx]@[1]), OptError::Invalid),
        post == long_at(pre, pre.idx + 1, false),
{
}

/// A `Required` option passed as the last token by long name, with no
/// inline `=value`, fails with `ArgRequired`: no handler runs and every
/// target keeps its value.
pub proof fn lemma_long_arg_required<T, H>(
    pre: LongState<T, H>,
    post: LongState<T, H>,
    r: Option<PassedLong>,
    i: int,
)
    requires
        long_wf(pre),
        !pre.free,
        pre.idx == pre.toks.len() - 1,
        double_dashed(pre.toks[pre.idx]@),
        value_of(pre.toks[pre.idx]@, 2) is None,
        is_first_long(pre.opts, name_of(pre.toks[pre.idx]@, 2), i),
        pre.opts[i].spec_kind() is Required,
        long_step(pre, post, r),
    ensures
        long_err_item(r, LongIdent::Long(name_of(pre.toks[pre.idx]@, 2)), OptError::ArgRequired),
        post == long_at(pre, pre.idx + 1, false),
{
    lemma_first_long_is(pre.opts, name_of(pre.toks[pre.idx]@, 2), i);
}

/// A `Nil` option rejects any inline-attached value: a matching
/// `--name=value` token yields `Invalid`, no handler runs, and every
/// target keeps its value.
pub proof fn lemma_long_nil_inline<T, H>(
    pre: LongState<T, H>,
    post: LongState<T, H>,
    r: Option<PassedLong>,
    i: int,
)
    requires
        long_wf(pre),
        !pre.free,
        pre.idx < pre.toks.len(),
        double_dashed(pre.toks[pre.idx]@),
        value_of(pre.toks[pre.idx]@, 2) is Some,
        is_first_long(pre.opts, name_of(pre.toks[pre.idx]@, 2), i),
        pre.opts[i].spec_kind() is Nil,
        long_step(pre, post, r),
    ensures
        long_err_item(r, LongIdent::Long(name_of(pre.toks[pre.idx]@, 2)), OptError::Invalid),
        post == long_at(pre, pre.idx + 1, false),
{
    lemma_first_long_is(pre.opts, name_of(pre.toks[pre.idx]@, 2), i);
}

/// A successful item never carries a value its kind forbids: when a
/// `--name[=value]` token yields `Ok`, a `Required` option always holds a
/// value and a `Nil` option never does.
pub proof fn lemma_long_value_presence<T, H>(
    pre: LongState<T, H>,
    post: LongState<T, H>,
    r: Option<PassedLong>,
    i: int,
)
    requires
        long_wf(pre),
        pre.idx < pre.toks.len(),
        is_first_long(pre.opts, name_of(pre.toks[pre.idx]@, 2), i),
        long_name_step(pre, post, r),
    ensures
        r matches Some(PassedLong::Opt(id, Ok(a))) ==> (pre.opts[i].spec_kind() is Required ==> a
            is Some) && (pre.opts[i].spec_kind() is Nil ==> a is None),
{
    lemma_first_long_is(pre.opts, name_of(pre.toks[pre.idx]@, 2), i);
}

/// After the `--` terminator every remaining token is yielded as free
/// text, dashes notwithstanding, and free-text mode never ends.
pub proof fn lemma_long_free_mode<T, H>(
    pre: LongState<T, H>,
    post: LongState<T, H>,
    r: Option<PassedLong>,
)
    requires
        long_wf(pre),
        pre.free,
        long_step(pre, post, r),
    ensures
        pre.idx < pre.toks.len() ==> long_free_item(r, pre.toks[pre.idx]@) && post == long_at(
            pre,
            pre.idx + 1,
            true,
        ),
        pre.idx >= pre.toks.len() ==> r is None && post == pre,
        post.free,
{
}

/// Seeing the literal token `--` turns free-text mode on: the terminator
/// itself yields no item, and the token after it (if any) is yielded free
/// in the same pull.
pub proof fn lemma_long_dashdash<T, H>(
    pre: LongState<T, H>,
    post: LongState<T, H>,
    r: Option<PassedLong>,
)
    requires
        long_wf(pre),
        !pre.free,
        pre.idx < pre.toks.len(),
        is_dashdash(pre.toks[pre.idx]@),
        long_step(pre, post, r),
    ensures
        post.free,
        pre.idx + 1 < pre.toks.len() ==> long_free_item(r, pre.toks[pre.idx + 1]@) && post.idx
            == pre.idx + 2,
        pre.idx + 1 >= pre.toks.len() ==> r is None && post.idx == pre.idx + 1,
{
}

/// A lazy, single-pass long-option parse: pull items one at a time with
/// [`LongParser::next_item`]; stopping early is always safe and rolls
/// nothing back.
pub struct LongParser<T, H> {
    args: Vec<String>,
    opts: LongOptions<T, H>,
    idx: usize,
    free: bool,
}

impl<T, H> View for LongParser<T, H> {
    type V = LongState<T, H>;

    closed spec fn view(&self) -> LongState<T, H> {
        LongState { toks: self.args@, opts: self.opts@, idx: self.idx as int, free: self.free }
    }
}

/// Begin parsing `args` (the raw argument list, program name excluded)
/// against the table `opts`.
pub fn getopt<T, H>(args: Vec<String>, opts: LongOptions<T, H>) -> (p: LongParser<T, H>)
    ensures
        p@ == (LongState { toks: args@, opts: opts@, idx: 0, free: false }),
        long_wf(p@),
{
    LongParser { args, opts, idx: 0, free: false }
}

impl<T, H> LongParser<T, H> {
    /// Recover the option table (and with it every assigned target) once
    /// iteration is done.
    pub fn into_options(self) -> (r: LongOptions<T, H>)
        ensures
            r@ == self@.opts,
    {
        self.opts
    }
}

impl<T, H: Handler<T>> LongParser<T, H> {
    /// Classify the next token and yield its item, or `None` when the
    /// input is exhausted. The step relation [`long_step`] pins the item
    /// and the new state.
    pub fn next_item(&mut self) -> (r: Option<PassedLong>)
        requires
            long_wf(old(self)@),
        ensures
            long_wf(final(self)@),
            long_step(old(self)@, final(self)@, r),
    {
        if self.idx >= self.args.len() {
            return None;
        }
        if self.free {
            let t = self.args[self.idx].clone();
            self.idx = self.idx + 1;
            return Some(PassedLong::Free(t));
        }
        let (dd, dash) = token_shape(self.args[self.idx].as_str());
        if dd {
            self.free = true;
            self.idx = self.idx + 1;
            if self.idx >= self.args.len() {
                return None;
            }
            let t = self.args[self.idx].clone();
            self.idx = self.idx + 1;
            return Some(PassedLong::Free(t));
        }
        if !dash {
            let t = self.args[self.idx].clone();
            self.idx = self.idx + 1;
            return Some(PassedLong::Free(t));
        }
        let tlen = self.args[self.idx].as_str().unicode_len();
        let c1 = self.args[self.idx].as_str().get_char(1);
        if tlen >= 3 && c1 == '-' {
            // a `--name[=value]` token
            let body = substring(self.args[self.idx].as_str(), 2, tlen);
            proof {
                assert(body@ =~= self.args[self.idx as int]@.subrange(
                    2,
                    self.args[self.idx as int]@.len() as int,
                ));
            }
            let (name, val) = split_value(body.as_str());
            proof {
                assert(body@.subrange(0, body@.len() as int) =~= body@);
                assert(name@ == name_of(self@.toks[self@.idx]@, 2));
                assert(opt_text_matches(val, value_of(self@.toks[self@.idx]@, 2)));
            }
            let found = self.opts.find_long(name.as_str());
            match found {
                None => {
                    self.idx = self.idx + 1;
                    Some(PassedLong::Opt(LongName::Long(name), Err(OptError::Invalid)))
                },
                Some(i) => {
                    proof {
                        lemma_first_long_is(self@.opts, name@, i as int);
                    }
                    let k = self.opts.kind_at(i);
                    let arg: Option<String>;
                    let next_idx: usize;
                    match val {
                        Some(v) => {
                            if matches!(k, ArgKind::Nil) {
                                self.idx = self.idx + 1;
                                return Some(
                                    PassedLong::Opt(LongName::Long(name), Err(OptError::Invalid)),
                                );
                            }
                            arg = Some(v);
                            next_idx = self.idx + 1;
                        },
                        None => {
                            if matches!(k, ArgKind::Required) {
                                if self.idx + 1 < self.args.len() {
                                    arg = Some(self.args[self.idx + 1].clone());
                                    next_idx = self.idx + 2;
                                } else {
                                    self.idx = self.idx + 1;
                                    return Some(
                                        PassedLong::Opt(
                                            LongName::Long(name),
                                            Err(OptError::ArgRequired),
                                        ),
                                    );
                                }
                            } else {
                                arg = None;
                                next_idx = self.idx + 1;
                            }
                        },
                    }
                    let msg = match &arg {
                        Some(s) => self.opts.handle_at(i, s.as_str()),
                        None => self.opts.handle_at(i, ""),
                    };
                    proof {
                        if !old(self)@.opts[i as int].spec_handled() {
                            assert(self@.opts =~= old(self)@.opts);
                        }
                    }
                    self.idx = next_idx;
                    match msg {
                        Some(m) => Some(
                            PassedLong::Opt(LongName::Long(name), Err(OptError::HandleError(m))),
                        ),
                        None => Some(PassedLong::Opt(LongName::Long(name), Ok(arg))),
                    }
                },
            }
        } else {
            // a single-dash token: only the exact form `-c` can match
            if tlen != 2 {
                self.idx = self.idx + 1;
                return Some(PassedLong::Opt(LongName::Short(c1), Err(OptError::Invalid)));
            }
            let found = self.opts.find_short(c1);
            match found {
                None => {
                    self.idx = self.idx + 1;
                    Some(PassedLong::Opt(LongName::Short(c1), Err(OptError::Invalid)))
                },
                Some(i) => {
                    proof {
                        lemma_first_alias_is(self@.opts, c1, i as int);
                    }
                    let k = self.opts.kind_at(i);
                    let arg: Option<String>;
                    let next_idx: usize;
                    if matches!(k, ArgKind::Required) {
                        if self.idx + 1 < self.args.len() {
                            arg = Some(self.args[self.idx + 1].clone());
                            next_idx = self.idx + 2;
                        } else {
                            self.idx = self.idx + 1;
                            return Some(
                                PassedLong::Opt(LongName::Short(c1), Err(OptError::ArgRequired)),
                            );
                        }
                    } else {
                        arg = None;
                        next_idx = self.idx + 1;
                    }
                    let msg = match &arg {
                        Some(s) => self.opts.handle_at(i, s.as_str()),
                        None => self.opts.handle_at(i, ""),
                    };
                    proof {
                        if !old(self)@.opts[i as int].spec_handled() {
                            assert(self@.opts =~= old(self)@.opts);
                        }
                    }
                    self.idx = next_idx;
                    match msg {
                        Some(m) => Some(
                            PassedLong::Opt(LongName::Short(c1), Err(OptError::HandleError(m))),
                        ),
                        None => Some(PassedLong::Opt(LongName::Short(c1), Ok(arg))),
                    }
                },
            }
        }
    }
}

} // verus!
