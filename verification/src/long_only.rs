//! Long-only options: multi-character names introduced by one or two
//! dashes (`-name` or `--name`, with an inline value as `-name=value`),
//! never paired with a short alias.

use vstd::prelude::*;

use crate::ArgKind;
use crate::Handler;
use crate::OptError;
use crate::text::double_dashed;
use crate::text::is_dashdash;
use crate::text::name_of;
use crate::text::opt_text_matches;
use crate::text::split_value;
use crate::text::str_eq;
use crate::text::substring;
use crate::text::token_shape;
use crate::text::value_of;

verus! {

/// A long-only option descriptor: a string-name identity, an argument
/// expectation, and (for the handled variant) a target slot together with
/// the handler that computes values for it.
pub enum LongOnlyOpt<T, H> {
    Unhandled { long_name: String, argkind: ArgKind },
    Handled { long_name: String, argkind: ArgKind, target: T, handler: H },
}

impl<T, H> LongOnlyOpt<T, H> {
    /// The string name the descriptor is matched by.
    pub open spec fn spec_long(self) -> Seq<char> {
        match self {
            LongOnlyOpt::Unhandled { long_name, .. } => long_name@,
            LongOnlyOpt::Handled { long_name, .. } => long_name@,
        }
    }

    /// The descriptor's argument expectation.
    pub open spec fn spec_kind(self) -> ArgKind {
        match self {
            LongOnlyOpt::Unhandled { argkind, .. } => argkind,
            LongOnlyOpt::Handled { argkind, .. } => argkind,
        }
    }

    /// Whether the descriptor carries a handler and a target slot.
    pub open spec fn spec_handled(self) -> bool {
        self is Handled
    }

    /// The current value of the target slot, if the descriptor has one.
    pub open spec fn spec_target(self) -> Option<T> {
        match self {
            LongOnlyOpt::Unhandled { .. } => None,
            LongOnlyOpt::Handled { target, .. } => Some(target),
        }
    }

    pub fn long_name(&self) -> (n: &str)
        ensures
            n@ == self.spec_long(),
    {
        match self {
            LongOnlyOpt::Unhandled { long_name, .. } => long_name.as_str(),
            LongOnlyOpt::Handled { long_name, .. } => long_name.as_str(),
        }
    }

    pub fn argkind(&self) -> (k: ArgKind)
        ensures
            k == self.spec_kind(),
    {
        match self {
            LongOnlyOpt::Unhandled { argkind, .. } => *argkind,
            LongOnlyOpt::Handled { argkind, .. } => *argkind,
        }
    }

    /// The descriptor with its target slot holding `v`; an unhandled
    /// descriptor (which has no slot) is unchanged.
    pub open spec fn spec_set_target(self, v: T) -> LongOnlyOpt<T, H> {
        match self {
            LongOnlyOpt::Unhandled { .. } => self,
            LongOnlyOpt::Handled { long_name, argkind, handler, .. } => LongOnlyOpt::Handled {
                long_name,
                argkind,
                target: v,
                handler,
            },
        }
    }

    /// Store or reject a handler's result: on `Ok(v)` the target becomes
    /// exactly `v` and no error is reported; on `Err(m)` the descriptor is
    /// left untouched and `m` is reported unmodified. An unhandled
    /// descriptor ignores the result and reports no error.
    pub fn apply_handler_result(&mut self, res: Result<T, String>) -> (r: Option<String>)
        ensures
            !old(self).spec_handled() ==> *final(self) == *old(self) && r is None,
            old(self).spec_handled() ==> match res {
                Ok(v) => r is None && *final(self) == old(self).spec_set_target(v),
                Err(m) => r == Some(m) && *final(self) == *old(self),
            },
    {
        match self {
            LongOnlyOpt::Unhandled { .. } => None,
            LongOnlyOpt::Handled { target, .. } => {
                match res {
                    Ok(v) => {
                        *target = v;
                        None
                    },
                    Err(m) => Some(m),
                }
            },
        }
    }
}

/// Relates a descriptor before and after a `handle_err` call that returned
/// `r`: identity, kind and handledness never change; an unhandled
/// descriptor stays exactly as it was and reports no error; a handled
/// descriptor's target keeps its old value whenever an error is reported.
pub open spec fn handle_err_post<T, H>(
    pre: LongOnlyOpt<T, H>,
    post: LongOnlyOpt<T, H>,
    r: Option<String>,
) -> bool {
    &&& post.spec_long() == pre.spec_long()
    &&& post.spec_kind() == pre.spec_kind()
    &&& post.spec_handled() == pre.spec_handled()
    &&& !pre.spec_handled() ==> post == pre && r is None
    &&& r is Some ==> post.spec_target() == pre.spec_target()
}

impl<T, H: Handler<T>> LongOnlyOpt<T, H> {
    /// Attempt to handle the extracted value text `arg`. For an unhandled
    /// descriptor this is a no-op that reports no error. For a handled one
    /// the handler runs: on `Ok(v)` the target becomes `v` and no error is
    /// reported; on `Err(m)` the target is untouched and `m` is reported.
    pub fn handle_err(&mut self, arg: &str) -> (r: Option<String>)
        ensures
            handle_err_post(*old(self), *final(self), r),
    {
        let res = match self {
            LongOnlyOpt::Unhandled { .. } => {
                return None;
            },
            LongOnlyOpt::Handled { handler, .. } => handler.handle(arg),
        };
        self.apply_handler_result(res)
    }
}

/// An ordered table of long-only option descriptors. Order is significant
/// only for first-match-wins lookup: if two descriptors share a name, the
/// earlier one silently shadows the later.
pub struct LongOnlyOptions<T, H> {
    opts: Vec<LongOnlyOpt<T, H>>,
}

impl<T, H> View for LongOnlyOptions<T, H> {
    type V = Seq<LongOnlyOpt<T, H>>;

    closed spec fn view(&self) -> Seq<LongOnlyOpt<T, H>> {
        self.opts@
    }
}

/// The descriptor a specification tuple stands for: `(name, kind, None)`
/// gives an unhandled descriptor, `(name, kind, Some((target, handler)))`
/// a handled one.
pub open spec fn long_only_of_spec<T, H>(s: (String, ArgKind, Option<(T, H)>)) -> LongOnlyOpt<
    T,
    H,
> {
    match s.2 {
        None => LongOnlyOpt::Unhandled { long_name: s.0, argkind: s.1 },
        Some(pair) => LongOnlyOpt::Handled {
            long_name: s.0,
            argkind: s.1,
            target: pair.0,
            handler: pair.1,
        },
    }
}

impl<T, H> LongOnlyOptions<T, H> {
    /// Build a table with one descriptor per specification tuple, in input
    /// order. Names are not checked for uniqueness: a colliding later
    /// tuple is shadowed at classification time, never rejected.
    #[verifier::loop_isolation(false)]
    pub fn new(specs: Vec<(String, ArgKind, Option<(T, H)>)>) -> (r: LongOnlyOptions<T, H>)
        ensures
            r@.len() == specs@.len(),
            forall|i: int| 0 <= i < specs@.len() ==> r@[i] == long_only_of_spec(specs@[i]),
    {
        let mut rest = specs;
        let mut opts: Vec<LongOnlyOpt<T, H>> = Vec::new();
        let ghost all = rest@;
        while rest.len() > 0
            invariant
                opts@.len() + rest@.len() == all.len(),
                forall|i: int| 0 <= i < opts@.len() ==> opts@[i] == long_only_of_spec(all[i]),
                forall|i: int| 0 <= i < rest@.len() ==> rest@[i] == all[opts@.len() + i],
            decreases rest@.len(),
        {
            let ghost n0 = opts@.len();
            let (name, kind, handling) = rest.remove(0);
            let ghost opts0 = opts@;
            let d = match handling {
                Some((target, handler)) => LongOnlyOpt::Handled {
                    long_name: name,
                    argkind: kind,
                    target,
                    handler,
                },
                None => LongOnlyOpt::Unhandled { long_name: name, argkind: kind },
            };
            let ghost dg = d;
            opts.push(d);
            proof {
                vstd::seq::axiom_seq_push_len(opts0, dg);
                assert(dg == long_only_of_spec(all[n0 as int]));
                assert forall|i: int| 0 <= i < opts@.len() implies opts@[i] == long_only_of_spec(
                    all[i],
                ) by {
                    if i < opts0.len() {
                        vstd::seq::axiom_seq_push_index_different(opts0, dg, i);
                    } else {
                        vstd::seq::axiom_seq_push_index_same(opts0, dg, i);
                    }
                }
            }
        }
        LongOnlyOptions { opts }
    }

    /// How many descriptors the table holds.
    pub fn len(&self) -> (n: usize)
        ensures
            n == self@.len(),
    {
        self.opts.len()
    }

    /// The index of the first descriptor whose name is `name`, if any.
    pub fn find(&self, name: &str) -> (r: Option<usize>)
        ensures
            match r {
                Some(i) => is_first_name(self@, name@, i as int),
                None => no_name(self@, name@),
            },
    {
        let n = self.opts.len();
        let mut i: usize = 0;
        while i < n
            invariant
                i <= n,
                n == self.opts@.len(),
                forall|j: int| 0 <= j < i ==> self.opts@[j].spec_long() != name@,
            decreases n - i,
        {
            if str_eq(self.opts[i].long_name(), name) {
                return Some(i);
            }
            i = i + 1;
        }
        None
    }

    /// The argument expectation of the descriptor at `i`.
    pub fn kind_at(&self, i: usize) -> (k: ArgKind)
        requires
            i < self@.len(),
        ensures
            k == self@[i as int].spec_kind(),
    {
        self.opts[i].argkind()
    }

    /// The current value of the target slot of the descriptor at `i`, or
    /// `None` if that descriptor is unhandled.
    pub fn target(&self, i: usize) -> (r: Option<&T>)
        requires
            i < self@.len(),
        ensures
            match r {
                Some(t) => self@[i as int].spec_target() == Some(*t),
                None => self@[i as int].spec_target() is None,
            },
    {
        match &self.opts[i] {
            LongOnlyOpt::Handled { target, .. } => Some(target),
            LongOnlyOpt::Unhandled { .. } => None,
        }
    }
}

impl<T, H: Handler<T>> LongOnlyOptions<T, H> {
    /// Run `handle_err` on the descriptor at `i`, leaving every other
    /// descriptor untouched.
    pub fn handle_at(&mut self, i: usize, arg: &str) -> (r: Option<String>)
        requires
            i < old(self)@.len(),
        ensures
            final(self)@.len() == old(self)@.len(),
            forall|j: int|
                0 <= j < final(self)@.len() && j != i ==> final(self)@[j] == old(self)@[j],
            handle_err_post(old(self)@[i as int], final(self)@[i as int], r),
    {
        let o = &mut self.opts[i];
        o.handle_err(arg)
    }
}

/// No descriptor among the first `n` has name `name`.
pub open spec fn none_name_before<T, H>(
    opts: Seq<LongOnlyOpt<T, H>>,
    name: Seq<char>,
    n: int,
) -> bool {
    forall|j: int| 0 <= j < n ==> opts[j].spec_long() != name
}

/// No descriptor at all has name `name`.
pub open spec fn no_name<T, H>(opts: Seq<LongOnlyOpt<T, H>>, name: Seq<char>) -> bool {
    none_name_before(opts, name, opts.len() as int)
}

/// `i` is the index of the first descriptor with name `name`.
pub open spec fn is_first_name<T, H>(
    opts: Seq<LongOnlyOpt<T, H>>,
    name: Seq<char>,
    i: int,
) -> bool {
    &&& 0 <= i < opts.len()
    &&& opts[i].spec_long() == name
    &&& none_name_before(opts, name, i)
}

/// The index of the first descriptor with name `name` (meaningful only
/// when some descriptor has it).
pub open spec fn first_name<T, H>(opts: Seq<LongOnlyOpt<T, H>>, name: Seq<char>) -> int {
    choose|i: int| is_first_name(opts, name, i)
}

/// First-match-wins lookup by name is unambiguous.
pub proof fn lemma_first_name_is<T, H>(opts: Seq<LongOnlyOpt<T, H>>, name: Seq<char>, i: int)
    requires
        is_first_name(opts, name, i),
    ensures
        first_name(opts, name) == i,
{
    let j = first_name(opts, name);
    assert(is_first_name(opts, name, j)) by {
        assert(is_first_name(opts, name, i));
    }
    if j < i {
        assert(opts[j].spec_long() != name);
    }
    if j > i {
        assert(opts[i].spec_long() != name);
    }
}

/// One classified item of the long-only engine: a free argument passed
/// through verbatim, or an option identified by the name it was passed as
/// (dashes stripped), with the outcome of extracting and handling its
/// value.
#[derive(Debug, PartialEq, Eq)]
pub enum PassedLongOnly {
    Free(String),
    Opt(String, Result<Option<String>, OptError>),
}

/// The abstract state of a long-only parse: the raw tokens, the current
/// descriptor table, the token index, and whether a `--` terminator has
/// put the parse in free-text mode.
pub struct LongOnlyState<T, H> {
    pub toks: Seq<String>,
    pub opts: Seq<LongOnlyOpt<T, H>>,
    pub idx: int,
    pub free: bool,
}

/// A well-formed parse state: the token index is in bounds.
pub open spec fn long_only_wf<T, H>(s: LongOnlyState<T, H>) -> bool {
    0 <= s.idx <= s.toks.len()
}

/// The state `pre` with the cursor moved to token `i` and free-text mode
/// `f`; tokens and descriptors unchanged.
pub open spec fn long_only_at<T, H>(pre: LongOnlyState<T, H>, i: int, f: bool) -> LongOnlyState<
    T,
    H,
> {
    LongOnlyState { toks: pre.toks, opts: pre.opts, idx: i, free: f }
}

/// The item `r` is a free argument spelling `t`.
pub open spec fn long_only_free_item(r: Option<PassedLongOnly>, t: Seq<char>) -> bool {
    r matches Some(PassedLongOnly::Free(s)) && s@ == t
}

/// The item `r` reports the name `name` failing with exactly the error `e`.
pub open spec fn long_only_err_item(r: Option<PassedLongOnly>, name: Seq<char>, e: OptError) -> bool {
    &&& r matches Some(PassedLongOnly::Opt(n2, res))
    &&& n2@ == name
    &&& res matches Err(e2)
    &&& e2 == e
}

/// Descriptors `a` and `b` agree everywhere except possibly at `i`, where
/// identity, kind and handledness are still preserved (only the target and
/// the handler's own state may move).
pub open spec fn opts_frame<T, H>(
    a: Seq<LongOnlyOpt<T, H>>,
    b: Seq<LongOnlyOpt<T, H>>,
    i: int,
) -> bool {
    &&& b.len() == a.len()
    &&& forall|j: int| 0 <= j < a.len() && j != i ==> b[j] == a[j]
    &&& b[i].spec_long() == a[i].spec_long()
    &&& b[i].spec_kind() == a[i].spec_kind()
    &&& b[i].spec_handled() == a[i].spec_handled()
}

/// The option named `name` (descriptor `i`) matched with extracted value
/// `arg`, and its handler ran. On handler success the item is `Ok`
/// carrying exactly `arg`; an unhandled descriptor always takes this
/// branch and changes nothing. On handler failure the item is a
/// `HandleError` and the target keeps its old value.
pub open spec fn long_only_handled_item<T, H>(
    pre: LongOnlyState<T, H>,
    post: LongOnlyState<T, H>,
    r: Option<PassedLongOnly>,
    name: Seq<char>,
    i: int,
    arg: Option<Seq<char>>,
) -> bool {
    &&& opts_frame(pre.opts, post.opts, i)
    &&& r matches Some(PassedLongOnly::Opt(n2, res)) && n2@ == name && match res {
        Ok(a) => opt_text_matches(a, arg) && (!pre.opts[i].spec_handled() ==> post.opts
            == pre.opts),
        Err(e) => {
            &&& e is HandleError
            &&& pre.opts[i].spec_handled()
            &&& post.opts[i].spec_target() == pre.opts[i].spec_target()
        },
    }
}

/// Classification of a dashed token `-name[=value]` or `--name[=value]`.
/// The name (the characters after one or two leading dashes, up to the
/// first `=`) is matched against the registered names. Unmatched names
/// yield `Invalid`. A matched `Nil` option rejects an inline value as
/// `Invalid`. A matched `Required` option without an inline value takes
/// the whole next token, or fails with `ArgRequired` when no token is
/// left.
pub open spec fn long_only_name_step<T, H>(
    pre: LongOnlyState<T, H>,
    post: LongOnlyState<T, H>,
    r: Option<PassedLongOnly>,
) -> bool {
    let t = pre.toks[pre.idx]@;
    let start = strip_of(t);
    let name = name_of(t, start);
    let val = value_of(t, start);
    if no_name(pre.opts, name) {
        long_only_err_item(r, name, OptError::Invalid) && post == long_only_at(
            pre,
            pre.idx + 1,
            false,
        )
    } else {
        let i = first_name(pre.opts, name);
        let k = pre.opts[i].spec_kind();
        match val {
            Some(v) => if k is Nil {
                long_only_err_item(r, name, OptError::Invalid) && post == long_only_at(
                    pre,
                    pre.idx + 1,
                    false,
                )
            } else {
                &&& post.idx == pre.idx + 1 && post.free == false
                &&& long_only_handled_item(pre, post, r, name, i, Some(v))
            },
            None => if k is Required {
                if pre.idx + 1 < pre.toks.len() {
                    &&& post.idx == pre.idx + 2 && post.free == false
                    &&& long_only_handled_item(pre, post, r, name, i, Some(pre.toks[pre.idx + 1]@))
                } else {
                    long_only_err_item(r, name, OptError::ArgRequired) && post == long_only_at(
                        pre,
                        pre.idx + 1,
                        false,
                    )
                }
            } else {
                &&& post.idx == pre.idx + 1 && post.free == false
                &&& long_only_handled_item(pre, post, r, name, i, None)
            },
        }
    }
}

/// The full step relation of the long-only engine: what one `next_item`
/// call yields and how the state moves, for every well-formed starting
/// state. Exhausted input ends the sequence; after `--` every token is
/// free text; a token that does not open with a dash (or the bare `-`) is
/// free text; any other dashed token is matched by its full name with one
/// or two leading dashes stripped.
pub open spec fn long_only_step<T, H>(
    pre: LongOnlyState<T, H>,
    post: LongOnlyState<T, H>,
    r: Option<PassedLongOnly>,
) -> bool {
    &&& post.toks == pre.toks
    &&& if pre.idx >= pre.toks.len() {
        r is None && post == pre
    } else if pre.free {
        long_only_free_item(r, pre.toks[pre.idx]@) && post == long_only_at(pre, pre.idx + 1, true)
    } else {
        let t = pre.toks[pre.idx]@;
        if is_dashdash(t) {
            if pre.idx + 1 >= pre.toks.len() {
                r is None && post == long_only_at(pre, pre.idx + 1, true)
            } else {
                long_only_free_item(r, pre.toks[pre.idx + 1]@) && post == long_only_at(
                    pre,
                    pre.idx + 2,
                    true,
                )
            }
        } else if t.len() >= 2 && t[0] == '-' {
            long_only_name_step(pre, post, r)
        } else {
            long_only_free_item(r, t) && post == long_only_at(pre, pre.idx + 1, false)
        }
    }
}

/// The number of leading dashes the long-only engine strips from a dashed
/// token before matching its name.
pub open spec fn strip_of(t: Seq<char>) -> int {
    if double_dashed(t) {
        2
    } else {
        1
    }
}

/// Parsing an empty argument list yields an empty sequence: the very
/// first pull ends it, and nothing changes.
pub proof fn lemma_long_only_empty<T, H>(
    pre: LongOnlyState<T, H>,
    post: LongOnlyState<T, H>,
    r: Option<PassedLongOnly>,
)
    requires
        pre.toks.len() == 0,
        0 <= pre.idx,
        long_only_step(pre, post, r),
    ensures
        r is None,
        post == pre,
{
}

/// A dashed token whose name matches no registered name yields exactly
/// one `Invalid` item under that name (with one or two leading dashes
/// stripped) and consumes exactly that token; no descriptor is touched.
pub proof fn lemma_long_only_invalid<T, H>(
    pre: LongOnlyState<T, H>,
    post: LongOnlyState<T, H>,
    r: Option<PassedLongOnly>,
)
    requires
        long_only_wf(pre),
        !pre.free,
        pre.idx < pre.toks.len(),
        pre.toks[pre.idx]@.len() >= 2,
        pre.toks[pre.idx]@[0] == '-',
        !is_dashdash(pre.toks[pre.idx]@),
        no_name(pre.opts, name_of(pre.toks[pre.idx]@, strip_of(pre.toks[pre.idx]@))),
        long_only_step(pre, post, r),
    ensures
        long_only_err_item(
            r,
            name_of(pre.toks[pre.idx]@, strip_of(pre.toks[pre.idx]@)),
            OptError::Invalid,
        ),
        post == long_only_at(pre, pre.idx + 1, false),
{
}

/// A `Required` option passed as the last token, with no inline `=value`,
/// fails with `ArgRequired`: no handler runs and every target keeps its
/// value.
pub proof fn lemma_long_only_arg_required<T, H>(
    pre: LongOnlyState<T, H>,
    post: LongOnlyState<T, H>,
    r: Option<PassedLongOnly>,
    i: int,
)
    requires
        long_only_wf(pre),
        !pre.free,
        pre.idx == pre.toks.len() - 1,
        pre.toks[pre.idx]@.len() >= 2,
        pre.toks[pre.idx]@[0] == '-',
        !is_dashdash(pre.toks[pre.idx]@),
        value_of(pre.toks[pre.idx]@, strip_of(pre.toks[pre.idx]@)) is None,
        is_first_name(pre.opts, name_of(pre.toks[pre.idx]@, strip_of(pre.toks[pre.idx]@)), i),
        pre.opts[i].spec_kind() is Required,
        long_only_step(pre, post, r),
    ensures
        long_only_err_item(
            r,
            name_of(pre.toks[pre.idx]@, strip_of(pre.toks[pre.idx]@)),
            OptError::ArgRequired,
        ),
        post == long_only_at(pre, pre.idx + 1, false),
{
    lemma_first_name_is(pre.opts, name_of(pre.toks[pre.idx]@, strip_of(pre.toks[pre.idx]@)), i);
}

/// A `Nil` option rejects any inline-attached value: a matching
/// `-name=value` or `--name=value` token yields `Invalid`, no handler
/// runs, and every target keeps its value.
pub proof fn lemma_long_only_nil_inline<T, H>(
    pre: LongOnlyState<T, H>,
    post: LongOnlyState<T, H>,
    r: Option<PassedLongOnly>,
    i: int,
)
    requires
        long_only_wf(pre),
        !pre.free,
        pre.idx < pre.toks.len(),
        pre.toks[pre.idx]@.len() >= 2,
        pre.toks[pre.idx]@[0] == '-',
        !is_dashdash(pre.toks[pre.idx]@),
        value_of(pre.toks[pre.idx]@, strip_of(pre.toks[pre.idx]@)) is Some,
        is_first_name(pre.opts, name_of(pre.toks[pre.idx]@, strip_of(pre.toks[pre.idx]@)), i),
        pre.opts[i].spec_kind() is Nil,
        long_only_step(pre, post, r),
    ensures
        long_only_err_item(
            r,
            name_of(pre.toks[pre.idx]@, strip_of(pre.toks[pre.idx]@)),
            OptError::Invalid,
        ),
        post == long_only_at(pre, pre.idx + 1, false),
{
    lemma_first_name_is(pre.opts, name_of(pre.toks[pre.idx]@, strip_of(pre.toks[pre.idx]@)), i);
}

/// A successful item never carries a value its kind forbids: when a
/// dashed token yields `Ok`, a `Required` option always holds a value and
/// a `Nil` option never does.
pub proof fn lemma_long_only_value_presence<T, H>(
    pre: LongOnlyState<T, H>,
    post: LongOnlyState<T, H>,
    r: Option<PassedLongOnly>,
    i: int,
)
    requires
        long_only_wf(pre),
        pre.idx < pre.toks.len(),
        is_first_name(pre.opts, name_of(pre.toks[pre.idx]@, strip_of(pre.toks[pre.idx]@)), i),
        long_only_name_step(pre, post, r),
    ensures
        r matches Some(PassedLongOnly::Opt(n, Ok(a))) ==> (pre.opts[i].spec_kind() is Required
            ==> a is Some) && (pre.opts[i].spec_kind() is Nil ==> a is None),
{
    lemma_first_name_is(pre.opts, name_of(pre.toks[pre.idx]@, strip_of(pre.toks[pre.idx]@)), i);
}

/// After the `--` terminator every remaining token is yielded as free
/// text, dashes notwithstanding, and free-text mode never ends.
pub proof fn lemma_long_only_free_mode<T, H>(
    pre: LongOnlyState<T, H>,
    post: LongOnlyState<T, H>,
    r: Option<PassedLongOnly>,
)
    requires
        long_only_wf(pre),
        pre.free,
        long_only_step(pre, post, r),
    ensures
        pre.idx < pre.toks.len() ==> long_only_free_item(r, pre.toks[pre.idx]@) && post
            == long_only_at(pre, pre.idx + 1, true),
        pre.idx >= pre.toks.len() ==> r is None && post == pre,
        post.free,
{
}

/// Seeing the literal token `--` turns free-text mode on: the terminator
/// itself yields no item, and the token after it (if any) is yielded free
/// in the same pull.
pub proof fn lemma_long_only_dashdash<T, H>(
    pre: LongOnlyState<T, H>,
    post: LongOnlyState<T, H>,
    r: Option<PassedLongOnly>,
)
    requires
        long_only_wf(pre),
        !pre.free,
        pre.idx < pre.toks.len(),
        is_dashdash(pre.toks[pre.idx]@),
        long_only_step(pre, post, r),
    ensures
        post.free,
        pre.idx + 1 < pre.toks.len() ==> long_only_free_item(r, pre.toks[pre.idx + 1]@)
            && post.idx == pre.idx + 2,
        pre.idx + 1 >= pre.toks.len() ==> r is None && post.idx == pre.idx + 1,
{
}

/// A lazy, single-pass long-only parse: pull items one at a time with
/// [`LongOnlyParser::next_item`]; stopping early is always safe and rolls
/// nothing back.
pub struct LongOnlyParser<T, H> {
    args: Vec<String>,
    opts: LongOnlyOptions<T, H>,
    idx: usize,
    free: bool,
}

impl<T, H> View for LongOnlyParser<T, H> {
    type V = LongOnlyState<T, H>;

    closed spec fn view(&self) -> LongOnlyState<T, H> {
        LongOnlyState { toks: self.args@, opts: self.opts@, idx: self.idx as int, free: self.free }
    }
}

/// Begin parsing `args` (the raw argument list, program name excluded)
/// against the table `opts`.
pub fn getopt<T, H>(args: Vec<String>, opts: LongOnlyOptions<T, H>) -> (p: LongOnlyParser<T, H>)
    ensures
        p@ == (LongOnlyState { toks: args@, opts: opts@, idx: 0, free: false }),
        long_only_wf(p@),
{
    LongOnlyParser { args, opts, idx: 0, free: false }
}

impl<T, H> LongOnlyParser<T, H> {
    /// Recover the option table (and with it every assigned target) once
    /// iteration is done.
    pub fn into_options(self) -> (r: LongOnlyOptions<T, H>)
        ensures
            r@ == self@.opts,
    {
        self.opts
    }
}

impl<T, H: Handler<T>> LongOnlyParser<T, H> {
    /// Classify the next token and yield its item, or `None` when the
    /// input is exhausted. The step relation [`long_only_step`] pins the
    /// item and the new state.
    pub fn next_item(&mut self) -> (r: Option<PassedLongOnly>)
        requires
            long_only_wf(old(self)@),
        ensures
            long_only_wf(final(self)@),
            long_only_step(old(self)@, final(self)@, r),
    {
        if self.idx >= self.args.len() {
            return None;
        }
        if self.free {
            let t = self.args[self.idx].clone();
            self.idx = self.idx + 1;
            return Some(PassedLongOnly::Free(t));
        }
        let (dd, dash) = token_shape(self.args[self.idx].as_str());
        if dd {
            self.free = true;
            self.idx = self.idx + 1;
            if self.idx >= self.args.len() {
                return None;
            }
            let t = self.args[self.idx].clone();
            self.idx = self.idx + 1;
            return Some(PassedLongOnly::Free(t));
        }
        if !dash {
            let t = self.args[self.idx].clone();
            self.idx = self.idx + 1;
            return Some(PassedLongOnly::Free(t));
        }
        let tlen = self.args[self.idx].as_str().unicode_len();
        let c1 = self.args[self.idx].as_str().get_char(1);
        let start: usize = if tlen >= 3 && c1 == '-' {
            2
        } else {
            1
        };
        let body = substring(self.args[self.idx].as_str(), start, tlen);
        proof {
            assert(body@ =~= self.args[self.idx as int]@.subrange(
                start as int,
                self.args[self.idx as int]@.len() as int,
            ));
        }
        let (name, val) = split_value(body.as_str());
        proof {
            assert(body@.subrange(0, body@.len() as int) =~= body@);
            assert(name@ == name_of(self@.toks[self@.idx]@, start as int));
            assert(opt_text_matches(val, value_of(self@.toks[self@.idx]@, start as int)));
        }
        let found = self.opts.find(name.as_str());
        match found {
            None => {
                self.idx = self.idx + 1;
                Some(PassedLongOnly::Opt(name, Err(OptError::Invalid)))
            },
            Some(i) => {
                proof {
                    lemma_first_name_is(self@.opts, name@, i as int);
                }
                let k = self.opts.kind_at(i);
                let arg: Option<String>;
                let next_idx: usize;
                match val {
                    Some(v) => {
                        if matches!(k, ArgKind::Nil) {
                            self.idx = self.idx + 1;
                            return Some(PassedLongOnly::Opt(name, Err(OptError::Invalid)));
                        }
                        arg = Some(v);
                        next_idx = self.idx + 1;
                    },
                    None => {
                        if matches!(k, ArgKind::Required) {
                            if self.idx + 1 < self.args.len() {
                                arg = Some(self.args[self.idx + 1].clone());
                                next_idx = self.idx + 2;
                            } else {
                                self.idx = self.idx + 1;
                                return Some(PassedLongOnly::Opt(name, Err(OptError::ArgRequired)));
                            }
                        } else {
                            arg = None;
                            next_idx = self.idx + 1;
                        }
                    },
                }
                let msg = match &arg {
                    Some(s) => self.opts.handle_at(i, s.as_str()),
                    None => self.opts.handle_at(i, ""),
                };
                proof {
                    if !old(self)@.opts[i as int].spec_handled() {
                        assert(self@.opts =~= old(self)@.opts);
                    }
                }
                self.idx = next_idx;
                match msg {
                    Some(m) => Some(PassedLongOnly::Opt(name, Err(OptError::HandleError(m)))),
                    None => Some(PassedLongOnly::Opt(name, Ok(arg))),
                }
            },
        }
    }
}

} // verus!
