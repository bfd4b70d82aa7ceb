//! Short options: single-character flags introduced by one dash, optionally
//! bundled with other short flags in one token (`-abc`).

use vstd::prelude::*;

use crate::ArgKind;
use crate::Handler;
use crate::OptError;
use crate::text::dashed;
use crate::text::is_dashdash;
use crate::text::opt_text_matches;
use crate::text::substring;
use crate::text::token_shape;

verus! {

/// A short-option descriptor: a single-character identity, an argument
/// expectation, and (for the handled variant) a target slot together with
/// the handler that computes values for it.
pub enum ShortOpt<T, H> {
    Unhandled { short_name: char, argkind: ArgKind },
    Handled { short_name: char, argkind: ArgKind, target: T, handler: H },
}

impl<T, H> ShortOpt<T, H> {
    /// The single-character identity the descriptor is matched by.
    pub open spec fn spec_short(self) -> char {
        match self {
            ShortOpt::Unhandled { short_name, .. } => short_name,
            ShortOpt::Handled { short_name, .. } => short_name,
        }
    }

    /// The descriptor's argument expectation.
    pub open spec fn spec_kind(self) -> ArgKind {
        match self {
            ShortOpt::Unhandled { argkind, .. } => argkind,
            ShortOpt::Handled { argkind, .. } => argkind,
        }
    }

    /// Whether the descriptor carries a handler and a target slot.
    pub open spec fn spec_handled(self) -> bool {
        self is Handled
    }

    /// The current value of the target slot, if the descriptor has one.
    pub open spec fn spec_target(self) -> Option<T> {
        match self {
            ShortOpt::Unhandled { .. } => None,
            ShortOpt::Handled { target, .. } => Some(target),
        }
    }

    pub fn short_name(&self) -> (c: char)
        ensures
            c == self.spec_short(),
    {
        match self {
            ShortOpt::Unhandled { short_name, .. } => *short_name,
            ShortOpt::Handled { short_name, .. } => *short_name,
        }
    }

    pub fn argkind(&self) -> (k: ArgKind)
        ensures
            k == self.spec_kind(),
    {
        match self {
            ShortOpt::Unhandled { argkind, .. } => *argkind,
            ShortOpt::Handled { argkind, .. } => *argkind,
        }
    }

    /// The descriptor with its target slot holding `v`; an unhandled
    /// descriptor (which has no slot) is unchanged.
    pub open spec fn spec_set_target(self, v: T) -> ShortOpt<T, H> {
        match self {
            ShortOpt::Unhandled { .. } => self,
            ShortOpt::Handled { short_name, argkind, handler, .. } => ShortOpt::Handled {
                short_name,
                argkind,
                target: v,
                handler,
            },
        }
    }

    /// Store or reject a handler's result: on `Ok(v)` the target becomes
    /// exactly `v` and no error is reported; on `Err(m)` the descriptor is
    /// left untouched and `m` is reported unmodified. An unhandled
    /// descriptor ignores the result and reports no error.
    pub fn apply_handler_result(&mut self, res: Result<T, String>) -> (r: Option<String>)
        ensures
            !old(self).spec_handled() ==> *final(self) == *old(self) && r is None,
            old(self).spec_handled() ==> match res {
                Ok(v) => r is None && *final(self) == old(self).spec_set_target(v),
                Err(m) => r == Some(m) && *final(self) == *old(self),
            },
    {
        match self {
            ShortOpt::Unhandled { .. } => None,
            ShortOpt::Handled { target, .. } => {
                match res {
                    Ok(v) => {
                        *target = v;
                        None
                    },
                    Err(m) => Some(m),
                }
            },
        }
    }
}

/// Relates a descriptor before and after a `handle_err` call that returned
/// `r`: identity, kind and handledness never change; an unhandled
/// descriptor stays exactly as it was and reports no error; a handled
/// descriptor's target keeps its old value whenever an error is reported.
pub open spec fn handle_err_post<T, H>(
    pre: ShortOpt<T, H>,
    post: ShortOpt<T, H>,
    r: Option<String>,
) -> bool {
    &&& post.spec_short() == pre.spec_short()
    &&& post.spec_kind() == pre.spec_kind()
    &&& post.spec_handled() == pre.spec_handled()
    &&& !pre.spec_handled() ==> post == pre && r is None
    &&& r is Some ==> post.spec_target() == pre.spec_target()
}

impl<T, H: Handler<T>> ShortOpt<T, H> {
    /// Attempt to handle the extracted value text `arg`. For an unhandled
    /// descriptor this is a no-op that reports no error. For a handled one
    /// the handler runs: on `Ok(v)` the target becomes `v` and no error is
    /// reported; on `Err(m)` the target is untouched and `m` is reported.
    pub fn handle_err(&mut self, arg: &str) -> (r: Option<String>)
        ensures
            handle_err_post(*old(self), *final(self), r),
    {
        let res = match self {
            ShortOpt::Unhandled { .. } => {
                return None;
            },
            ShortOpt::Handled { handler, .. } => handler.handle(arg),
        };
        self.apply_handler_result(res)
    }
}

/// An ordered table of short-option descriptors. Order is significant only
/// for first-match-wins lookup: if two descriptors share an identity, the
/// earlier one silently shadows the later.
pub struct ShortOptions<T, H> {
    opts: Vec<ShortOpt<T, H>>,
}

impl<T, H> View for ShortOptions<T, H> {
    type V = Seq<ShortOpt<T, H>>;

    closed spec fn view(&self) -> Seq<ShortOpt<T, H>> {
        self.opts@
    }
}

/// The descriptor a specification tuple stands for: `(identity, kind, None)`
/// gives an unhandled descriptor, `(identity, kind, Some((target, handler)))`
/// a handled one.
pub open spec fn short_of_spec<T, H>(s: (char, ArgKind, Option<(T, H)>)) -> ShortOpt<T, H> {
    match s.2 {
        None => ShortOpt::Unhandled { short_name: s.0, argkind: s.1 },
        Some(pair) => ShortOpt::Handled {
            short_name: s.0,
            argkind: s.1,
            target: pair.0,
            handler: pair.1,
        },
    }
}

impl<T, H> ShortOptions<T, H> {
    /// Build a table with one descriptor per specification tuple, in input
    /// order. Identities are not checked for uniqueness: a colliding later
    /// tuple is shadowed at classification time, never rejected.
    #[verifier::loop_isolation(false)]
    pub fn new(specs: Vec<(char, ArgKind, Option<(T, H)>)>) -> (r: ShortOptions<T, H>)
        ensures
            r@.len() == specs@.len(),
            forall|i: int| 0 <= i < specs@.len() ==> r@[i] == short_of_spec(specs@[i]),
    {
        let mut rest = specs;
        let mut opts: Vec<ShortOpt<T, H>> = Vec::new();
        let ghost all = rest@;
        while rest.len() > 0
            invariant
                opts@.len() + rest@.len() == all.len(),
                forall|i: int| 0 <= i < opts@.len() ==> opts@[i] == short_of_spec(all[i]),
                forall|i: int| 0 <= i < rest@.len() ==> rest@[i] == all[opts@.len() + i],
            decreases rest@.len(),
        {
            let ghost n0 = opts@.len();
            let (name, kind, handling) = rest.remove(0);
            let ghost opts0 = opts@;
            let d = match handling {
                Some((target, handler)) => ShortOpt::Handled {
                    short_name: name,
                    argkind: kind,
                    target,
                    handler,
                },
                None => ShortOpt::Unhandled { short_name: name, argkind: kind },
            };
            let ghost dg = d;
            opts.push(d);
            proof {
                vstd::seq::axiom_seq_push_len(opts0, dg);
                assert(dg == short_of_spec(all[n0 as int]));
                assert forall|i: int| 0 <= i < opts@.len() implies opts@[i] == short_of_spec(
                    all[i],
                ) by {
                    if i < opts0.len() {
                        vstd::seq::axiom_seq_push_index_different(opts0, dg, i);
                    } else {
                        vstd::seq::axiom_seq_push_index_same(opts0, dg, i);
                    }
                }
            }
        }
        ShortOptions { opts }
    }

    /// How many descriptors the table holds.
    pub fn len(&self) -> (n: usize)
        ensures
            n == self@.len(),
    {
        self.opts.len()
    }

    /// The index of the first descriptor registered under `c`, if any.
    pub fn find(&self, c: char) -> (r: Option<usize>)
        ensures
            match r {
                Some(i) => is_first_short(self@, c, i as int),
                None => no_short(self@, c),
            },
    {
        let n = self.opts.len();
        let mut i: usize = 0;
        while i < n
            invariant
                i <= n,
                n == self.opts@.len(),
                forall|j: int| 0 <= j < i ==> self.opts@[j].spec_short() != c,
            decreases n - i,
        {
            if self.opts[i].short_name() == c {
                return Some(i);
            }
            i = i + 1;
        }
        None
    }

    /// The argument expectation of the descriptor at `i`.
    pub fn kind_at(&self, i: usize) -> (k: ArgKind)
        requires
            i < self@.len(),
        ensures
            k == self@[i as int].spec_kind(),
    {
        self.opts[i].argkind()
    }

    /// The current value of the target slot of the descriptor at `i`, or
    /// `None` if that descriptor is unhandled.
    pub fn target(&self, i: usize) -> (r: Option<&T>)
        requires
            i < self@.len(),
        ensures
            match r {
                Some(t) => self@[i as int].spec_target() == Some(*t),
                None => self@[i as int].spec_target() is None,
            },
    {
        match &self.opts[i] {
            ShortOpt::Handled { target, .. } => Some(target),
            ShortOpt::Unhandled { .. } => None,
        }
    }
}

impl<T, H: Handler<T>> ShortOptions<T, H> {
    /// Run `handle_err` on the descriptor at `i`, leaving every other
    /// descriptor untouched.
    pub fn handle_at(&mut self, i: usize, arg: &str) -> (r: Option<String>)
        requires
            i < old(self)@.len(),
        ensures
            final(self)@.len() == old(self)@.len(),
            forall|j: int|
                0 <= j < final(self)@.len() && j != i ==> final(self)@[j] == old(self)@[j],
            handle_err_post(old(self)@[i as int], final(self)@[i as int], r),
    {
        let o = &mut self.opts[i];
        o.handle_err(arg)
    }
}

/// No descriptor among the first `n` is registered under `c`.
pub open spec fn none_short_before<T, H>(opts: Seq<ShortOpt<T, H>>, c: char, n: int) -> bool {
    forall|j: int| 0 <= j < n ==> opts[j].spec_short() != c
}

/// No descriptor at all is registered under `c`.
pub open spec fn no_short<T, H>(opts: Seq<ShortOpt<T, H>>, c: char) -> bool {
    none_short_before(opts, c, opts.len() as int)
}

/// `i` is the index of the first descriptor registered under `c`.
pub open spec fn is_first_short<T, H>(opts: Seq<ShortOpt<T, H>>, c: char, i: int) -> bool {
    &&& 0 <= i < opts.len()
    &&& opts[i].spec_short() == c
    &&& none_short_before(opts, c, i)
}

/// The index of the first descriptor registered under `c` (meaningful only
/// when some descriptor is).
pub open spec fn first_short<T, H>(opts: Seq<ShortOpt<T, H>>, c: char) -> int {
    choose|i: int| is_first_short(opts, c, i)
}

/// First-match-wins lookup is unambiguous: at most one index is first.
pub proof fn lemma_first_short_is<T, H>(opts: Seq<ShortOpt<T, H>>, c: char, i: int)
    requires
        is_first_short(opts, c, i),
    ensures
        first_short(opts, c) == i,
{
    let j = first_short(opts, c);
    assert(is_first_short(opts, c, j)) by {
        assert(is_first_short(opts, c, i));
    }
    if j < i {
        assert(opts[j].spec_short() != c);
    }
    if j > i {
        assert(opts[i].spec_short() != c);
    }
}

/// One classified item of the short engine: a free argument passed through
/// verbatim, or an option identified by the character it was passed as,
/// with the outcome of extracting and handling its value.
#[derive(Debug, PartialEq, Eq)]
pub enum PassedShort {
    Free(String),
    Opt(char, Result<Option<String>, OptError>),
}

/// The abstract state of a short-option parse: the raw tokens, the current
/// descriptor table, the token index, the character position inside the
/// current token (`0` means the token has not been opened yet), and
/// whether a `--` terminator has put the parse in free-text mode.
pub struct ShortState<T, H> {
    pub toks: Seq<String>,
    pub opts: Seq<ShortOpt<T, H>>,
    pub idx: int,
    pub pos: int,
    pub free: bool,
}

/// A well-formed parse state: the token index is in bounds, and a nonzero
/// character position points into the current token and only occurs
/// outside free-text mode.
pub open spec fn short_wf<T, H>(s: ShortState<T, H>) -> bool {
    &&& 0 <= s.idx <= s.toks.len()
    &&& s.pos == 0 || (s.idx < s.toks.len() && 1 <= s.pos < s.toks[s.idx]@.len() && !s.free)
}

/// The state `pre` with the cursor moved to token `i`, position `p`, and
/// free-text mode `f`; tokens and descriptors unchanged.
pub open spec fn short_at<T, H>(pre: ShortState<T, H>, i: int, p: int, f: bool) -> ShortState<
    T,
    H,
> {
    ShortState { toks: pre.toks, opts: pre.opts, idx: i, pos: p, free: f }
}

/// The item `r` is a free argument spelling `t`.
pub open spec fn free_item(r: Option<PassedShort>, t: Seq<char>) -> bool {
    r matches Some(PassedShort::Free(s)) && s@ == t
}

/// The item `r` reports option `c` failing with exactly the error `e`.
pub open spec fn short_err_item(r: Option<PassedShort>, c: char, e: OptError) -> bool {
    &&& r matches Some(PassedShort::Opt(c2, res))
    &&& c2 == c
    &&& res matches Err(e2)
    &&& e2 == e
}

/// Descriptors `a` and `b` agree everywhere except possibly at `i`, where
/// identity, kind and handledness are still preserved (only the target and
/// the handler's own state may move).
pub open spec fn opts_frame<T, H>(a: Seq<ShortOpt<T, H>>, b: Seq<ShortOpt<T, H>>, i: int) -> bool {
    &&& b.len() == a.len()
    &&& forall|j: int| 0 <= j < a.len() && j != i ==> b[j] == a[j]
    &&& b[i].spec_short() == a[i].spec_short()
    &&& b[i].spec_kind() == a[i].spec_kind()
    &&& b[i].spec_handled() == a[i].spec_handled()
}

/// Option `c` (descriptor `i`) matched with extracted value `arg`, and its
/// handler ran. On handler success the item is `Ok` carrying exactly
/// `arg`; an unhandled descriptor always takes this branch and changes
/// nothing. On handler failure the item is a `HandleError` and the target
/// keeps its old value.
pub open spec fn short_handled_item<T, H>(
    pre: ShortState<T, H>,
    post: ShortState<T, H>,
    r: Option<PassedShort>,
    c: char,
    i: int,
    arg: Option<Seq<char>>,
) -> bool {
    &&& opts_frame(pre.opts, post.opts, i)
    &&& r matches Some(PassedShort::Opt(c2, res)) && c2 == c && match res {
        Ok(a) => opt_text_matches(a, arg) && (!pre.opts[i].spec_handled() ==> post.opts
            == pre.opts),
        Err(e) => {
            &&& e is HandleError
            &&& pre.opts[i].spec_handled()
            &&& post.opts[i].spec_target() == pre.opts[i].spec_target()
        },
    }
}

/// Classification of the option character at position `p` of the current
/// token. An unmatched character yields `Invalid` and abandons the rest of
/// the token. A matched one extracts its value by kind: `Required` takes
/// the non-empty remainder of the token, else the whole next token, else
/// fails with `ArgRequired`; `Optional` takes the non-empty remainder or
/// nothing; `Nil` takes nothing and lets bundling continue with the next
/// character.
pub open spec fn short_opt_step<T, H>(
    pre: ShortState<T, H>,
    post: ShortState<T, H>,
    r: Option<PassedShort>,
    p: int,
) -> bool {
    let t = pre.toks[pre.idx]@;
    let c = t[p];
    if no_short(pre.opts, c) {
        short_err_item(r, c, OptError::Invalid) && post == short_at(pre, pre.idx + 1, 0, false)
    } else {
        let i = first_short(pre.opts, c);
        let k = pre.opts[i].spec_kind();
        let more = p + 1 < t.len();
        if k is Required {
            if more {
                &&& post.idx == pre.idx + 1 && post.pos == 0 && post.free == false
                &&& short_handled_item(pre, post, r, c, i, Some(t.subrange(p + 1, t.len() as int)))
            } else if pre.idx + 1 < pre.toks.len() {
                &&& post.idx == pre.idx + 2 && post.pos == 0 && post.free == false
                &&& short_handled_item(pre, post, r, c, i, Some(pre.toks[pre.idx + 1]@))
            } else {
                short_err_item(r, c, OptError::ArgRequired) && post == short_at(
                    pre,
                    pre.idx + 1,
                    0,
                    false,
                )
            }
        } else if k is Optional {
            &&& post.idx == pre.idx + 1 && post.pos == 0 && post.free == false
            &&& short_handled_item(
                pre,
                post,
                r,
                c,
                i,
                if more {
                    Some(t.subrange(p + 1, t.len() as int))
                } else {
                    None
                },
            )
        } else {
            &&& (if more {
                post.idx == pre.idx && post.pos == p + 1
            } else {
                post.idx == pre.idx + 1 && post.pos == 0
            })
            &&& post.free == false
            &&& short_handled_item(pre, post, r, c, i, None)
        }
    }
}

/// The full step relation of the short engine: what one `next_item` call
/// yields and how the state moves, for every well-formed starting state.
/// Exhausted input ends the sequence; after `--` every token is free text;
/// a token that does not open with a dash (or the bare `-`) is free text;
/// otherwise the characters after the dash are classified one by one.
pub open spec fn short_step<T, H>(
    pre: ShortState<T, H>,
    post: ShortState<T, H>,
    r: Option<PassedShort>,
) -> bool {
    &&& post.toks == pre.toks
    &&& if pre.idx >= pre.toks.len() {
        r is None && post == pre
    } else if pre.free {
        free_item(r, pre.toks[pre.idx]@) && post == short_at(pre, pre.idx + 1, 0, true)
    } else if pre.pos >= 1 {
        short_opt_step(pre, post, r, pre.pos)
    } else {
        let t = pre.toks[pre.idx]@;
        if is_dashdash(t) {
            if pre.idx + 1 >= pre.toks.len() {
                r is None && post == short_at(pre, pre.idx + 1, 0, true)
            } else {
                free_item(r, pre.toks[pre.idx + 1]@) && post == short_at(pre, pre.idx + 2, 0, true)
            }
        } else if !dashed(t) {
            free_item(r, t) && post == short_at(pre, pre.idx + 1, 0, false)
        } else {
            short_opt_step(pre, post, r, 1)
        }
    }
}

/// Parsing an empty argument list yields an empty sequence: the very
/// first pull ends it, and nothing changes.
pub proof fn lemma_short_empty<T, H>(
    pre: ShortState<T, H>,
    post: ShortState<T, H>,
    r: Option<PassedShort>,
)
    requires
        pre.toks.len() == 0,
        0 <= pre.idx,
        short_step(pre, post, r),
    ensures
        r is None,
        post == pre,
{
}

/// A dashed token whose first option character matches no registered
/// identity yields exactly one `Invalid` item under that character, and
/// the engine moves on to the next token; no descriptor is touched.
pub proof fn lemma_short_invalid<T, H>(
    pre: ShortState<T, H>,
    post: ShortState<T, H>,
    r: Option<PassedShort>,
)
    requires
        short_wf(pre),
        !pre.free,
        pre.pos == 0,
        pre.idx < pre.toks.len(),
        dashed(pre.toks[pre.idx]@),
        no_short(pre.opts, pre.toks[pre.idx]@[1]),
        short_step(pre, post, r),
    ensures
        short_err_item(r, pre.toks[pre.idx]@[1], OptError::Invalid),
        post == short_at(pre, pre.idx + 1, 0, false),
{
}

/// A `Required` option passed as the last token, with no inline value,
/// fails with `ArgRequired`: no handler runs and every target keeps its
/// value.
pub proof fn lemma_short_arg_required<T, H>(
    pre: ShortState<T, H>,
    post: ShortState<T, H>,
    r: Option<PassedShort>,
    i: int,
)
    requires
        short_wf(pre),
        !pre.free,
        pre.pos == 0,
        pre.idx == pre.toks.len() - 1,
        pre.toks[pre.idx]@.len() == 2,
        pre.toks[pre.idx]@[0] == '-',
        pre.toks[pre.idx]@[1] != '-',
        is_first_short(pre.opts, pre.toks[pre.idx]@[1], i),
        pre.opts[i].spec_kind() is Required,
        short_step(pre, post, r),
    ensures
        short_err_item(r, pre.toks[pre.idx]@[1], OptError::ArgRequired),
        post == short_at(pre, pre.idx + 1, 0, false),
{
    lemma_first_short_is(pre.opts, pre.toks[pre.idx]@[1], i);
}

/// A successful item never carries a value its kind forbids: when the
/// yielded result is `Ok`, a `Required` option always holds a value and a
/// `Nil` option never does. In particular a `Nil` option never consumes
/// text attached to it in the token: the characters after it are
/// classified on their own.
pub proof fn lemma_short_value_presence<T, H>(
    pre: ShortState<T, H>,
    post: ShortState<T, H>,
    r: Option<PassedShort>,
    p: int,
    i: int,
)
    requires
        short_wf(pre),
        pre.idx < pre.toks.len(),
        1 <= p < pre.toks[pre.idx]@.len(),
        is_first_short(pre.opts, pre.toks[pre.idx]@[p], i),
        short_opt_step(pre, post, r, p),
    ensures
        r matches Some(PassedShort::Opt(c, res)) ==> c == pre.toks[pre.idx]@[p],
        r matches Some(PassedShort::Opt(c, Ok(a))) ==> (pre.opts[i].spec_kind() is Required ==> a
            is Some) && (pre.opts[i].spec_kind() is Nil ==> a is None),
        pre.opts[i].spec_kind() is Nil && p + 1 < pre.toks[pre.idx]@.len() ==> post.idx == pre.idx
            && post.pos == p + 1,
{
    lemma_first_short_is(pre.opts, pre.toks[pre.idx]@[p], i);
}

/// After the `--` terminator every remaining token is yielded as free
/// text, dashes notwithstanding, and free-text mode never ends.
pub proof fn lemma_short_free_mode<T, H>(
    pre: ShortState<T, H>,
    post: ShortState<T, H>,
    r: Option<PassedShort>,
)
    requires
        short_wf(pre),
        pre.free,
        short_step(pre, post, r),
    ensures
        pre.idx < pre.toks.len() ==> free_item(r, pre.toks[pre.idx]@) && post == short_at(
            pre,
            pre.idx + 1,
            0,
            true,
        ),
        pre.idx >= pre.toks.len() ==> r is None && post == pre,
        post.free,
{
}

/// Seeing the literal token `--` turns free-text mode on: the terminator
/// itself yields no item, and the token after it (if any) is yielded free
/// in the same pull.
pub proof fn lemma_short_dashdash<T, H>(
    pre: ShortState<T, H>,
    post: ShortState<T, H>,
    r: Option<PassedShort>,
)
    requires
        short_wf(pre),
        !pre.free,
        pre.pos == 0,
        pre.idx < pre.toks.len(),
        is_dashdash(pre.toks[pre.idx]@),
        short_step(pre, post, r),
    ensures
        post.free,
        pre.idx + 1 < pre.toks.len() ==> free_item(r, pre.toks[pre.idx + 1]@) && post.idx
            == pre.idx + 2,
        pre.idx + 1 >= pre.toks.len() ==> r is None && post.idx == pre.idx + 1,
{
}

/// A lazy, single-pass short-option parse: pull items one at a time with
/// [`ShortParser::next_item`]; stopping early is always safe and rolls
/// nothing back.
pub struct ShortParser<T, H> {
    args: Vec<String>,
    opts: ShortOptions<T, H>,
    idx: usize,
    pos: usize,
    free: bool,
}

impl<T, H> View for ShortParser<T, H> {
    type V = ShortState<T, H>;

    closed spec fn view(&self) -> ShortState<T, H> {
        ShortState {
            toks: self.args@,
            opts: self.opts@,
            idx: self.idx as int,
            pos: self.pos as int,
            free: self.free,
        }
    }
}

/// Begin parsing `args` (the raw argument list, program name excluded)
/// against the table `opts`.
pub fn getopt<T, H>(args: Vec<String>, opts: ShortOptions<T, H>) -> (p: ShortParser<T, H>)
    ensures
        p@ == (ShortState { toks: args@, opts: opts@, idx: 0, pos: 0, free: false }),
        short_wf(p@),
{
    ShortParser { args, opts, idx: 0, pos: 0, free: false }
}

impl<T, H> ShortParser<T, H> {
    /// Recover the option table (and with it every assigned target) once
    /// iteration is done.
    pub fn into_options(self) -> (r: ShortOptions<T, H>)
        ensures
            r@ == self@.opts,
    {
        self.opts
    }
}

impl<T, H: Handler<T>> ShortParser<T, H> {
    /// Classify the next token group and yield its item, or `None` when
    /// the input is exhausted. The step relation [`short_step`] pins the
    /// item and the new state.
    pub fn next_item(&mut self) -> (r: Option<PassedShort>)
        requires
            short_wf(old(self)@),
        ensures
            short_wf(final(self)@),
            short_step(old(self)@, final(self)@, r),
    {
        if self.idx >= self.args.len() {
            return None;
        }
        if self.free {
            let t = self.args[self.idx].clone();
            self.idx = self.idx + 1;
            return Some(PassedShort::Free(t));
        }
        if self.pos == 0 {
            let (dd, dash) = token_shape(self.args[self.idx].as_str());
            if dd {
                self.free = true;
                self.idx = self.idx + 1;
                if self.idx >= self.args.len() {
                    return None;
                }
                let t = self.args[self.idx].clone();
                self.idx = self.idx + 1;
                return Some(PassedShort::Free(t));
            }
            if !dash {
                let t = self.args[self.idx].clone();
                self.idx = self.idx + 1;
                return Some(PassedShort::Free(t));
            }
            self.pos = 1;
        }
        let p = self.pos;
        let tlen = self.args[self.idx].as_str().unicode_len();
        let c = self.args[self.idx].as_str().get_char(p);
        let found = self.opts.find(c);
        match found {
            None => {
                self.idx = self.idx + 1;
                self.pos = 0;
                Some(PassedShort::Opt(c, Err(OptError::Invalid)))
            },
            Some(i) => {
                proof {
                    lemma_first_short_is(self@.opts, c, i as int);
                }
                let k = self.opts.kind_at(i);
                let mut arg: Option<String> = None;
                let next_idx: usize;
                let next_pos: usize;
                match k {
                    ArgKind::Required => {
                        if p + 1 < tlen {
                            arg = Some(substring(self.args[self.idx].as_str(), p + 1, tlen));
                            next_idx = self.idx + 1;
                            next_pos = 0;
                        } else if self.idx + 1 < self.args.len() {
                            arg = Some(self.args[self.idx + 1].clone());
                            next_idx = self.idx + 2;
                            next_pos = 0;
                        } else {
                            self.idx = self.idx + 1;
                            self.pos = 0;
                            return Some(PassedShort::Opt(c, Err(OptError::ArgRequired)));
                        }
                    },
                    ArgKind::Optional => {
                        if p + 1 < tlen {
                            arg = Some(substring(self.args[self.idx].as_str(), p + 1, tlen));
                        }
                        next_idx = self.idx + 1;
                        next_pos = 0;
                    },
                    ArgKind::Nil => {
                        if p + 1 < tlen {
                            next_idx = self.idx;
                            next_pos = p + 1;
                        } else {
                            next_idx = self.idx + 1;
                            next_pos = 0;
                        }
                    },
                }
                let msg = match &arg {
                    Some(s) => self.opts.handle_at(i, s.as_str()),
                    None => self.opts.handle_at(i, ""),
                };
                proof {
                    if !old(self)@.opts[i as int].spec_handled() {
                        assert(self@.opts =~= old(self)@.opts);
                    }
                }
                self.idx = next_idx;
                self.pos = next_pos;
                match msg {
                    Some(m) => Some(PassedShort::Opt(c, Err(OptError::HandleError(m)))),
                    None => Some(PassedShort::Opt(c, Ok(arg))),
                }
            },
        }
    }
}

} // verus!
