//! The token-schema engine.
//!
//! A command's argument vector is a sequence of byte-string tokens. Each
//! command type implements [`CommandArgs`]: a bidirectional mapping
//! between token sequences and typed values, specified by two spec
//! functions, `spec_parse` and `spec_encode`, over the type's
//! mathematical model (its `DeepView`).

use vstd::prelude::*;

use crate::ascii::copy_bytes;

verus! {

broadcast use crate::ascii::lemma_vec_u8_deep_view, crate::ascii::lemma_slice_u8_deep_view;

/// A schema-level parse failure.
#[derive(Debug, Clone, Copy, PartialEq, Eq, Structural)]
pub enum Error {
    /// A required field had no matching tokens.
    InvalidLength,
    /// A token could not be decoded as a base-10 integer.
    Parse,
    /// Reserved: a mandatory keyword token was missing.
    TokenNotFound,
}

/// The outcome of parsing one schema type at the head of a token
/// sequence, at the specification level: either the head does not match
/// (nothing is consumed), or a model value is produced together with the
/// number of tokens consumed, or a required part is malformed.
pub enum ParseOutcome<V> {
    /// The head token does not select this type; no tokens are consumed.
    NoMatch,
    /// A value was decoded, consuming the given number of head tokens.
    Match(V, nat),
    /// The head token selects this type but a required field is malformed.
    Fail(Error),
}

/// A cursor over a token vector. Parse operations advance it past the
/// tokens they consume; a parse that answers "no match" leaves it
/// unchanged.
pub struct Cursor<'a> {
    toks: &'a [Vec<u8>],
    pos: usize,
}

impl<'a> Cursor<'a> {
    /// The whole underlying token vector.
    pub closed spec fn toks(&self) -> Seq<Seq<u8>> {
        self.toks.deep_view()
    }

    /// How many tokens have been consumed so far.
    pub closed spec fn pos(&self) -> int {
        self.pos as int
    }

    /// The cursor never runs past the end of the token vector.
    pub open spec fn wf(&self) -> bool {
        0 <= self.pos() <= self.toks().len()
    }

    /// The tokens not yet consumed.
    pub open spec fn remaining(&self) -> Seq<Seq<u8>> {
        self.toks().skip(self.pos())
    }

    /// A fresh cursor at the start of a token vector.
    pub fn new(toks: &'a [Vec<u8>]) -> (c: Cursor<'a>)
        ensures
            c.wf(),
            c.toks() == toks.deep_view(),
            c.pos() == 0,
    {
        Cursor { toks, pos: 0 }
    }

    /// How many tokens have been consumed.
    pub fn consumed(&self) -> (r: usize)
        ensures
            r == self.pos(),
    {
        self.pos
    }

    /// True when no tokens remain.
    pub fn is_empty(&self) -> (r: bool)
        requires
            self.wf(),
        ensures
            r == (self.remaining().len() == 0),
    {
        self.pos >= self.toks.len()
    }

    /// The next token, without consuming it.
    pub fn peek(&self) -> (r: Option<&Vec<u8>>)
        requires
            self.wf(),
        ensures
            match r {
                Some(t) => self.remaining().len() > 0 && t@ == self.remaining()[0],
                None => self.remaining().len() == 0,
            },
    {
        if self.pos < self.toks.len() {
            let t = &self.toks[self.pos];
            proof {
                assert(t@ == self.toks()[self.pos()]);
            }
            Some(t)
        } else {
            None
        }
    }

    /// Consumes one token.
    pub fn advance(&mut self)
        requires
            old(self).wf(),
            old(self).remaining().len() > 0,
        ensures
            final(self).wf(),
            final(self).toks() == old(self).toks(),
            final(self).pos() == old(self).pos() + 1,
    {
        let n = self.toks.len();
        proof {
            assert(self.pos < n);
        }
        self.pos = self.pos + 1;
    }

    /// Consumes the next token and returns an owned copy of it, or
    /// `None` on an exhausted cursor.
    pub fn take_head(&mut self) -> (r: Option<Vec<u8>>)
        requires
            old(self).wf(),
        ensures
            final(self).wf(),
            final(self).toks() == old(self).toks(),
            match r {
                Some(t) => old(self).remaining().len() > 0 && t@ == old(self).remaining()[0]
                    && final(self).pos() == old(self).pos() + 1,
                None => old(self).remaining().len() == 0 && final(self).pos() == old(self).pos(),
            },
    {
        if self.pos < self.toks.len() {
            let t = copy_bytes(self.toks[self.pos].as_slice());
            proof {
                assert(t@ == old(self).remaining()[0]);
            }
            self.pos = self.pos + 1;
            Some(t)
        } else {
            None
        }
    }
}

/// A command-schema type: a bidirectional mapping between token
/// sequences and typed values, specified over the type's model.
pub trait CommandArgs: DeepView + Sized {
    /// What parsing this type reads off the head of a token sequence.
    spec fn spec_parse(toks: Seq<Seq<u8>>) -> ParseOutcome<<Self as DeepView>::V>;

    /// The canonical token sequence for a model value.
    spec fn spec_encode(v: <Self as DeepView>::V) -> Seq<Seq<u8>>;

    /// Attempts to decode a value starting at the cursor's head.
    /// Answers `Ok(None)` without consuming when the head does not
    /// match, advances past the consumed tokens on success, and fails
    /// on a malformed required field.
    fn parse_maybe(args: &mut Cursor<'_>) -> (r: Result<Option<Self>, Error>)
        requires
            old(args).wf(),
        ensures
            final(args).wf(),
            final(args).toks() == old(args).toks(),
            match Self::spec_parse(old(args).remaining()) {
                ParseOutcome::NoMatch => r matches Ok(o) && o is None
                    && final(args).pos() == old(args).pos(),
                ParseOutcome::Match(v, n) => r matches Ok(o) && o matches Some(x)
                    && x.deep_view() == v && n <= old(args).remaining().len()
                    && final(args).pos() == old(args).pos() + n,
                ParseOutcome::Fail(e) => r matches Err(e2) && e2 == e
                    && old(args).pos() <= final(args).pos()
                    && final(args).pos() <= old(args).toks().len(),
            },
    ;

    /// Appends the canonical token sequence for this value.
    fn encode(&self, target: &mut Vec<Vec<u8>>) -> (r: Result<(), Error>)
        ensures
            r is Ok,
            final(target).deep_view() == old(target).deep_view() + Self::spec_encode(
                self.deep_view(),
            ),
    ;
}

/// The head token exists and equals the keyword up to ASCII case.
pub open spec fn head_matches(toks: Seq<Seq<u8>>, kw: Seq<u8>) -> bool {
    toks.len() > 0 && crate::ascii::eq_ignore_case(toks[0], kw)
}

/// Replacing the head token by one equal to it up to ASCII case does
/// not change whether any keyword matches it.
pub proof fn lemma_head_matches_case(toks: Seq<Seq<u8>>, t0: Seq<u8>, kw: Seq<u8>)
    requires
        toks.len() > 0,
        crate::ascii::eq_ignore_case(toks[0], t0),
    ensures
        head_matches(toks.update(0, t0), kw) == head_matches(toks, kw),
{
    crate::ascii::lemma_eq_ignore_case_symmetric(toks[0], t0);
    if crate::ascii::eq_ignore_case(toks[0], kw) {
        crate::ascii::lemma_eq_ignore_case_symmetric(t0, toks[0]);
        crate::ascii::lemma_eq_ignore_case_transitive(t0, toks[0], kw);
    }
    if crate::ascii::eq_ignore_case(t0, kw) {
        crate::ascii::lemma_eq_ignore_case_transitive(toks[0], t0, kw);
    }
}

/// Skipping in two steps is skipping once.
pub proof fn lemma_skip_skip(s: Seq<Seq<u8>>, a: int, b: int)
    requires
        0 <= a,
        0 <= b,
        a + b <= s.len(),
    ensures
        s.skip(a).skip(b) == s.skip(a + b),
{
    assert(s.skip(a).skip(b) =~= s.skip(a + b));
}

/// Consumes the head token when it equals the keyword up to ASCII
/// case; otherwise leaves the cursor unchanged.
pub fn eat_keyword(args: &mut Cursor<'_>, kw: &[u8]) -> (r: bool)
    requires
        old(args).wf(),
    ensures
        final(args).wf(),
        final(args).toks() == old(args).toks(),
        r == head_matches(old(args).remaining(), kw@),
        r ==> final(args).pos() == old(args).pos() + 1,
        !r ==> final(args).pos() == old(args).pos(),
{
    let matched = match args.peek() {
        Some(t) => crate::ascii::bytes_eq_ignore_case(t.as_slice(), kw),
        None => false,
    };
    if matched {
        args.advance();
    }
    matched
}

/// The borrowed-token leaf: parsing takes any one token; encoding
/// emits it back.
impl CommandArgs for Vec<u8> {
    open spec fn spec_parse(toks: Seq<Seq<u8>>) -> ParseOutcome<Seq<u8>> {
        if toks.len() == 0 {
            ParseOutcome::NoMatch
        } else {
            ParseOutcome::Match(toks[0], 1)
        }
    }

    open spec fn spec_encode(v: Seq<u8>) -> Seq<Seq<u8>> {
        seq![v]
    }

    fn parse_maybe(args: &mut Cursor<'_>) -> (r: Result<Option<Self>, Error>) {
        match args.take_head() {
            Some(t) => Ok(Some(t)),
            None => Ok(None),
        }
    }

    fn encode(&self, target: &mut Vec<Vec<u8>>) -> (r: Result<(), Error>) {
        let t = copy_bytes(self.as_slice());
        target.push(t);
        proof {
            assert(target.deep_view() =~= old(target).deep_view() + Self::spec_encode(
                self.deep_view(),
            ));
        }
        Ok(())
    }
}

/// The non-negative integer leaf: parsing takes one token and decodes
/// it base-10; encoding emits the canonical decimal digits.
impl CommandArgs for usize {
    open spec fn spec_parse(toks: Seq<Seq<u8>>) -> ParseOutcome<usize> {
        if toks.len() == 0 {
            ParseOutcome::NoMatch
        } else if crate::num::digits_ok(toks[0]) && crate::num::dec_val(toks[0]) <= usize::MAX {
            ParseOutcome::Match(crate::num::dec_val(toks[0]) as usize, 1)
        } else {
            ParseOutcome::Fail(Error::Parse)
        }
    }

    open spec fn spec_encode(v: usize) -> Seq<Seq<u8>> {
        seq![crate::num::dec_rep(v as nat)]
    }

    fn parse_maybe(args: &mut Cursor<'_>) -> (r: Result<Option<Self>, Error>) {
        match args.take_head() {
            Some(t) => match crate::num::parse_usize(t.as_slice()) {
                Some(v) => Ok(Some(v)),
                None => Err(Error::Parse),
            },
            None => Ok(None),
        }
    }

    fn encode(&self, target: &mut Vec<Vec<u8>>) -> (r: Result<(), Error>) {
        let t = crate::num::format_usize(*self);
        target.push(t);
        proof {
            assert(target.deep_view() =~= old(target).deep_view() + Self::spec_encode(
                self.deep_view(),
            ));
        }
        Ok(())
    }
}

/// The greedy sequence leaf: parsing consumes every remaining token
/// (and answers "no match" on an exhausted cursor); encoding emits the
/// elements in order.
impl CommandArgs for Vec<Vec<u8>> {
    open spec fn spec_parse(toks: Seq<Seq<u8>>) -> ParseOutcome<Seq<Seq<u8>>> {
        if toks.len() == 0 {
            ParseOutcome::NoMatch
        } else {
            ParseOutcome::Match(toks, toks.len() as nat)
        }
    }

    open spec fn spec_encode(v: Seq<Seq<u8>>) -> Seq<Seq<u8>> {
        v
    }

    fn parse_maybe(args: &mut Cursor<'_>) -> (r: Result<Option<Self>, Error>) {
        if args.is_empty() {
            return Ok(None);
        }
        let mut out: Vec<Vec<u8>> = Vec::new();
        proof {
            assert(out.deep_view() =~= Seq::<Seq<u8>>::empty());
            assert(out.deep_view() + args.remaining() =~= old(args).remaining());
        }
        loop
            invariant
                args.wf(),
                args.toks() == old(args).toks(),
                old(args).pos() <= args.pos(),
                out.deep_view() + args.remaining() == old(args).remaining(),
                out.deep_view().len() == args.pos() - old(args).pos(),
            ensures
                args.wf(),
                args.toks() == old(args).toks(),
                old(args).pos() <= args.pos(),
                args.remaining().len() == 0,
                out.deep_view() + args.remaining() == old(args).remaining(),
                out.deep_view().len() == args.pos() - old(args).pos(),
            decreases args.remaining().len(),
        {
            match args.take_head() {
                Some(t) => {
                    out.push(t);
                    proof {
                        assert(out.deep_view() + args.remaining() =~~= old(args).remaining());
                    }
                },
                None => {
                    break ;
                },
            }
        }
        proof {
            assert(out.deep_view() =~~= old(args).remaining());
        }
        Ok(Some(out))
    }

    fn encode(&self, target: &mut Vec<Vec<u8>>) -> (r: Result<(), Error>) {
        let mut i: usize = 0;
        while i < self.len()
            invariant
                0 <= i <= self@.len(),
                target.deep_view() == old(target).deep_view() + self.deep_view().take(i as int),
            decreases self@.len() - i,
        {
            let t = copy_bytes(self[i].as_slice());
            let ghost pre = target.deep_view();
            target.push(t);
            proof {
                assert(target.deep_view() =~~= pre.push(t@));
                assert(t@ == self.deep_view()[i as int]);
                assert(pre.push(t@) =~~= old(target).deep_view() + self.deep_view().take(i + 1));
            }
            i = i + 1;
        }
        proof {
            assert(self.deep_view().take(self.deep_view().len() as int) =~~= self.deep_view());
        }
        Ok(())
    }
}

/// Parse progress and the round trips of the leaf schemas, over any
/// token vector `toks`: a successful leaf parse consumes at least one
/// token, and parsing what a leaf encodes gives the value back. The
/// greedy sequence leaf round-trips only when it is non-empty:
/// encoding an empty sequence emits no tokens, and parsing an empty
/// vector answers "no match".
pub proof fn lemma_leaf_laws(toks: Seq<Seq<u8>>, t: Seq<u8>, n: usize, vs: Seq<Seq<u8>>)
    ensures
        <Vec<u8> as CommandArgs>::spec_parse(toks) matches ParseOutcome::Match(v, c) ==> c >= 1,
        <usize as CommandArgs>::spec_parse(toks) matches ParseOutcome::Match(v, c) ==> c >= 1,
        <Vec<Vec<u8>> as CommandArgs>::spec_parse(toks) matches ParseOutcome::Match(v, c) ==> c
            >= 1,
        <Vec<u8> as CommandArgs>::spec_parse(<Vec<u8> as CommandArgs>::spec_encode(t))
            == ParseOutcome::Match(t, 1nat),
        <usize as CommandArgs>::spec_parse(<usize as CommandArgs>::spec_encode(n))
            == ParseOutcome::Match(n, 1nat),
        vs.len() > 0 ==> <Vec<Vec<u8>> as CommandArgs>::spec_parse(
            <Vec<Vec<u8>> as CommandArgs>::spec_encode(vs),
        ) == ParseOutcome::Match(vs, vs.len()),
{
    crate::num::lemma_dec_rep_digits(n as nat);
    crate::num::lemma_dec_rep_val(n as nat);
    assert(seq![t][0] == t);
    assert(seq![crate::num::dec_rep(n as nat)][0] == crate::num::dec_rep(n as nat));
}

} // verus!
