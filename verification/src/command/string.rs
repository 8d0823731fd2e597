//! String commands: GET, SET (with its option blocks), INCR.

use vstd::prelude::*;

use crate::command_args::{
    eat_keyword, head_matches, lemma_skip_skip, CommandArgs, Cursor, Error, ParseOutcome,
};
use crate::ascii::eq_ignore_case;

verus! {

broadcast use crate::ascii::lemma_vec_u8_deep_view, crate::ascii::lemma_slice_u8_deep_view;

/// The keyword `GET`.
pub open spec fn kw_get() -> Seq<u8> {
    seq![71u8, 69u8, 84u8]
}

/// The keyword `SET`.
pub open spec fn kw_set() -> Seq<u8> {
    seq![83u8, 69u8, 84u8]
}

/// The keyword `INCR`.
pub open spec fn kw_incr() -> Seq<u8> {
    seq![73u8, 78u8, 67u8, 82u8]
}

/// The keyword `NX`.
pub open spec fn kw_nx() -> Seq<u8> {
    seq![78u8, 88u8]
}

/// The keyword `XX`.
pub open spec fn kw_xx() -> Seq<u8> {
    seq![88u8, 88u8]
}

/// The keyword `EX`.
pub open spec fn kw_ex() -> Seq<u8> {
    seq![69u8, 88u8]
}

/// The keyword `PX`.
pub open spec fn kw_px() -> Seq<u8> {
    seq![80u8, 88u8]
}

/// The keyword `EXAT`.
pub open spec fn kw_exat() -> Seq<u8> {
    seq![69u8, 88u8, 65u8, 84u8]
}

/// The keyword `PXAT`.
pub open spec fn kw_pxat() -> Seq<u8> {
    seq![80u8, 88u8, 65u8, 84u8]
}

/// The keyword `KeepTTL`.
pub open spec fn kw_keepttl() -> Seq<u8> {
    seq![75u8, 101u8, 101u8, 112u8, 84u8, 84u8, 76u8]
}

/// The GET command: read the string stored under the key.
#[derive(Debug)]
pub struct GetCommand {
    pub key: Vec<u8>,
}

/// Model of [`GetCommand`].
pub struct GetCommandV {
    pub key: Seq<u8>,
}

impl DeepView for GetCommand {
    type V = GetCommandV;

    open spec fn deep_view(&self) -> GetCommandV {
        GetCommandV { key: self.key@ }
    }
}

impl CommandArgs for GetCommand {
    open spec fn spec_parse(toks: Seq<Seq<u8>>) -> ParseOutcome<GetCommandV> {
        if !head_matches(toks, kw_get()) {
            ParseOutcome::NoMatch
        } else {
            match <Vec<u8> as CommandArgs>::spec_parse(toks.skip(1)) {
                ParseOutcome::NoMatch => ParseOutcome::Fail(Error::InvalidLength),
                ParseOutcome::Fail(e) => ParseOutcome::Fail(e),
                ParseOutcome::Match(k, n1) => ParseOutcome::Match(
                    GetCommandV { key: k },
                    (1 + n1) as nat,
                ),
            }
        }
    }

    open spec fn spec_encode(v: GetCommandV) -> Seq<Seq<u8>> {
        seq![kw_get(), v.key]
    }

    fn parse_maybe(args: &mut Cursor<'_>) -> (r: Result<Option<Self>, Error>) {
        let kw: [u8; 3] = [71, 69, 84];
        proof {
            assert(kw@ =~= kw_get());
        }
        if !eat_keyword(args, kw.as_slice()) {
            return Ok(None);
        }
        proof {
            lemma_skip_skip(args.toks(), old(args).pos(), 1);
        }
        let key = match <Vec<u8> as CommandArgs>::parse_maybe(args) {
            Ok(Some(k)) => k,
            Ok(None) => {
                return Err(Error::InvalidLength);
            },
            Err(e) => {
                return Err(e);
            },
        };
        Ok(Some(GetCommand { key }))
    }

    fn encode(&self, target: &mut Vec<Vec<u8>>) -> (r: Result<(), Error>) {
        let kw: [u8; 3] = [71, 69, 84];
        let ghost pre0 = target.deep_view();
        target.push(crate::ascii::copy_bytes(kw.as_slice()));
        let ghost pre1 = target.deep_view();
        proof {
            assert(pre1 =~~= pre0.push(kw_get()));
        }
        target.push(crate::ascii::copy_bytes(self.key.as_slice()));
        proof {
            assert(target.deep_view() =~~= pre1.push(self.key@));
            assert(target.deep_view() =~~= pre0 + Self::spec_encode(self.deep_view()));
        }
        Ok(())
    }
}

/// Progress, keyword case-insensitivity and the round trip for GET.
pub proof fn lemma_get_laws(toks: Seq<Seq<u8>>, t0: Seq<u8>, v: GetCommandV)
    ensures
        GetCommand::spec_parse(toks) matches ParseOutcome::Match(w, n) ==> n >= 1,
        toks.len() > 0 && eq_ignore_case(toks[0], t0) ==> GetCommand::spec_parse(
            toks.update(0, t0),
        ) == GetCommand::spec_parse(toks),
        GetCommand::spec_parse(GetCommand::spec_encode(v)) == ParseOutcome::Match(v, 2nat),
{
    if toks.len() > 0 && eq_ignore_case(toks[0], t0) {
        crate::command_args::lemma_head_matches_case(toks, t0, kw_get());
        assert(toks.update(0, t0).skip(1) =~= toks.skip(1));
    }
    let enc = GetCommand::spec_encode(v);
    assert(head_matches(enc, kw_get()));
    assert(enc.skip(1) =~= seq![v.key]);
}

/// The INCR command: increment the integer stored under the key.
#[derive(Debug)]
pub struct IncrCommand {
    pub key: Vec<u8>,
}

/// Model of [`IncrCommand`].
pub struct IncrCommandV {
    pub key: Seq<u8>,
}

impl DeepView for IncrCommand {
    type V = IncrCommandV;

    open spec fn deep_view(&self) -> IncrCommandV {
        IncrCommandV { key: self.key@ }
    }
}

impl CommandArgs for IncrCommand {
    open spec fn spec_parse(toks: Seq<Seq<u8>>) -> ParseOutcome<IncrCommandV> {
        if !head_matches(toks, kw_incr()) {
            ParseOutcome::NoMatch
        } else {
            match <Vec<u8> as CommandArgs>::spec_parse(toks.skip(1)) {
                ParseOutcome::NoMatch => ParseOutcome::Fail(Error::InvalidLength),
                ParseOutcome::Fail(e) => ParseOutcome::Fail(e),
                ParseOutcome::Match(k, n1) => ParseOutcome::Match(
                    IncrCommandV { key: k },
                    (1 + n1) as nat,
                ),
            }
        }
    }

    open spec fn spec_encode(v: IncrCommandV) -> Seq<Seq<u8>> {
        seq![kw_incr(), v.key]
    }

    fn parse_maybe(args: &mut Cursor<'_>) -> (r: Result<Option<Self>, Error>) {
        let kw: [u8; 4] = [73, 78, 67, 82];
        proof {
            assert(kw@ =~= kw_incr());
        }
        if !eat_keyword(args, kw.as_slice()) {
            return Ok(None);
        }
        proof {
            lemma_skip_skip(args.toks(), old(args).pos(), 1);
        }
        let key = match <Vec<u8> as CommandArgs>::parse_maybe(args) {
            Ok(Some(k)) => k,
            Ok(None) => {
                return Err(Error::InvalidLength);
            },
            Err(e) => {
                return Err(e);
            },
        };
        Ok(Some(IncrCommand { key }))
    }

    fn encode(&self, target: &mut Vec<Vec<u8>>) -> (r: Result<(), Error>) {
        let kw: [u8; 4] = [73, 78, 67, 82];
        let ghost pre0 = target.deep_view();
        target.push(crate::ascii::copy_bytes(kw.as_slice()));
        let ghost pre1 = target.deep_view();
        proof {
            assert(pre1 =~~= pre0.push(kw_incr()));
        }
        target.push(crate::ascii::copy_bytes(self.key.as_slice()));
        proof {
            assert(target.deep_view() =~~= pre1.push(self.key@));
            assert(target.deep_view() =~~= pre0 + Self::spec_encode(self.deep_view()));
        }
        Ok(())
    }
}

/// Progress, keyword case-insensitivity and the round trip for INCR.
pub proof fn lemma_incr_laws(toks: Seq<Seq<u8>>, t0: Seq<u8>, v: IncrCommandV)
    ensures
        IncrCommand::spec_parse(toks) matches ParseOutcome::Match(w, n) ==> n >= 1,
        toks.len() > 0 && eq_ignore_case(toks[0], t0) ==> IncrCommand::spec_parse(
            toks.update(0, t0),
        ) == IncrCommand::spec_parse(toks),
        IncrCommand::spec_parse(IncrCommand::spec_encode(v)) == ParseOutcome::Match(v, 2nat),
{
    if toks.len() > 0 && eq_ignore_case(toks[0], t0) {
        crate::command_args::lemma_head_matches_case(toks, t0, kw_incr());
        assert(toks.update(0, t0).skip(1) =~= toks.skip(1));
    }
    let enc = IncrCommand::spec_encode(v);
    assert(head_matches(enc, kw_incr()));
    assert(enc.skip(1) =~= seq![v.key]);
}

/// The existence condition of SET: `NX` (only if absent), `XX` (only
/// if present), or, when neither keyword is given, any.
#[derive(Debug, PartialEq, Eq, Structural, Clone, Copy)]
pub enum Exists {
    NotExistedOnly,
    ExistedOnly,
    Any,
}

impl DeepView for Exists {
    type V = Exists;

    open spec fn deep_view(&self) -> Exists {
        *self
    }
}

impl CommandArgs for Exists {
    open spec fn spec_parse(toks: Seq<Seq<u8>>) -> ParseOutcome<Exists> {
        if toks.len() > 0 && eq_ignore_case(toks[0], kw_nx()) {
            ParseOutcome::Match(Exists::NotExistedOnly, 1)
        } else if toks.len() > 0 && eq_ignore_case(toks[0], kw_xx()) {
            ParseOutcome::Match(Exists::ExistedOnly, 1)
        } else {
            ParseOutcome::Match(Exists::Any, 0)
        }
    }

    open spec fn spec_encode(v: Exists) -> Seq<Seq<u8>> {
        match v {
            Exists::NotExistedOnly => seq![kw_nx()],
            Exists::ExistedOnly => seq![kw_xx()],
            Exists::Any => Seq::empty(),
        }
    }

    fn parse_maybe(args: &mut Cursor<'_>) -> (r: Result<Option<Self>, Error>) {
        let nx: [u8; 2] = [78, 88];
        let xx: [u8; 2] = [88, 88];
        proof {
            assert(nx@ =~= kw_nx());
            assert(xx@ =~= kw_xx());
        }
        if eat_keyword(args, nx.as_slice()) {
            Ok(Some(Exists::NotExistedOnly))
        } else if eat_keyword(args, xx.as_slice()) {
            Ok(Some(Exists::ExistedOnly))
        } else {
            Ok(Some(Exists::Any))
        }
    }

    fn encode(&self, target: &mut Vec<Vec<u8>>) -> (r: Result<(), Error>) {
        let ghost pre0 = target.deep_view();
        match self {
            Exists::NotExistedOnly => {
                let nx: [u8; 2] = [78, 88];
                target.push(crate::ascii::copy_bytes(nx.as_slice()));
            },
            Exists::ExistedOnly => {
                let xx: [u8; 2] = [88, 88];
                target.push(crate::ascii::copy_bytes(xx.as_slice()));
            },
            Exists::Any => {},
        }
        proof {
            assert(target.deep_view() =~~= pre0 + Self::spec_encode(self.deep_view()));
        }
        Ok(())
    }
}

/// The catch-all variant is the one exception to parse progress: a
/// successful `Exists` parse either consumes a keyword or is the
/// no-token `Any`, consuming nothing. Keyword case-insensitivity and
/// the round trip hold as for every other schema type.
pub proof fn lemma_exists_laws(toks: Seq<Seq<u8>>, t0: Seq<u8>, v: Exists)
    ensures
        Exists::spec_parse(toks) matches ParseOutcome::Match(w, n) ==> n >= 1 || w == Exists::Any,
        toks.len() > 0 && eq_ignore_case(toks[0], t0) ==> Exists::spec_parse(toks.update(0, t0))
            == Exists::spec_parse(toks),
        Exists::spec_parse(Exists::spec_encode(v)) == ParseOutcome::Match(
            v,
            Exists::spec_encode(v).len(),
        ),
{
    if toks.len() > 0 && eq_ignore_case(toks[0], t0) {
        crate::command_args::lemma_head_matches_case(toks, t0, kw_nx());
        crate::command_args::lemma_head_matches_case(toks, t0, kw_xx());
    }
    lemma_set_keywords_distinct();
}

/// The optional GET block of SET: return the old value. Parsed, not
/// acted on.
#[derive(Debug, PartialEq, Eq, Structural, Clone, Copy)]
pub struct SetGet;

impl DeepView for SetGet {
    type V = SetGet;

    open spec fn deep_view(&self) -> SetGet {
        *self
    }
}

impl CommandArgs for SetGet {
    open spec fn spec_parse(toks: Seq<Seq<u8>>) -> ParseOutcome<SetGet> {
        if !head_matches(toks, kw_get()) {
            ParseOutcome::NoMatch
        } else {
            ParseOutcome::Match(SetGet, 1)
        }
    }

    open spec fn spec_encode(v: SetGet) -> Seq<Seq<u8>> {
        seq![kw_get()]
    }

    fn parse_maybe(args: &mut Cursor<'_>) -> (r: Result<Option<Self>, Error>) {
        let kw: [u8; 3] = [71, 69, 84];
        proof {
            assert(kw@ =~= kw_get());
        }
        if !eat_keyword(args, kw.as_slice()) {
            return Ok(None);
        }
        Ok(Some(SetGet))
    }

    fn encode(&self, target: &mut Vec<Vec<u8>>) -> (r: Result<(), Error>) {
        let kw: [u8; 3] = [71, 69, 84];
        let ghost pre0 = target.deep_view();
        target.push(crate::ascii::copy_bytes(kw.as_slice()));
        proof {
            assert(target.deep_view() =~~= pre0 + Self::spec_encode(self.deep_view()));
        }
        Ok(())
    }
}

/// The expiry option of SET. Parsed and kept on the value; evaluating
/// expiry is out of scope.
#[derive(Debug, PartialEq, Eq, Structural, Clone, Copy)]
pub enum ExpireOption {
    /// `EX seconds`
    ExpireAfterSecond(usize),
    /// `PX milliseconds`
    ExpireAfterMs(usize),
    /// `EXAT unix-time-seconds`
    ExpireAtSecond(usize),
    /// `PXAT unix-time-milliseconds`
    ExpireAtMs(usize),
    /// `KEEPTTL`
    KeepTTL,
}

impl DeepView for ExpireOption {
    type V = ExpireOption;

    open spec fn deep_view(&self) -> ExpireOption {
        *self
    }
}

/// What parsing one keyword-plus-integer variant reads: used for the
/// four timed variants of [`ExpireOption`].
pub open spec fn spec_parse_expire_num(toks: Seq<Seq<u8>>, make: spec_fn(usize) -> ExpireOption) -> ParseOutcome<ExpireOption> {
    match <usize as CommandArgs>::spec_parse(toks.skip(1)) {
        ParseOutcome::NoMatch => ParseOutcome::Fail(Error::InvalidLength),
        ParseOutcome::Fail(e) => ParseOutcome::Fail(e),
        ParseOutcome::Match(u, n1) => ParseOutcome::Match(make(u), (1 + n1) as nat),
    }
}

impl CommandArgs for ExpireOption {
    open spec fn spec_parse(toks: Seq<Seq<u8>>) -> ParseOutcome<ExpireOption> {
        if head_matches(toks, kw_ex()) {
            spec_parse_expire_num(toks, |u: usize| ExpireOption::ExpireAfterSecond(u))
        } else if head_matches(toks, kw_px()) {
            spec_parse_expire_num(toks, |u: usize| ExpireOption::ExpireAfterMs(u))
        } else if head_matches(toks, kw_exat()) {
            spec_parse_expire_num(toks, |u: usize| ExpireOption::ExpireAtSecond(u))
        } else if head_matches(toks, kw_pxat()) {
            spec_parse_expire_num(toks, |u: usize| ExpireOption::ExpireAtMs(u))
        } else if head_matches(toks, kw_keepttl()) {
            ParseOutcome::Match(ExpireOption::KeepTTL, 1)
        } else {
            ParseOutcome::NoMatch
        }
    }

    open spec fn spec_encode(v: ExpireOption) -> Seq<Seq<u8>> {
        match v {
            ExpireOption::ExpireAfterSecond(u) => seq![kw_ex(), crate::num::dec_rep(u as nat)],
            ExpireOption::ExpireAfterMs(u) => seq![kw_px(), crate::num::dec_rep(u as nat)],
            ExpireOption::ExpireAtSecond(u) => seq![kw_exat(), crate::num::dec_rep(u as nat)],
            ExpireOption::ExpireAtMs(u) => seq![kw_pxat(), crate::num::dec_rep(u as nat)],
            ExpireOption::KeepTTL => seq![kw_keepttl()],
        }
    }

    fn parse_maybe(args: &mut Cursor<'_>) -> (r: Result<Option<Self>, Error>) {
        let ex: [u8; 2] = [69, 88];
        let px: [u8; 2] = [80, 88];
        let exat: [u8; 4] = [69, 88, 65, 84];
        let pxat: [u8; 4] = [80, 88, 65, 84];
        let keepttl: [u8; 7] = [75, 101, 101, 112, 84, 84, 76];
        proof {
            assert(ex@ =~= kw_ex());
            assert(px@ =~= kw_px());
            assert(exat@ =~= kw_exat());
            assert(pxat@ =~= kw_pxat());
            assert(keepttl@ =~= kw_keepttl());
        }
        if eat_keyword(args, ex.as_slice()) {
            proof {
                lemma_skip_skip(args.toks(), old(args).pos(), 1);
            }
            match <usize as CommandArgs>::parse_maybe(args) {
                Ok(Some(u)) => Ok(Some(ExpireOption::ExpireAfterSecond(u))),
                Ok(None) => Err(Error::InvalidLength),
                Err(e) => Err(e),
            }
        } else if eat_keyword(args, px.as_slice()) {
            proof {
                lemma_skip_skip(args.toks(), old(args).pos(), 1);
            }
            match <usize as CommandArgs>::parse_maybe(args) {
                Ok(Some(u)) => Ok(Some(ExpireOption::ExpireAfterMs(u))),
                Ok(None) => Err(Error::InvalidLength),
                Err(e) => Err(e),
            }
        } else if eat_keyword(args, exat.as_slice()) {
            proof {
                lemma_skip_skip(args.toks(), old(args).pos(), 1);
            }
            match <usize as CommandArgs>::parse_maybe(args) {
                Ok(Some(u)) => Ok(Some(ExpireOption::ExpireAtSecond(u))),
                Ok(None) => Err(Error::InvalidLength),
                Err(e) => Err(e),
            }
        } else if eat_keyword(args, pxat.as_slice()) {
            proof {
                lemma_skip_skip(args.toks(), old(args).pos(), 1);
            }
            match <usize as CommandArgs>::parse_maybe(args) {
                Ok(Some(u)) => Ok(Some(ExpireOption::ExpireAtMs(u))),
                Ok(None) => Err(Error::InvalidLength),
                Err(e) => Err(e),
            }
        } else if eat_keyword(args, keepttl.as_slice()) {
            Ok(Some(ExpireOption::KeepTTL))
        } else {
            Ok(None)
        }
    }

    fn encode(&self, target: &mut Vec<Vec<u8>>) -> (r: Result<(), Error>) {
        let ghost pre0 = target.deep_view();
        match self {
            ExpireOption::ExpireAfterSecond(u) => {
                let ex: [u8; 2] = [69, 88];
                target.push(crate::ascii::copy_bytes(ex.as_slice()));
                let ghost pre1 = target.deep_view();
                proof {
                    assert(pre1 =~~= pre0.push(kw_ex()));
                }
                target.push(crate::num::format_usize(*u));
                proof {
                    assert(target.deep_view() =~~= pre1.push(crate::num::dec_rep(*u as nat)));
                }
            },
            ExpireOption::ExpireAfterMs(u) => {
                let px: [u8; 2] = [80, 88];
                target.push(crate::ascii::copy_bytes(px.as_slice()));
                let ghost pre1 = target.deep_view();
                proof {
                    assert(pre1 =~~= pre0.push(kw_px()));
                }
                target.push(crate::num::format_usize(*u));
                proof {
                    assert(target.deep_view() =~~= pre1.push(crate::num::dec_rep(*u as nat)));
                }
            },
            ExpireOption::ExpireAtSecond(u) => {
                let exat: [u8; 4] = [69, 88, 65, 84];
                target.push(crate::ascii::copy_bytes(exat.as_slice()));
                let ghost pre1 = target.deep_view();
                proof {
                    assert(pre1 =~~= pre0.push(kw_exat()));
                }
                target.push(crate::num::format_usize(*u));
                proof {
                    assert(target.deep_view() =~~= pre1.push(crate::num::dec_rep(*u as nat)));
                }
            },
            ExpireOption::ExpireAtMs(u) => {
                let pxat: [u8; 4] = [80, 88, 65, 84];
                target.push(crate::ascii::copy_bytes(pxat.as_slice()));
                let ghost pre1 = target.deep_view();
                proof {
                    assert(pre1 =~~= pre0.push(kw_pxat()));
                }
                target.push(crate::num::format_usize(*u));
                proof {
                    assert(target.deep_view() =~~= pre1.push(crate::num::dec_rep(*u as nat)));
                }
            },
            ExpireOption::KeepTTL => {
                let keepttl: [u8; 7] = [75, 101, 101, 112, 84, 84, 76];
                target.push(crate::ascii::copy_bytes(keepttl.as_slice()));
            },
        }
        proof {
            assert(target.deep_view() =~~= pre0 + Self::spec_encode(self.deep_view()));
        }
        Ok(())
    }
}

/// No two keywords that can head a SET option block are equal up to
/// ASCII case, and none of them is all digits.
pub proof fn lemma_set_keywords_distinct()
    ensures
        !eq_ignore_case(kw_xx(), kw_nx()),
        !eq_ignore_case(kw_ex(), kw_nx()),
        !eq_ignore_case(kw_ex(), kw_xx()),
        !eq_ignore_case(kw_px(), kw_nx()),
        !eq_ignore_case(kw_px(), kw_xx()),
        !eq_ignore_case(kw_px(), kw_ex()),
        !eq_ignore_case(kw_get(), kw_nx()),
        !eq_ignore_case(kw_get(), kw_xx()),
        !eq_ignore_case(kw_get(), kw_ex()),
        !eq_ignore_case(kw_get(), kw_px()),
        !eq_ignore_case(kw_get(), kw_exat()),
        !eq_ignore_case(kw_get(), kw_pxat()),
        !eq_ignore_case(kw_get(), kw_keepttl()),
        !eq_ignore_case(kw_exat(), kw_nx()),
        !eq_ignore_case(kw_exat(), kw_xx()),
        !eq_ignore_case(kw_exat(), kw_ex()),
        !eq_ignore_case(kw_exat(), kw_px()),
        !eq_ignore_case(kw_exat(), kw_get()),
        !eq_ignore_case(kw_pxat(), kw_nx()),
        !eq_ignore_case(kw_pxat(), kw_xx()),
        !eq_ignore_case(kw_pxat(), kw_ex()),
        !eq_ignore_case(kw_pxat(), kw_px()),
        !eq_ignore_case(kw_pxat(), kw_get()),
        !eq_ignore_case(kw_pxat(), kw_exat()),
        !eq_ignore_case(kw_keepttl(), kw_nx()),
        !eq_ignore_case(kw_keepttl(), kw_xx()),
        !eq_ignore_case(kw_keepttl(), kw_ex()),
        !eq_ignore_case(kw_keepttl(), kw_px()),
        !eq_ignore_case(kw_keepttl(), kw_exat()),
        !eq_ignore_case(kw_keepttl(), kw_pxat()),
        !eq_ignore_case(kw_keepttl(), kw_get()),
        !eq_ignore_case(kw_ex(), kw_px()),
        !eq_ignore_case(kw_nx(), kw_xx()),
        !eq_ignore_case(kw_nx(), kw_ex()),
        !eq_ignore_case(kw_nx(), kw_px()),
        !eq_ignore_case(kw_xx(), kw_ex()),
        !eq_ignore_case(kw_xx(), kw_px()),
{
    assert(crate::ascii::lower(kw_nx()[0]) == 110);
    assert(crate::ascii::lower(kw_xx()[0]) == 120);
    assert(crate::ascii::lower(kw_ex()[0]) == 101);
    assert(crate::ascii::lower(kw_px()[0]) == 112);
    assert(crate::ascii::lower(kw_get()[0]) == 103);
    assert(crate::ascii::lower(kw_exat()[0]) == 101);
    assert(crate::ascii::lower(kw_pxat()[0]) == 112);
    assert(crate::ascii::lower(kw_keepttl()[0]) == 107);
}

/// Progress and keyword case-insensitivity for the SET option blocks,
/// and their round trips.
pub proof fn lemma_expire_laws(toks: Seq<Seq<u8>>, t0: Seq<u8>, v: ExpireOption, g: SetGet)
    ensures
        ExpireOption::spec_parse(toks) matches ParseOutcome::Match(w, n) ==> n >= 1,
        SetGet::spec_parse(toks) matches ParseOutcome::Match(w, n) ==> n >= 1,
        toks.len() > 0 && eq_ignore_case(toks[0], t0) ==> ExpireOption::spec_parse(
            toks.update(0, t0),
        ) == ExpireOption::spec_parse(toks),
        toks.len() > 0 && eq_ignore_case(toks[0], t0) ==> SetGet::spec_parse(toks.update(0, t0))
            == SetGet::spec_parse(toks),
        ExpireOption::spec_parse(ExpireOption::spec_encode(v)) == ParseOutcome::Match(
            v,
            ExpireOption::spec_encode(v).len(),
        ),
        SetGet::spec_parse(SetGet::spec_encode(g)) == ParseOutcome::Match(g, 1nat),
{
    if toks.len() > 0 && eq_ignore_case(toks[0], t0) {
        crate::command_args::lemma_head_matches_case(toks, t0, kw_ex());
        crate::command_args::lemma_head_matches_case(toks, t0, kw_px());
        crate::command_args::lemma_head_matches_case(toks, t0, kw_exat());
        crate::command_args::lemma_head_matches_case(toks, t0, kw_pxat());
        crate::command_args::lemma_head_matches_case(toks, t0, kw_keepttl());
        crate::command_args::lemma_head_matches_case(toks, t0, kw_get());
        assert(toks.update(0, t0).skip(1) =~= toks.skip(1));
    }
    lemma_set_keywords_distinct();
    let enc = ExpireOption::spec_encode(v);
    match v {
        ExpireOption::ExpireAfterSecond(u) => {
            lemma_expire_num_round_trip(u, kw_ex(), enc);
        },
        ExpireOption::ExpireAfterMs(u) => {
            lemma_expire_num_round_trip(u, kw_px(), enc);
        },
        ExpireOption::ExpireAtSecond(u) => {
            lemma_expire_num_round_trip(u, kw_exat(), enc);
        },
        ExpireOption::ExpireAtMs(u) => {
            lemma_expire_num_round_trip(u, kw_pxat(), enc);
        },
        ExpireOption::KeepTTL => {},
    }
}

/// Helper for the timed-variant round trips: parsing back the encoded
/// integer argument gives the integer.
proof fn lemma_expire_num_round_trip(u: usize, kw: Seq<u8>, enc: Seq<Seq<u8>>)
    requires
        enc == seq![kw, crate::num::dec_rep(u as nat)],
    ensures
        enc.skip(1) == seq![crate::num::dec_rep(u as nat)],
        <usize as CommandArgs>::spec_parse(enc.skip(1)) == ParseOutcome::Match(u, 1nat),
{
    crate::num::lemma_dec_rep_digits(u as nat);
    crate::num::lemma_dec_rep_val(u as nat);
    assert(enc.skip(1) =~= seq![crate::num::dec_rep(u as nat)]);
}

/// The SET command: store a string under a key, with an existence
/// condition, an optional GET block, and an optional expiry option.
/// Only the key and the value are acted on.
#[derive(Debug, PartialEq)]
pub struct SetCommand {
    pub key: Vec<u8>,
    pub value: Vec<u8>,
    pub exists: Exists,
    pub get: Option<SetGet>,
    pub expire: Option<ExpireOption>,
}

/// Model of [`SetCommand`].
pub struct SetCommandV {
    pub key: Seq<u8>,
    pub value: Seq<u8>,
    pub exists: Exists,
    pub get: Option<SetGet>,
    pub expire: Option<ExpireOption>,
}

impl DeepView for SetCommand {
    type V = SetCommandV;

    open spec fn deep_view(&self) -> SetCommandV {
        SetCommandV {
            key: self.key@,
            value: self.value@,
            exists: self.exists,
            get: self.get.deep_view(),
            expire: self.expire.deep_view(),
        }
    }
}

/// What parsing reads after SET's key and value: the existence
/// condition, then the optional GET block, then the optional expiry.
pub open spec fn spec_parse_set_tail(toks: Seq<Seq<u8>>, key: Seq<u8>, value: Seq<u8>, base: nat) -> ParseOutcome<SetCommandV> {
    match Exists::spec_parse(toks) {
        ParseOutcome::NoMatch => ParseOutcome::Fail(Error::InvalidLength),
        ParseOutcome::Fail(e) => ParseOutcome::Fail(e),
        ParseOutcome::Match(ex, n3) => match SetGet::spec_parse(toks.skip(n3 as int)) {
            ParseOutcome::Fail(e) => ParseOutcome::Fail(e),
            ParseOutcome::NoMatch => spec_parse_set_expire(
                toks.skip(n3 as int),
                key,
                value,
                ex,
                None,
                (base + n3) as nat,
            ),
            ParseOutcome::Match(g, n4) => spec_parse_set_expire(
                toks.skip(n3 as int + n4 as int),
                key,
                value,
                ex,
                Some(g),
                (base + n3 + n4) as nat,
            ),
        },
    }
}

/// What parsing reads at SET's final, optional expiry option.
pub open spec fn spec_parse_set_expire(toks: Seq<Seq<u8>>, key: Seq<u8>, value: Seq<u8>, ex: Exists, g: Option<SetGet>, base: nat) -> ParseOutcome<SetCommandV> {
    match ExpireOption::spec_parse(toks) {
        ParseOutcome::Fail(e) => ParseOutcome::Fail(e),
        ParseOutcome::NoMatch => ParseOutcome::Match(
            SetCommandV { key, value, exists: ex, get: g, expire: None },
            base,
        ),
        ParseOutcome::Match(x, n5) => ParseOutcome::Match(
            SetCommandV { key, value, exists: ex, get: g, expire: Some(x) },
            (base + n5) as nat,
        ),
    }
}

impl CommandArgs for SetCommand {
    open spec fn spec_parse(toks: Seq<Seq<u8>>) -> ParseOutcome<SetCommandV> {
        if !head_matches(toks, kw_set()) {
            ParseOutcome::NoMatch
        } else {
            match <Vec<u8> as CommandArgs>::spec_parse(toks.skip(1)) {
                ParseOutcome::NoMatch => ParseOutcome::Fail(Error::InvalidLength),
                ParseOutcome::Fail(e) => ParseOutcome::Fail(e),
                ParseOutcome::Match(k, n1) => match <Vec<u8> as CommandArgs>::spec_parse(
                    toks.skip(1 + n1 as int),
                ) {
                    ParseOutcome::NoMatch => ParseOutcome::Fail(Error::InvalidLength),
                    ParseOutcome::Fail(e) => ParseOutcome::Fail(e),
                    ParseOutcome::Match(val, n2) => spec_parse_set_tail(
                        toks.skip(1 + n1 as int + n2 as int),
                        k,
                        val,
                        (1 + n1 + n2) as nat,
                    ),
                },
            }
        }
    }

    open spec fn spec_encode(v: SetCommandV) -> Seq<Seq<u8>> {
        seq![kw_set(), v.key, v.value] + Exists::spec_encode(v.exists) + (match v.get {
            Some(g) => SetGet::spec_encode(g),
            None => Seq::empty(),
        }) + (match v.expire {
            Some(x) => ExpireOption::spec_encode(x),
            None => Seq::empty(),
        })
    }

    #[verifier::rlimit(100)]
    fn parse_maybe(args: &mut Cursor<'_>) -> (r: Result<Option<Self>, Error>) {
        let kw: [u8; 3] = [83, 69, 84];
        proof {
            assert(kw@ =~= kw_set());
        }
        if !eat_keyword(args, kw.as_slice()) {
            return Ok(None);
        }
        proof {
            lemma_skip_skip(args.toks(), old(args).pos(), 1);
        }
        let key = match <Vec<u8> as CommandArgs>::parse_maybe(args) {
            Ok(Some(k)) => k,
            Ok(None) => {
                return Err(Error::InvalidLength);
            },
            Err(e) => {
                return Err(e);
            },
        };
        proof {
            lemma_skip_skip(args.toks(), old(args).pos() + 1, args.pos() - old(args).pos() - 1);
            lemma_skip_skip(args.toks(), old(args).pos(), args.pos() - old(args).pos());
        }
        let value = match <Vec<u8> as CommandArgs>::parse_maybe(args) {
            Ok(Some(val)) => val,
            Ok(None) => {
                return Err(Error::InvalidLength);
            },
            Err(e) => {
                return Err(e);
            },
        };
        proof {
            lemma_skip_skip(args.toks(), old(args).pos(), args.pos() - old(args).pos());
        }
        let ghost tail3 = args.remaining();
        let ghost pos3 = args.pos();
        let exists = match Exists::parse_maybe(args) {
            Ok(Some(e)) => e,
            Ok(None) => {
                return Err(Error::InvalidLength);
            },
            Err(e) => {
                return Err(e);
            },
        };
        proof {
            lemma_skip_skip(args.toks(), pos3, args.pos() - pos3);
        }
        let ghost pos4 = args.pos();
        let get = match SetGet::parse_maybe(args) {
            Ok(g) => g,
            Err(e) => {
                return Err(e);
            },
        };
        proof {
            lemma_skip_skip(args.toks(), pos3, args.pos() - pos3);
            lemma_skip_skip(args.toks(), pos4, args.pos() - pos4);
        }
        let expire = match ExpireOption::parse_maybe(args) {
            Ok(x) => x,
            Err(e) => {
                return Err(e);
            },
        };
        Ok(Some(SetCommand { key, value, exists, get, expire }))
    }

    fn encode(&self, target: &mut Vec<Vec<u8>>) -> (r: Result<(), Error>) {
        let kw: [u8; 3] = [83, 69, 84];
        let ghost pre0 = target.deep_view();
        target.push(crate::ascii::copy_bytes(kw.as_slice()));
        let ghost pre1 = target.deep_view();
        proof {
            assert(pre1 =~~= pre0.push(kw_set()));
        }
        target.push(crate::ascii::copy_bytes(self.key.as_slice()));
        let ghost pre2 = target.deep_view();
        proof {
            assert(pre2 =~~= pre1.push(self.key@));
        }
        target.push(crate::ascii::copy_bytes(self.value.as_slice()));
        let ghost pre3 = target.deep_view();
        proof {
            assert(pre3 =~~= pre2.push(self.value@));
            assert(pre3 =~~= pre0 + seq![kw_set(), self.key@, self.value@]);
        }
        let _ = self.exists.encode(target);
        let ghost pre4 = target.deep_view();
        match &self.get {
            Some(g) => {
                let _ = g.encode(target);
            },
            None => {},
        }
        let ghost pre5 = target.deep_view();
        proof {
            assert(pre5 =~~= pre4 + (match self.get.deep_view() {
                Some(g) => SetGet::spec_encode(g),
                None => Seq::<Seq<u8>>::empty(),
            }));
        }
        match &self.expire {
            Some(x) => {
                let _ = x.encode(target);
            },
            None => {},
        }
        proof {
            assert(target.deep_view() =~~= pre5 + (match self.expire.deep_view() {
                Some(x) => ExpireOption::spec_encode(x),
                None => Seq::<Seq<u8>>::empty(),
            }));
            assert(target.deep_view() =~~= pre0 + Self::spec_encode(self.deep_view()));
        }
        Ok(())
    }
}

/// Progress and keyword case-insensitivity for SET.
#[verifier::rlimit(50)]
pub proof fn lemma_set_laws(toks: Seq<Seq<u8>>, t0: Seq<u8>)
    ensures
        SetCommand::spec_parse(toks) matches ParseOutcome::Match(v, n) ==> n >= 1,
        toks.len() > 0 && eq_ignore_case(toks[0], t0) ==> SetCommand::spec_parse(
            toks.update(0, t0),
        ) == SetCommand::spec_parse(toks),
{
    if toks.len() > 0 && eq_ignore_case(toks[0], t0) {
        crate::command_args::lemma_head_matches_case(toks, t0, kw_set());
        assert(toks.update(0, t0).skip(1) =~= toks.skip(1));
        if toks.len() >= 2 {
            assert(toks.update(0, t0).skip(2) =~= toks.skip(2));
        }
        if toks.len() >= 3 {
            assert(toks.update(0, t0).skip(3) =~= toks.skip(3));
        }
    }
}

/// Parsing an encoded SET gives the value back, whatever mix of
/// existence condition, GET block and expiry option it carries.
#[verifier::rlimit(50)]
pub proof fn lemma_set_round_trip(v: SetCommandV)
    ensures
        SetCommand::spec_parse(SetCommand::spec_encode(v)) matches ParseOutcome::Match(w, n)
            && w == v && n == SetCommand::spec_encode(v).len(),
{
    let seg_ex = Exists::spec_encode(v.exists);
    let seg_get: Seq<Seq<u8>> = match v.get {
        Some(g) => SetGet::spec_encode(g),
        None => Seq::empty(),
    };
    let seg_exp: Seq<Seq<u8>> = match v.expire {
        Some(x) => ExpireOption::spec_encode(x),
        None => Seq::empty(),
    };
    let toks = SetCommand::spec_encode(v);
    assert(head_matches(toks, kw_set()));
    assert(toks.skip(1) =~= seq![v.key, v.value] + seg_ex + seg_get + seg_exp);
    assert(toks.skip(2) =~= seq![v.value] + seg_ex + seg_get + seg_exp);
    let tail3 = seg_ex + seg_get + seg_exp;
    assert(toks.skip(3) =~= tail3);
    lemma_set_tail_round_trip(v.key, v.value, v.exists, v.get, v.expire, 3nat);
    assert(toks.len() == 3 + tail3.len());
}

/// Parsing back the encoded tail of SET, the existence condition then
/// the two optional blocks, recovers the three of them.
#[verifier::rlimit(50)]
proof fn lemma_set_tail_round_trip(
    key: Seq<u8>,
    value: Seq<u8>,
    ex: Exists,
    g: Option<SetGet>,
    xp: Option<ExpireOption>,
    base: nat,
)
    ensures
        ({
            let seg_ex = Exists::spec_encode(ex);
            let seg_get: Seq<Seq<u8>> = match g {
                Some(gg) => SetGet::spec_encode(gg),
                None => Seq::empty(),
            };
            let seg_exp: Seq<Seq<u8>> = match xp {
                Some(xx) => ExpireOption::spec_encode(xx),
                None => Seq::empty(),
            };
            spec_parse_set_tail(seg_ex + seg_get + seg_exp, key, value, base)
                == ParseOutcome::Match(
                SetCommandV { key, value, exists: ex, get: g, expire: xp },
                (base + seg_ex.len() + seg_get.len() + seg_exp.len()) as nat,
            )
        }),
{
    lemma_set_keywords_distinct();
    let seg_ex = Exists::spec_encode(ex);
    let seg_get: Seq<Seq<u8>> = match g {
        Some(gg) => SetGet::spec_encode(gg),
        None => Seq::empty(),
    };
    let seg_exp: Seq<Seq<u8>> = match xp {
        Some(xx) => ExpireOption::spec_encode(xx),
        None => Seq::empty(),
    };
    let tail3 = seg_ex + seg_get + seg_exp;
    let tail4 = seg_get + seg_exp;
    assert(tail3.skip(seg_ex.len() as int) =~= tail4);
    assert(tail4.skip(seg_get.len() as int) =~= seg_exp);

    // The existence segment parses back to the condition.
    assert(Exists::spec_parse(tail3) == ParseOutcome::Match(ex, seg_ex.len())) by {
        lemma_set_keywords_distinct();
        match ex {
            Exists::NotExistedOnly => {
                assert(tail3[0] == kw_nx());
            },
            Exists::ExistedOnly => {
                assert(tail3[0] == kw_xx());
            },
            Exists::Any => {
                lemma_set_tail_head_no_exists(tail3, seg_get, seg_exp, g, xp);
            },
        }
    }

    // The GET segment parses back to the block or its absence.
    assert(match g {
        Some(gg) => SetGet::spec_parse(tail4) == ParseOutcome::Match(gg, 1nat),
        None => SetGet::spec_parse(tail4) is NoMatch,
    }) by {
        lemma_set_keywords_distinct();
        match g {
            Some(gg) => {
                assert(tail4[0] == kw_get());
            },
            None => {
                assert(tail4 =~= seg_exp);
                lemma_set_exp_head_not_get(seg_exp, xp);
            },
        }
    }

    // The expiry segment parses back to the option or its absence.
    assert(match xp {
        Some(xx) => ExpireOption::spec_parse(seg_exp) == ParseOutcome::Match(xx, seg_exp.len()),
        None => ExpireOption::spec_parse(seg_exp) is NoMatch,
    }) by {
        lemma_set_keywords_distinct();
        match xp {
            Some(xx) => {
                match xx {
                    ExpireOption::ExpireAfterSecond(u) => {
                        lemma_expire_num_round_trip(u, kw_ex(), seg_exp);
                    },
                    ExpireOption::ExpireAfterMs(u) => {
                        lemma_expire_num_round_trip(u, kw_px(), seg_exp);
                    },
                    ExpireOption::ExpireAtSecond(u) => {
                        lemma_expire_num_round_trip(u, kw_exat(), seg_exp);
                    },
                    ExpireOption::ExpireAtMs(u) => {
                        lemma_expire_num_round_trip(u, kw_pxat(), seg_exp);
                    },
                    ExpireOption::KeepTTL => {},
                }
            },
            None => {},
        }
    }
}

/// When the existence condition is the no-token `Any`, the tokens that
/// follow SET's value never select `NX` or `XX`: they begin with the
/// GET block, an expiry keyword, or nothing.
proof fn lemma_set_tail_head_no_exists(
    tail3: Seq<Seq<u8>>,
    seg_get: Seq<Seq<u8>>,
    seg_exp: Seq<Seq<u8>>,
    g: Option<SetGet>,
    x: Option<ExpireOption>,
)
    requires
        tail3 == seg_get + seg_exp,
        seg_get == (match g {
            Some(gg) => SetGet::spec_encode(gg),
            None => Seq::<Seq<u8>>::empty(),
        }),
        seg_exp == (match x {
            Some(xx) => ExpireOption::spec_encode(xx),
            None => Seq::<Seq<u8>>::empty(),
        }),
    ensures
        tail3.len() > 0 ==> !eq_ignore_case(tail3[0], kw_nx()) && !eq_ignore_case(
            tail3[0],
            kw_xx(),
        ),
{
    lemma_set_keywords_distinct();
    if tail3.len() > 0 {
        if seg_get.len() > 0 {
            assert(tail3[0] == kw_get());
        } else {
            assert(tail3 =~= seg_exp);
            match x {
                Some(xx) => {
                    match xx {
                        ExpireOption::ExpireAfterSecond(u) => {
                            assert(tail3[0] == kw_ex());
                        },
                        ExpireOption::ExpireAfterMs(u) => {
                            assert(tail3[0] == kw_px());
                        },
                        ExpireOption::ExpireAtSecond(u) => {
                            assert(tail3[0] == kw_exat());
                        },
                        ExpireOption::ExpireAtMs(u) => {
                            assert(tail3[0] == kw_pxat());
                        },
                        ExpireOption::KeepTTL => {
                            assert(tail3[0] == kw_keepttl());
                        },
                    }
                },
                None => {},
            }
        }
    }
}

impl crate::command::CommandHandler for GetCommand {
    /// GET leaves the store alone; it answers the stored string, the
    /// null value when the key is absent, and a refusal when the key
    /// holds a set.
    open spec fn handle_rel(
        v: GetCommandV,
        db: Map<Seq<u8>, crate::memds::MemV>,
        res: Result<crate::resp::RespV, crate::ErrorV>,
        db2: Map<Seq<u8>, crate::memds::MemV>,
    ) -> bool {
        db2 == db && if !db.contains_key(v.key) {
            res == Ok::<crate::resp::RespV, crate::ErrorV>(crate::resp::RespV::Nil)
        } else {
            match db[v.key] {
                crate::memds::MemV::Str(s) => res == Ok::<crate::resp::RespV, crate::ErrorV>(
                    crate::resp::RespV::Bulk(s),
                ),
                crate::memds::MemV::Elems(_) => res == Err::<crate::resp::RespV, crate::ErrorV>(
                    crate::ErrorV::Handle(crate::memds::msg_not_string(v.key)),
                ),
            }
        }
    }

    fn handle(self, db: &mut crate::database::Database) -> (r: Result<
        crate::resp::Response,
        crate::Error,
    >) {
        match db.get(self.key.as_slice()) {
            Ok(Some(bytes)) => Ok(crate::resp::Response::Bulk(bytes)),
            Ok(None) => Ok(crate::resp::Response::Nil),
            Err(e) => Err(e),
        }
    }
}

impl crate::command::CommandHandler for SetCommand {
    /// SET stores the value as a string under the key, whatever was
    /// there, and is acknowledged; the existence condition, the GET
    /// block and the expiry option are parsed but not acted on.
    open spec fn handle_rel(
        v: SetCommandV,
        db: Map<Seq<u8>, crate::memds::MemV>,
        res: Result<crate::resp::RespV, crate::ErrorV>,
        db2: Map<Seq<u8>, crate::memds::MemV>,
    ) -> bool {
        db2 == db.insert(v.key, crate::memds::MemV::Str(v.value)) && res == Ok::<
            crate::resp::RespV,
            crate::ErrorV,
        >(crate::resp::RespV::Okay)
    }

    fn handle(self, db: &mut crate::database::Database) -> (r: Result<
        crate::resp::Response,
        crate::Error,
    >) {
        match db.set(self.key.as_slice(), self.value.as_slice()) {
            Ok(u) => Ok(crate::resp::Response::Okay),
            Err(e) => Err(e),
        }
    }
}

impl crate::command::CommandHandler for IncrCommand {
    /// INCR adds one to the integer stored under the key, creating an
    /// absent key as zero first, and answers the new value; a key
    /// holding a set is refused, and a stored string that does not
    /// decode as a signed 64-bit integer, or holds the largest one,
    /// fails the integer parse. The store is unchanged on failure.
    open spec fn handle_rel(
        v: IncrCommandV,
        db: Map<Seq<u8>, crate::memds::MemV>,
        res: Result<crate::resp::RespV, crate::ErrorV>,
        db2: Map<Seq<u8>, crate::memds::MemV>,
    ) -> bool {
        if !db.contains_key(v.key) {
            db2 == db.insert(v.key, crate::memds::MemV::Str(crate::num::dec_rep_int(1))) && res
                == Ok::<crate::resp::RespV, crate::ErrorV>(crate::resp::RespV::Integer(1))
        } else {
            match db[v.key] {
                crate::memds::MemV::Str(s) => if crate::num::i64_rep_ok(s)
                    && crate::num::i64_val(s) < i64::MAX {
                    res matches Ok(rv) && rv matches crate::resp::RespV::Integer(x) && x
                        == crate::num::i64_val(s) + 1 && db2 == db.insert(
                        v.key,
                        crate::memds::MemV::Str(crate::num::dec_rep_int(crate::num::i64_val(s) + 1)),
                    )
                } else {
                    db2 == db && res == Err::<crate::resp::RespV, crate::ErrorV>(
                        crate::ErrorV::Parse(Error::Parse),
                    )
                },
                crate::memds::MemV::Elems(_) => db2 == db && res == Err::<
                    crate::resp::RespV,
                    crate::ErrorV,
                >(crate::ErrorV::Handle(crate::memds::msg_not_string(v.key))),
            }
        }
    }

    fn handle(self, db: &mut crate::database::Database) -> (r: Result<
        crate::resp::Response,
        crate::Error,
    >) {
        match db.incr(self.key.as_slice()) {
            Ok(v) => Ok(crate::resp::Response::Integer(v)),
            Err(e) => Err(e),
        }
    }
}

/// The expiry segment never begins with the GET keyword.
proof fn lemma_set_exp_head_not_get(seg_exp: Seq<Seq<u8>>, x: Option<ExpireOption>)
    requires
        seg_exp == (match x {
            Some(xx) => ExpireOption::spec_encode(xx),
            None => Seq::<Seq<u8>>::empty(),
        }),
    ensures
        seg_exp.len() > 0 ==> !eq_ignore_case(seg_exp[0], kw_get()),
{
    lemma_set_keywords_distinct();
    if seg_exp.len() > 0 {
        match x {
            Some(xx) => {
                match xx {
                    ExpireOption::ExpireAfterSecond(u) => {
                        assert(seg_exp[0] == kw_ex());
                    },
                    ExpireOption::ExpireAfterMs(u) => {
                        assert(seg_exp[0] == kw_px());
                    },
                    ExpireOption::ExpireAtSecond(u) => {
                        assert(seg_exp[0] == kw_exat());
                    },
                    ExpireOption::ExpireAtMs(u) => {
                        assert(seg_exp[0] == kw_pxat());
                    },
                    ExpireOption::KeepTTL => {
                        assert(seg_exp[0] == kw_keepttl());
                    },
                }
            },
            None => {},
        }
    }
}

} // verus!
