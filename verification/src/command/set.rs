//! Set commands: SADD, SMEMBERS.

use vstd::prelude::*;

use crate::command_args::{
    eat_keyword, head_matches, lemma_skip_skip, CommandArgs, Cursor, Error, ParseOutcome,
};
use crate::ascii::eq_ignore_case;

verus! {

broadcast use crate::ascii::lemma_vec_u8_deep_view, crate::ascii::lemma_slice_u8_deep_view;

/// The keyword `SADD`.
pub open spec fn kw_sadd() -> Seq<u8> {
    seq![83u8, 65u8, 68u8, 68u8]
}

/// The keyword `SMEMBERS`.
pub open spec fn kw_smembers() -> Seq<u8> {
    seq![83u8, 77u8, 69u8, 77u8, 66u8, 69u8, 82u8, 83u8]
}

/// The SADD command: add every element to the set stored under the
/// key. The element list is greedy: it takes the rest of the tokens.
#[derive(Debug)]
pub struct SaddCommand {
    pub key: Vec<u8>,
    pub elements: Vec<Vec<u8>>,
}

/// Model of [`SaddCommand`].
pub struct SaddCommandV {
    pub key: Seq<u8>,
    pub elements: Seq<Seq<u8>>,
}

impl DeepView for SaddCommand {
    type V = SaddCommandV;

    open spec fn deep_view(&self) -> SaddCommandV {
        SaddCommandV { key: self.key@, elements: self.elements.deep_view() }
    }
}

impl CommandArgs for SaddCommand {
    open spec fn spec_parse(toks: Seq<Seq<u8>>) -> ParseOutcome<SaddCommandV> {
        if !head_matches(toks, kw_sadd()) {
            ParseOutcome::NoMatch
        } else {
            match <Vec<u8> as CommandArgs>::spec_parse(toks.skip(1)) {
                ParseOutcome::NoMatch => ParseOutcome::Fail(Error::InvalidLength),
                ParseOutcome::Fail(e) => ParseOutcome::Fail(e),
                ParseOutcome::Match(k, n1) => match <Vec<Vec<u8>> as CommandArgs>::spec_parse(
                    toks.skip(1 + n1 as int),
                ) {
                    ParseOutcome::NoMatch => ParseOutcome::Fail(Error::InvalidLength),
                    ParseOutcome::Fail(e) => ParseOutcome::Fail(e),
                    ParseOutcome::Match(es, n2) => ParseOutcome::Match(
                        SaddCommandV { key: k, elements: es },
                        (1 + n1 + n2) as nat,
                    ),
                },
            }
        }
    }

    open spec fn spec_encode(v: SaddCommandV) -> Seq<Seq<u8>> {
        seq![kw_sadd(), v.key] + v.elements
    }

    fn parse_maybe(args: &mut Cursor<'_>) -> (r: Result<Option<Self>, Error>) {
        let kw: [u8; 4] = [83, 65, 68, 68];
        proof {
            assert(kw@ =~= kw_sadd());
        }
        if !eat_keyword(args, kw.as_slice()) {
            return Ok(None);
        }
        proof {
            lemma_skip_skip(args.toks(), old(args).pos(), 1);
        }
        let key = match <Vec<u8> as CommandArgs>::parse_maybe(args) {
            Ok(Some(k)) => k,
            Ok(None) => {
                return Err(Error::InvalidLength);
            },
            Err(e) => {
                return Err(e);
            },
        };
        proof {
            lemma_skip_skip(args.toks(), old(args).pos() + 1, args.pos() - old(args).pos() - 1);
            lemma_skip_skip(args.toks(), old(args).pos(), args.pos() - old(args).pos());
        }
        let elements = match <Vec<Vec<u8>> as CommandArgs>::parse_maybe(args) {
            Ok(Some(es)) => es,
            Ok(None) => {
                return Err(Error::InvalidLength);
            },
            Err(e) => {
                return Err(e);
            },
        };
        Ok(Some(SaddCommand { key, elements }))
    }

    fn encode(&self, target: &mut Vec<Vec<u8>>) -> (r: Result<(), Error>) {
        let kw: [u8; 4] = [83, 65, 68, 68];
        let ghost pre0 = target.deep_view();
        target.push(crate::ascii::copy_bytes(kw.as_slice()));
        let ghost pre1 = target.deep_view();
        proof {
            assert(pre1 =~~= pre0.push(kw_sadd()));
        }
        target.push(crate::ascii::copy_bytes(self.key.as_slice()));
        let ghost pre2 = target.deep_view();
        proof {
            assert(pre2 =~~= pre1.push(self.key@));
        }
        let rr = self.elements.encode(target);
        proof {
            assert(target.deep_view() =~~= pre0 + Self::spec_encode(self.deep_view()));
        }
        match rr {
            Ok(u) => Ok(u),
            Err(e) => Err(e),
        }
    }
}

/// Progress and keyword case-insensitivity for SADD.
pub proof fn lemma_sadd_laws(toks: Seq<Seq<u8>>, t0: Seq<u8>)
    ensures
        SaddCommand::spec_parse(toks) matches ParseOutcome::Match(v, n) ==> n >= 1,
        toks.len() > 0 && eq_ignore_case(toks[0], t0) ==> SaddCommand::spec_parse(
            toks.update(0, t0),
        ) == SaddCommand::spec_parse(toks),
{
    if toks.len() > 0 && eq_ignore_case(toks[0], t0) {
        crate::command_args::lemma_head_matches_case(toks, t0, kw_sadd());
        assert(toks.update(0, t0).skip(1) =~= toks.skip(1));
        if toks.len() >= 2 {
            assert(toks.update(0, t0).skip(2) =~= toks.skip(2));
        }
    }
}

/// Parsing an encoded SADD gives the value back. The element list must
/// be non-empty: encoding an empty list gives `SADD key` alone, and
/// parsing that fails, since the greedy element list requires at least
/// one token.
pub proof fn lemma_sadd_round_trip(v: SaddCommandV)
    requires
        v.elements.len() > 0,
    ensures
        SaddCommand::spec_parse(SaddCommand::spec_encode(v)) matches ParseOutcome::Match(w, n)
            && w == v && n == SaddCommand::spec_encode(v).len(),
{
    let toks = SaddCommand::spec_encode(v);
    assert(head_matches(toks, kw_sadd()));
    assert(toks.skip(1) =~= seq![v.key] + v.elements);
    assert(toks.skip(1)[0] == v.key);
    assert(toks.skip(2) =~= v.elements);
}

/// The SMEMBERS command: list the members of the set stored under the
/// key.
#[derive(Debug)]
pub struct SmembersCommand {
    pub key: Vec<u8>,
}

/// Model of [`SmembersCommand`].
pub struct SmembersCommandV {
    pub key: Seq<u8>,
}

impl DeepView for SmembersCommand {
    type V = SmembersCommandV;

    open spec fn deep_view(&self) -> SmembersCommandV {
        SmembersCommandV { key: self.key@ }
    }
}

impl CommandArgs for SmembersCommand {
    open spec fn spec_parse(toks: Seq<Seq<u8>>) -> ParseOutcome<SmembersCommandV> {
        if !head_matches(toks, kw_smembers()) {
            ParseOutcome::NoMatch
        } else {
            match <Vec<u8> as CommandArgs>::spec_parse(toks.skip(1)) {
                ParseOutcome::NoMatch => ParseOutcome::Fail(Error::InvalidLength),
                ParseOutcome::Fail(e) => ParseOutcome::Fail(e),
                ParseOutcome::Match(k, n1) => ParseOutcome::Match(
                    SmembersCommandV { key: k },
                    (1 + n1) as nat,
                ),
            }
        }
    }

    open spec fn spec_encode(v: SmembersCommandV) -> Seq<Seq<u8>> {
        seq![kw_smembers(), v.key]
    }

    fn parse_maybe(args: &mut Cursor<'_>) -> (r: Result<Option<Self>, Error>) {
        let kw: [u8; 8] = [83, 77, 69, 77, 66, 69, 82, 83];
        proof {
            assert(kw@ =~= kw_smembers());
        }
        if !eat_keyword(args, kw.as_slice()) {
            return Ok(None);
        }
        proof {
            lemma_skip_skip(args.toks(), old(args).pos(), 1);
        }
        let key = match <Vec<u8> as CommandArgs>::parse_maybe(args) {
            Ok(Some(k)) => k,
            Ok(None) => {
                return Err(Error::InvalidLength);
            },
            Err(e) => {
                return Err(e);
            },
        };
        Ok(Some(SmembersCommand { key }))
    }

    fn encode(&self, target: &mut Vec<Vec<u8>>) -> (r: Result<(), Error>) {
        let kw: [u8; 8] = [83, 77, 69, 77, 66, 69, 82, 83];
        let ghost pre0 = target.deep_view();
        target.push(crate::ascii::copy_bytes(kw.as_slice()));
        let ghost pre1 = target.deep_view();
        proof {
            assert(pre1 =~~= pre0.push(kw_smembers()));
        }
        target.push(crate::ascii::copy_bytes(self.key.as_slice()));
        proof {
            assert(target.deep_view() =~~= pre1.push(self.key@));
            assert(target.deep_view() =~~= pre0 + Self::spec_encode(self.deep_view()));
        }
        Ok(())
    }
}

impl crate::command::CommandHandler for SaddCommand {
    /// SADD joins the elements onto the stored set, creating it when
    /// the key is absent, and answers how many members were new; a key
    /// holding a string is refused and the store is unchanged.
    open spec fn handle_rel(
        v: SaddCommandV,
        db: Map<Seq<u8>, crate::memds::MemV>,
        res: Result<crate::resp::RespV, crate::ErrorV>,
        db2: Map<Seq<u8>, crate::memds::MemV>,
    ) -> bool {
        if !db.contains_key(v.key) {
            db2 == db.insert(v.key, crate::memds::MemV::Elems(v.elements.to_set())) && res
                == Ok::<crate::resp::RespV, crate::ErrorV>(
                crate::resp::RespV::Uint(v.elements.to_set().len() as usize),
            )
        } else {
            match db[v.key] {
                crate::memds::MemV::Elems(s) => db2 == db.insert(
                    v.key,
                    crate::memds::MemV::Elems(s + v.elements.to_set()),
                ) && res == Ok::<crate::resp::RespV, crate::ErrorV>(
                    crate::resp::RespV::Uint(((s + v.elements.to_set()).len() - s.len()) as usize),
                ),
                crate::memds::MemV::Str(_) => db2 == db && res == Err::<
                    crate::resp::RespV,
                    crate::ErrorV,
                >(crate::ErrorV::Handle(crate::memds::msg_not_set(v.key))),
            }
        }
    }

    fn handle(self, db: &mut crate::database::Database) -> (r: Result<
        crate::resp::Response,
        crate::Error,
    >) {
        match db.sadd(self.key.as_slice(), &self.elements) {
            Ok(c) => Ok(crate::resp::Response::Uint(c)),
            Err(e) => Err(e),
        }
    }
}

/// Progress, keyword case-insensitivity and the round trip for
/// SMEMBERS.
pub proof fn lemma_smembers_laws(toks: Seq<Seq<u8>>, t0: Seq<u8>, v: SmembersCommandV)
    ensures
        SmembersCommand::spec_parse(toks) matches ParseOutcome::Match(w, n) ==> n >= 1,
        toks.len() > 0 && eq_ignore_case(toks[0], t0) ==> SmembersCommand::spec_parse(
            toks.update(0, t0),
        ) == SmembersCommand::spec_parse(toks),
        SmembersCommand::spec_parse(SmembersCommand::spec_encode(v)) == ParseOutcome::Match(
            v,
            2nat,
        ),
{
    if toks.len() > 0 && eq_ignore_case(toks[0], t0) {
        crate::command_args::lemma_head_matches_case(toks, t0, kw_smembers());
        assert(toks.update(0, t0).skip(1) =~= toks.skip(1));
    }
    let enc = SmembersCommand::spec_encode(v);
    assert(head_matches(enc, kw_smembers()));
    assert(enc.skip(1) =~= seq![v.key]);
}

impl crate::command::CommandHandler for SmembersCommand {
    /// SMEMBERS leaves the store alone; it answers the stored members,
    /// one copy each in an unspecified order, the null value when the
    /// key is absent, and a refusal when the key holds a string.
    open spec fn handle_rel(
        v: SmembersCommandV,
        db: Map<Seq<u8>, crate::memds::MemV>,
        res: Result<crate::resp::RespV, crate::ErrorV>,
        db2: Map<Seq<u8>, crate::memds::MemV>,
    ) -> bool {
        db2 == db && if !db.contains_key(v.key) {
            res == Ok::<crate::resp::RespV, crate::ErrorV>(crate::resp::RespV::Nil)
        } else {
            match db[v.key] {
                crate::memds::MemV::Elems(s) => res matches Ok(rv) && rv matches
                    crate::resp::RespV::Array(items) && items.to_set() == s
                    && items.no_duplicates(),
                crate::memds::MemV::Str(_) => res == Err::<crate::resp::RespV, crate::ErrorV>(
                    crate::ErrorV::Handle(crate::memds::msg_not_set(v.key)),
                ),
            }
        }
    }

    fn handle(self, db: &mut crate::database::Database) -> (r: Result<
        crate::resp::Response,
        crate::Error,
    >) {
        match db.smembers(self.key.as_slice()) {
            Ok(Some(items)) => Ok(crate::resp::Response::Array(items)),
            Ok(None) => Ok(crate::resp::Response::Nil),
            Err(e) => Err(e),
        }
    }
}

} // verus!
