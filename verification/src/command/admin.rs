//! Administrative commands: SAVE.

use vstd::prelude::*;

use crate::command_args::{eat_keyword, head_matches, CommandArgs, Cursor, Error, ParseOutcome};
use crate::ascii::eq_ignore_case;

verus! {

broadcast use crate::ascii::lemma_vec_u8_deep_view, crate::ascii::lemma_slice_u8_deep_view;

/// The keyword `SAVE`.
pub open spec fn kw_save() -> Seq<u8> {
    seq![83u8, 65u8, 86u8, 69u8]
}

/// The SAVE command: snapshot the datastore; it takes no arguments.
#[derive(Debug)]
pub struct SaveCommand;

impl DeepView for SaveCommand {
    type V = SaveCommand;

    open spec fn deep_view(&self) -> SaveCommand {
        *self
    }
}

impl CommandArgs for SaveCommand {
    open spec fn spec_parse(toks: Seq<Seq<u8>>) -> ParseOutcome<SaveCommand> {
        if !head_matches(toks, kw_save()) {
            ParseOutcome::NoMatch
        } else {
            ParseOutcome::Match(SaveCommand, 1)
        }
    }

    open spec fn spec_encode(v: SaveCommand) -> Seq<Seq<u8>> {
        seq![kw_save()]
    }

    fn parse_maybe(args: &mut Cursor<'_>) -> (r: Result<Option<Self>, Error>) {
        let kw: [u8; 4] = [83, 65, 86, 69];
        proof {
            assert(kw@ =~= kw_save());
        }
        if !eat_keyword(args, kw.as_slice()) {
            return Ok(None);
        }
        Ok(Some(SaveCommand))
    }

    fn encode(&self, target: &mut Vec<Vec<u8>>) -> (r: Result<(), Error>) {
        let kw: [u8; 4] = [83, 65, 86, 69];
        let ghost pre0 = target.deep_view();
        target.push(crate::ascii::copy_bytes(kw.as_slice()));
        proof {
            assert(target.deep_view() =~~= pre0 + Self::spec_encode(self.deep_view()));
        }
        Ok(())
    }
}

/// Progress, keyword case-insensitivity and the round trip for SAVE.
pub proof fn lemma_save_laws(toks: Seq<Seq<u8>>, t0: Seq<u8>)
    ensures
        SaveCommand::spec_parse(toks) matches ParseOutcome::Match(v, n) ==> n >= 1,
        toks.len() > 0 && eq_ignore_case(toks[0], t0) ==> SaveCommand::spec_parse(
            toks.update(0, t0),
        ) == SaveCommand::spec_parse(toks),
        SaveCommand::spec_parse(SaveCommand::spec_encode(SaveCommand)) == ParseOutcome::Match(
            SaveCommand,
            1nat,
        ),
{
    if toks.len() > 0 && eq_ignore_case(toks[0], t0) {
        crate::command_args::lemma_head_matches_case(toks, t0, kw_save());
    }
    assert(head_matches(SaveCommand::spec_encode(SaveCommand), kw_save()));
}

impl crate::command::CommandHandler for SaveCommand {
    /// SAVE leaves the store alone and is acknowledged; writing the
    /// snapshot itself is the embedder's work, signalled through the
    /// dispatcher's save request.
    open spec fn handle_rel(
        v: SaveCommand,
        db: Map<Seq<u8>, crate::memds::MemV>,
        res: Result<crate::resp::RespV, crate::ErrorV>,
        db2: Map<Seq<u8>, crate::memds::MemV>,
    ) -> bool {
        db2 == db && res == Ok::<crate::resp::RespV, crate::ErrorV>(crate::resp::RespV::Okay)
    }

    fn handle(self, db: &mut crate::database::Database) -> (r: Result<
        crate::resp::Response,
        crate::Error,
    >) {
        Ok(crate::resp::Response::Okay)
    }
}

} // verus!
