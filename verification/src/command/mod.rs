//! The command types, their handlers, and the dispatcher.
//!
//! Each command type is a schema over the token vector (see
//! [`crate::command_args`]) together with a handler against the
//! datastore. The dispatcher tries every registered command in order,
//! runs the first that parses, and appends its RESP3 response to the
//! write buffer.

use vstd::prelude::*;

pub mod admin;
pub mod connection;
pub mod set;
pub mod string;

use crate::ascii::push_bytes;
use crate::command_args::{CommandArgs, Cursor, ParseOutcome};
use crate::database::Database;
use crate::memds::MemV;
use crate::resp::{resp_bytes, write_response, RespV, Response};
use crate::{Error, ErrorV};

verus! {

broadcast use crate::ascii::lemma_vec_u8_deep_view, crate::ascii::lemma_slice_u8_deep_view;

/// A command's effect on the datastore. The relation ties the
/// command's model and the store before the call to the result and
/// the store after it; for most commands it is a function, while
/// SMEMBERS only constrains the member list up to order.
pub trait CommandHandler: DeepView + Sized {
    /// What the handler may answer and leave behind.
    spec fn handle_rel(
        v: <Self as DeepView>::V,
        db: Map<Seq<u8>, MemV>,
        res: Result<RespV, ErrorV>,
        db2: Map<Seq<u8>, MemV>,
    ) -> bool;

    /// Runs the command against the datastore.
    fn handle(self, db: &mut Database) -> (r: Result<Response, Error>)
        requires
            old(db).wf(),
        ensures
            final(db).wf(),
            Self::handle_rel(self.deep_view(), old(db)@, res_view(r), final(db)@),
    ;
}

/// The result of a handler, at the model level.
pub open spec fn res_view(r: Result<Response, Error>) -> Result<RespV, ErrorV> {
    match r {
        Ok(resp) => Ok(resp.deep_view()),
        Err(e) => Err(e.deep_view()),
    }
}

/// The head token, or the empty byte string on an empty vector.
pub open spec fn head0(toks: Seq<Seq<u8>>) -> Seq<u8> {
    if toks.len() > 0 {
        toks[0]
    } else {
        Seq::empty()
    }
}

/// The message sent when no schema matches:
/// `ERR command <name> not supported`.
pub open spec fn msg_unsupported(cmd: Seq<u8>) -> Seq<u8> {
    seq![69u8, 82u8, 82u8, 32u8, 99u8, 111u8, 109u8, 109u8, 97u8, 110u8, 100u8, 32u8] + cmd + seq![
        32u8,
        110u8,
        111u8,
        116u8,
        32u8,
        115u8,
        117u8,
        112u8,
        112u8,
        111u8,
        114u8,
        116u8,
        101u8,
        100u8,
    ]
}

/// The message sent when a matched command's arguments are malformed:
/// `ERR failed to parse: <name>`.
pub open spec fn msg_failed_parse(cmd: Seq<u8>) -> Seq<u8> {
    seq![
        69u8,
        82u8,
        82u8,
        32u8,
        102u8,
        97u8,
        105u8,
        108u8,
        101u8,
        100u8,
        32u8,
        116u8,
        111u8,
        32u8,
        112u8,
        97u8,
        114u8,
        115u8,
        101u8,
        58u8,
        32u8,
    ] + cmd
}

/// Builds the `not supported` message for a command name.
fn build_msg_unsupported(cmd: &[u8]) -> (r: Vec<u8>)
    ensures
        r@ == msg_unsupported(cmd@),
{
    let head: [u8; 12] = [69, 82, 82, 32, 99, 111, 109, 109, 97, 110, 100, 32];
    let tail: [u8; 14] = [32, 110, 111, 116, 32, 115, 117, 112, 112, 111, 114, 116, 101, 100];
    let mut r: Vec<u8> = Vec::new();
    push_bytes(&mut r, head.as_slice());
    push_bytes(&mut r, cmd);
    push_bytes(&mut r, tail.as_slice());
    proof {
        assert(r@ =~= msg_unsupported(cmd@));
    }
    r
}

/// Builds the `failed to parse` message for a command name.
fn build_msg_failed_parse(cmd: &[u8]) -> (r: Vec<u8>)
    ensures
        r@ == msg_failed_parse(cmd@),
{
    let head: [u8; 21] = [
        69,
        82,
        82,
        32,
        102,
        97,
        105,
        108,
        101,
        100,
        32,
        116,
        111,
        32,
        112,
        97,
        114,
        115,
        101,
        58,
        32,
    ];
    let mut r: Vec<u8> = Vec::new();
    push_bytes(&mut r, head.as_slice());
    push_bytes(&mut r, cmd);
    proof {
        assert(r@ =~= msg_failed_parse(cmd@));
    }
    r
}

/// What dispatching one matched command does: on a clean parse the
/// handler runs and its response is written; a malformed argument or
/// a refused operation becomes a simple-error response that asks for
/// an immediate flush. `is_save` marks the one command that requests
/// a snapshot.
pub open spec fn cmd_rel<C: CommandArgs + CommandHandler>(
    toks: Seq<Seq<u8>>,
    db: Map<Seq<u8>, MemV>,
    db2: Map<Seq<u8>, MemV>,
    out: Seq<u8>,
    flush: bool,
    save: bool,
    is_save: bool,
) -> bool {
    match C::spec_parse(toks) {
        ParseOutcome::NoMatch => false,
        ParseOutcome::Fail(e) => db2 == db && out == resp_bytes(
            RespV::Error(msg_failed_parse(head0(toks))),
        ) && flush && !save,
        ParseOutcome::Match(v, n) => exists|res: Result<RespV, ErrorV>|
            #[trigger] C::handle_rel(v, db, res, db2) && match res {
                Ok(rv) => out == resp_bytes(rv) && !flush && save == is_save,
                Err(ErrorV::Parse(_)) => out == resp_bytes(
                    RespV::Error(msg_failed_parse(head0(toks))),
                ) && flush && !save,
                Err(ErrorV::Handle(m)) => out == resp_bytes(RespV::Error(m)) && flush && !save,
                Err(ErrorV::Serialize(_)) => false,
            },
    }
}

/// What one dispatch step does: the registered schemas are tried in
/// order; the first whose head matches decides the response, the new
/// store, the flush flag and the save request. When none matches, the
/// `not supported` error is written and the session continues.
pub open spec fn dispatch_rel(
    toks: Seq<Seq<u8>>,
    db: Map<Seq<u8>, MemV>,
    db2: Map<Seq<u8>, MemV>,
    out: Seq<u8>,
    flush: bool,
    save: bool,
) -> bool {
    if !(connection::HelloCommand::spec_parse(toks) is NoMatch) {
        cmd_rel::<connection::HelloCommand>(toks, db, db2, out, flush, save, false)
    } else if !(connection::CommandCommand::spec_parse(toks) is NoMatch) {
        cmd_rel::<connection::CommandCommand>(toks, db, db2, out, flush, save, false)
    } else if !(connection::PingCommand::spec_parse(toks) is NoMatch) {
        cmd_rel::<connection::PingCommand>(toks, db, db2, out, flush, save, false)
    } else if !(string::GetCommand::spec_parse(toks) is NoMatch) {
        cmd_rel::<string::GetCommand>(toks, db, db2, out, flush, save, false)
    } else if !(string::SetCommand::spec_parse(toks) is NoMatch) {
        cmd_rel::<string::SetCommand>(toks, db, db2, out, flush, save, false)
    } else if !(string::IncrCommand::spec_parse(toks) is NoMatch) {
        cmd_rel::<string::IncrCommand>(toks, db, db2, out, flush, save, false)
    } else if !(set::SaddCommand::spec_parse(toks) is NoMatch) {
        cmd_rel::<set::SaddCommand>(toks, db, db2, out, flush, save, false)
    } else if !(set::SmembersCommand::spec_parse(toks) is NoMatch) {
        cmd_rel::<set::SmembersCommand>(toks, db, db2, out, flush, save, false)
    } else if !(admin::SaveCommand::spec_parse(toks) is NoMatch) {
        cmd_rel::<admin::SaveCommand>(toks, db, db2, out, flush, save, true)
    } else {
        db2 == db && out == resp_bytes(RespV::Error(msg_unsupported(head0(toks)))) && !flush
            && !save
    }
}

/// A matched command whose dispatch ended in an error response left
/// the store as it was, provided its handler never changes the store
/// when it fails — which every registered handler's relation states.
proof fn lemma_cmd_rel_error_unchanged<C: CommandArgs + CommandHandler>(
    toks: Seq<Seq<u8>>,
    db: Map<Seq<u8>, MemV>,
    db2: Map<Seq<u8>, MemV>,
    out: Seq<u8>,
    save: bool,
    is_save: bool,
)
    requires
        cmd_rel::<C>(toks, db, db2, out, true, save, is_save),
        forall|v: <C as DeepView>::V, res: Result<RespV, ErrorV>, d2: Map<Seq<u8>, MemV>|
            #[trigger] C::handle_rel(v, db, res, d2) ==> (res is Err ==> d2 == db),
    ensures
        db2 == db,
{
    match C::spec_parse(toks) {
        ParseOutcome::NoMatch => {},
        ParseOutcome::Fail(e) => {},
        ParseOutcome::Match(v, n) => {
            let res = choose|res: Result<RespV, ErrorV>|
                #[trigger] C::handle_rel(v, db, res, db2) && match res {
                    Ok(rv) => out == resp_bytes(rv) && !true && save == is_save,
                    Err(ErrorV::Parse(_)) => out == resp_bytes(
                        RespV::Error(msg_failed_parse(head0(toks))),
                    ) && true && !save,
                    Err(ErrorV::Handle(m)) => out == resp_bytes(RespV::Error(m)) && true && !save,
                    Err(ErrorV::Serialize(_)) => false,
                };
            assert(res is Err);
        },
    }
}

/// No error is allowed to corrupt the datastore: whenever one
/// dispatch step answers with an error response, the one whose flush
/// flag is raised, the store after the step is the store before it.
/// State changes happen only on a successful full parse and handler.
pub proof fn lemma_dispatch_error_leaves_store(
    toks: Seq<Seq<u8>>,
    db: Map<Seq<u8>, MemV>,
    db2: Map<Seq<u8>, MemV>,
    out: Seq<u8>,
    save: bool,
)
    requires
        dispatch_rel(toks, db, db2, out, true, save),
    ensures
        db2 == db,
{
    if !(connection::HelloCommand::spec_parse(toks) is NoMatch) {
        lemma_cmd_rel_error_unchanged::<connection::HelloCommand>(toks, db, db2, out, save, false);
    } else if !(connection::CommandCommand::spec_parse(toks) is NoMatch) {
        lemma_cmd_rel_error_unchanged::<connection::CommandCommand>(
            toks,
            db,
            db2,
            out,
            save,
            false,
        );
    } else if !(connection::PingCommand::spec_parse(toks) is NoMatch) {
        lemma_cmd_rel_error_unchanged::<connection::PingCommand>(toks, db, db2, out, save, false);
    } else if !(string::GetCommand::spec_parse(toks) is NoMatch) {
        lemma_cmd_rel_error_unchanged::<string::GetCommand>(toks, db, db2, out, save, false);
    } else if !(string::SetCommand::spec_parse(toks) is NoMatch) {
        lemma_cmd_rel_error_unchanged::<string::SetCommand>(toks, db, db2, out, save, false);
    } else if !(string::IncrCommand::spec_parse(toks) is NoMatch) {
        lemma_cmd_rel_error_unchanged::<string::IncrCommand>(toks, db, db2, out, save, false);
    } else if !(set::SaddCommand::spec_parse(toks) is NoMatch) {
        lemma_cmd_rel_error_unchanged::<set::SaddCommand>(toks, db, db2, out, save, false);
    } else if !(set::SmembersCommand::spec_parse(toks) is NoMatch) {
        lemma_cmd_rel_error_unchanged::<set::SmembersCommand>(toks, db, db2, out, save, false);
    } else if !(admin::SaveCommand::spec_parse(toks) is NoMatch) {
        lemma_cmd_rel_error_unchanged::<admin::SaveCommand>(toks, db, db2, out, save, true);
    } else {
    }
}

/// Tries one command schema on the token vector. When its head
/// matches, the command runs and its response is appended; a parse or
/// handler failure is answered as an error for the caller to turn
/// into a response.
fn parse_handle<C: CommandArgs + CommandHandler>(
    args: &[Vec<u8>],
    db: &mut Database,
    write_buf: &mut Vec<u8>,
) -> (r: Result<bool, Error>)
    requires
        old(db).wf(),
    ensures
        final(db).wf(),
        match C::spec_parse(args.deep_view()) {
            ParseOutcome::NoMatch => r matches Ok(handled) && !handled && final(db)@ == old(db)@
                && final(write_buf)@ == old(write_buf)@,
            ParseOutcome::Fail(e) => r matches Err(err) && err.deep_view() == ErrorV::Parse(e)
                && final(db)@ == old(db)@ && final(write_buf)@ == old(write_buf)@,
            ParseOutcome::Match(v, n) => match r {
                Ok(handled) => handled && exists|rv: RespV|
                    #[trigger] C::handle_rel(v, old(db)@, Ok(rv), final(db)@)
                        && final(write_buf)@ == old(write_buf)@ + resp_bytes(rv),
                Err(e) => C::handle_rel(v, old(db)@, Err(e.deep_view()), final(db)@)
                    && final(write_buf)@ == old(write_buf)@,
            },
        },
{
    proof {
        assert(args.deep_view().skip(0) =~~= args.deep_view());
    }
    let mut cursor = Cursor::new(args);
    let parsed = match C::parse_maybe(&mut cursor) {
        Ok(p) => p,
        Err(e) => {
            return Err(Error::Parse(e));
        },
    };
    match parsed {
        None => Ok(false),
        Some(command) => {
            let resp = match command.handle(db) {
                Ok(resp) => resp,
                Err(e) => {
                    return Err(e);
                },
            };
            write_response(write_buf, &resp);
            proof {
                assert(C::handle_rel(
                    C::spec_parse(args.deep_view())->Match_0,
                    old(db)@,
                    Ok(resp.deep_view()),
                    db@,
                ));
            }
            Ok(true)
        },
    }
}

/// A successfully handled command meets the dispatch step relation:
/// the appended bytes are the response's, the flush flag is down, and
/// the save request follows the command.
proof fn lemma_step_ok<C: CommandArgs + CommandHandler>(
    toks: Seq<Seq<u8>>,
    db: Map<Seq<u8>, MemV>,
    db2: Map<Seq<u8>, MemV>,
    pre_buf: Seq<u8>,
    post_buf: Seq<u8>,
    is_save: bool,
)
    requires
        C::spec_parse(toks) is Match,
        exists|rv: RespV|
            #[trigger] C::handle_rel(C::spec_parse(toks)->Match_0, db, Ok(rv), db2) && post_buf
                == pre_buf + resp_bytes(rv),
    ensures
        pre_buf.is_prefix_of(post_buf),
        cmd_rel::<C>(toks, db, db2, post_buf.skip(pre_buf.len() as int), false, is_save, is_save),
{
    let rv = choose|rv: RespV|
        #[trigger] C::handle_rel(C::spec_parse(toks)->Match_0, db, Ok(rv), db2) && post_buf
            == pre_buf + resp_bytes(rv);
    assert(post_buf.skip(pre_buf.len() as int) =~= resp_bytes(rv));
    assert(post_buf.take(pre_buf.len() as int) =~= pre_buf);
}

/// The outcome of dispatching one frame.
#[derive(Debug, Clone, Copy, PartialEq, Eq, Structural)]
pub struct DispatchOutcome {
    /// The response should be flushed at once.
    pub need_flush: bool,
    /// The embedder should snapshot the datastore.
    pub save_requested: bool,
}

/// Tries every registered command in order and answers whether one
/// succeeded and whether a snapshot was requested; a parse or handler
/// failure is handed back for [`parse_and_handle`] to answer on the
/// wire.
pub fn parse_and_handle_main(
    args: &[Vec<u8>],
    db: &mut Database,
    write_buf: &mut Vec<u8>,
) -> (r: Result<bool, Error>)
    requires
        old(db).wf(),
    ensures
        final(db).wf(),
        match r {
            Ok(save) => old(write_buf)@.is_prefix_of(final(write_buf)@) && dispatch_rel(
                args.deep_view(),
                old(db)@,
                final(db)@,
                final(write_buf)@.skip(old(write_buf)@.len() as int),
                false,
                save,
            ),
            Err(e) => final(write_buf)@ == old(write_buf)@ && !(e.deep_view() is Serialize)
                && dispatch_rel(
                args.deep_view(),
                old(db)@,
                final(db)@,
                resp_bytes(
                    RespV::Error(
                        match e.deep_view() {
                            ErrorV::Parse(_) => msg_failed_parse(head0(args.deep_view())),
                            ErrorV::Handle(m) => m,
                            ErrorV::Serialize(m) => m,
                        },
                    ),
                ),
                true,
                false,
            ),
        },
{
    match parse_handle::<connection::HelloCommand>(args, db, write_buf) {
        Ok(true) => {
            proof {
                lemma_step_ok::<connection::HelloCommand>(
                    args.deep_view(),
                    old(db)@,
                    db@,
                    old(write_buf)@,
                    write_buf@,
                    false,
                );
            }
            return Ok(false);
        },
        Ok(false) => {},
        Err(e) => {
            return Err(e);
        },
    }
    match parse_handle::<connection::CommandCommand>(args, db, write_buf) {
        Ok(true) => {
            proof {
                lemma_step_ok::<connection::CommandCommand>(
                    args.deep_view(),
                    old(db)@,
                    db@,
                    old(write_buf)@,
                    write_buf@,
                    false,
                );
            }
            return Ok(false);
        },
        Ok(false) => {},
        Err(e) => {
            return Err(e);
        },
    }
    match parse_handle::<connection::PingCommand>(args, db, write_buf) {
        Ok(true) => {
            proof {
                lemma_step_ok::<connection::PingCommand>(
                    args.deep_view(),
                    old(db)@,
                    db@,
                    old(write_buf)@,
                    write_buf@,
                    false,
                );
            }
            return Ok(false);
        },
        Ok(false) => {},
        Err(e) => {
            return Err(e);
        },
    }
    match parse_handle::<string::GetCommand>(args, db, write_buf) {
        Ok(true) => {
            proof {
                lemma_step_ok::<string::GetCommand>(
                    args.deep_view(),
                    old(db)@,
                    db@,
                    old(write_buf)@,
                    write_buf@,
                    false,
                );
            }
            return Ok(false);
        },
        Ok(false) => {},
        Err(e) => {
            return Err(e);
        },
    }
    match parse_handle::<string::SetCommand>(args, db, write_buf) {
        Ok(true) => {
            proof {
                lemma_step_ok::<string::SetCommand>(
                    args.deep_view(),
                    old(db)@,
                    db@,
                    old(write_buf)@,
                    write_buf@,
                    false,
                );
            }
            return Ok(false);
        },
        Ok(false) => {},
        Err(e) => {
            return Err(e);
        },
    }
    match parse_handle::<string::IncrCommand>(args, db, write_buf) {
        Ok(true) => {
            proof {
                lemma_step_ok::<string::IncrCommand>(
                    args.deep_view(),
                    old(db)@,
                    db@,
                    old(write_buf)@,
                    write_buf@,
                    false,
                );
            }
            return Ok(false);
        },
        Ok(false) => {},
        Err(e) => {
            return Err(e);
        },
    }
    match parse_handle::<set::SaddCommand>(args, db, write_buf) {
        Ok(true) => {
            proof {
                lemma_step_ok::<set::SaddCommand>(
                    args.deep_view(),
                    old(db)@,
                    db@,
                    old(write_buf)@,
                    write_buf@,
                    false,
                );
            }
            return Ok(false);
        },
        Ok(false) => {},
        Err(e) => {
            return Err(e);
        },
    }
    match parse_handle::<set::SmembersCommand>(args, db, write_buf) {
        Ok(true) => {
            proof {
                lemma_step_ok::<set::SmembersCommand>(
                    args.deep_view(),
                    old(db)@,
                    db@,
                    old(write_buf)@,
                    write_buf@,
                    false,
                );
            }
            return Ok(false);
        },
        Ok(false) => {},
        Err(e) => {
            return Err(e);
        },
    }
    match parse_handle::<admin::SaveCommand>(args, db, write_buf) {
        Ok(true) => {
            proof {
                lemma_step_ok::<admin::SaveCommand>(
                    args.deep_view(),
                    old(db)@,
                    db@,
                    old(write_buf)@,
                    write_buf@,
                    true,
                );
            }
            return Ok(true);
        },
        Ok(false) => {},
        Err(e) => {
            return Err(e);
        },
    }
    let head: Vec<u8> = if args.len() > 0 {
        crate::ascii::copy_bytes(args[0].as_slice())
    } else {
        Vec::new()
    };
    proof {
        if args.deep_view().len() > 0 {
            assert(head@ == args.deep_view()[0]);
        } else {
            assert(head@ =~= head0(args.deep_view()));
        }
    }
    let msg = build_msg_unsupported(head.as_slice());
    let resp = Response::Error(msg);
    write_response(write_buf, &resp);
    proof {
        assert(write_buf@.skip(old(write_buf)@.len() as int) =~= resp_bytes(
            RespV::Error(msg_unsupported(head0(args.deep_view()))),
        ));
        assert(write_buf@.take(old(write_buf)@.len() as int) =~= old(write_buf)@);
    }
    Ok(false)
}

/// Routes one decoded token vector: parses it against each known
/// command schema in order, runs the matching handler, and appends the
/// RESP3 response to the write buffer — a simple error when the vector
/// is malformed, refused, or unknown. The outcome says whether the
/// response must be flushed at once and whether a snapshot was
/// requested; malformed and refused commands never change the store.
pub fn parse_and_handle(
    args: &[Vec<u8>],
    db: &mut Database,
    write_buf: &mut Vec<u8>,
) -> (r: Result<DispatchOutcome, Error>)
    requires
        old(db).wf(),
    ensures
        final(db).wf(),
        r matches Ok(d) && old(write_buf)@.is_prefix_of(final(write_buf)@) && dispatch_rel(
            args.deep_view(),
            old(db)@,
            final(db)@,
            final(write_buf)@.skip(old(write_buf)@.len() as int),
            d.need_flush,
            d.save_requested,
        ),
{
    match parse_and_handle_main(args, db, write_buf) {
        Ok(save) => Ok(
            DispatchOutcome { need_flush: false, save_requested: save },
        ),
        Err(e) => {
            let ghost ev = e.deep_view();
            let msg: Vec<u8> = match e {
                Error::Parse(_) => {
                    let head: Vec<u8> = if args.len() > 0 {
                        crate::ascii::copy_bytes(args[0].as_slice())
                    } else {
                        Vec::new()
                    };
                    proof {
                        if args.deep_view().len() > 0 {
                            assert(head@ == args.deep_view()[0]);
                        } else {
                            assert(head@ =~= head0(args.deep_view()));
                        }
                    }
                    build_msg_failed_parse(head.as_slice())
                },
                Error::Handle(m) => m,
                Error::Serialize(m) => m,
            };
            let ghost emsg = match ev {
                ErrorV::Parse(_) => msg_failed_parse(head0(args.deep_view())),
                ErrorV::Handle(m) => m,
                ErrorV::Serialize(m) => m,
            };
            proof {
                assert(msg@ == emsg);
            }
            let resp = Response::Error(msg);
            write_response(write_buf, &resp);
            proof {
                assert(write_buf@.skip(old(write_buf)@.len() as int) =~= resp_bytes(
                    RespV::Error(emsg),
                ));
                assert(write_buf@.take(old(write_buf)@.len() as int) =~= old(write_buf)@);
            }
            Ok(DispatchOutcome { need_flush: true, save_requested: false })
        },
    }
}

} // verus!
