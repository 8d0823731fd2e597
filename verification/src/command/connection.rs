//! Connection-level commands: HELLO, COMMAND, PING.

use vstd::prelude::*;

use crate::command_args::{
    eat_keyword, head_matches, lemma_skip_skip, CommandArgs, Cursor, Error, ParseOutcome,
};
use crate::ascii::eq_ignore_case;

verus! {

broadcast use crate::ascii::lemma_vec_u8_deep_view, crate::ascii::lemma_slice_u8_deep_view;

/// The keyword `AUTH`.
pub open spec fn kw_auth() -> Seq<u8> {
    seq![65u8, 85u8, 84u8, 72u8]
}

/// The keyword `HELLO`.
pub open spec fn kw_hello() -> Seq<u8> {
    seq![72u8, 69u8, 76u8, 76u8, 79u8]
}

/// The keyword `COMMAND`.
pub open spec fn kw_command() -> Seq<u8> {
    seq![67u8, 79u8, 77u8, 77u8, 65u8, 78u8, 68u8]
}

/// The keyword `PING`.
pub open spec fn kw_ping() -> Seq<u8> {
    seq![80u8, 73u8, 78u8, 71u8]
}

/// The `AUTH user pass` block of HELLO. It is parsed and ignored:
/// authentication is not enforced.
#[derive(Debug)]
pub struct HelloAuthArg {
    pub username: Vec<u8>,
    pub password: Vec<u8>,
}

/// Model of [`HelloAuthArg`].
pub struct HelloAuthArgV {
    pub username: Seq<u8>,
    pub password: Seq<u8>,
}

impl DeepView for HelloAuthArg {
    type V = HelloAuthArgV;

    open spec fn deep_view(&self) -> HelloAuthArgV {
        HelloAuthArgV { username: self.username@, password: self.password@ }
    }
}

impl CommandArgs for HelloAuthArg {
    open spec fn spec_parse(toks: Seq<Seq<u8>>) -> ParseOutcome<HelloAuthArgV> {
        if !head_matches(toks, kw_auth()) {
            ParseOutcome::NoMatch
        } else {
            match <Vec<u8> as CommandArgs>::spec_parse(toks.skip(1)) {
                ParseOutcome::NoMatch => ParseOutcome::Fail(Error::InvalidLength),
                ParseOutcome::Fail(e) => ParseOutcome::Fail(e),
                ParseOutcome::Match(u, n1) => match <Vec<u8> as CommandArgs>::spec_parse(
                    toks.skip(1 + n1 as int),
                ) {
                    ParseOutcome::NoMatch => ParseOutcome::Fail(Error::InvalidLength),
                    ParseOutcome::Fail(e) => ParseOutcome::Fail(e),
                    ParseOutcome::Match(p, n2) => ParseOutcome::Match(
                        HelloAuthArgV { username: u, password: p },
                        (1 + n1 + n2) as nat,
                    ),
                },
            }
        }
    }

    open spec fn spec_encode(v: HelloAuthArgV) -> Seq<Seq<u8>> {
        seq![kw_auth(), v.username, v.password]
    }

    fn parse_maybe(args: &mut Cursor<'_>) -> (r: Result<Option<Self>, Error>) {
        let kw: [u8; 4] = [65, 85, 84, 72];
        proof {
            assert(kw@ =~= kw_auth());
        }
        if !eat_keyword(args, kw.as_slice()) {
            return Ok(None);
        }
        proof {
            lemma_skip_skip(args.toks(), old(args).pos(), 1);
        }
        let username = match <Vec<u8> as CommandArgs>::parse_maybe(args) {
            Ok(Some(u)) => u,
            Ok(None) => {
                return Err(Error::InvalidLength);
            },
            Err(e) => {
                return Err(e);
            },
        };
        proof {
            lemma_skip_skip(args.toks(), old(args).pos() + 1, args.pos() - old(args).pos() - 1);
            lemma_skip_skip(args.toks(), old(args).pos(), args.pos() - old(args).pos());
        }
        let password = match <Vec<u8> as CommandArgs>::parse_maybe(args) {
            Ok(Some(p)) => p,
            Ok(None) => {
                return Err(Error::InvalidLength);
            },
            Err(e) => {
                return Err(e);
            },
        };
        Ok(Some(HelloAuthArg { username, password }))
    }

    fn encode(&self, target: &mut Vec<Vec<u8>>) -> (r: Result<(), Error>) {
        let kw: [u8; 4] = [65, 85, 84, 72];
        let ghost pre0 = target.deep_view();
        target.push(crate::ascii::copy_bytes(kw.as_slice()));
        let ghost pre1 = target.deep_view();
        proof {
            assert(pre1 =~~= pre0.push(kw_auth()));
        }
        target.push(crate::ascii::copy_bytes(self.username.as_slice()));
        let ghost pre2 = target.deep_view();
        proof {
            assert(pre2 =~~= pre1.push(self.username@));
        }
        target.push(crate::ascii::copy_bytes(self.password.as_slice()));
        proof {
            assert(target.deep_view() =~~= pre2.push(self.password@));
            assert(target.deep_view() =~~= pre0 + Self::spec_encode(self.deep_view()));
        }
        Ok(())
    }
}

/// Parsing an AUTH block consumes at least one token when it succeeds.
pub proof fn lemma_hello_auth_progress(toks: Seq<Seq<u8>>)
    ensures
        HelloAuthArg::spec_parse(toks) matches ParseOutcome::Match(v, n) ==> n >= 1,
{
}

/// Replacing the head token by one equal up to ASCII case does not
/// change the outcome of parsing an AUTH block.
pub proof fn lemma_hello_auth_keyword_case(toks: Seq<Seq<u8>>, t0: Seq<u8>)
    requires
        toks.len() > 0,
        eq_ignore_case(toks[0], t0),
    ensures
        HelloAuthArg::spec_parse(toks.update(0, t0)) == HelloAuthArg::spec_parse(toks),
{
    crate::command_args::lemma_head_matches_case(toks, t0, kw_auth());
    assert(toks.update(0, t0).skip(1) =~= toks.skip(1));
}

/// Parsing an encoded AUTH block gives the value back.
pub proof fn lemma_hello_auth_round_trip(v: HelloAuthArgV)
    ensures
        HelloAuthArg::spec_parse(HelloAuthArg::spec_encode(v)) == ParseOutcome::Match(v, 3nat),
{
    let toks = HelloAuthArg::spec_encode(v);
    assert(head_matches(toks, kw_auth()));
    assert(toks.skip(1) =~= seq![v.username, v.password]);
    assert(toks.skip(1).skip(1) =~= seq![v.password]);
    assert(toks.skip(2) =~= seq![v.password]);
}

/// The HELLO handshake: protocol version, then an optional AUTH block.
#[derive(Debug)]
pub struct HelloCommand {
    pub protover: usize,
    pub auth: Option<HelloAuthArg>,
}

/// Model of [`HelloCommand`].
pub struct HelloCommandV {
    pub protover: usize,
    pub auth: Option<HelloAuthArgV>,
}

impl DeepView for HelloCommand {
    type V = HelloCommandV;

    open spec fn deep_view(&self) -> HelloCommandV {
        HelloCommandV { protover: self.protover, auth: self.auth.deep_view() }
    }
}

impl CommandArgs for HelloCommand {
    open spec fn spec_parse(toks: Seq<Seq<u8>>) -> ParseOutcome<HelloCommandV> {
        if !head_matches(toks, kw_hello()) {
            ParseOutcome::NoMatch
        } else {
            match <usize as CommandArgs>::spec_parse(toks.skip(1)) {
                ParseOutcome::NoMatch => ParseOutcome::Fail(Error::InvalidLength),
                ParseOutcome::Fail(e) => ParseOutcome::Fail(e),
                ParseOutcome::Match(pv, n1) => match HelloAuthArg::spec_parse(toks.skip(1 + n1 as int)) {
                    ParseOutcome::NoMatch => ParseOutcome::Match(
                        HelloCommandV { protover: pv, auth: None },
                        (1 + n1) as nat,
                    ),
                    ParseOutcome::Fail(e) => ParseOutcome::Fail(e),
                    ParseOutcome::Match(av, n2) => ParseOutcome::Match(
                        HelloCommandV { protover: pv, auth: Some(av) },
                        (1 + n1 + n2) as nat,
                    ),
                },
            }
        }
    }

    open spec fn spec_encode(v: HelloCommandV) -> Seq<Seq<u8>> {
        seq![kw_hello(), crate::num::dec_rep(v.protover as nat)] + (match v.auth {
            Some(av) => HelloAuthArg::spec_encode(av),
            None => Seq::empty(),
        })
    }

    fn parse_maybe(args: &mut Cursor<'_>) -> (r: Result<Option<Self>, Error>) {
        let kw: [u8; 5] = [72, 69, 76, 76, 79];
        proof {
            assert(kw@ =~= kw_hello());
        }
        if !eat_keyword(args, kw.as_slice()) {
            return Ok(None);
        }
        proof {
            lemma_skip_skip(args.toks(), old(args).pos(), 1);
        }
        let protover = match <usize as CommandArgs>::parse_maybe(args) {
            Ok(Some(pv)) => pv,
            Ok(None) => {
                return Err(Error::InvalidLength);
            },
            Err(e) => {
                return Err(e);
            },
        };
        proof {
            lemma_skip_skip(args.toks(), old(args).pos() + 1, args.pos() - old(args).pos() - 1);
            lemma_skip_skip(args.toks(), old(args).pos(), args.pos() - old(args).pos());
        }
        let auth = match HelloAuthArg::parse_maybe(args) {
            Ok(a) => a,
            Err(e) => {
                return Err(e);
            },
        };
        Ok(Some(HelloCommand { protover, auth }))
    }

    fn encode(&self, target: &mut Vec<Vec<u8>>) -> (r: Result<(), Error>) {
        let kw: [u8; 5] = [72, 69, 76, 76, 79];
        let ghost pre0 = target.deep_view();
        target.push(crate::ascii::copy_bytes(kw.as_slice()));
        let ghost pre1 = target.deep_view();
        proof {
            assert(pre1 =~~= pre0.push(kw_hello()));
        }
        target.push(crate::num::format_usize(self.protover));
        let ghost pre2 = target.deep_view();
        proof {
            assert(pre2 =~~= pre1.push(crate::num::dec_rep(self.protover as nat)));
        }
        match &self.auth {
            Some(a) => {
                let rr = a.encode(target);
                proof {
                    assert(target.deep_view() =~~= pre0 + Self::spec_encode(self.deep_view()));
                }
                match rr {
                    Ok(u) => Ok(u),
                    Err(e) => Err(e),
                }
            },
            None => {
                proof {
                    assert(target.deep_view() =~~= pre0 + Self::spec_encode(self.deep_view()));
                }
                Ok(())
            },
        }
    }
}

/// Parsing HELLO consumes at least one token when it succeeds.
pub proof fn lemma_hello_progress(toks: Seq<Seq<u8>>)
    ensures
        HelloCommand::spec_parse(toks) matches ParseOutcome::Match(v, n) ==> n >= 1,
{
}

/// Replacing the head token by one equal up to ASCII case does not
/// change the outcome of parsing HELLO.
pub proof fn lemma_hello_keyword_case(toks: Seq<Seq<u8>>, t0: Seq<u8>)
    requires
        toks.len() > 0,
        eq_ignore_case(toks[0], t0),
    ensures
        HelloCommand::spec_parse(toks.update(0, t0)) == HelloCommand::spec_parse(toks),
{
    crate::command_args::lemma_head_matches_case(toks, t0, kw_hello());
    assert(toks.update(0, t0).skip(1) =~= toks.skip(1));
}

/// Parsing an encoded HELLO gives the value back.
pub proof fn lemma_hello_round_trip(v: HelloCommandV)
    ensures
        HelloCommand::spec_parse(HelloCommand::spec_encode(v)) matches ParseOutcome::Match(w, n)
            && w == v && n == HelloCommand::spec_encode(v).len(),
{
    let toks = HelloCommand::spec_encode(v);
    let pv = crate::num::dec_rep(v.protover as nat);
    crate::num::lemma_dec_rep_digits(v.protover as nat);
    crate::num::lemma_dec_rep_val(v.protover as nat);
    assert(head_matches(toks, kw_hello()));
    match v.auth {
        Some(av) => {
            assert(toks.skip(1) =~= seq![pv] + HelloAuthArg::spec_encode(av));
            assert(toks.skip(1)[0] == pv);
            assert(toks.skip(2) =~= HelloAuthArg::spec_encode(av));
            lemma_hello_auth_round_trip(av);
        },
        None => {
            assert(toks.skip(1) =~= seq![pv]);
            assert(toks.skip(2) =~= Seq::<Seq<u8>>::empty());
        },
    }
}

/// The COMMAND introspection command; it takes no arguments and is
/// answered with an empty array.
#[derive(Debug)]
pub struct CommandCommand;

impl DeepView for CommandCommand {
    type V = CommandCommand;

    open spec fn deep_view(&self) -> CommandCommand {
        *self
    }
}

impl CommandArgs for CommandCommand {
    open spec fn spec_parse(toks: Seq<Seq<u8>>) -> ParseOutcome<CommandCommand> {
        if !head_matches(toks, kw_command()) {
            ParseOutcome::NoMatch
        } else {
            ParseOutcome::Match(CommandCommand, 1)
        }
    }

    open spec fn spec_encode(v: CommandCommand) -> Seq<Seq<u8>> {
        seq![kw_command()]
    }

    fn parse_maybe(args: &mut Cursor<'_>) -> (r: Result<Option<Self>, Error>) {
        let kw: [u8; 7] = [67, 79, 77, 77, 65, 78, 68];
        proof {
            assert(kw@ =~= kw_command());
        }
        if !eat_keyword(args, kw.as_slice()) {
            return Ok(None);
        }
        Ok(Some(CommandCommand))
    }

    fn encode(&self, target: &mut Vec<Vec<u8>>) -> (r: Result<(), Error>) {
        let kw: [u8; 7] = [67, 79, 77, 77, 65, 78, 68];
        let ghost pre0 = target.deep_view();
        target.push(crate::ascii::copy_bytes(kw.as_slice()));
        proof {
            assert(target.deep_view() =~~= pre0 + Self::spec_encode(self.deep_view()));
        }
        Ok(())
    }
}

/// The PING liveness command; it takes no arguments.
#[derive(Debug)]
pub struct PingCommand;

impl DeepView for PingCommand {
    type V = PingCommand;

    open spec fn deep_view(&self) -> PingCommand {
        *self
    }
}

impl CommandArgs for PingCommand {
    open spec fn spec_parse(toks: Seq<Seq<u8>>) -> ParseOutcome<PingCommand> {
        if !head_matches(toks, kw_ping()) {
            ParseOutcome::NoMatch
        } else {
            ParseOutcome::Match(PingCommand, 1)
        }
    }

    open spec fn spec_encode(v: PingCommand) -> Seq<Seq<u8>> {
        seq![kw_ping()]
    }

    fn parse_maybe(args: &mut Cursor<'_>) -> (r: Result<Option<Self>, Error>) {
        let kw: [u8; 4] = [80, 73, 78, 71];
        proof {
            assert(kw@ =~= kw_ping());
        }
        if !eat_keyword(args, kw.as_slice()) {
            return Ok(None);
        }
        Ok(Some(PingCommand))
    }

    fn encode(&self, target: &mut Vec<Vec<u8>>) -> (r: Result<(), Error>) {
        let kw: [u8; 4] = [80, 73, 78, 71];
        let ghost pre0 = target.deep_view();
        target.push(crate::ascii::copy_bytes(kw.as_slice()));
        proof {
            assert(target.deep_view() =~~= pre0 + Self::spec_encode(self.deep_view()));
        }
        Ok(())
    }
}

/// Progress and keyword case-insensitivity for COMMAND and PING, and
/// their round trips.
pub proof fn lemma_command_laws(toks: Seq<Seq<u8>>, t0: Seq<u8>)
    ensures
        CommandCommand::spec_parse(toks) matches ParseOutcome::Match(v, n) ==> n >= 1,
        PingCommand::spec_parse(toks) matches ParseOutcome::Match(v, n) ==> n >= 1,
        toks.len() > 0 && eq_ignore_case(toks[0], t0) ==> CommandCommand::spec_parse(
            toks.update(0, t0),
        ) == CommandCommand::spec_parse(toks),
        toks.len() > 0 && eq_ignore_case(toks[0], t0) ==> PingCommand::spec_parse(
            toks.update(0, t0),
        ) == PingCommand::spec_parse(toks),
{
    if toks.len() > 0 && eq_ignore_case(toks[0], t0) {
        crate::command_args::lemma_head_matches_case(toks, t0, kw_command());
        crate::command_args::lemma_head_matches_case(toks, t0, kw_ping());
    }
}

/// Parsing an encoded COMMAND or PING gives the value back.
pub proof fn lemma_command_ping_round_trip()
    ensures
        CommandCommand::spec_parse(CommandCommand::spec_encode(CommandCommand))
            == ParseOutcome::Match(CommandCommand, 1nat),
        PingCommand::spec_parse(PingCommand::spec_encode(PingCommand)) == ParseOutcome::Match(
            PingCommand,
            1nat,
        ),
{
    assert(head_matches(CommandCommand::spec_encode(CommandCommand), kw_command()));
    assert(head_matches(PingCommand::spec_encode(PingCommand), kw_ping()));
}

/// What the server says of itself in the HELLO response.
#[derive(Debug)]
pub struct ServerProperties {
    pub server: Vec<u8>,
    pub version: Vec<u8>,
    pub proto: usize,
}

/// The server's name, `memds`.
pub open spec fn lit_memds() -> Seq<u8> {
    seq![109u8, 101u8, 109u8, 100u8, 115u8]
}

/// The server's version, `0.0.1`.
pub open spec fn lit_version() -> Seq<u8> {
    seq![48u8, 46u8, 48u8, 46u8, 49u8]
}

/// The PING reply, `PONG`.
pub open spec fn lit_pong() -> Seq<u8> {
    seq![80u8, 79u8, 78u8, 71u8]
}

impl crate::command::CommandHandler for HelloCommand {
    /// HELLO leaves the store alone and reports the server's
    /// properties under protocol three; the AUTH block is ignored.
    open spec fn handle_rel(
        v: HelloCommandV,
        db: Map<Seq<u8>, crate::memds::MemV>,
        res: Result<crate::resp::RespV, crate::ErrorV>,
        db2: Map<Seq<u8>, crate::memds::MemV>,
    ) -> bool {
        db2 == db && res == Ok::<crate::resp::RespV, crate::ErrorV>(
            crate::resp::RespV::Props { server: lit_memds(), version: lit_version(), proto: 3 },
        )
    }

    fn handle(self, db: &mut crate::database::Database) -> (r: Result<
        crate::resp::Response,
        crate::Error,
    >) {
        let server: [u8; 5] = [109, 101, 109, 100, 115];
        let version: [u8; 5] = [48, 46, 48, 46, 49];
        let p = ServerProperties {
            server: crate::ascii::copy_bytes(server.as_slice()),
            version: crate::ascii::copy_bytes(version.as_slice()),
            proto: 3,
        };
        let resp = crate::resp::Response::Props(p);
        proof {
            assert(server@ =~= lit_memds());
            assert(version@ =~= lit_version());
        }
        Ok(resp)
    }
}

impl crate::command::CommandHandler for CommandCommand {
    /// COMMAND leaves the store alone and is answered with an empty
    /// array.
    open spec fn handle_rel(
        v: CommandCommand,
        db: Map<Seq<u8>, crate::memds::MemV>,
        res: Result<crate::resp::RespV, crate::ErrorV>,
        db2: Map<Seq<u8>, crate::memds::MemV>,
    ) -> bool {
        db2 == db && res == Ok::<crate::resp::RespV, crate::ErrorV>(
            crate::resp::RespV::Array(Seq::empty()),
        )
    }

    fn handle(self, db: &mut crate::database::Database) -> (r: Result<
        crate::resp::Response,
        crate::Error,
    >) {
        let items: Vec<Vec<u8>> = Vec::new();
        proof {
            assert(items.deep_view() =~~= Seq::<Seq<u8>>::empty());
        }
        Ok(crate::resp::Response::Array(items))
    }
}

impl crate::command::CommandHandler for PingCommand {
    /// PING leaves the store alone and is answered with `PONG`.
    open spec fn handle_rel(
        v: PingCommand,
        db: Map<Seq<u8>, crate::memds::MemV>,
        res: Result<crate::resp::RespV, crate::ErrorV>,
        db2: Map<Seq<u8>, crate::memds::MemV>,
    ) -> bool {
        db2 == db && res == Ok::<crate::resp::RespV, crate::ErrorV>(
            crate::resp::RespV::Simple(lit_pong()),
        )
    }

    fn handle(self, db: &mut crate::database::Database) -> (r: Result<
        crate::resp::Response,
        crate::Error,
    >) {
        let pong: [u8; 4] = [80, 79, 78, 71];
        let resp = crate::resp::Response::Simple(crate::ascii::copy_bytes(pong.as_slice()));
        proof {
            assert(pong@ =~= lit_pong());
        }
        Ok(resp)
    }
}

} // verus!
