//! The command decoder: a framed value becomes a typed command, or a
//! reason it could not.  The first element names the command, case
//! folded; arity and argument kinds are checked here.
use vstd::prelude::*;
use vstd::string::*;

use crate::parser::{copy_bytes, RedisValueRef, RespSpec, vw};
use crate::util::{
    dec_rep, parse_i64, parse_i64_spec, parse_u64, parse_u64_spec, to_upper_ascii, u64_to_dec,
    upper_bytes,
};

verus! {

/// A typed command, ready for the engine.
#[derive(Debug, PartialEq)]
pub enum RedisCommand {
    Ping,
    Echo(Vec<u8>),
    SetCmd(Vec<u8>, Vec<u8>),
    SetEx(Vec<u8>, Vec<u8>, u64),
    Get(Vec<u8>),
    Rpush(Vec<u8>, Vec<Vec<u8>>),
    Lrange(Vec<u8>, i64, i64),
    Auth(Vec<u8>, Vec<u8>),
    Subscribe(Vec<u8>),
    Unsubscribe(Vec<u8>),
    PSubscribe(Vec<u8>),
    PUnsubscribe(Vec<u8>),
    ReplConf(Vec<u8>, Vec<u8>),
    Psync(Vec<u8>, i64),
}

/// The mathematical shape of a command.
pub enum CmdSpec {
    Ping,
    Echo(Seq<u8>),
    SetCmd(Seq<u8>, Seq<u8>),
    SetEx(Seq<u8>, Seq<u8>, u64),
    Get(Seq<u8>),
    Rpush(Seq<u8>, Seq<Seq<u8>>),
    Lrange(Seq<u8>, int, int),
    Auth(Seq<u8>, Seq<u8>),
    Subscribe(Seq<u8>),
    Unsubscribe(Seq<u8>),
    PSubscribe(Seq<u8>),
    PUnsubscribe(Seq<u8>),
    ReplConf(Seq<u8>, Seq<u8>),
    Psync(Seq<u8>, int),
}

/// The abstraction of a command: every byte field becomes its sequence.
pub open spec fn cw(c: RedisCommand) -> CmdSpec {
    match c {
        RedisCommand::Ping => CmdSpec::Ping,
        RedisCommand::Echo(m) => CmdSpec::Echo(m@),
        RedisCommand::SetCmd(k, v) => CmdSpec::SetCmd(k@, v@),
        RedisCommand::SetEx(k, v, t) => CmdSpec::SetEx(k@, v@, t),
        RedisCommand::Get(k) => CmdSpec::Get(k@),
        RedisCommand::Rpush(k, vs) => CmdSpec::Rpush(
            k@,
            Seq::new(vs@.len(), |i: int| vs@[i]@),
        ),
        RedisCommand::Lrange(k, a, b) => CmdSpec::Lrange(k@, a as int, b as int),
        RedisCommand::Auth(u, p) => CmdSpec::Auth(u@, p@),
        RedisCommand::Subscribe(ch) => CmdSpec::Subscribe(ch@),
        RedisCommand::Unsubscribe(ch) => CmdSpec::Unsubscribe(ch@),
        RedisCommand::PSubscribe(p) => CmdSpec::PSubscribe(p@),
        RedisCommand::PUnsubscribe(p) => CmdSpec::PUnsubscribe(p@),
        RedisCommand::ReplConf(a, b) => CmdSpec::ReplConf(a@, b@),
        RedisCommand::Psync(a, b) => CmdSpec::Psync(a@, b as int),
    }
}

/// Why a framed value could not become a command.
#[derive(Debug, PartialEq)]
pub enum CmdError {
    /// The frame is not an array led by a string.
    InvalidCommandType,
    /// No command of this name exists; carries the folded name.
    InvalidCommand(Vec<u8>),
    /// An option keyword is not one of the allowed words.
    InvalidArgument(Vec<u8>),
    /// Too few or too many arguments.
    InvalidArgumentNum,
    /// The named field had to be a string.
    InvalidStringArg(Vec<u8>),
    /// The named field did not parse as an integer.
    ParseError(Vec<u8>),
}

/// The mathematical shape of a decode failure.
pub enum CmdErrSpec {
    InvalidCommandType,
    InvalidCommand(Seq<u8>),
    InvalidArgument(Seq<u8>),
    InvalidArgumentNum,
    InvalidStringArg(Seq<u8>),
    ParseError(Seq<u8>),
}

/// The abstraction of a decode failure.
pub open spec fn ew(e: CmdError) -> CmdErrSpec {
    match e {
        CmdError::InvalidCommandType => CmdErrSpec::InvalidCommandType,
        CmdError::InvalidCommand(n) => CmdErrSpec::InvalidCommand(n@),
        CmdError::InvalidArgument(a) => CmdErrSpec::InvalidArgument(a@),
        CmdError::InvalidArgumentNum => CmdErrSpec::InvalidArgumentNum,
        CmdError::InvalidStringArg(f) => CmdErrSpec::InvalidStringArg(f@),
        CmdError::ParseError(f) => CmdErrSpec::ParseError(f@),
    }
}

impl CmdError {
    /// The human-readable reason, as the dispatcher prints it after `ERR`.
    pub fn message(&self) -> (r: Vec<u8>)
        ensures
            r@ == (match ew(*self) {
                CmdErrSpec::InvalidCommandType => ("commands must start with a string")
                    .spec_bytes(),
                CmdErrSpec::InvalidCommand(n) => ("unknown command '").spec_bytes() + n + (
                "'").spec_bytes(),
                CmdErrSpec::InvalidArgument(a) => ("invalid argument '").spec_bytes() + a + (
                "'").spec_bytes(),
                CmdErrSpec::InvalidArgumentNum => ("wrong number of arguments").spec_bytes(),
                CmdErrSpec::InvalidStringArg(f) => f + (" must be a string").spec_bytes(),
                CmdErrSpec::ParseError(f) => ("could not parse ").spec_bytes() + f + (
                " as integer").spec_bytes(),
            }),
    {
        match self {
            CmdError::InvalidCommandType => ("commands must start with a string").as_bytes_vec(),
            CmdError::InvalidCommand(n) => {
                let mut out = ("unknown command '").as_bytes_vec();
                crate::parser::extend_bytes(&mut out, n);
                let tail = ("'").as_bytes_vec();
                crate::parser::extend_bytes(&mut out, &tail);
                out
            },
            CmdError::InvalidArgument(a) => {
                let mut out = ("invalid argument '").as_bytes_vec();
                crate::parser::extend_bytes(&mut out, a);
                let tail = ("'").as_bytes_vec();
                crate::parser::extend_bytes(&mut out, &tail);
                out
            },
            CmdError::InvalidArgumentNum => ("wrong number of arguments").as_bytes_vec(),
            CmdError::InvalidStringArg(f) => {
                let mut out = copy_bytes(f);
                let tail = (" must be a string").as_bytes_vec();
                crate::parser::extend_bytes(&mut out, &tail);
                out
            },
            CmdError::ParseError(f) => {
                let mut out = ("could not parse ").as_bytes_vec();
                crate::parser::extend_bytes(&mut out, f);
                let tail = (" as integer").as_bytes_vec();
                crate::parser::extend_bytes(&mut out, &tail);
                out
            },
        }
    }
}

/// The wire name of a command, as the protocol spells it.
pub open spec fn cmd_name(c: CmdSpec) -> Seq<u8> {
    match c {
        CmdSpec::Ping => ("PING").spec_bytes(),
        CmdSpec::Echo(_) => ("ECHO").spec_bytes(),
        CmdSpec::SetCmd(_, _) => ("SET").spec_bytes(),
        CmdSpec::SetEx(_, _, _) => ("SET").spec_bytes(),
        CmdSpec::Get(_) => ("GET").spec_bytes(),
        CmdSpec::Rpush(_, _) => ("RPUSH").spec_bytes(),
        CmdSpec::Lrange(_, _, _) => ("LRANGE").spec_bytes(),
        CmdSpec::Auth(_, _) => ("AUTH").spec_bytes(),
        CmdSpec::Subscribe(_) => ("SUBSCRIBE").spec_bytes(),
        CmdSpec::Unsubscribe(_) => ("UNSUBSCRIBE").spec_bytes(),
        CmdSpec::PSubscribe(_) => ("PSUBSCRIBE").spec_bytes(),
        CmdSpec::PUnsubscribe(_) => ("PUNSUBSCRIBE").spec_bytes(),
        CmdSpec::ReplConf(_, _) => ("REPLCONF").spec_bytes(),
        CmdSpec::Psync(_, _) => ("PSYNC").spec_bytes(),
    }
}

impl RedisCommand {
    /// The wire name of this command.
    pub fn name(&self) -> (r: Vec<u8>)
        ensures
            r@ == cmd_name(cw(*self)),
    {
        match self {
            RedisCommand::Ping => ("PING").as_bytes_vec(),
            RedisCommand::Echo(_) => ("ECHO").as_bytes_vec(),
            RedisCommand::SetCmd(_, _) => ("SET").as_bytes_vec(),
            RedisCommand::SetEx(_, _, _) => ("SET").as_bytes_vec(),
            RedisCommand::Get(_) => ("GET").as_bytes_vec(),
            RedisCommand::Rpush(_, _) => ("RPUSH").as_bytes_vec(),
            RedisCommand::Lrange(_, _, _) => ("LRANGE").as_bytes_vec(),
            RedisCommand::Auth(_, _) => ("AUTH").as_bytes_vec(),
            RedisCommand::Subscribe(_) => ("SUBSCRIBE").as_bytes_vec(),
            RedisCommand::Unsubscribe(_) => ("UNSUBSCRIBE").as_bytes_vec(),
            RedisCommand::PSubscribe(_) => ("PSUBSCRIBE").as_bytes_vec(),
            RedisCommand::PUnsubscribe(_) => ("PUNSUBSCRIBE").as_bytes_vec(),
            RedisCommand::ReplConf(_, _) => ("REPLCONF").as_bytes_vec(),
            RedisCommand::Psync(_, _) => ("PSYNC").as_bytes_vec(),
        }
    }
}

/// The string payload of an argument, when it has one.
pub open spec fn arg_string(v: RespSpec) -> Option<Seq<u8>> {
    match v {
        RespSpec::String(s) => Some(s),
        RespSpec::SimpleString(s) => Some(s),
        _ => None,
    }
}

/// What decoding the SET arguments yields: key, value, and an optional
/// expiry given as `EX` seconds or `PX` milliseconds.
pub open spec fn set_spec(args: Seq<RespSpec>) -> Result<CmdSpec, CmdErrSpec> {
    if args.len() < 3 {
        Err(CmdErrSpec::InvalidArgumentNum)
    } else {
        match arg_string(args[1]) {
            None => Err(CmdErrSpec::InvalidStringArg(("key").spec_bytes())),
            Some(key) => match arg_string(args[2]) {
                None => Err(CmdErrSpec::InvalidStringArg(("value").spec_bytes())),
                Some(value) => if args.len() == 3 {
                    Ok(CmdSpec::SetCmd(key, value))
                } else if args.len() == 5 {
                    match arg_string(args[3]) {
                        None => Err(CmdErrSpec::InvalidStringArg(("ttl type").spec_bytes())),
                        Some(tt) => match arg_string(args[4]) {
                            None => Err(
                                CmdErrSpec::InvalidStringArg(("ttl value").spec_bytes()),
                            ),
                            Some(tv) => match parse_u64_spec(tv) {
                                None => Err(CmdErrSpec::ParseError(("ttl value").spec_bytes())),
                                Some(t) => if tt == ("EX").spec_bytes() {
                                    Ok(
                                        CmdSpec::SetEx(
                                            key,
                                            value,
                                            (if t <= u64::MAX / 1000 {
                                                (t * 1000) as u64
                                            } else {
                                                u64::MAX
                                            }),
                                        ),
                                    )
                                } else if tt == ("PX").spec_bytes() {
                                    Ok(CmdSpec::SetEx(key, value, t))
                                } else {
                                    Err(CmdErrSpec::InvalidArgument(tt))
                                },
                            },
                        },
                    }
                } else {
                    Err(CmdErrSpec::InvalidArgumentNum)
                },
            },
        }
    }
}

/// What decoding the RPUSH arguments yields: a key and at least one value.
pub open spec fn rpush_spec(args: Seq<RespSpec>) -> Result<CmdSpec, CmdErrSpec>
    decreases args.len(),
{
    if args.len() < 3 {
        Err(CmdErrSpec::InvalidArgumentNum)
    } else {
        match arg_string(args[1]) {
            None => Err(CmdErrSpec::InvalidStringArg(("key").spec_bytes())),
            Some(key) => match rpush_values(args, 2) {
                Ok(vs) => Ok(CmdSpec::Rpush(key, vs)),
                Err(e) => Err(e),
            },
        }
    }
}

/// The values of a push, position by position; a non-string stops the
/// decode and names the offending position.
pub open spec fn rpush_values(args: Seq<RespSpec>, i: int) -> Result<Seq<Seq<u8>>, CmdErrSpec>
    decreases args.len() - i,
{
    if i >= args.len() {
        Ok(Seq::empty())
    } else {
        match arg_string(args[i]) {
            None => Err(
                CmdErrSpec::InvalidStringArg(
                    ("value[").spec_bytes() + dec_rep((i - 2) as nat) + ("]").spec_bytes(),
                ),
            ),
            Some(v) => match rpush_values(args, i + 1) {
                Ok(rest) => Ok(seq![v] + rest),
                Err(e) => Err(e),
            },
        }
    }
}

/// What decoding one framed value into a command yields: the typed
/// command, or the reason the frame is not one.
pub open spec fn interpret_spec(v: RespSpec) -> Result<CmdSpec, CmdErrSpec> {
    match v {
        RespSpec::Array(args) => if args.len() == 0 {
            Err(CmdErrSpec::InvalidArgumentNum)
        } else {
            match arg_string(args[0]) {
                None => Err(CmdErrSpec::InvalidCommandType),
                Some(cmd) => {
                    let up = upper_bytes(cmd);
                    if up == ("PING").spec_bytes() {
                        Ok(CmdSpec::Ping)
                    } else if up == ("ECHO").spec_bytes() {
                        if args.len() < 2 {
                            Err(CmdErrSpec::InvalidArgumentNum)
                        } else {
                            match arg_string(args[1]) {
                                Some(m) => Ok(CmdSpec::Echo(m)),
                                None => Err(
                                    CmdErrSpec::InvalidStringArg(("message").spec_bytes()),
                                ),
                            }
                        }
                    } else if up == ("SET").spec_bytes() {
                        set_spec(args)
                    } else if up == ("GET").spec_bytes() {
                        if args.len() < 2 {
                            Err(CmdErrSpec::InvalidArgumentNum)
                        } else {
                            match arg_string(args[1]) {
                                Some(k) => Ok(CmdSpec::Get(k)),
                                None => Err(CmdErrSpec::InvalidStringArg(("key").spec_bytes())),
                            }
                        }
                    } else if up == ("RPUSH").spec_bytes() {
                        rpush_spec(args)
                    } else if up == ("LRANGE").spec_bytes() {
                        if args.len() != 4 {
                            Err(CmdErrSpec::InvalidArgumentNum)
                        } else {
                            interpret_lrange_spec(args)
                        }
                    } else if up == ("SUBSCRIBE").spec_bytes() {
                        if args.len() < 2 {
                            Err(CmdErrSpec::InvalidArgumentNum)
                        } else {
                            match arg_string(args[1]) {
                                Some(ch) => Ok(CmdSpec::Subscribe(ch)),
                                None => Err(
                                    CmdErrSpec::InvalidStringArg(("channel").spec_bytes()),
                                ),
                            }
                        }
                    } else if up == ("UNSUBSCRIBE").spec_bytes() {
                        if args.len() < 2 {
                            Err(CmdErrSpec::InvalidArgumentNum)
                        } else {
                            match arg_string(args[1]) {
                                Some(ch) => Ok(CmdSpec::Unsubscribe(ch)),
                                None => Err(
                                    CmdErrSpec::InvalidStringArg(("channel").spec_bytes()),
                                ),
                            }
                        }
                    } else if up == ("PSUBSCRIBE").spec_bytes() {
                        if args.len() < 2 {
                            Err(CmdErrSpec::InvalidArgumentNum)
                        } else {
                            match arg_string(args[1]) {
                                Some(pt) => Ok(CmdSpec::PSubscribe(pt)),
                                None => Err(
                                    CmdErrSpec::InvalidStringArg(("pattern").spec_bytes()),
                                ),
                            }
                        }
                    } else if up == ("PUNSUBSCRIBE").spec_bytes() {
                        if args.len() < 2 {
                            Err(CmdErrSpec::InvalidArgumentNum)
                        } else {
                            match arg_string(args[1]) {
                                Some(pt) => Ok(CmdSpec::PUnsubscribe(pt)),
                                None => Err(
                                    CmdErrSpec::InvalidStringArg(("pattern").spec_bytes()),
                                ),
                            }
                        }
                    } else if up == ("AUTH").spec_bytes() {
                        if args.len() != 3 {
                            Err(CmdErrSpec::InvalidArgumentNum)
                        } else {
                            match arg_string(args[1]) {
                                None => Err(
                                    CmdErrSpec::InvalidStringArg(("username").spec_bytes()),
                                ),
                                Some(u) => match arg_string(args[2]) {
                                    Some(p) => Ok(CmdSpec::Auth(u, p)),
                                    None => Err(
                                        CmdErrSpec::InvalidStringArg(
                                            ("password").spec_bytes(),
                                        ),
                                    ),
                                },
                            }
                        }
                    } else if up == ("REPLCONF").spec_bytes() {
                        if args.len() != 3 {
                            Err(CmdErrSpec::InvalidArgumentNum)
                        } else {
                            match arg_string(args[1]) {
                                None => Err(CmdErrSpec::InvalidStringArg(("key").spec_bytes())),
                                Some(k) => match arg_string(args[2]) {
                                    Some(v) => Ok(CmdSpec::ReplConf(k, v)),
                                    None => Err(
                                        CmdErrSpec::InvalidStringArg(("value").spec_bytes()),
                                    ),
                                },
                            }
                        }
                    } else if up == ("PSYNC").spec_bytes() {
                        if args.len() != 3 {
                            Err(CmdErrSpec::InvalidArgumentNum)
                        } else {
                            match arg_string(args[1]) {
                                None => Err(CmdErrSpec::InvalidStringArg(("id").spec_bytes())),
                                Some(idv) => match arg_string(args[2]) {
                                    None => Err(
                                        CmdErrSpec::InvalidStringArg(
                                            ("offset").spec_bytes(),
                                        ),
                                    ),
                                    Some(ov) => match parse_i64_spec(ov) {
                                        Some(off) => Ok(CmdSpec::Psync(idv, off as int)),
                                        None => Err(
                                            CmdErrSpec::ParseError(("offset").spec_bytes()),
                                        ),
                                    },
                                },
                            }
                        }
                    } else {
                        Err(CmdErrSpec::InvalidCommand(up))
                    }
                },
            }
        },
        _ => Err(CmdErrSpec::InvalidCommandType),
    }
}

/// The command decoder; it holds no state of its own.
#[derive(Default)]
pub struct RedisInterpreter;

impl RedisInterpreter {
    /// A fresh decoder.
    pub fn new() -> Self {
        Self
    }

    /// Decode one framed value into a typed command, or the reason it is
    /// not one.
    pub fn interpret(&self, value: RedisValueRef) -> (r: Result<RedisCommand, CmdError>)
        ensures
            match interpret_spec(vw(value)) {
                Ok(cs) => r matches Ok(c) && cw(c) == cs,
                Err(es) => r matches Err(e) && ew(e) == es,
            },
    {
        match value {
            RedisValueRef::Array(args) => {
                if args.len() == 0 {
                    return Err(CmdError::InvalidArgumentNum);
                }
                let cmd0 = match arg_bytes(&args, 0) {
                    Some(c) => c,
                    None => {
                        return Err(CmdError::InvalidCommandType);
                    },
                };
                let up = to_upper_ascii(cmd0.as_slice());
                if eq_lit(&up, "PING") {
                    Ok(RedisCommand::Ping)
                } else if eq_lit(&up, "ECHO") {
                    if args.len() < 2 {
                        return Err(CmdError::InvalidArgumentNum);
                    }
                    match arg_bytes(&args, 1) {
                        Some(m) => Ok(RedisCommand::Echo(m)),
                        None => Err(CmdError::InvalidStringArg(("message").as_bytes_vec())),
                    }
                } else if eq_lit(&up, "SET") {
                    self.set(&args)
                } else if eq_lit(&up, "GET") {
                    if args.len() < 2 {
                        return Err(CmdError::InvalidArgumentNum);
                    }
                    match arg_bytes(&args, 1) {
                        Some(k) => Ok(RedisCommand::Get(k)),
                        None => Err(CmdError::InvalidStringArg(("key").as_bytes_vec())),
                    }
                } else if eq_lit(&up, "RPUSH") {
                    self.rpush(&args)
                } else if eq_lit(&up, "LRANGE") {
                    if args.len() != 4 {
                        return Err(CmdError::InvalidArgumentNum);
                    }
                    self.lrange(&args)
                } else if eq_lit(&up, "SUBSCRIBE") {
                    if args.len() < 2 {
                        return Err(CmdError::InvalidArgumentNum);
                    }
                    match arg_bytes(&args, 1) {
                        Some(ch) => Ok(RedisCommand::Subscribe(ch)),
                        None => Err(CmdError::InvalidStringArg(("channel").as_bytes_vec())),
                    }
                } else if eq_lit(&up, "UNSUBSCRIBE") {
                    if args.len() < 2 {
                        return Err(CmdError::InvalidArgumentNum);
                    }
                    match arg_bytes(&args, 1) {
                        Some(ch) => Ok(RedisCommand::Unsubscribe(ch)),
                        None => Err(CmdError::InvalidStringArg(("channel").as_bytes_vec())),
                    }
                } else if eq_lit(&up, "PSUBSCRIBE") {
                    if args.len() < 2 {
                        return Err(CmdError::InvalidArgumentNum);
                    }
                    match arg_bytes(&args, 1) {
                        Some(pt) => Ok(RedisCommand::PSubscribe(pt)),
                        None => Err(CmdError::InvalidStringArg(("pattern").as_bytes_vec())),
                    }
                } else if eq_lit(&up, "PUNSUBSCRIBE") {
                    if args.len() < 2 {
                        return Err(CmdError::InvalidArgumentNum);
                    }
                    match arg_bytes(&args, 1) {
                        Some(pt) => Ok(RedisCommand::PUnsubscribe(pt)),
                        None => Err(CmdError::InvalidStringArg(("pattern").as_bytes_vec())),
                    }
                } else if eq_lit(&up, "AUTH") {
                    if args.len() != 3 {
                        return Err(CmdError::InvalidArgumentNum);
                    }
                    let u = match arg_bytes(&args, 1) {
                        Some(u) => u,
                        None => {
                            return Err(
                                CmdError::InvalidStringArg(("username").as_bytes_vec()),
                            );
                        },
                    };
                    match arg_bytes(&args, 2) {
                        Some(p) => Ok(RedisCommand::Auth(u, p)),
                        None => Err(CmdError::InvalidStringArg(("password").as_bytes_vec())),
                    }
                } else if eq_lit(&up, "REPLCONF") {
                    if args.len() != 3 {
                        return Err(CmdError::InvalidArgumentNum);
                    }
                    let k = match arg_bytes(&args, 1) {
                        Some(k) => k,
                        None => {
                            return Err(CmdError::InvalidStringArg(("key").as_bytes_vec()));
                        },
                    };
                    match arg_bytes(&args, 2) {
                        Some(v) => Ok(RedisCommand::ReplConf(k, v)),
                        None => Err(CmdError::InvalidStringArg(("value").as_bytes_vec())),
                    }
                } else if eq_lit(&up, "PSYNC") {
                    if args.len() != 3 {
                        return Err(CmdError::InvalidArgumentNum);
                    }
                    let idv = match arg_bytes(&args, 1) {
                        Some(idv) => idv,
                        None => {
                            return Err(CmdError::InvalidStringArg(("id").as_bytes_vec()));
                        },
                    };
                    let ov = match arg_bytes(&args, 2) {
                        Some(ov) => ov,
                        None => {
                            return Err(CmdError::InvalidStringArg(("offset").as_bytes_vec()));
                        },
                    };
                    match parse_i64(ov.as_slice()) {
                        Some(off) => Ok(RedisCommand::Psync(idv, off)),
                        None => Err(CmdError::ParseError(("offset").as_bytes_vec())),
                    }
                } else {
                    Err(CmdError::InvalidCommand(up))
                }
            },
            _ => Err(CmdError::InvalidCommandType),
        }
    }

    /// Decode SET's arguments: key, value, and the optional expiry pair.
    fn set(&self, args: &Vec<RedisValueRef>) -> (r: Result<RedisCommand, CmdError>)
        ensures
            match set_spec(crate::parser::vws(args@)) {
                Ok(cs) => r matches Ok(c) && cw(c) == cs,
                Err(es) => r matches Err(e) && ew(e) == es,
            },
    {
        if args.len() < 3 {
            return Err(CmdError::InvalidArgumentNum);
        }
        let key = match arg_bytes(args, 1) {
            Some(k) => k,
            None => {
                return Err(CmdError::InvalidStringArg(("key").as_bytes_vec()));
            },
        };
        let value = match arg_bytes(args, 2) {
            Some(v) => v,
            None => {
                return Err(CmdError::InvalidStringArg(("value").as_bytes_vec()));
            },
        };
        if args.len() == 3 {
            Ok(RedisCommand::SetCmd(key, value))
        } else if args.len() == 5 {
            let tt = match arg_bytes(args, 3) {
                Some(t) => t,
                None => {
                    return Err(CmdError::InvalidStringArg(("ttl type").as_bytes_vec()));
                },
            };
            let tv = match arg_bytes(args, 4) {
                Some(t) => t,
                None => {
                    return Err(CmdError::InvalidStringArg(("ttl value").as_bytes_vec()));
                },
            };
            let t = match parse_u64(tv.as_slice()) {
                Some(t) => t,
                None => {
                    return Err(CmdError::ParseError(("ttl value").as_bytes_vec()));
                },
            };
            if eq_lit(&tt, "EX") {
                let ms = if t <= u64::MAX / 1000 {
                    t * 1000
                } else {
                    u64::MAX
                };
                Ok(RedisCommand::SetEx(key, value, ms))
            } else if eq_lit(&tt, "PX") {
                Ok(RedisCommand::SetEx(key, value, t))
            } else {
                Err(CmdError::InvalidArgument(tt))
            }
        } else {
            Err(CmdError::InvalidArgumentNum)
        }
    }

    /// Decode RPUSH's arguments: a key and the values to append.
    fn rpush(&self, args: &Vec<RedisValueRef>) -> (r: Result<RedisCommand, CmdError>)
        ensures
            match rpush_spec(crate::parser::vws(args@)) {
                Ok(cs) => r matches Ok(c) && cw(c) == cs,
                Err(es) => r matches Err(e) && ew(e) == es,
            },
    {
        if args.len() < 3 {
            return Err(CmdError::InvalidArgumentNum);
        }
        let ghost vsp = crate::parser::vws(args@);
        let key = match arg_bytes(args, 1) {
            Some(k) => k,
            None => {
                return Err(CmdError::InvalidStringArg(("key").as_bytes_vec()));
            },
        };
        let mut values: Vec<Vec<u8>> = Vec::new();
        let mut i: usize = 2;
        while i < args.len()
            invariant
                2 <= i <= vsp.len(),
                3 <= vsp.len(),
                vsp == crate::parser::vws(args@),
                args@.len() == vsp.len(),
                arg_string(vsp[1]) == Some(key@),
                values@.len() == i - 2,
                rpush_values(vsp, 2) == (match rpush_values(vsp, i as int) {
                    Ok(rest) => Ok::<Seq<Seq<u8>>, CmdErrSpec>(
                        Seq::new(values@.len(), |j: int| values@[j]@) + rest,
                    ),
                    Err(e) => Err::<Seq<Seq<u8>>, CmdErrSpec>(e),
                }),
            decreases vsp.len() - i,
        {
            let ghost vals0 = Seq::new(values@.len(), |j: int| values@[j]@);
            match arg_bytes(args, i) {
                Some(v) => {
                    let ghost vv = v@;
                    values.push(v);
                    proof {
                        let vals1 = Seq::new(values@.len(), |j: int| values@[j]@);
                        assert(vals1 =~= vals0.push(vv));
                        match rpush_values(vsp, i + 1) {
                            Ok(rest) => {
                                assert(rpush_values(vsp, i as int) == Ok::<
                                    Seq<Seq<u8>>,
                                    CmdErrSpec,
                                >(seq![vv] + rest));
                                assert(vals0 + (seq![vv] + rest) =~= vals1 + rest);
                            },
                            Err(_) => {},
                        }
                    }
                },
                None => {
                    let mut field = ("value[").as_bytes_vec();
                    let digits = u64_to_dec((i - 2) as u64);
                    crate::parser::extend_bytes(&mut field, &digits);
                    let tail = ("]").as_bytes_vec();
                    crate::parser::extend_bytes(&mut field, &tail);
                    proof {
                        assert(field@ =~= ("value[").spec_bytes() + dec_rep((i - 2) as nat) + (
                        "]").spec_bytes());
                        assert(rpush_values(vsp, i as int) matches Err(e2) && e2
                            == CmdErrSpec::InvalidStringArg(field@));
                    }
                    return Err(CmdError::InvalidStringArg(field));
                },
            }
            i += 1;
        }
        proof {
            assert(rpush_values(vsp, vsp.len() as int) == Ok::<Seq<Seq<u8>>, CmdErrSpec>(
                Seq::empty(),
            ));
            let vals = Seq::new(values@.len(), |j: int| values@[j]@);
            assert(vals + Seq::<Seq<u8>>::empty() =~= vals);
        }
        Ok(RedisCommand::Rpush(key, values))
    }

    /// Decode LRANGE's arguments: a key and two signed indices.
    fn lrange(&self, args: &Vec<RedisValueRef>) -> (r: Result<RedisCommand, CmdError>)
        requires
            crate::parser::vws(args@).len() == 4,
        ensures
            match interpret_lrange_spec(crate::parser::vws(args@)) {
                Ok(cs) => r matches Ok(c) && cw(c) == cs,
                Err(es) => r matches Err(e) && ew(e) == es,
            },
    {
        let key = match arg_bytes(args, 1) {
            Some(k) => k,
            None => {
                return Err(CmdError::InvalidStringArg(("key").as_bytes_vec()));
            },
        };
        let sv = match arg_bytes(args, 2) {
            Some(v) => v,
            None => {
                return Err(CmdError::InvalidStringArg(("start").as_bytes_vec()));
            },
        };
        let start = match parse_i64(sv.as_slice()) {
            Some(x) => x,
            None => {
                return Err(CmdError::ParseError(("start").as_bytes_vec()));
            },
        };
        let ev2 = match arg_bytes(args, 3) {
            Some(v) => v,
            None => {
                return Err(CmdError::InvalidStringArg(("stop").as_bytes_vec()));
            },
        };
        let stop = match parse_i64(ev2.as_slice()) {
            Some(x) => x,
            None => {
                return Err(CmdError::ParseError(("stop").as_bytes_vec()));
            },
        };
        Ok(RedisCommand::Lrange(key, start, stop))
    }
}

/// What decoding the LRANGE arguments of a four-element frame yields.
pub open spec fn interpret_lrange_spec(args: Seq<RespSpec>) -> Result<CmdSpec, CmdErrSpec> {
    match arg_string(args[1]) {
        None => Err(CmdErrSpec::InvalidStringArg(("key").spec_bytes())),
        Some(k) => match arg_string(args[2]) {
            None => Err(CmdErrSpec::InvalidStringArg(("start").spec_bytes())),
            Some(sv) => match parse_i64_spec(sv) {
                None => Err(CmdErrSpec::ParseError(("start").spec_bytes())),
                Some(sa) => match arg_string(args[3]) {
                    None => Err(CmdErrSpec::InvalidStringArg(("stop").spec_bytes())),
                    Some(ev) => match parse_i64_spec(ev) {
                        None => Err(CmdErrSpec::ParseError(("stop").spec_bytes())),
                        Some(ea) => Ok(CmdSpec::Lrange(k, sa as int, ea as int)),
                    },
                },
            },
        },
    }
}

/// A copy of the string payload of argument `i`, when it has one.
fn arg_bytes(args: &Vec<RedisValueRef>, i: usize) -> (r: Option<Vec<u8>>)
    requires
        i < args@.len(),
    ensures
        match arg_string(crate::parser::vws(args@)[i as int]) {
            Some(s) => r matches Some(b) && b@ == s,
            None => r is None,
        },
{
    proof {
        assert(crate::parser::vws(args@)[i as int] == vw(args@[i as int]));
    }
    match &args[i] {
        RedisValueRef::String(s) => Some(copy_bytes(s)),
        RedisValueRef::SimpleString(s) => Some(copy_bytes(s)),
        _ => None,
    }
}

/// Whether `v` reads as the given ASCII word.
fn eq_lit(v: &Vec<u8>, s: &str) -> (r: bool)
    ensures
        r == (v@ == s.spec_bytes()),
{
    let b = s.as_bytes();
    crate::util::bytes_eq(v.as_slice(), b)
}

} // verus!
