//! The closed set of command kinds, named by a request's first argument.
use vstd::prelude::*;
use vstd::utf8::{decode_utf8, valid_utf8};
use crate::fold::{is_word, uppercase, uppercase_of, utf8_text};

verus! {

#[allow(non_camel_case_types)]
#[derive(Clone, Copy, Debug, PartialEq, Eq, Structural)]
pub enum RespCommand {
    PING,
    ECHO,
    SET,
    GET,
    INFO,
    REPLCONF,
    PSYNC,
    UNDEFINED,
}

/// The kind that an upper-cased command name selects.
pub open spec fn kind_of_upper(u: Seq<char>) -> RespCommand {
    if u == "PING"@ {
        RespCommand::PING
    } else if u == "ECHO"@ {
        RespCommand::ECHO
    } else if u == "SET"@ {
        RespCommand::SET
    } else if u == "GET"@ {
        RespCommand::GET
    } else if u == "INFO"@ {
        RespCommand::INFO
    } else if u == "REPLCONF"@ {
        RespCommand::REPLCONF
    } else if u == "PSYNC"@ {
        RespCommand::PSYNC
    } else {
        RespCommand::UNDEFINED
    }
}

/// The kind that the bytes of a command name select: their text,
/// upper-cased; bytes that are not UTF-8 name no command.
pub open spec fn kind_of_name(name: Seq<u8>) -> RespCommand {
    if valid_utf8(name) {
        kind_of_upper(uppercase_of(decode_utf8(name)))
    } else {
        RespCommand::UNDEFINED
    }
}

/// The kind of a request: its first argument names it; an empty request has
/// none.
pub open spec fn kind_of_args(args: Seq<Seq<u8>>) -> RespCommand {
    if args.len() == 0 {
        RespCommand::UNDEFINED
    } else {
        kind_of_name(args[0])
    }
}

pub open spec fn kind_name(k: RespCommand) -> Seq<char> {
    match k {
        RespCommand::PING => "PING"@,
        RespCommand::ECHO => "ECHO"@,
        RespCommand::SET => "SET"@,
        RespCommand::GET => "GET"@,
        RespCommand::INFO => "INFO"@,
        RespCommand::REPLCONF => "REPLCONF"@,
        RespCommand::PSYNC => "PSYNC"@,
        RespCommand::UNDEFINED => "UNDEFINED"@,
    }
}

impl RespCommand {
    /// The kind that an upper-cased command name selects.
    pub fn from_upper(u: &String) -> (r: RespCommand)
        ensures
            r == kind_of_upper(u@),
    {
        if is_word(u, "PING") {
            RespCommand::PING
        } else if is_word(u, "ECHO") {
            RespCommand::ECHO
        } else if is_word(u, "SET") {
            RespCommand::SET
        } else if is_word(u, "GET") {
            RespCommand::GET
        } else if is_word(u, "INFO") {
            RespCommand::INFO
        } else if is_word(u, "REPLCONF") {
            RespCommand::REPLCONF
        } else if is_word(u, "PSYNC") {
            RespCommand::PSYNC
        } else {
            RespCommand::UNDEFINED
        }
    }

    /// The kind named by `cmd`, ignoring case.
    pub fn from_str(cmd: &str) -> (r: RespCommand)
        ensures
            r == kind_of_upper(uppercase_of(cmd@)),
    {
        RespCommand::from_upper(&uppercase(cmd))
    }

    /// The kind named by the bytes of `cmd`, ignoring case.
    pub fn from_bytes(cmd: &[u8]) -> (r: RespCommand)
        ensures
            r == kind_of_name(cmd@),
    {
        match utf8_text(cmd) {
            None => RespCommand::UNDEFINED,
            Some(t) => RespCommand::from_str(t),
        }
    }

    /// The upper-case name of the kind.
    pub fn as_str(&self) -> (r: &'static str)
        ensures
            r@ == kind_name(*self),
    {
        match self {
            RespCommand::PING => "PING",
            RespCommand::ECHO => "ECHO",
            RespCommand::SET => "SET",
            RespCommand::GET => "GET",
            RespCommand::INFO => "INFO",
            RespCommand::REPLCONF => "REPLCONF",
            RespCommand::PSYNC => "PSYNC",
            RespCommand::UNDEFINED => "UNDEFINED",
        }
    }
}

} // verus!
