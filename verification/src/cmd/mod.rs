//! The commands of the protocol: what a request frame asks for, and what
//! carrying it out comes to.

pub mod get;
pub mod ping;
pub mod publish;
pub mod set;
pub mod subscribe;
pub mod unknown;

pub use get::Get;
pub use ping::Ping;
pub use publish::Publish;
pub use set::SetCommand;
pub use subscribe::Subscribe;
pub use unknown::Unknown;

use crate::db::{is_set, State};
use crate::frame::{Frame, FrameView};
use crate::parse::{finished, reports, text_of, Parse, ParseError, Parsed};
use crate::text::{lowercase, text_eq, to_lowercase};
use get::{get_fields, get_response, GetView};
use ping::{ping_fields, ping_response, PingView};
use publish::{publish_fields, PublishView};
use set::{deadline, set_fields, SetView};
use subscribe::{subscribe_fields, SubscribeView};
use unknown::{unknown_response, UnknownView};
use vstd::prelude::*;

verus! {

/// A command.
#[derive(Debug)]
pub enum Command {
    Get(Get),
    SetCommand(SetCommand),
    Unknown(Unknown),
    Publish(Publish),
    Subscribe(Subscribe),
    Ping(Ping),
}

/// What a command is.
pub enum CommandView {
    Get(GetView),
    SetCommand(SetView),
    Unknown(UnknownView),
    Publish(PublishView),
    Subscribe(SubscribeView),
    Ping(PingView),
}

impl View for Command {
    type V = CommandView;

    open spec fn view(&self) -> CommandView {
        match self {
            Command::Get(cmd) => CommandView::Get(cmd@),
            Command::SetCommand(cmd) => CommandView::SetCommand(cmd@),
            Command::Unknown(cmd) => CommandView::Unknown(cmd@),
            Command::Publish(cmd) => CommandView::Publish(cmd@),
            Command::Subscribe(cmd) => CommandView::Subscribe(cmd@),
            Command::Ping(cmd) => CommandView::Ping(cmd@),
        }
    }
}

/// `outcome` with its value made a command by `wrap`; no item may be left
/// behind the fields.
pub open spec fn as_command<T>(outcome: Parsed<T>, wrap: spec_fn(T) -> CommandView) -> Parsed<
    CommandView,
> {
    match finished(outcome) {
        Parsed::Done { value, rest } => Parsed::Done { value: wrap(value), rest },
        Parsed::EndOfStream => Parsed::EndOfStream,
        Parsed::Invalid => Parsed::Invalid,
    }
}

/// The command of the name `name`, which is in lowercase, with the fields
/// `args`. A name that is none of `get`, `set`, `publish`, `subscribe` and
/// `ping` gives the unknown command of that name, whatever the fields.
pub open spec fn command_for(name: Seq<char>, args: Seq<FrameView>) -> Parsed<CommandView> {
    if name == "get"@ {
        as_command(get_fields(args), |v: GetView| CommandView::Get(v))
    } else if name == "set"@ {
        as_command(set_fields(args), |v: SetView| CommandView::SetCommand(v))
    } else if name == "publish"@ {
        as_command(publish_fields(args), |v: PublishView| CommandView::Publish(v))
    } else if name == "subscribe"@ {
        as_command(subscribe_fields(args), |v: SubscribeView| CommandView::Subscribe(v))
    } else if name == "ping"@ {
        as_command(ping_fields(args), |v: PingView| CommandView::Ping(v))
    } else {
        Parsed::Done {
            value: CommandView::Unknown(UnknownView { command_name: name }),
            rest: args,
        }
    }
}

/// The command that `frame` carries: the frame is an array, its first item a
/// text, the name, which is taken in lowercase, and the other items are the
/// fields.
pub open spec fn command_of(frame: FrameView) -> Parsed<CommandView> {
    if !(frame is Array) {
        Parsed::Invalid
    } else if frame->Array_0.len() == 0 {
        Parsed::EndOfStream
    } else {
        match text_of(frame->Array_0[0]) {
            Some(name) => command_for(lowercase(name), frame->Array_0.skip(1)),
            None => Parsed::Invalid,
        }
    }
}

/// What carrying out a command comes to.
pub enum Applied {
    /// The reply to send, and whether the purger of the store must be woken
    /// before.
    Reply { response: Frame, notify: bool },
    /// The client enters a session in which it is subscribed to the
    /// channels.
    Session { channels: Vec<String> },
}

impl Command {
    /// Reads the command that `frame` carries.
    ///
    /// Fails where the frame is no array, where it has no first item that is
    /// a text, and where the items behind the name are not the fields of the
    /// command of that name: too few of them, one of the wrong kind, or too
    /// many.
    pub fn from_frame(frame: Frame) -> (r: Result<Command, ParseError>)
        ensures
            reports(r, command_of(frame@)),
    {
        let mut parse = match Parse::new(frame) {
            Ok(parse) => parse,
            Err(e) => {
                return Err(e);
            },
        };
        let name = match parse.next_string() {
            Ok(name) => name,
            Err(e) => {
                return Err(e);
            },
        };
        let command_name = to_lowercase(name.as_str());
        Command::from_name(command_name, &mut parse)
    }

    /// Reads the command of the name `command_name`, which is in lowercase,
    /// from the fields that `parse` holds.
    pub fn from_name(command_name: String, parse: &mut Parse) -> (r: Result<Command, ParseError>)
        ensures
            reports(r, command_for(command_name@, old(parse).remaining())),
    {
        let name = command_name.as_str();
        let command = if text_eq(name, "get") {
            match Get::parse_frame(parse) {
                Ok(cmd) => Command::Get(cmd),
                Err(e) => {
                    return Err(e);
                },
            }
        } else if text_eq(name, "set") {
            match SetCommand::parse_frame(parse) {
                Ok(cmd) => Command::SetCommand(cmd),
                Err(e) => {
                    return Err(e);
                },
            }
        } else if text_eq(name, "publish") {
            match Publish::parse_frames(parse) {
                Ok(cmd) => Command::Publish(cmd),
                Err(e) => {
                    return Err(e);
                },
            }
        } else if text_eq(name, "subscribe") {
            match Subscribe::parse_frames(parse) {
                Ok(cmd) => Command::Subscribe(cmd),
                Err(e) => {
                    return Err(e);
                },
            }
        } else if text_eq(name, "ping") {
            match Ping::parse_frames(parse) {
                Ok(cmd) => Command::Ping(cmd),
                Err(e) => {
                    return Err(e);
                },
            }
        } else {
            return Ok(Command::Unknown(Unknown::new(name)));
        };
        match parse.finish() {
            Ok(_) => Ok(command),
            Err(e) => Err(e),
        }
    }

    /// Carries the command out on `db` at the instant `now`.
    ///
    /// `GET`, `SET`, `PUBLISH` and `PING` give their reply, and so does an
    /// unknown command; `SUBSCRIBE` opens a session.
    pub fn apply(self, db: &mut State, now: u128) -> (r: Applied)
        requires
            old(db).wf(),
            self@ is SetCommand && self@->SetCommand_0.expire is Some ==> now
                + self@->SetCommand_0.expire->0
                <= u128::MAX,
        ensures
            final(db).wf(),
            match self@ {
                CommandView::Get(cmd) => r is Reply && !r->notify && r->response@ == get_response(
                    old(db)@,
                    cmd.key,
                ) && final(db)@ == old(db)@,
                CommandView::SetCommand(cmd) => r is Reply && r->response@ == FrameView::Simple("OK"@)
                    && is_set(old(db)@, final(db)@, cmd.key, cmd.value, deadline(now, cmd.expire))
                    && r->notify == (cmd.expire is Some && match old(db)@.next_expiration() {
                    Some(earliest) => now + cmd.expire->0 < earliest,
                    None => true,
                }),
                CommandView::Unknown(cmd) => r is Reply && !r->notify && r->response@
                    == unknown_response(cmd.command_name) && final(db)@ == old(db)@,
                CommandView::Publish(cmd) => r is Reply && !r->notify && r->response@ is Integer
                    && (!old(db)@.channels().contains(cmd.channel) ==> r->response@
                    == FrameView::Integer(0)) && final(db)@ == old(db)@,
                CommandView::Subscribe(cmd) => r is Session && subscribe::texts_view(
                    r->channels@,
                ) == cmd.channels && final(db)@ == old(db)@,
                CommandView::Ping(cmd) => r is Reply && !r->notify && r->response@
                    == ping_response(cmd) && final(db)@ == old(db)@,
            },
    {
        match self {
            Command::Get(cmd) => Applied::Reply { response: cmd.apply(db), notify: false },
            Command::SetCommand(cmd) => {
                let (response, notify) = cmd.apply(db, now);
                Applied::Reply { response, notify }
            },
            Command::Unknown(cmd) => Applied::Reply { response: cmd.apply(), notify: false },
            Command::Publish(cmd) => Applied::Reply { response: cmd.apply(db), notify: false },
            Command::Subscribe(cmd) => Applied::Session { channels: cmd.into_channels() },
            Command::Ping(cmd) => Applied::Reply { response: cmd.apply(), notify: false },
        }
    }

    /// The name of the command, in lowercase.
    pub fn get_name(&self) -> (r: &str)
        ensures
            r@ == match self@ {
                CommandView::Get(_) => "get"@,
                CommandView::SetCommand(_) => "set"@,
                CommandView::Unknown(cmd) => cmd.command_name,
                CommandView::Publish(_) => "publish"@,
                CommandView::Subscribe(_) => "subscribe"@,
                CommandView::Ping(_) => "ping"@,
            },
    {
        match self {
            Command::Get(_) => "get",
            Command::Publish(_) => "publish",
            Command::SetCommand(_) => "set",
            Command::Subscribe(_) => "subscribe",
            Command::Ping(_) => "ping",
            Command::Unknown(cmd) => cmd.get_name(),
        }
    }
}

} // verus!
