//! What the bot makes of what it is sent: which answer a message asks for,
//! what a button means, and what a change of membership is.

use vstd::prelude::*;
use vstd::string::*;
use vstd::utf8::encode_utf8;
use crate::encoding::{base64_decode, outcome, text_of, url_safe_no_pad_decoding};
use crate::message::{DESUBS_CALLBACK_DATA, SUBS_CALLBACK_DATA};
use crate::text::same_text;

verus! {

/// The key that asks for a random word.
pub const KEY_RANDOM: &'static str = "🎲 Palabra aleatoria";

/// The key that asks for the word of the day.
pub const KEY_WOTD: &'static str = "📖 Palabra del día";

/// The key that asks for help.
pub const KEY_HELP: &'static str = "❔ Ayuda";

/// What became of the bot in a chat.
#[derive(Clone, Copy, Debug, PartialEq, Eq, Structural)]
pub enum MemberChange {
    /// The bot was in the chat and is no longer.
    Left,
    /// The bot was not in the chat and is now.
    Joined,
    /// Nothing that is kept track of.
    Other,
}

/// What became of the bot in a chat, from whether it was present before and
/// is present now.
pub fn member_change(was_present: bool, is_present: bool) -> (change: MemberChange)
    ensures
        change == if was_present && !is_present {
            MemberChange::Left
        } else if !was_present && is_present {
            MemberChange::Joined
        } else {
            MemberChange::Other
        },
{
    if was_present && !is_present {
        MemberChange::Left
    } else if !was_present && is_present {
        MemberChange::Joined
    } else {
        MemberChange::Other
    }
}

/// What a button asks for.
#[derive(Clone, Copy, Debug, PartialEq, Eq, Structural)]
pub enum CallbackAction {
    /// To subscribe to the word of the day.
    Subscribe,
    /// To end the subscription.
    Unsubscribe,
    /// Nothing that is known.
    Unknown,
}

/// What the button that sent `data` asks for.
pub open spec fn callback_meaning(data: Option<Seq<char>>) -> CallbackAction {
    match data {
        Some(text) => if text == SUBS_CALLBACK_DATA@ {
            CallbackAction::Subscribe
        } else if text == DESUBS_CALLBACK_DATA@ {
            CallbackAction::Unsubscribe
        } else {
            CallbackAction::Unknown
        },
        None => CallbackAction::Unknown,
    }
}

/// What the button that sent `data` asks for.
pub fn callback_action(data: Option<&str>) -> (action: CallbackAction)
    ensures
        action == callback_meaning(
            match data {
                Some(text) => Some(text@),
                None => None,
            },
        ),
{
    match data {
        Some(text) => if same_text(text, SUBS_CALLBACK_DATA) {
            CallbackAction::Subscribe
        } else if same_text(text, DESUBS_CALLBACK_DATA) {
            CallbackAction::Unsubscribe
        } else {
            CallbackAction::Unknown
        },
        None => CallbackAction::Unknown,
    }
}

/// A command that anyone may give.
#[derive(Debug, PartialEq, Eq)]
pub enum Command {
    /// Start the bot, with the parameter of the link that led to it.
    Start(String),
    /// Show how the bot is used.
    Help,
    /// Show how the bot is used.
    Ayuda,
    /// Show a random word.
    Aleatorio,
    /// Show the word of the day.
    Pdd,
}

/// A command that only an administrator may give.
#[derive(Debug, PartialEq, Eq)]
pub enum AdminCommand {
    /// Send a message to everyone.
    Broadcast(String),
    /// Send the picture of a word.
    Image(String),
    /// Set the word of the day of a date.
    SetPdd { date: String, lemma: String },
    /// Show the words of the day that are set.
    GetSchedule,
}

/// What a message was read as.
#[derive(Debug, PartialEq, Eq)]
pub enum Parsed {
    /// A command of an administrator.
    Admin(AdminCommand),
    /// A command of anyone.
    User(Command),
    /// No command.
    Text,
}

/// The answer that a message asks for.
#[derive(Debug, PartialEq, Eq)]
pub enum Reply {
    /// Send the text to everyone.
    Broadcast(String),
    /// Send the picture of the word.
    Image(String),
    /// Set the word of the day of the date.
    SetWordOfTheDay { date: String, lemma: String },
    /// Show the words of the day that are set.
    Schedule,
    /// Greet.
    Welcome,
    /// Show how the bot is used.
    Help,
    /// Show a random word.
    Random,
    /// Show the word of the day.
    WordOfTheDay,
    /// Look the text up and show its definition.
    Search(String),
}

/// A reply as contracts speak of it: each text by its characters.
pub enum ReplyModel {
    /// Send the text to everyone.
    Broadcast(Seq<char>),
    /// Send the picture of the word.
    Image(Seq<char>),
    /// Set the word of the day of the date.
    SetWordOfTheDay { date: Seq<char>, lemma: Seq<char> },
    /// Show the words of the day that are set.
    Schedule,
    /// Greet.
    Welcome,
    /// Show how the bot is used.
    Help,
    /// Show a random word.
    Random,
    /// Show the word of the day.
    WordOfTheDay,
    /// Look the text up and show its definition.
    Search(Seq<char>),
}

impl View for Reply {
    type V = ReplyModel;

    open spec fn view(&self) -> ReplyModel {
        match *self {
            Reply::Broadcast(text) => ReplyModel::Broadcast(text@),
            Reply::Image(lemma) => ReplyModel::Image(lemma@),
            Reply::SetWordOfTheDay { date, lemma } => ReplyModel::SetWordOfTheDay {
                date: date@,
                lemma: lemma@,
            },
            Reply::Schedule => ReplyModel::Schedule,
            Reply::Welcome => ReplyModel::Welcome,
            Reply::Help => ReplyModel::Help,
            Reply::Random => ReplyModel::Random,
            Reply::WordOfTheDay => ReplyModel::WordOfTheDay,
            Reply::Search(text) => ReplyModel::Search(text@),
        }
    }
}

/// The answer to a start with what its parameter was decoded to: a greeting
/// where the parameter is empty or cannot be decoded, else a search for the
/// word that it names.
pub open spec fn start_reply(decoded: Option<Seq<char>>) -> ReplyModel {
    match decoded {
        Some(word) => if word.len() == 0 {
            ReplyModel::Welcome
        } else {
            ReplyModel::Search(word)
        },
        None => ReplyModel::Welcome,
    }
}

/// The answer to a text that is no command: what its key asks for, or a
/// search for the text.
pub open spec fn text_reply(text: Seq<char>) -> ReplyModel {
    if text == KEY_RANDOM@ {
        ReplyModel::Random
    } else if text == KEY_HELP@ {
        ReplyModel::Help
    } else if text == KEY_WOTD@ {
        ReplyModel::WordOfTheDay
    } else {
        ReplyModel::Search(text)
    }
}

/// The answer to a start with what its parameter was decoded to.
pub fn reply_to_start(decoded: Result<String, &'static str>) -> (reply: Reply)
    ensures
        reply@ == start_reply(outcome(decoded)),
{
    match decoded {
        Ok(word) => if word.as_str().unicode_len() == 0 {
            Reply::Welcome
        } else {
            Reply::Search(word)
        },
        Err(_) => Reply::Welcome,
    }
}

/// The answer to a text that is no command.
pub fn reply_to_text(text: &str) -> (reply: Reply)
    ensures
        reply@ == text_reply(text@),
{
    if same_text(text, KEY_RANDOM) {
        Reply::Random
    } else if same_text(text, KEY_HELP) {
        Reply::Help
    } else if same_text(text, KEY_WOTD) {
        Reply::WordOfTheDay
    } else {
        Reply::Search(String::from_str(text))
    }
}

/// The answer to a command of anyone.
pub fn reply_to_command(command: Command) -> (reply: Reply)
    ensures
        reply@ == match command {
            Command::Start(parameter) => start_reply(
                text_of(url_safe_no_pad_decoding(encode_utf8(parameter@))),
            ),
            Command::Help => ReplyModel::Help,
            Command::Ayuda => ReplyModel::Help,
            Command::Aleatorio => ReplyModel::Random,
            Command::Pdd => ReplyModel::WordOfTheDay,
        },
{
    match command {
        Command::Start(parameter) => reply_to_start(base64_decode(parameter)),
        Command::Help => Reply::Help,
        Command::Ayuda => Reply::Help,
        Command::Aleatorio => Reply::Random,
        Command::Pdd => Reply::WordOfTheDay,
    }
}

/// The answer to a command of an administrator.
pub fn reply_to_admin(command: AdminCommand) -> (reply: Reply)
    ensures
        reply@ == match command {
            AdminCommand::Broadcast(text) => ReplyModel::Broadcast(text@),
            AdminCommand::Image(lemma) => ReplyModel::Image(lemma@),
            AdminCommand::SetPdd { date, lemma } => ReplyModel::SetWordOfTheDay {
                date: date@,
                lemma: lemma@,
            },
            AdminCommand::GetSchedule => ReplyModel::Schedule,
        },
{
    match command {
        AdminCommand::Broadcast(text) => Reply::Broadcast(text),
        AdminCommand::Image(lemma) => Reply::Image(lemma),
        AdminCommand::SetPdd { date, lemma } => Reply::SetWordOfTheDay { date, lemma },
        AdminCommand::GetSchedule => Reply::Schedule,
    }
}

/// The answer that the message `text` asks for, which was read as `parsed`
/// and comes from an administrator or not.
///
/// An administrator's command is obeyed where an administrator gives it;
/// from anyone else it is a text like any other. A text that is no command
/// is one of the three keys or a word to look up.
pub fn reply(parsed: Parsed, is_admin: bool, text: &str) -> (reply: Reply)
    ensures
        reply@ == match parsed {
            Parsed::Admin(command) => if is_admin {
                match command {
                    AdminCommand::Broadcast(text) => ReplyModel::Broadcast(text@),
                    AdminCommand::Image(lemma) => ReplyModel::Image(lemma@),
                    AdminCommand::SetPdd { date, lemma } => ReplyModel::SetWordOfTheDay {
                        date: date@,
                        lemma: lemma@,
                    },
                    AdminCommand::GetSchedule => ReplyModel::Schedule,
                }
            } else {
                text_reply(text@)
            },
            Parsed::User(command) => match command {
                Command::Start(parameter) => start_reply(
                    text_of(url_safe_no_pad_decoding(encode_utf8(parameter@))),
                ),
                Command::Help => ReplyModel::Help,
                Command::Ayuda => ReplyModel::Help,
                Command::Aleatorio => ReplyModel::Random,
                Command::Pdd => ReplyModel::WordOfTheDay,
            },
            Parsed::Text => text_reply(text@),
        },
{
    match parsed {
        Parsed::Admin(command) => if is_admin {
            reply_to_admin(command)
        } else {
            reply_to_text(text)
        },
        Parsed::User(command) => reply_to_command(command),
        Parsed::Text => reply_to_text(text),
    }
}

} // verus!
