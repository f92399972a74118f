use dle_bot::dispatch::{
    callback_action, member_change, reply, reply_to_admin, reply_to_command, reply_to_start,
    reply_to_text, AdminCommand, CallbackAction, Command, MemberChange, Parsed, Reply, KEY_HELP,
    KEY_RANDOM, KEY_WOTD,
};

#[test]
fn member_change_follows_presence() {
    assert_eq!(member_change(true, false), MemberChange::Left);
    assert_eq!(member_change(false, true), MemberChange::Joined);
    assert_eq!(member_change(true, true), MemberChange::Other);
    assert_eq!(member_change(false, false), MemberChange::Other);
}

#[test]
fn buttons_subscribe_and_unsubscribe() {
    assert_eq!(callback_action(Some("__subs")), CallbackAction::Subscribe);
    assert_eq!(callback_action(Some("__desubs")), CallbackAction::Unsubscribe);
    assert_eq!(callback_action(Some("__sub")), CallbackAction::Unknown);
    assert_eq!(callback_action(Some("")), CallbackAction::Unknown);
    assert_eq!(callback_action(None), CallbackAction::Unknown);
}

#[test]
fn keys_ask_for_what_they_say() {
    assert_eq!(KEY_RANDOM, "🎲 Palabra aleatoria");
    assert_eq!(KEY_WOTD, "📖 Palabra del día");
    assert_eq!(KEY_HELP, "❔ Ayuda");
    assert_eq!(reply_to_text(KEY_RANDOM), Reply::Random);
    assert_eq!(reply_to_text(KEY_HELP), Reply::Help);
    assert_eq!(reply_to_text(KEY_WOTD), Reply::WordOfTheDay);
    assert_eq!(reply_to_text("verbo"), Reply::Search("verbo".to_string()));
    assert_eq!(reply_to_text(""), Reply::Search("".to_string()));
}

#[test]
fn start_greets_or_looks_the_word_up() {
    assert_eq!(reply_to_start(Ok("".to_string())), Reply::Welcome);
    assert_eq!(reply_to_start(Ok("verbo".to_string())), Reply::Search("verbo".to_string()));
    assert_eq!(reply_to_start(Err("Error decoding")), Reply::Welcome);
}

#[test]
fn commands_of_anyone() {
    assert_eq!(reply_to_command(Command::Start("".to_string())), Reply::Welcome);
    assert_eq!(
        reply_to_command(Command::Start("dmVyYm8".to_string())),
        Reply::Search("verbo".to_string())
    );
    assert_eq!(reply_to_command(Command::Start("=".to_string())), Reply::Welcome);
    assert_eq!(reply_to_command(Command::Help), Reply::Help);
    assert_eq!(reply_to_command(Command::Ayuda), Reply::Help);
    assert_eq!(reply_to_command(Command::Aleatorio), Reply::Random);
    assert_eq!(reply_to_command(Command::Pdd), Reply::WordOfTheDay);
}

#[test]
fn commands_of_an_administrator() {
    assert_eq!(
        reply_to_admin(AdminCommand::Broadcast("hola".to_string())),
        Reply::Broadcast("hola".to_string())
    );
    assert_eq!(
        reply_to_admin(AdminCommand::Image("verbo".to_string())),
        Reply::Image("verbo".to_string())
    );
    assert_eq!(
        reply_to_admin(AdminCommand::SetPdd { date: "17/7/1997".to_string(), lemma: "verbo".to_string() }),
        Reply::SetWordOfTheDay { date: "17/7/1997".to_string(), lemma: "verbo".to_string() }
    );
    assert_eq!(reply_to_admin(AdminCommand::GetSchedule), Reply::Schedule);
}

#[test]
fn command_of_an_administrator_from_anyone_else_is_a_text() {
    assert_eq!(
        reply(Parsed::Admin(AdminCommand::GetSchedule), false, "/getschedule"),
        Reply::Search("/getschedule".to_string())
    );
    assert_eq!(reply(Parsed::Admin(AdminCommand::GetSchedule), true, "/getschedule"), Reply::Schedule);
}

#[test]
fn reply_follows_what_the_message_was_read_as() {
    assert_eq!(reply(Parsed::User(Command::Pdd), false, "/pdd"), Reply::WordOfTheDay);
    assert_eq!(reply(Parsed::User(Command::Pdd), true, "/pdd"), Reply::WordOfTheDay);
    assert_eq!(reply(Parsed::Text, false, "verbo"), Reply::Search("verbo".to_string()));
    assert_eq!(reply(Parsed::Text, true, KEY_HELP), Reply::Help);
}
