use ship_core::chat::{set_flag_parse, FlagCommand};

fn set(lower: usize, upper: usize, value: u8) -> FlagCommand {
    FlagCommand::SetFlags { lower, upper, value }
}

#[test]
fn missing_range() {
    assert_eq!(set_flag_parse(None, Some("3")), FlagCommand::NoRange);
}

#[test]
fn single_id_with_value() {
    assert_eq!(set_flag_parse(Some("12"), Some("1")), set(12, 12, 1));
    assert_eq!(set_flag_parse(Some("+7"), None), set(7, 7, 0));
}

#[test]
fn invalid_id() {
    assert_eq!(set_flag_parse(Some("abc"), None), FlagCommand::InvalidId);
    assert_eq!(set_flag_parse(Some(""), None), FlagCommand::InvalidId);
    assert_eq!(set_flag_parse(Some("+"), None), FlagCommand::InvalidId);
    assert_eq!(set_flag_parse(Some("99999999999999999999999"), None), FlagCommand::InvalidId);
}

#[test]
fn range_of_ids() {
    assert_eq!(set_flag_parse(Some("3-5"), Some("2")), set(3, 5, 2));
    assert_eq!(set_flag_parse(Some("4-4"), None), set(4, 4, 0));
    assert_eq!(set_flag_parse(Some("1-2-9"), None), set(1, 2, 0));
}

#[test]
fn invalid_ranges() {
    assert_eq!(set_flag_parse(Some("5-3"), None), FlagCommand::InvalidRange);
    assert_eq!(set_flag_parse(Some("-3"), None), FlagCommand::InvalidRange);
    assert_eq!(set_flag_parse(Some("3-"), None), FlagCommand::InvalidRange);
    assert_eq!(set_flag_parse(Some("a-3"), None), FlagCommand::InvalidRange);
}

#[test]
fn value_defaults_to_zero() {
    assert_eq!(set_flag_parse(Some("1"), Some("256")), set(1, 1, 0));
    assert_eq!(set_flag_parse(Some("1"), Some("x")), set(1, 1, 0));
    assert_eq!(set_flag_parse(Some("1"), Some("255")), set(1, 1, 255));
}

#[test]
fn ids_parse_as_std_does() {
    let samples = [
        "0", "42", "+42", "-42", "", "+", "4 2", "007", "18446744073709551615",
        "18446744073709551616", "1x", "٣", "+-1",
    ];
    for s in samples {
        let expected = match s.parse::<usize>() {
            Ok(v) => set(v, v, 0),
            Err(_) => FlagCommand::InvalidId,
        };
        if s.contains('-') {
            continue;
        }
        assert_eq!(set_flag_parse(Some(s), None), expected, "{s}");
    }
    for v in ["0", "255", "256", "+1", "-1", "", "12a"] {
        let expected = v.parse::<u8>().unwrap_or(0);
        assert_eq!(set_flag_parse(Some("1"), Some(v)), set(1, 1, expected), "{v}");
    }
}

use ship_core::chat::{chat_command, ChatCommand};

#[test]
fn plain_message_is_not_a_command() {
    assert_eq!(chat_command("hello !mem"), ChatCommand::Message);
    assert_eq!(chat_command(""), ChatCommand::Message);
}

#[test]
fn simple_commands() {
    assert_eq!(chat_command("!mem"), ChatCommand::Memory);
    assert_eq!(chat_command("!reload_map"), ChatCommand::ReloadMap);
    assert_eq!(chat_command("!get_pos extra"), ChatCommand::GetPosition);
    assert_eq!(chat_command("!reload_items"), ChatCommand::ReloadItems);
    assert_eq!(chat_command("!nope"), ChatCommand::Unknown);
    assert_eq!(chat_command("!"), ChatCommand::Unknown);
    assert_eq!(chat_command("!memory"), ChatCommand::Unknown);
}

#[test]
fn concert_commands() {
    assert_eq!(chat_command("!start_con Live1"), ChatCommand::StartConcert("Live1".to_string()));
    assert_eq!(chat_command("!start_con"), ChatCommand::NoConcertName);
    assert_eq!(chat_command("!start_con "), ChatCommand::StartConcert(String::new()));
    assert_eq!(chat_command("!send_con Act(2) x"), ChatCommand::SendConcert("Act(2)".to_string()));
    assert_eq!(chat_command("!send_con"), ChatCommand::NoConcertAction);
}

#[test]
fn close_objects_distance_word() {
    assert_eq!(chat_command("!get_close_obj 2.5"), ChatCommand::GetCloseObjects(Some("2.5".to_string())));
    assert_eq!(chat_command("!get_close_obj"), ChatCommand::GetCloseObjects(None));
}

#[test]
fn flag_commands_take_following_words() {
    assert_eq!(
        chat_command("!set_acc_flag 3-5 1"),
        ChatCommand::SetAccountFlag(FlagCommand::SetFlags { lower: 3, upper: 5, value: 1 })
    );
    assert_eq!(chat_command("!set_char_flag"), ChatCommand::SetCharacterFlag(FlagCommand::NoRange));
    assert_eq!(chat_command("!set_char_flag x"), ChatCommand::SetCharacterFlag(FlagCommand::InvalidId));
}

#[test]
fn add_item_arguments() {
    assert_eq!(
        chat_command("!add_item 1 2 3"),
        ChatCommand::AddItem { item_type: 1, id: 2, subid: 3 }
    );
    assert_eq!(chat_command("!add_item"), ChatCommand::NoItemType);
    assert_eq!(chat_command("!add_item x 2 3"), ChatCommand::NoItemType);
    assert_eq!(chat_command("!add_item 1"), ChatCommand::NoItemId);
    assert_eq!(chat_command("!add_item 1 70000 3"), ChatCommand::NoItemId);
    assert_eq!(chat_command("!add_item 1 2"), ChatCommand::NoItemSubid);
    assert_eq!(chat_command("!add_item 1  2 3"), ChatCommand::NoItemId);
}
