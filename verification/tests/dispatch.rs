use tiny_kv::codec::Request;
use tiny_kv::dispatch::{
    dispatch, dispatch_named, find_px, read_expiry, reply_text, Action, DispatchError,
};
use tiny_kv::store::{Command, Outcome};

fn items(texts: &[&str]) -> Vec<String> {
    texts.iter().map(|text| text.to_string()).collect()
}

fn array(texts: &[&str]) -> Request {
    Request::Array(items(texts))
}

fn reply(text: &str) -> Result<Action, DispatchError> {
    Ok(Action::Reply(text.to_string()))
}

fn post(key: &str, value: &str, expiry_ms: Option<u128>) -> Result<Action, DispatchError> {
    let command = Command::Put { key: key.to_string(), value: value.to_string(), expiry_ms };
    Ok(Action::Post(command, "OK".to_string()))
}

fn ask(key: &str) -> Result<Action, DispatchError> {
    Ok(Action::Ask(Command::Get { key: key.to_string() }))
}

#[test]
fn echo_answers_with_its_argument() {
    assert_eq!(dispatch(&array(&["ECHO", "$5", "hello"])), reply("hello"));
    assert_eq!(dispatch(&array(&["ECHO", "$5", "hello", "$1", "x"])), reply("hello"));
    assert_eq!(dispatch(&array(&["ECHO", "", ""])), reply(""));
}

#[test]
fn echo_without_its_argument_is_an_error() {
    assert_eq!(dispatch(&array(&["ECHO"])), Err(DispatchError::MissingArgument));
    assert_eq!(dispatch(&array(&["ECHO", "$5"])), Err(DispatchError::MissingArgument));
}

#[test]
fn command_names_are_matched_in_any_case() {
    assert_eq!(dispatch(&array(&["echo", "$2", "hi"])), reply("hi"));
    assert_eq!(dispatch(&array(&["EcHo", "$2", "hi"])), reply("hi"));
    assert_eq!(dispatch(&array(&["get", "$1", "k"])), ask("k"));
    assert_eq!(dispatch(&array(&["Set", "$1", "k", "$1", "v"])), post("k", "v", None));
    assert_eq!(dispatch(&array(&["\u{17f}et", "$1", "k", "$1", "v"])), post("k", "v", None));
}

#[test]
fn set_takes_key_and_value_from_fixed_positions() {
    assert_eq!(dispatch(&array(&["SET", "$3", "foo", "$3", "bar"])), post("foo", "bar", None));
    assert_eq!(dispatch(&array(&["SET", "x", "foo", "y", "bar", "z"])), post("foo", "bar", None));
    assert_eq!(dispatch(&array(&["SET", "", "", "", ""])), post("", "", None));
}

#[test]
fn set_without_key_or_value_is_an_error() {
    assert_eq!(dispatch(&array(&["SET"])), Err(DispatchError::MissingArgument));
    assert_eq!(dispatch(&array(&["SET", "$3", "foo"])), Err(DispatchError::MissingArgument));
    assert_eq!(dispatch(&array(&["SET", "$3", "foo", "$3"])), Err(DispatchError::MissingArgument));
    assert_eq!(dispatch(&array(&["SET", "$2", "px"])), Err(DispatchError::MissingArgument));
}

#[test]
fn set_reads_the_expiry_two_positions_after_px() {
    assert_eq!(
        dispatch(&array(&["SET", "$3", "foo", "$3", "bar", "$2", "PX", "$3", "100"])),
        post("foo", "bar", Some(100))
    );
    assert_eq!(
        dispatch(&array(&["SET", "$3", "foo", "$3", "bar", "$2", "px", "$1", "0"])),
        post("foo", "bar", Some(0))
    );
    assert_eq!(
        dispatch(&array(&["SET", "$3", "foo", "$3", "bar", "$2", "pX", "$2", "+7", "more"])),
        post("foo", "bar", Some(7))
    );
}

#[test]
fn an_expiry_that_is_no_number_means_no_expiry() {
    for millis in ["abc", "", "-5", "1.5", "10 ", "340282366920938463463374607431768211456"] {
        assert_eq!(
            dispatch(&array(&["SET", "$3", "foo", "$3", "bar", "$2", "PX", "$3", millis])),
            post("foo", "bar", None)
        );
    }
}

#[test]
fn px_without_a_count_is_an_error() {
    assert_eq!(
        dispatch(&array(&["SET", "$3", "foo", "$3", "bar", "$2", "PX"])),
        Err(DispatchError::MissingArgument)
    );
    assert_eq!(
        dispatch(&array(&["SET", "$3", "foo", "$3", "bar", "$2", "PX", "$3"])),
        Err(DispatchError::MissingArgument)
    );
}

#[test]
fn the_first_px_anywhere_in_the_request_counts() {
    assert_eq!(dispatch(&array(&["SET", "$2", "px", "$2", "12"])), post("px", "12", Some(12)));
    assert_eq!(dispatch(&array(&["SET", "$2", "k", "$2", "PX"])), Err(DispatchError::MissingArgument));
    assert_eq!(
        dispatch(&array(&["SET", "px", "k", "x", "v", "$2", "PX", "$1", "9"])),
        post("k", "v", None)
    );
    assert_eq!(
        dispatch(&array(&["SET", "px", "k", "5", "v", "$2", "PX", "$1", "9"])),
        post("k", "v", Some(5))
    );
    assert_eq!(
        dispatch(&array(&["SET", "$1", "k", "$1", "v", "PX", "$1", "3", "PX", "$1", "4"])),
        post("k", "v", Some(3))
    );
}

#[test]
fn get_asks_for_its_key() {
    assert_eq!(dispatch(&array(&["GET", "$3", "foo"])), ask("foo"));
    assert_eq!(dispatch(&array(&["GET", "$3", "foo", "$3", "bar"])), ask("foo"));
    assert_eq!(dispatch(&array(&["GET", "$0", ""])), ask(""));
}

#[test]
fn get_without_its_key_is_an_error() {
    assert_eq!(dispatch(&array(&["GET"])), Err(DispatchError::MissingArgument));
    assert_eq!(dispatch(&array(&["GET", "$3"])), Err(DispatchError::MissingArgument));
}

#[test]
fn anything_else_is_answered_with_pong() {
    assert_eq!(dispatch(&array(&["PING"])), reply("PONG"));
    assert_eq!(dispatch(&array(&["DEL", "$3", "foo"])), reply("PONG"));
    assert_eq!(dispatch(&array(&[""])), reply("PONG"));
    assert_eq!(dispatch(&array(&["GETS", "$3", "foo"])), reply("PONG"));
    assert_eq!(dispatch(&array(&[" GET", "$3", "foo"])), reply("PONG"));
    assert_eq!(dispatch(&array(&[])), reply("PONG"));
}

#[test]
fn a_simple_string_is_answered_with_pong() {
    assert_eq!(dispatch(&Request::SimpleString("whatever".to_string())), reply("PONG"));
    assert_eq!(dispatch(&Request::SimpleString("GET".to_string())), reply("PONG"));
    assert_eq!(dispatch(&Request::SimpleString("".to_string())), reply("PONG"));
}

#[test]
fn dispatch_named_goes_by_the_name_it_is_given() {
    let request = items(&["whatever", "$3", "foo", "$3", "bar"]);
    assert_eq!(dispatch_named("ECHO", &request), reply("foo"));
    assert_eq!(dispatch_named("SET", &request), post("foo", "bar", None));
    assert_eq!(dispatch_named("GET", &request), ask("foo"));
    assert_eq!(dispatch_named("echo", &request), reply("PONG"));
    assert_eq!(dispatch_named("", &request), reply("PONG"));
    assert_eq!(dispatch_named("GET", &items(&[])), Err(DispatchError::MissingArgument));
}

#[test]
fn find_px_gives_the_first_position_or_the_length() {
    assert_eq!(find_px(&items(&[])), 0);
    assert_eq!(find_px(&items(&["SET", "k", "v"])), 3);
    assert_eq!(find_px(&items(&["px"])), 0);
    assert_eq!(find_px(&items(&["a", "PX", "px"])), 1);
    assert_eq!(find_px(&items(&["a", "PXX", "xp", "P", "Px"])), 4);
}

#[test]
fn read_expiry_gives_the_count_after_px() {
    assert_eq!(read_expiry(&items(&[])), Ok(None));
    assert_eq!(read_expiry(&items(&["SET", "k", "v"])), Ok(None));
    assert_eq!(read_expiry(&items(&["PX", "$3", "250"])), Ok(Some(250)));
    assert_eq!(read_expiry(&items(&["PX", "$3", "soon"])), Ok(None));
    assert_eq!(read_expiry(&items(&["PX", "$3"])), Err(DispatchError::MissingArgument));
    assert_eq!(read_expiry(&items(&["a", "b", "px"])), Err(DispatchError::MissingArgument));
}

#[test]
fn reply_text_words_the_store_s_answer() {
    assert_eq!(reply_text(&Outcome::Stored), "OK");
    assert_eq!(reply_text(&Outcome::Found("bar".to_string())), "bar");
    assert_eq!(reply_text(&Outcome::Found("".to_string())), "");
    assert_eq!(reply_text(&Outcome::Missing), "$-1");
}
