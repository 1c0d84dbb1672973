use tiny_kv::codec::DecodeError;
use tiny_kv::dispatch::{Action, DispatchError};
use tiny_kv::server::{handle_frame, perform, serve, Rejected};
use tiny_kv::store::{Command, Store};

#[test]
fn set_then_get_over_the_wire() {
    let mut store = Store::new();
    assert_eq!(
        serve(&mut store, b"*3\r\n$3\r\nSET\r\n$3\r\nfoo\r\n$3\r\nbar\r\n", 1_000),
        Ok(b"+OK\r\n".to_vec())
    );
    assert_eq!(
        serve(&mut store, b"*2\r\n$3\r\nGET\r\n$3\r\nfoo\r\n", 1_001),
        Ok(b"+bar\r\n".to_vec())
    );
    assert_eq!(
        serve(&mut store, b"*2\r\n$3\r\nGET\r\n$3\r\nfoo\r\n", 99_999_999),
        Ok(b"+bar\r\n".to_vec())
    );
}

#[test]
fn set_with_px_expires_over_the_wire() {
    let mut store = Store::new();
    let set = b"*5\r\n$3\r\nSET\r\n$3\r\nfoo\r\n$3\r\nbar\r\n$2\r\nPX\r\n$3\r\n100\r\n";
    let get = b"*2\r\n$3\r\nGET\r\n$3\r\nfoo\r\n";
    assert_eq!(serve(&mut store, set, 5_000), Ok(b"+OK\r\n".to_vec()));
    assert_eq!(serve(&mut store, get, 5_000), Ok(b"+bar\r\n".to_vec()));
    assert_eq!(serve(&mut store, get, 5_099), Ok(b"+bar\r\n".to_vec()));
    assert_eq!(serve(&mut store, get, 5_100), Ok(b"$-1".to_vec()));
    assert_eq!(serve(&mut store, get, 5_150), Ok(b"$-1".to_vec()));
}

#[test]
fn get_of_an_unknown_key_over_the_wire() {
    let mut store = Store::new();
    assert_eq!(serve(&mut store, b"*2\r\n$3\r\nGET\r\n$3\r\nfoo\r\n", 0), Ok(b"$-1".to_vec()));
}

#[test]
fn echo_over_the_wire() {
    let mut store = Store::new();
    assert_eq!(
        serve(&mut store, b"*2\r\n$4\r\nECHO\r\n$5\r\nhello\r\n", 0),
        Ok(b"+hello\r\n".to_vec())
    );
    assert_eq!(
        serve(&mut store, b"*2\r\n$4\r\necho\r\n$3\r\n$-1\r\n", 0),
        Ok(b"$-1".to_vec())
    );
}

#[test]
fn ping_and_the_unknown_get_pong() {
    let mut store = Store::new();
    assert_eq!(serve(&mut store, b"*1\r\n$4\r\nPING\r\n", 0), Ok(b"+PONG\r\n".to_vec()));
    assert_eq!(serve(&mut store, b"*1\r\n$7\r\nCOMMAND\r\n", 0), Ok(b"+PONG\r\n".to_vec()));
    assert_eq!(serve(&mut store, b"+\r\nwhatever\r\n", 0), Ok(b"+PONG\r\n".to_vec()));
    assert_eq!(serve(&mut store, b"*0\r\n", 0), Ok(b"+PONG\r\n".to_vec()));
    assert_eq!(serve(&mut store, b"*1", 0), Ok(b"+PONG\r\n".to_vec()));
}

#[test]
fn a_frame_that_is_turned_away_changes_nothing() {
    let mut store = Store::new();
    store.set("foo".to_string(), "bar".to_string(), None, 0);
    assert_eq!(serve(&mut store, b"-ERR\r\n", 1), Err(Rejected::Frame(DecodeError::Unrecognized)));
    assert_eq!(serve(&mut store, b"+whatever\r\n", 1), Err(Rejected::Frame(DecodeError::Truncated)));
    assert_eq!(
        serve(&mut store, b"*1\r\n$3\r\nSET\r\n", 1),
        Err(Rejected::Request(DispatchError::MissingArgument))
    );
    assert_eq!(
        serve(&mut store, b"*3\r\n$3\r\nSET\r\n$3\r\nfoo\r\n$3\r\nnew\r\n$2\r\nPX\r\n", 1),
        Err(Rejected::Request(DispatchError::MissingArgument))
    );
    assert_eq!(store.get("foo", 2), Some("bar".to_string()));
}

#[test]
fn a_stored_value_that_opens_with_a_dollar_goes_out_unframed() {
    let mut store = Store::new();
    assert_eq!(
        serve(&mut store, b"*3\r\n$3\r\nSET\r\n$1\r\nk\r\n$2\r\n$5\r\n", 0),
        Ok(b"+OK\r\n".to_vec())
    );
    assert_eq!(serve(&mut store, b"*2\r\n$3\r\nGET\r\n$1\r\nk\r\n", 0), Ok(b"$5".to_vec()));
}

#[test]
fn handle_frame_decodes_and_dispatches() {
    assert_eq!(
        handle_frame(b"*2\r\n$3\r\nGET\r\n$3\r\nfoo\r\n"),
        Ok(Action::Ask(Command::Get { key: "foo".to_string() }))
    );
    assert_eq!(
        handle_frame(b"*3\r\n$3\r\nset\r\n$1\r\nk\r\n$1\r\nv\r\n$2\r\npx\r\n$2\r\n15\r\n"),
        Ok(Action::Post(
            Command::Put { key: "k".to_string(), value: "v".to_string(), expiry_ms: Some(15) },
            "OK".to_string()
        ))
    );
    assert_eq!(handle_frame(b"*1\r\n$4\r\nPING\r\n"), Ok(Action::Reply("PONG".to_string())));
    assert_eq!(handle_frame(b""), Err(Rejected::Frame(DecodeError::Unrecognized)));
    assert_eq!(handle_frame(b"*1"), Ok(Action::Reply("PONG".to_string())));
    assert_eq!(handle_frame(b"+PING"), Err(Rejected::Frame(DecodeError::Truncated)));
    assert_eq!(
        handle_frame(b"*1\r\n$3\r\nGET"),
        Err(Rejected::Request(DispatchError::MissingArgument))
    );
}

#[test]
fn perform_takes_an_action_on_the_store() {
    let mut store = Store::new();
    let write = Action::Post(
        Command::Put { key: "k".to_string(), value: "v".to_string(), expiry_ms: Some(10) },
        "OK".to_string(),
    );
    let read = Action::Ask(Command::Get { key: "k".to_string() });
    assert_eq!(perform(&mut store, Action::Reply("hi".to_string()), 0), b"+hi\r\n".to_vec());
    assert_eq!(perform(&mut store, read.clone(), 0), b"$-1".to_vec());
    assert_eq!(perform(&mut store, write, 100), b"+OK\r\n".to_vec());
    assert_eq!(perform(&mut store, read.clone(), 109), b"+v\r\n".to_vec());
    assert_eq!(perform(&mut store, read, 110), b"$-1".to_vec());
}

#[test]
fn a_value_written_over_the_wire_is_one_line() {
    let mut store = Store::new();
    assert_eq!(
        serve(&mut store, b"*3\r\n$3\r\nSET\r\n$1\r\nk\r\n$4\r\na\r\nb\r\n", 0),
        Ok(b"+OK\r\n".to_vec())
    );
    assert_eq!(serve(&mut store, b"*2\r\n$3\r\nGET\r\n$1\r\nk\r\n", 0), Ok(b"+a\r\n".to_vec()));
    assert_eq!(
        serve(&mut store, b"*2\r\n$4\r\nECHO\r\n$4\r\nx\r\ny\r\n", 0),
        Ok(b"+x\r\n".to_vec())
    );
}

#[test]
fn a_frame_in_bytes_that_are_not_utf8_is_served_as_its_lossy_text() {
    let mut store = Store::new();
    assert_eq!(
        serve(&mut store, b"*2\r\n$4\r\nECHO\r\n$2\r\n\xffz\r\n", 0),
        Ok("+\u{fffd}z\r\n".as_bytes().to_vec())
    );
}
