//! From a decoded request to what the connection does next, and from the
//! store's answer to the text of the reply.

use crate::codec::{Request, RequestView};
use crate::store::{Command, CommandView, Outcome, OutcomeView};
use crate::text::{ascii_uppercase, ascii_uppercase_is, parse_u128, parsed_u128, same_text, texts};
use vstd::prelude::*;
use vstd::string::*;
use vstd::utf8::is_ascii_chars;

verus! {

/// What a connection does with a request.
#[derive(Debug, Clone, PartialEq, Eq)]
pub enum Action {
    /// Answer with this message.
    Reply(String),
    /// Hand the command to the store and answer with this message, without
    /// waiting for the store. The store takes the commands of one connection
    /// in the order in which they were handed over, so a read that the same
    /// connection asks for afterwards sees the write.
    Post(Command, String),
    /// Hand the command to the store, wait for its answer and reply with it.
    Ask(Command),
}

/// What an `Action` holds, as mathematical text.
pub enum ActionView {
    Reply(Seq<char>),
    Post(CommandView, Seq<char>),
    Ask(CommandView),
}

impl View for Action {
    type V = ActionView;

    open spec fn view(&self) -> ActionView {
        match *self {
            Action::Reply(message) => ActionView::Reply(message@),
            Action::Post(command, message) => ActionView::Post(command@, message@),
            Action::Ask(command) => ActionView::Ask(command@),
        }
    }
}

/// Why a request was not carried out.
#[derive(Debug, Clone, Copy, PartialEq, Eq, Structural)]
pub enum DispatchError {
    /// The request ends before a position that its command reads.
    MissingArgument,
}

/// The upper-case form of `s`, as Unicode defines it.
pub uninterp spec fn uppercase(s: Seq<char>) -> Seq<char>;

/// `str::to_uppercase`: the result is a function of the text alone. Of text
/// made of ASCII characters alone it is the text with the letters `a` to `z`
/// in upper case, which is how Unicode maps those characters.
#[verifier::external_body]
fn to_uppercase(s: &str) -> (upper: String)
    ensures
        upper@ == uppercase(s@),
        is_ascii_chars(s@) ==> upper@ == ascii_uppercase(s@),
{
    s.to_uppercase()
}

/// The command name that `item` reads: its upper-case form. For an item of
/// ASCII characters alone that is the item with the letters `a` to `z` in
/// upper case.
pub open spec fn command_name(item: Seq<char>) -> Seq<char> {
    if is_ascii_chars(item) {
        ascii_uppercase(item)
    } else {
        uppercase(item)
    }
}

/// Whether `item` names the expiry option: `PX`, in either case of each
/// letter.
pub open spec fn is_px(item: Seq<char>) -> bool {
    ascii_uppercase(item) == "PX"@
}

/// The position of the first of `items`, from `from` on, that names the
/// expiry option; the length of `items` where none does.
pub open spec fn px_position(items: Seq<Seq<char>>, from: int) -> int
    decreases items.len() - from,
{
    if from < 0 || from >= items.len() {
        items.len() as int
    } else if is_px(items[from]) {
        from
    } else {
        px_position(items, from + 1)
    }
}

/// The time to live that a write asks for.
///
/// Every position is searched for the option's name, the command's own name
/// and its key and value too. The count of milliseconds stands two positions
/// after the name, and there has to be such a position. A count that is not
/// a number means no time to live, as does a request without the option.
pub open spec fn expiry_of(items: Seq<Seq<char>>) -> Result<Option<u128>, DispatchError> {
    let at = px_position(items, 0);
    if at >= items.len() {
        Ok(None)
    } else if at + 2 >= items.len() {
        Err(DispatchError::MissingArgument)
    } else {
        Ok(parsed_u128(items[at + 2]))
    }
}

/// What is done with the array `items`, whose first item reads the command
/// name `name`.
///
/// The items of a request come in pairs, a length and then the text it
/// measures, and the first length is not among them: the command's name is
/// at position 0, its first argument at position 2, its second at position 4.
/// `ECHO` answers with its first argument. `SET` writes its second argument
/// under its first and answers `OK`. `GET` asks for what is served under its
/// first argument. Any other name is answered with `PONG`.
pub open spec fn planned(name: Seq<char>, items: Seq<Seq<char>>) -> Result<
    ActionView,
    DispatchError,
> {
    if name == "ECHO"@ {
        if items.len() > 2 {
            Ok(ActionView::Reply(items[2]))
        } else {
            Err(DispatchError::MissingArgument)
        }
    } else if name == "SET"@ {
        if items.len() > 4 {
            match expiry_of(items) {
                Ok(expiry_ms) => Ok(
                    ActionView::Post(
                        CommandView::Put { key: items[2], value: items[4], expiry_ms },
                        "OK"@,
                    ),
                ),
                Err(e) => Err(e),
            }
        } else {
            Err(DispatchError::MissingArgument)
        }
    } else if name == "GET"@ {
        if items.len() > 2 {
            Ok(ActionView::Ask(CommandView::Get { key: items[2] }))
        } else {
            Err(DispatchError::MissingArgument)
        }
    } else {
        Ok(ActionView::Reply("PONG"@))
    }
}

/// What is done with `request`: a simple string and an array without items
/// are answered with `PONG`, and an array with items is read as a command,
/// by the name that its first item reads.
pub open spec fn dispatched(request: RequestView) -> Result<ActionView, DispatchError> {
    match request {
        RequestView::SimpleString(_) => Ok(ActionView::Reply("PONG"@)),
        RequestView::Array(items) => if items.len() == 0 {
            Ok(ActionView::Reply("PONG"@))
        } else {
            planned(command_name(items[0]), items)
        },
    }
}

/// The text of the reply to a request that the store answered with
/// `outcome`. Where nothing is served the reply is `$-1`, which is no simple
/// string and goes out unframed.
pub open spec fn reply_of(outcome: OutcomeView) -> Seq<char> {
    match outcome {
        OutcomeView::Stored => "OK"@,
        OutcomeView::Found(value) => value,
        OutcomeView::Missing => "$-1"@,
    }
}

/// Whether the result of a dispatch is what `expected` says.
pub open spec fn action_is(
    action: Result<Action, DispatchError>,
    expected: Result<ActionView, DispatchError>,
) -> bool {
    match action {
        Ok(a) => expected == Ok::<ActionView, DispatchError>(a@),
        Err(e) => expected == Err::<ActionView, DispatchError>(e),
    }
}

/// Finds the first of `items` that names the expiry option.
pub fn find_px(items: &Vec<String>) -> (at: usize)
    ensures
        at == px_position(texts(items@), 0),
{
    let mut i: usize = 0;
    while i < items.len()
        invariant
            i <= items.len(),
            px_position(texts(items@), 0) == px_position(texts(items@), i as int),
        decreases items.len() - i,
    {
        assert(texts(items@)[i as int] == items@[i as int]@);
        if ascii_uppercase_is(items[i].as_str(), "PX") {
            return i;
        }
        i += 1;
    }
    i
}

/// Reads the time to live that the write `items` asks for.
pub fn read_expiry(items: &Vec<String>) -> (expiry: Result<Option<u128>, DispatchError>)
    ensures
        expiry == expiry_of(texts(items@)),
{
    let at = find_px(items);
    if at >= items.len() {
        Ok(None)
    } else if items.len() - at <= 2 {
        Err(DispatchError::MissingArgument)
    } else {
        assert(texts(items@)[at + 2] == items@[at + 2]@);
        Ok(parse_u128(items[at + 2].as_str()))
    }
}

/// Decides what is done with the array `items`, given the command name
/// `name` that its first item reads.
pub fn dispatch_named(name: &str, items: &Vec<String>) -> (action: Result<Action, DispatchError>)
    ensures
        action_is(action, planned(name@, texts(items@))),
{
    let ghost views = texts(items@);
    assert(forall|i: int| 0 <= i < items.len() ==> views[i] == (#[trigger] items@[i])@);
    if same_text(name, "ECHO") {
        if items.len() > 2 {
            Ok(Action::Reply(items[2].clone()))
        } else {
            Err(DispatchError::MissingArgument)
        }
    } else if same_text(name, "SET") {
        if items.len() > 4 {
            match read_expiry(items) {
                Ok(expiry_ms) => {
                    let command = Command::Put {
                        key: items[2].clone(),
                        value: items[4].clone(),
                        expiry_ms,
                    };
                    Ok(Action::Post(command, String::from_str("OK")))
                },
                Err(e) => Err(e),
            }
        } else {
            Err(DispatchError::MissingArgument)
        }
    } else if same_text(name, "GET") {
        if items.len() > 2 {
            Ok(Action::Ask(Command::Get { key: items[2].clone() }))
        } else {
            Err(DispatchError::MissingArgument)
        }
    } else {
        Ok(Action::Reply(String::from_str("PONG")))
    }
}

/// Decides what is done with a request.
pub fn dispatch(request: &Request) -> (action: Result<Action, DispatchError>)
    ensures
        action_is(action, dispatched(request@)),
{
    match request {
        Request::SimpleString(_) => Ok(Action::Reply(String::from_str("PONG"))),
        Request::Array(items) => {
            if items.len() == 0 {
                Ok(Action::Reply(String::from_str("PONG")))
            } else {
                assert(texts(items@)[0] == items@[0]@);
                let name = to_uppercase(items[0].as_str());
                dispatch_named(name.as_str(), items)
            }
        },
    }
}

/// The text of the reply to a request that the store answered with
/// `outcome`.
pub fn reply_text(outcome: &Outcome) -> (message: String)
    ensures
        message@ == reply_of(outcome@),
{
    match outcome {
        Outcome::Stored => String::from_str("OK"),
        Outcome::Found(value) => value.clone(),
        Outcome::Missing => String::from_str("$-1"),
    }
}

} // verus!
