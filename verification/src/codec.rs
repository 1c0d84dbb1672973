//! The wire format: replies to bytes, and inbound bytes to requests.

use crate::text::{law_lines_are_unbroken, lemma_lines_nonempty, lemma_next_break_is};
use crate::text::lemma_trimmed_end_of_padded;
use crate::text::{line_break_at, lines, split_lines, texts, trim, trimmed, unbroken, white_space};
use vstd::prelude::*;
use vstd::string::*;
use vstd::utf8::*;

verus! {

/// The frame that carries `msg` to a peer: a message that already opens with
/// the bulk-string sigil `$` goes out as it is, any other is framed as a
/// simple string, `+` before it and `\r\n` after it.
pub open spec fn encode_spec(msg: Seq<char>) -> Seq<u8> {
    if msg.len() > 0 && msg[0] == '$' {
        encode_utf8(msg)
    } else {
        encode_utf8(seq!['+'] + msg + seq!['\r', '\n'])
    }
}

/// Encodes a reply for the wire.
///
/// A message that holds `\r\n` is framed like any other; the frame then
/// reads as more than one line, so callers keep line breaks out of simple
/// strings.
pub fn encode(msg: &str) -> (frame: Vec<u8>)
    ensures
        frame@ == encode_spec(msg@),
{
    if !msg.is_empty() && msg.get_char(0) == '$' {
        msg.as_bytes_vec()
    } else {
        proof {
            reveal_strlit("+");
            reveal_strlit("\r\n");
        }
        let framed = String::from_str("+").concat(msg).concat("\r\n");
        assert(framed@ =~= seq!['+'] + msg@ + seq!['\r', '\n']);
        framed.as_str().as_bytes_vec()
    }
}

/// A decoded inbound frame.
#[derive(Debug, Clone, PartialEq, Eq)]
pub enum Request {
    /// A frame that opens with `+`: the text it carries.
    SimpleString(String),
    /// A frame that opens with `*`: the lines that follow its first two,
    /// none where the frame has no more than two.
    Array(Vec<String>),
}

/// What a `Request` holds, as mathematical text.
pub enum RequestView {
    SimpleString(Seq<char>),
    Array(Seq<Seq<char>>),
}

impl View for Request {
    type V = RequestView;

    open spec fn view(&self) -> RequestView {
        match *self {
            Request::SimpleString(s) => RequestView::SimpleString(s@),
            Request::Array(items) => RequestView::Array(texts(items@)),
        }
    }
}

/// Why a frame was not decoded.
#[derive(Debug, Clone, Copy, PartialEq, Eq, Structural)]
pub enum DecodeError {
    /// The frame opens with neither `+` nor `*`.
    Unrecognized,
    /// The frame opens with `+` and ends with its first line, so that it
    /// carries no text.
    Truncated,
}

/// What a frame's text decodes to.
///
/// The text is trimmed and split at its line breaks. A first line that opens
/// with `+` makes a simple string of the second line, and there has to be
/// one. A first line that opens with `*` makes an array of the lines from the
/// third on: the first line holds the array's length and the second the
/// length of its first element. Where there is no third line the array is
/// empty. Any other first line, the empty one too, is not recognized.
pub open spec fn decoded(text: Seq<char>) -> Result<RequestView, DecodeError> {
    let tokens = lines(trimmed(text));
    let head = tokens[0];
    if head.len() > 0 && head[0] == '+' {
        if tokens.len() < 2 {
            Err(DecodeError::Truncated)
        } else {
            Ok(RequestView::SimpleString(tokens[1]))
        }
    } else if head.len() > 0 && head[0] == '*' {
        Ok(RequestView::Array(items_of(tokens)))
    } else {
        Err(DecodeError::Unrecognized)
    }
}

/// The items of the array frame whose lines are `tokens`: the lines from the
/// third on, none where there are fewer than three.
pub open spec fn items_of(tokens: Seq<Seq<char>>) -> Seq<Seq<char>> {
    if tokens.len() < 2 {
        Seq::empty()
    } else {
        tokens.skip(2)
    }
}

/// The text that a frame's bytes stand for: the characters that they encode
/// in UTF-8, with U+FFFD in place of each part that encodes none.
pub uninterp spec fn utf8_lossy(bytes: Seq<u8>) -> Seq<char>;

/// `String::from_utf8_lossy`: the text is a function of the bytes alone, and
/// bytes that are valid UTF-8 give the characters they encode.
#[verifier::external_body]
fn lossy_text(data: &[u8]) -> (text: String)
    ensures
        text@ == utf8_lossy(data@),
        valid_utf8(data@) ==> text@ == decode_utf8(data@),
{
    String::from_utf8_lossy(data).into_owned()
}

/// Whether the result of decoding is what `expected` says.
pub open spec fn decoding_is(
    request: Result<Request, DecodeError>,
    expected: Result<RequestView, DecodeError>,
) -> bool {
    match request {
        Ok(r) => expected == Ok::<RequestView, DecodeError>(r@),
        Err(e) => expected == Err::<RequestView, DecodeError>(e),
    }
}

/// Decodes a frame that has been read as text.
pub fn decode_text(text: &str) -> (request: Result<Request, DecodeError>)
    ensures
        decoding_is(request, decoded(text@)),
{
    let mut tokens = split_lines(trim(text));
    proof {
        lemma_lines_nonempty(trimmed(text@));
    }
    assert(tokens.len() == texts(tokens@).len());
    assert(tokens[0]@ == texts(tokens@)[0]);
    let head = tokens[0].as_str();
    if head.is_empty() {
        return Err(DecodeError::Unrecognized);
    }
    let sigil = head.get_char(0);
    if sigil != '+' && sigil != '*' {
        return Err(DecodeError::Unrecognized);
    }
    if sigil == '+' {
        if tokens.len() < 2 {
            return Err(DecodeError::Truncated);
        }
        assert(tokens[1]@ == texts(tokens@)[1]);
        Ok(Request::SimpleString(tokens[1].clone()))
    } else if tokens.len() < 2 {
        let items: Vec<String> = Vec::new();
        assert(texts(items@) =~= items_of(lines(trimmed(text@))));
        Ok(Request::Array(items))
    } else {
        let items = tokens.split_off(2);
        assert(texts(items@) =~= items_of(lines(trimmed(text@))));
        Ok(Request::Array(items))
    }
}

/// Decodes one inbound frame.
///
/// The bytes are read as UTF-8, with U+FFFD where they are not, and the
/// text is decoded as `decoded` says. The whole frame has to be in `data`:
/// nothing is kept from one call to the next.
pub fn decode(data: &[u8]) -> (request: Result<Request, DecodeError>)
    ensures
        decoding_is(request, decoded(utf8_lossy(data@))),
        valid_utf8(data@) ==> decoding_is(request, decoded(decode_utf8(data@))),
{
    let text = lossy_text(data);
    decode_text(text.as_str())
}

// ---------------------------------------------------------------------------
// Laws
// ---------------------------------------------------------------------------

/// The text that holds the lines `ls`, with a line break between each two.
pub open spec fn joined(ls: Seq<Seq<char>>) -> Seq<char>
    decreases ls.len(),
{
    if ls.len() == 0 {
        Seq::empty()
    } else if ls.len() == 1 {
        ls[0]
    } else {
        ls[0] + seq!['\r', '\n'] + joined(ls.drop_first())
    }
}

/// Whether `ls` can be the lines of a frame: there is a first line, which
/// opens with `+` or `*`, no line holds a line break, and the last line is
/// not empty and does not end in white space.
pub open spec fn frame_lines(ls: Seq<Seq<char>>) -> bool {
    &&& ls.len() >= 1
    &&& ls[0].len() > 0
    &&& (ls[0][0] == '+' || ls[0][0] == '*')
    &&& forall|i: int| 0 <= i < ls.len() ==> unbroken(#[trigger] ls[i])
    &&& ls.last().len() > 0
    &&& !white_space(ls.last().last())
}

/// Splitting undoes joining: lines that hold no line break are the lines of
/// the text that joins them.
pub proof fn law_lines_of_joined(ls: Seq<Seq<char>>)
    requires
        ls.len() >= 1,
        forall|i: int| 0 <= i < ls.len() ==> unbroken(#[trigger] ls[i]),
    ensures
        lines(joined(ls)) == ls,
    decreases ls.len(),
{
    let head = ls[0];
    assert(unbroken(head));
    if ls.len() == 1 {
        lemma_next_break_is(head, 0, head.len() as int);
        assert(lines(head) =~= ls);
    } else {
        let rest = ls.drop_first();
        let text = joined(ls);
        let n = head.len() as int;
        assert forall|i: int| 0 <= i < rest.len() implies unbroken(#[trigger] rest[i]) by {
            assert(rest[i] == ls[i + 1]);
        }
        law_lines_of_joined(rest);
        assert forall|j: int| 0 <= j < n implies !line_break_at(text, j) by {
            if j + 1 < n {
                assert(!line_break_at(head, j));
                assert(text[j] == head[j] && text[j + 1] == head[j + 1]);
            } else {
                assert(text[j + 1] == '\r');
            }
        }
        assert(text[n] == '\r' && text[n + 1] == '\n');
        assert(line_break_at(text, n));
        lemma_next_break_is(text, 0, n);
        assert(text.take(n) =~= head);
        assert(text.skip(n + 2) =~= joined(rest));
        assert(lines(text) =~= ls);
    }
}

/// A joined text of at least one line, the last of them not empty, ends with
/// that line's last character.
proof fn lemma_joined_tail(ls: Seq<Seq<char>>)
    requires
        ls.len() >= 1,
        ls.last().len() > 0,
    ensures
        joined(ls).len() > 0,
        joined(ls).last() == ls.last().last(),
    decreases ls.len(),
{
    if ls.len() > 1 {
        let rest = ls.drop_first();
        assert(rest.last() == ls.last());
        lemma_joined_tail(rest);
    }
}

/// A joined text whose first line is not empty begins with that line's first
/// character.
proof fn lemma_joined_head(ls: Seq<Seq<char>>)
    requires
        ls.len() >= 1,
        ls[0].len() > 0,
    ensures
        joined(ls).len() > 0,
        joined(ls).first() == ls[0][0],
{
}

/// Decoding recovers the lines of a frame: of the text that joins the lines
/// `ls`, with or without a line break after the last, a first line that
/// opens with `+` gives the second line as a simple string, and one that
/// opens with `*` gives the lines from the third on as an array. Of a frame
/// of one line, a simple string is truncated and an array is empty.
pub proof fn law_decode_recovers_lines(ls: Seq<Seq<char>>)
    requires
        frame_lines(ls),
    ensures
        decoded(joined(ls) + seq!['\r', '\n']) == decoded(joined(ls)),
        decoded(joined(ls)) == if ls[0][0] == '*' {
            Ok::<RequestView, DecodeError>(RequestView::Array(items_of(ls)))
        } else if ls.len() < 2 {
            Err(DecodeError::Truncated)
        } else {
            Ok(RequestView::SimpleString(ls[1]))
        },
{
    let text = joined(ls);
    let ending = seq!['\r', '\n'];
    lemma_joined_tail(ls);
    lemma_joined_head(ls);
    law_lines_of_joined(ls);
    assert((text + ending).first() == text.first());
    assert(trimmed(text) == text);
    lemma_trimmed_end_of_padded(text, ending);
    assert(trimmed(text + ending) == text);
}

/// Whether no text of `request` holds a line break.
pub open spec fn request_unbroken(request: RequestView) -> bool {
    match request {
        RequestView::SimpleString(text) => unbroken(text),
        RequestView::Array(items) => forall|i: int|
            0 <= i < items.len() ==> unbroken(#[trigger] items[i]),
    }
}

/// A decoded request holds no line break: its texts are lines of the frame.
pub proof fn law_decoded_is_unbroken(text: Seq<char>)
    ensures
        decoded(text) matches Ok(request) ==> request_unbroken(request),
{
    let tokens = lines(trimmed(text));
    law_lines_are_unbroken(trimmed(text));
    match decoded(text) {
        Ok(RequestView::Array(items)) => {
            assert forall|i: int| 0 <= i < items.len() implies unbroken(#[trigger] items[i]) by {
                assert(items[i] == tokens[i + 2]);
            }
        },
        _ => {},
    }
}

/// A reply is no request. What `encode` writes for a message that is framed
/// as a simple string, holds no line break and does not end in white space
/// is one line, which decodes as truncated; what it writes for a message
/// that opens with `$` is not recognized.
pub proof fn law_encoded_reply_is_no_request(msg: Seq<char>)
    requires
        unbroken(msg),
        msg.len() > 0 ==> !white_space(msg.last()),
    ensures
        decoded(decode_utf8(encode_spec(msg))) == Err::<RequestView, DecodeError>(
            if msg.len() > 0 && msg[0] == '$' {
                DecodeError::Unrecognized
            } else {
                DecodeError::Truncated
            },
        ),
{
    broadcast use encode_utf8_decode_utf8;

    if msg.len() > 0 && msg[0] == '$' {
        assert(decode_utf8(encode_spec(msg)) == msg);
        assert(trimmed(msg) == msg);
        lemma_next_break_is(msg, 0, msg.len() as int);
        assert(lines(msg) =~= seq![msg]);
    } else {
        let line = seq!['+'] + msg;
        let ls = seq![line];
        assert(decode_utf8(encode_spec(msg)) == line + seq!['\r', '\n']);
        assert forall|i: int| !line_break_at(line, i) by {
            if 1 <= i {
                assert(!line_break_at(msg, i - 1));
                if i + 1 < line.len() {
                    assert(line[i] == msg[i - 1] && line[i + 1] == msg[i]);
                }
            }
        }
        assert(unbroken(ls[0]));
        assert(joined(ls) == line);
        assert(line.last() == if msg.len() > 0 {
            msg.last()
        } else {
            '+'
        });
        assert(frame_lines(ls));
        law_decode_recovers_lines(ls);
    }
}

} // verus!
