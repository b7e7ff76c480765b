//! What holds of the tokenizer and the grammar on every input.

use crate::http_entity::{method_name, method_of, HttpEntityView, HttpMethod, HttpVsn};
use crate::lexer::{
    bytes_text, digit_byte, lemma_run_end_bounds, letter_byte, lex_step, mark_byte, run_byte,
    run_end, token_text, DelimiterKind, TCharKind, Token, CARRIAGE_RETURN, COLON, DOUBLE_QUOTE,
    LINE_FEED, SLASH, SPACE,
};
use crate::parser::{
    expect_exactly, expect_protocol_name, expect_run, fields_from, headers_from, method_from,
    path_from, protocol_name, request_line_from, skip_space, then_exactly, value_from,
    version_from, window, Mismatch, RequestLineView,
};
use vstd::prelude::*;

verus! {

/// A run that starts at `from` ends at `to` when every byte between them
/// may stand inside a run and the byte at `to`, if there is one, may not.
pub proof fn lemma_run_stops(bytes: Seq<u8>, from: int, to: int)
    requires
        0 <= from <= to <= bytes.len(),
        forall|i: int| from <= i < to ==> run_byte(#[trigger] bytes[i]),
        to < bytes.len() ==> !run_byte(bytes[to]),
    ensures
        run_end(bytes, from) == to,
    decreases to - from,
{
    if from < to {
        lemma_run_stops(bytes, from + 1, to);
    }
}

/// The text of a token is the text of the bytes that it was read from,
/// for every token but the two that stand for no text.
pub proof fn lemma_token_text_is_input(bytes: Seq<u8>, at: int)
    requires
        0 <= at < bytes.len(),
        !(lex_step(bytes, at).0 is Bad),
        !(lex_step(bytes, at).0 is Eof),
    ensures
        at < lex_step(bytes, at).1 <= bytes.len(),
        token_text(lex_step(bytes, at).0) == bytes_text(
            bytes.subrange(at, lex_step(bytes, at).1),
        ),
{
    let step = lex_step(bytes, at);
    lemma_run_end_bounds(bytes, at);
    if run_byte(bytes[at]) {
        lemma_run_end_bounds(bytes, at + 1);
    }
    assert(token_text(step.0) =~= bytes_text(bytes.subrange(at, step.1)));
}

/// Whether a byte can stand in a path: a mark character, a colon, a
/// slash, a carriage return, a line feed, a digit or a letter.
pub open spec fn path_byte(b: u8) -> bool {
    mark_byte(b) || b == COLON || b == SLASH || b == CARRIAGE_RETURN || b == LINE_FEED
        || digit_byte(b) || letter_byte(b)
}

/// Whether every byte of `path` can stand in a path, and no carriage
/// return in it is followed by a line feed.
pub open spec fn plain_path(path: Seq<u8>) -> bool {
    &&& forall|i: int| 0 <= i < path.len() ==> path_byte(#[trigger] path[i])
    &&& forall|i: int|
        0 <= i < path.len() - 1 ==> !(#[trigger] path[i] == CARRIAGE_RETURN && path[i + 1]
            == LINE_FEED)
}

/// The bytes `HTTP/1.1` and a line end.
pub open spec fn version_line() -> Seq<u8> {
    seq![72u8, 84u8, 84u8, 80u8, 47u8, 49u8, 46u8, 49u8, 13u8, 10u8]
}

/// A request line: the method, a space, the path, a space, the version
/// and a line end.
pub open spec fn request_line_bytes(method: HttpMethod, path: Seq<u8>) -> Seq<u8> {
    method_name(method) + seq![SPACE] + path + seq![SPACE] + version_line()
}

/// The path rule, started at a token that starts at `at`, reads the bytes
/// up to the space at `space` as they stand, and takes that space.
proof fn lemma_path_reads_plain_bytes(bytes: Seq<u8>, at: int, space: int, acc: Seq<char>)
    requires
        0 <= at <= space < bytes.len(),
        bytes[space] == SPACE,
        forall|i: int| at <= i < space ==> path_byte(#[trigger] bytes[i]),
        forall|i: int|
            at <= i < space ==> !(#[trigger] bytes[i] == CARRIAGE_RETURN && bytes[i + 1]
                == LINE_FEED),
    ensures
        path_from(window(bytes, at), acc) == (
            Ok::<Seq<char>, Mismatch>(acc + bytes_text(bytes.subrange(at, space))),
            window(bytes, space + 1),
            acc + bytes_text(bytes.subrange(at, space)),
        ),
    decreases space - at,
{
    let ps = window(bytes, at);
    let step = lex_step(bytes, at);
    if at == space {
        assert(acc + bytes_text(bytes.subrange(at, space)) =~= acc);
    } else {
        assert(path_byte(bytes[at]));
        assert(!(bytes[at] == CARRIAGE_RETURN && bytes[at + 1] == LINE_FEED));
        lemma_run_end_bounds(bytes, at);
        lemma_token_text_is_input(bytes, at);
        assert(step.1 <= space) by {
            if step.1 > space {
                assert(run_byte(bytes[space]));
            }
        }
        lemma_path_reads_plain_bytes(bytes, step.1, space, acc + token_text(step.0));
        assert(bytes.subrange(at, space) =~= bytes.subrange(at, step.1) + bytes.subrange(
            step.1,
            space,
        ));
        assert(bytes_text(bytes.subrange(at, space)) =~= bytes_text(bytes.subrange(at, step.1))
            + bytes_text(bytes.subrange(step.1, space)));
        assert(acc + token_text(step.0) + bytes_text(bytes.subrange(step.1, space)) =~= acc
            + bytes_text(bytes.subrange(at, space)));
    }
}

/// The version rule reads the bytes `HTTP/1.1` where they stand before a
/// line end, and the line end is then current.
proof fn lemma_version_reads(bytes: Seq<u8>, at: int)
    requires
        0 <= at,
        at + 10 <= bytes.len(),
        bytes.subrange(at, at + 10) == version_line(),
    ensures
        version_from(window(bytes, at)) == (
            Ok::<HttpVsn, Mismatch>(HttpVsn::HTTP1_1),
            window(bytes, at + 8),
        ),
        lex_step(bytes, at + 8) == (Token::CRLF, at + 10),
{
    let line = bytes.subrange(at, at + 10);
    assert(forall|i: int| 0 <= i < 10 ==> bytes[at + i] == #[trigger] line[i]);
    assert(line[0] == 72 && line[1] == 84 && line[2] == 84 && line[3] == 80 && line[4] == 47);
    assert(line[5] == 49 && line[6] == 46 && line[7] == 49 && line[8] == 13 && line[9] == 10);
    assert(bytes[at] == 72 && bytes[at + 1] == 84 && bytes[at + 2] == 84 && bytes[at + 3] == 80
        && bytes[at + 4] == 47);
    assert(bytes[at + 5] == 49 && bytes[at + 6] == 46 && bytes[at + 7] == 49 && bytes[at + 8]
        == 13 && bytes[at + 9] == 10);
    assert forall|i: int| at <= i < at + 4 implies run_byte(#[trigger] bytes[i]) by {
        assert(i == at || i == at + 1 || i == at + 2 || i == at + 3);
    }
    lemma_run_stops(bytes, at, at + 4);
    assert(bytes_text(bytes.subrange(at, at + 4)) =~= protocol_name());
    assert(lex_step(bytes, at) == (Token::Run(protocol_name()), at + 4));
    let name = expect_protocol_name(window(bytes, at));
    assert(name == (Ok::<Token, Mismatch>(Token::Run(protocol_name())), window(bytes, at + 4)));
    let slash = then_exactly(name, Token::Delimiter(DelimiterKind::Slash));
    assert(slash.1 == window(bytes, at + 5) && slash.0 is Ok);
    let major = then_exactly(slash, Token::Char(TCharKind::Digit(1)));
    assert(major.1 == window(bytes, at + 6) && major.0 is Ok);
    let dot = then_exactly(major, Token::Char(TCharKind::Dot));
    assert(dot.1 == window(bytes, at + 7) && dot.0 is Ok);
    let minor = then_exactly(dot, Token::Char(TCharKind::Digit(1)));
    assert(minor.1 == window(bytes, at + 8) && minor.0 is Ok);
}

/// The request line rule reads a request line that the buffer starts
/// with, whatever follows it.
proof fn lemma_request_line_reads(bytes: Seq<u8>, method: HttpMethod, path: Seq<u8>)
    requires
        method != HttpMethod::BAD,
        plain_path(path),
        request_line_bytes(method, path).len() <= bytes.len(),
        bytes.subrange(0, request_line_bytes(method, path).len() as int) == request_line_bytes(
            method,
            path,
        ),
    ensures
        request_line_from(window(bytes, 0)) == (
            Ok::<RequestLineView, Mismatch>(
                RequestLineView { method, path: bytes_text(path), version: HttpVsn::HTTP1_1 },
            ),
            window(bytes, request_line_bytes(method, path).len() as int),
        ),
{
    let line = request_line_bytes(method, path);
    let name = method_name(method);
    let m = name.len() as int;
    let a = m + 1;
    let b = a + path.len();
    assert(line.len() == b + 11);
    assert(forall|i: int| 0 <= i < line.len() ==> bytes[i] == #[trigger] line[i]) by {
        assert(forall|i: int|
            0 <= i < line.len() ==> bytes.subrange(0, line.len() as int)[i] == bytes[i]);
    }
    assert(forall|i: int| 0 <= i < m ==> line[i] == name[i]);
    assert(line[m] == SPACE);
    assert(forall|i: int| 0 <= i < path.len() ==> line[a + i] == path[i]);
    assert(line[b] == SPACE);
    assert(bytes.subrange(0, m) =~= name);
    assert(bytes.subrange(a, b) =~= path) by {
        assert forall|i: int| 0 <= i < path.len() implies bytes.subrange(a, b)[i] == path[i] by {
            assert(bytes[a + i] == line[a + i]);
        }
    }
    assert(bytes.subrange(b + 1, b + 11) =~= version_line()) by {
        assert forall|i: int| 0 <= i < 10 implies bytes.subrange(b + 1, b + 11)[i]
            == version_line()[i] by {
            assert(bytes[b + 1 + i] == line[b + 1 + i]);
        }
    }

    // The method.
    assert forall|i: int| 0 <= i < m implies run_byte(#[trigger] bytes[i]) by {
        assert(bytes[i] == line[i] && line[i] == name[i]);
    }
    assert(bytes[m] == line[m]);
    lemma_run_stops(bytes, 0, m);
    assert(bytes[0] == line[0] && bytes[1] == line[1]);
    assert(lex_step(bytes, 0) == (Token::Run(bytes_text(name)), m));
    assert(method_of(bytes_text(name)) == method) by {
        if method == HttpMethod::GET {
            assert(bytes_text(name) =~= seq!['G', 'E', 'T']);
        } else {
            assert(bytes_text(name) =~= seq!['P', 'O', 'S', 'T']);
            assert(bytes_text(name).len() == 4);
        }
    }
    let first = method_from(window(bytes, 0));
    assert(first == (method, window(bytes, m)));

    // The space.
    assert(lex_step(bytes, m) == (Token::Space, a));
    let space = expect_exactly(first.1, Token::Space);
    assert(space.0 is Ok && space.1 == window(bytes, a));

    // The path.
    assert(bytes[b] == line[b]);
    assert forall|i: int| a <= i < b implies path_byte(#[trigger] bytes[i]) by {
        assert(bytes[i] == line[i] && line[i] == path[i - a]);
    }
    assert forall|i: int| a <= i < b implies !(#[trigger] bytes[i] == CARRIAGE_RETURN && bytes[i
        + 1] == LINE_FEED) by {
        assert(bytes[i] == line[i] && line[i] == path[i - a]);
        assert(bytes[i + 1] == line[i + 1]);
        if i + 1 < b {
            assert(line[i + 1] == path[i - a + 1]);
        }
    }
    lemma_path_reads_plain_bytes(bytes, a, b, Seq::empty());
    assert(Seq::<char>::empty() + bytes_text(path) =~= bytes_text(path));

    // The version and the line end.
    lemma_version_reads(bytes, b + 1);
    let end = expect_exactly(window(bytes, b + 9), Token::CRLF);
    assert(end.0 is Ok && end.1 == window(bytes, b + 11));
}

/// A request line of the exact shape parses to what it was written from:
/// for the method `GET` or `POST` and every path that is plain, the request
/// line rule gives that method, the path as it stood between the two
/// spaces, and the version, and has then read the whole line.
pub proof fn theorem_request_line_round_trip(method: HttpMethod, path: Seq<u8>)
    requires
        method != HttpMethod::BAD,
        plain_path(path),
    ensures
        request_line_from(window(request_line_bytes(method, path), 0)) == (
            Ok::<RequestLineView, Mismatch>(
                RequestLineView { method, path: bytes_text(path), version: HttpVsn::HTTP1_1 },
            ),
            window(request_line_bytes(method, path), request_line_bytes(method, path).len() as int),
        ),
{
    let bytes = request_line_bytes(method, path);
    assert(bytes.subrange(0, bytes.len() as int) =~= bytes);
    lemma_request_line_reads(bytes, method, path);
}

/// Whether `name` reads as one run: two letters, then letters and mark
/// characters.
pub open spec fn field_name(name: Seq<u8>) -> bool {
    &&& name.len() >= 2
    &&& letter_byte(name[0])
    &&& letter_byte(name[1])
    &&& forall|i: int| 0 <= i < name.len() ==> run_byte(#[trigger] name[i])
}

/// Whether a byte can stand in the value of a header field: a byte that
/// can stand in a path, a space or a double quote.
pub open spec fn value_byte(b: u8) -> bool {
    path_byte(b) || b == SPACE || b == DOUBLE_QUOTE
}

/// Whether every byte of `value` can stand in the value of a header field,
/// and no carriage return in it is followed by a line feed.
pub open spec fn plain_value(value: Seq<u8>) -> bool {
    &&& forall|i: int| 0 <= i < value.len() ==> value_byte(#[trigger] value[i])
    &&& forall|i: int|
        0 <= i < value.len() - 1 ==> !(#[trigger] value[i] == CARRIAGE_RETURN && value[i + 1]
            == LINE_FEED)
}

/// The two bytes of a line end.
pub open spec fn line_end() -> Seq<u8> {
    seq![CARRIAGE_RETURN, LINE_FEED]
}

/// A header field as a line: the name, a colon, a space, the value and a
/// line end.
pub open spec fn field_line(field: (Seq<u8>, Seq<u8>)) -> Seq<u8> {
    field.0 + seq![COLON, SPACE] + field.1 + line_end()
}

/// Header fields as lines, one after the other.
pub open spec fn field_lines(fields: Seq<(Seq<u8>, Seq<u8>)>) -> Seq<u8>
    decreases fields.len(),
{
    if fields.len() == 0 {
        Seq::empty()
    } else {
        field_line(fields[0]) + field_lines(fields.drop_first())
    }
}

/// The fields `acc` after each of `fields` has been set, in their order.
pub open spec fn fields_set(
    fields: Seq<(Seq<u8>, Seq<u8>)>,
    acc: Map<Seq<char>, Seq<char>>,
) -> Map<Seq<char>, Seq<char>>
    decreases fields.len(),
{
    if fields.len() == 0 {
        acc
    } else {
        fields_set(
            fields.drop_first(),
            acc.insert(bytes_text(fields[0].0), bytes_text(fields[0].1)),
        )
    }
}

/// A request head: the request line, the header fields as lines, and a
/// blank line.
pub open spec fn head_bytes(
    method: HttpMethod,
    path: Seq<u8>,
    fields: Seq<(Seq<u8>, Seq<u8>)>,
) -> Seq<u8> {
    request_line_bytes(method, path) + (field_lines(fields) + line_end())
}

/// The value of a header field, started at a token that starts at `at`, is
/// the bytes up to the line end at `end` as they stand. The line end stays
/// current.
proof fn lemma_value_reads_plain_bytes(bytes: Seq<u8>, at: int, end: int, acc: Seq<char>)
    requires
        0 <= at <= end,
        end + 1 < bytes.len(),
        bytes[end] == CARRIAGE_RETURN,
        bytes[end + 1] == LINE_FEED,
        forall|i: int| at <= i < end ==> value_byte(#[trigger] bytes[i]),
        forall|i: int|
            at <= i < end ==> !(#[trigger] bytes[i] == CARRIAGE_RETURN && bytes[i + 1]
                == LINE_FEED),
    ensures
        value_from(window(bytes, at), acc) == (
            Ok::<Seq<char>, Mismatch>(acc + bytes_text(bytes.subrange(at, end))),
            window(bytes, end),
        ),
    decreases end - at,
{
    let step = lex_step(bytes, at);
    if at == end {
        assert(acc + bytes_text(bytes.subrange(at, end)) =~= acc);
    } else {
        assert(value_byte(bytes[at]));
        assert(!(bytes[at] == CARRIAGE_RETURN && bytes[at + 1] == LINE_FEED));
        lemma_run_end_bounds(bytes, at);
        lemma_token_text_is_input(bytes, at);
        assert(step.1 <= end) by {
            if step.1 > end {
                assert(run_byte(bytes[end]));
            }
        }
        lemma_value_reads_plain_bytes(bytes, step.1, end, acc + token_text(step.0));
        assert(bytes.subrange(at, end) =~= bytes.subrange(at, step.1) + bytes.subrange(
            step.1,
            end,
        ));
        assert(bytes_text(bytes.subrange(at, end)) =~= bytes_text(bytes.subrange(at, step.1))
            + bytes_text(bytes.subrange(step.1, end)));
        assert(acc + token_text(step.0) + bytes_text(bytes.subrange(step.1, end)) =~= acc
            + bytes_text(bytes.subrange(at, end)));
    }
}

/// The header fields rule reads the lines of `fields` where they stand
/// from `at` to the end of the buffer, before a blank line.
proof fn lemma_fields_read(
    bytes: Seq<u8>,
    at: int,
    fields: Seq<(Seq<u8>, Seq<u8>)>,
    acc: Map<Seq<char>, Seq<char>>,
)
    requires
        0 <= at <= bytes.len(),
        bytes.subrange(at, bytes.len() as int) == field_lines(fields) + line_end(),
        forall|i: int|
            0 <= i < fields.len() ==> field_name((#[trigger] fields[i]).0) && plain_value(
                fields[i].1,
            ),
    ensures
        fields_from(window(bytes, at), acc) == (
            Ok::<Map<Seq<char>, Seq<char>>, Mismatch>(fields_set(fields, acc)),
            window(bytes, bytes.len() as int),
        ),
    decreases fields.len(),
{
    let tail = bytes.subrange(at, bytes.len() as int);
    assert(forall|i: int| 0 <= i < tail.len() ==> bytes[at + i] == #[trigger] tail[i]);
    if fields.len() == 0 {
        assert(tail =~= line_end());
        assert(tail[0] == CARRIAGE_RETURN && tail[1] == LINE_FEED);
        assert(bytes[at] == tail[0] && bytes[at + 1] == tail[1]);
        assert(lex_step(bytes, at) == (Token::CRLF, at + 2));
    } else {
        let name = fields[0].0;
        let value = fields[0].1;
        let rest = fields.drop_first();
        let n = name.len() as int;
        let from = at + n + 2;
        let end = from + value.len();
        let line = field_line(fields[0]);
        assert(field_name(name) && plain_value(value));
        assert(tail =~= line + (field_lines(rest) + line_end()));
        assert(line.len() == n + 2 + value.len() + 2);
        assert(forall|i: int| 0 <= i < line.len() ==> tail[i] == #[trigger] line[i]);
        assert(forall|i: int| 0 <= i < n ==> line[i] == name[i]);
        assert(line[n] == COLON && line[n + 1] == SPACE);
        assert(forall|i: int| 0 <= i < value.len() ==> line[n + 2 + i] == value[i]);
        assert(line[n + 2 + value.len()] == CARRIAGE_RETURN);
        assert(line[n + 2 + value.len() + 1] == LINE_FEED);
        assert forall|i: int| 0 <= i < line.len() implies bytes[at + i] == #[trigger] line[i] by {
            assert(bytes[at + i] == tail[i]);
        }

        // The name.
        assert forall|i: int| at <= i < at + n implies run_byte(#[trigger] bytes[i]) by {
            assert(bytes[i] == line[i - at] && line[i - at] == name[i - at]);
        }
        assert(bytes[at + n] == line[n]);
        lemma_run_stops(bytes, at, at + n);
        assert(bytes[at] == line[0] && bytes[at + 1] == line[1]);
        assert(bytes.subrange(at, at + n) =~= name) by {
            assert forall|i: int| 0 <= i < n implies bytes.subrange(at, at + n)[i] == name[i] by {
                assert(bytes[at + i] == line[i]);
            }
        }
        assert(lex_step(bytes, at) == (Token::Run(bytes_text(name)), at + n));
        let named = expect_run(window(bytes, at));
        assert(named == (Ok::<Seq<char>, Mismatch>(bytes_text(name)), window(bytes, at + n)));

        // The colon and the space.
        assert(lex_step(bytes, at + n) == (Token::Delimiter(DelimiterKind::Colon), at + n + 1));
        let colon = expect_exactly(named.1, Token::Delimiter(DelimiterKind::Colon));
        assert(colon.0 is Ok && colon.1 == window(bytes, at + n + 1));
        assert(bytes[at + n + 1] == line[n + 1]);
        assert(lex_step(bytes, at + n + 1) == (Token::Space, from));
        assert(skip_space(colon.1) == window(bytes, from));

        // The value and the line end.
        assert(bytes[end] == line[end - at] && bytes[end + 1] == line[end + 1 - at]);
        assert forall|i: int| from <= i < end implies value_byte(#[trigger] bytes[i]) by {
            assert(bytes[i] == line[i - at] && line[i - at] == value[i - from]);
        }
        assert forall|i: int| from <= i < end implies !(#[trigger] bytes[i] == CARRIAGE_RETURN
            && bytes[i + 1] == LINE_FEED) by {
            assert(bytes[i] == line[i - at] && line[i - at] == value[i - from]);
            assert(bytes[i + 1] == line[i + 1 - at]);
            if i + 1 < end {
                assert(line[i + 1 - at] == value[i + 1 - from]);
            }
        }
        lemma_value_reads_plain_bytes(bytes, from, end, Seq::empty());
        assert(bytes.subrange(from, end) =~= value) by {
            assert forall|i: int| 0 <= i < value.len() implies bytes.subrange(from, end)[i]
                == value[i] by {
                assert(bytes[from + i] == line[n + 2 + i]);
            }
        }
        assert(Seq::<char>::empty() + bytes_text(value) =~= bytes_text(value));
        assert(lex_step(bytes, end) == (Token::CRLF, end + 2));
        let ended = expect_exactly(window(bytes, end), Token::CRLF);
        assert(ended.0 is Ok && ended.1 == window(bytes, end + 2));

        // The fields that follow.
        assert(bytes.subrange(end + 2, bytes.len() as int) =~= field_lines(rest) + line_end()) by {
            assert(tail.subrange(line.len() as int, tail.len() as int) =~= field_lines(rest)
                + line_end());
            assert(bytes.subrange(end + 2, bytes.len() as int) =~= tail.subrange(
                line.len() as int,
                tail.len() as int,
            ));
        }
        assert forall|i: int| 0 <= i < rest.len() implies field_name((#[trigger] rest[i]).0)
            && plain_value(rest[i].1) by {
            assert(rest[i] == fields[i + 1]);
        }
        lemma_fields_read(
            bytes,
            end + 2,
            rest,
            acc.insert(bytes_text(name), bytes_text(value)),
        );
    }
}

/// A request head of the exact shape parses to what it was written from:
/// for the method `GET` or `POST`, every path that is plain, and header
/// fields whose names read as one run and whose values are plain, each
/// written as the name, a colon, a space, the value and a line end, the
/// header block rule gives that method, path and version and those fields,
/// a later field replacing an earlier one of the same name, and has then
/// read the whole head with its blank line.
pub proof fn theorem_head_round_trip(
    method: HttpMethod,
    path: Seq<u8>,
    fields: Seq<(Seq<u8>, Seq<u8>)>,
)
    requires
        method != HttpMethod::BAD,
        plain_path(path),
        forall|i: int|
            0 <= i < fields.len() ==> field_name((#[trigger] fields[i]).0) && plain_value(
                fields[i].1,
            ),
    ensures
        headers_from(window(head_bytes(method, path, fields), 0)) == (
            Ok::<HttpEntityView, Mismatch>(
                HttpEntityView {
                    http_version: HttpVsn::HTTP1_1,
                    method,
                    path: bytes_text(path),
                    headers: fields_set(fields, Map::empty()),
                },
            ),
            window(head_bytes(method, path, fields), head_bytes(method, path, fields).len() as int),
        ),
{
    let bytes = head_bytes(method, path, fields);
    let line = request_line_bytes(method, path);
    assert(bytes.subrange(0, line.len() as int) =~= line);
    assert(bytes.subrange(line.len() as int, bytes.len() as int) =~= field_lines(fields)
        + line_end());
    lemma_request_line_reads(bytes, method, path);
    lemma_fields_read(bytes, line.len() as int, fields, Map::empty());
}

} // verus!
