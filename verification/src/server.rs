//! The HTTP exporter: what is answered to a request.

use crate::metrics::{exposition, render_prometheus};
use crate::number::{decimal, decimal_text, law_decimal_reads_back, parsed_u64};
use crate::snapshot::Snapshot;
use crate::text::{
    begins, characters, ends, equals, law_a_word_reads_back, law_white_space_holds_no_words,
    text_words, texts, whitespace, wordlike, words,
};
use vstd::prelude::*;
use vstd::string::StringExecFns;
use vstd::utf8::encode_utf8;

verus! {

/// The path that a request asks for: its second word, or the root.
pub open spec fn path_of(request: Seq<char>) -> Seq<char> {
    let fields = text_words(request);
    if fields.len() > 1 {
        fields[1]
    } else {
        "/"@
    }
}

/// A response: a status line, the type and the length of the body in bytes, and the
/// body.
pub open spec fn response_of(status: Seq<char>, content_type: Seq<char>, body: Seq<char>) -> Seq<
    char,
> {
    "HTTP/1.1 "@ + status + "\r\nContent-Type: "@ + content_type + "\r\nContent-Length: "@
        + decimal(encode_utf8(body).len()) + "\r\nConnection: close\r\n\r\n"@ + body
}

/// What is answered to a request for a path.
pub open spec fn answer_to(path: Seq<char>, snapshot: Snapshot, process_limit: nat) -> Seq<char> {
    if path == "/metrics"@ {
        response_of(
            "200 OK"@,
            "text/plain; version=0.0.4; charset=utf-8"@,
            exposition(snapshot, process_limit),
        )
    } else if path == "/healthz"@ {
        response_of("200 OK"@, "text/plain; charset=utf-8"@, "ok\n"@)
    } else if path == "/"@ {
        response_of(
            "200 OK"@,
            "text/plain; charset=utf-8"@,
            "bbtop exporter\n\nGET /metrics\nGET /healthz\n"@,
        )
    } else {
        response_of("404 Not Found"@, "text/plain; charset=utf-8"@, "not found\n"@)
    }
}

fn response(status: &str, content_type: &str, body: &str) -> (r: String)
    ensures
        r@ == response_of(status@, content_type@, body@),
{
    let length: usize = body.as_bytes().len();
    let mut r: String = "HTTP/1.1 ".to_owned();
    r.append(status);
    r.append("\r\nContent-Type: ");
    r.append(content_type);
    r.append("\r\nContent-Length: ");
    r.append(decimal_text(length as u64).as_str());
    r.append("\r\nConnection: close\r\n\r\n");
    r.append(body);
    r
}

/// What is answered to a request.
pub fn respond(request: &str, snapshot: &Snapshot, process_limit: usize) -> (r: String)
    ensures
        r@ == answer_to(path_of(request@), *snapshot, process_limit as nat),
{
    let chars: Vec<char> = characters(request);
    let fields: Vec<&[char]> = words(chars.as_slice());
    assert(texts(fields@).len() == fields@.len());
    let root: Vec<char> = characters("/");
    let path: &[char] = if fields.len() > 1 {
        assert(texts(fields@)[1] == fields@[1]@);
        fields[1]
    } else {
        root.as_slice()
    };
    if equals(path, "/metrics") {
        response(
            "200 OK",
            "text/plain; version=0.0.4; charset=utf-8",
            render_prometheus(snapshot, process_limit).as_str(),
        )
    } else if equals(path, "/healthz") {
        response("200 OK", "text/plain; charset=utf-8", "ok\n")
    } else if equals(path, "/") {
        response(
            "200 OK",
            "text/plain; charset=utf-8",
            "bbtop exporter\n\nGET /metrics\nGET /healthz\n",
        )
    } else {
        response("404 Not Found", "text/plain; charset=utf-8", "not found\n")
    }
}

/// The length that a response announces reads as the length of its body in bytes,
/// and the body ends the response.
pub proof fn law_a_response_announces_its_length(
    status: Seq<char>,
    content_type: Seq<char>,
    body: Seq<char>,
)
    requires
        encode_utf8(body).len() <= u64::MAX,
    ensures
        ({
            let head = "HTTP/1.1 "@ + status + "\r\nContent-Type: "@ + content_type
                + "\r\nContent-Length: "@;
            let length = decimal(encode_utf8(body).len());
            let r = response_of(status, content_type, body);
            &&& r.take(head.len() as int) == head
            &&& parsed_u64(r.subrange(head.len() as int, (head.len() + length.len()) as int))
                == Some(encode_utf8(body).len() as u64)
            &&& r.skip(r.len() - body.len()) == body
        }),
{
    let head = "HTTP/1.1 "@ + status + "\r\nContent-Type: "@ + content_type
        + "\r\nContent-Length: "@;
    let length = decimal(encode_utf8(body).len());
    let r = response_of(status, content_type, body);
    law_decimal_reads_back(encode_utf8(body).len());
    assert(r.take(head.len() as int) =~= head);
    assert(r.subrange(head.len() as int, (head.len() + length.len()) as int) =~= length);
    assert(r.skip(r.len() - body.len()) =~= body);
}

/// The path of a request is its second word.
pub proof fn law_the_path_reads_back(method: Seq<char>, path: Seq<char>, rest: Seq<char>)
    requires
        wordlike(method),
        wordlike(path),
        rest.len() > 0 ==> whitespace(rest[0]),
    ensures
        path_of(method.push(' ') + (path + rest)) == path,
        path_of(method) == "/"@,
        path_of(Seq::empty()) == "/"@,
{
    let none = Seq::<char>::empty();
    let more = seq![' '] + path + rest;
    law_a_word_reads_back(seq![' '], path, rest);
    law_a_word_reads_back(none, method, more);
    assert(none + method + more =~= method.push(' ') + (path + rest));
    law_a_word_reads_back(none, method, none);
    assert(none + method + none =~= method);
    law_white_space_holds_no_words(none);
}

/// A text that begins with the one and ends in the other.
pub open spec fn framed(text: Seq<char>, start: Seq<char>, end: Seq<char>) -> bool {
    begins(text, start) && ends(text, end)
}

proof fn lemma_framed(status: Seq<char>, kind: Seq<char>, body: Seq<char>)
    ensures
        framed(
            response_of(status, kind, body),
            "HTTP/1.1 "@ + status + "\r\nContent-Type: "@ + kind + "\r\n"@,
            "\r\nConnection: close\r\n\r\n"@ + body,
        ),
        response_of(status, kind, body).skip(
            response_of(status, kind, body).len() - body.len(),
        ) == body,
{
    let r = response_of(status, kind, body);
    let start = "HTTP/1.1 "@ + status + "\r\nContent-Type: "@ + kind + "\r\n"@;
    let end = "\r\nConnection: close\r\n\r\n"@ + body;
    reveal_strlit("\r\n");
    reveal_strlit("\r\nContent-Length: ");
    assert(r.take(start.len() as int) =~= start);
    assert(r.skip(r.len() - end.len()) =~= end);
    assert(r.skip(r.len() - body.len()) =~= body);
}

/// The metrics are answered with the exposition of the snapshot, the health check with
/// `ok`, the root with a hint, all with success; any other path is not found.
pub proof fn law_each_path_has_its_answer(path: Seq<char>, snapshot: Snapshot, limit: nat)
    ensures
        path == "/metrics"@ ==> framed(
            answer_to(path, snapshot, limit),
            "HTTP/1.1 "@ + "200 OK"@ + "\r\nContent-Type: "@
                + "text/plain; version=0.0.4; charset=utf-8"@ + "\r\n"@,
            "\r\nConnection: close\r\n\r\n"@ + exposition(snapshot, limit),
        ),
        path == "/healthz"@ ==> framed(
            answer_to(path, snapshot, limit),
            "HTTP/1.1 "@ + "200 OK"@ + "\r\nContent-Type: "@ + "text/plain; charset=utf-8"@
                + "\r\n"@,
            "\r\nConnection: close\r\n\r\n"@ + "ok\n"@,
        ),
        path == "/"@ ==> framed(
            answer_to(path, snapshot, limit),
            "HTTP/1.1 "@ + "200 OK"@ + "\r\nContent-Type: "@ + "text/plain; charset=utf-8"@
                + "\r\n"@,
            "\r\nConnection: close\r\n\r\n"@
                + "bbtop exporter\n\nGET /metrics\nGET /healthz\n"@,
        ),
        path != "/metrics"@ && path != "/healthz"@ && path != "/"@ ==> framed(
            answer_to(path, snapshot, limit),
            "HTTP/1.1 "@ + "404 Not Found"@ + "\r\nContent-Type: "@ + "text/plain; charset=utf-8"@
                + "\r\n"@,
            "\r\nConnection: close\r\n\r\n"@ + "not found\n"@,
        ),
{
    reveal_strlit("/metrics");
    reveal_strlit("/healthz");
    reveal_strlit("/");
    assert("/metrics"@[1] == 'm' && "/healthz"@[1] == 'h' && "/"@.len() == 1);
    lemma_framed(
        "200 OK"@,
        "text/plain; version=0.0.4; charset=utf-8"@,
        exposition(snapshot, limit),
    );
    lemma_framed("200 OK"@, "text/plain; charset=utf-8"@, "ok\n"@);
    lemma_framed(
        "200 OK"@,
        "text/plain; charset=utf-8"@,
        "bbtop exporter\n\nGET /metrics\nGET /healthz\n"@,
    );
    lemma_framed("404 Not Found"@, "text/plain; charset=utf-8"@, "not found\n"@);
}

} // verus!
