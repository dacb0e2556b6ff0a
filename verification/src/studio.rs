//! The decisions of the web studio: what a request asks for, and the responses sent back.
use vstd::prelude::*;
use crate::text::{
    chars_of, collect_chars, find_chars, first_occurrence_from, nul_class, occurs_at, space_class,
    trim_chars, trim_class, trim_target,
};

verus! {

/// What the studio does with a request.
#[derive(Debug, PartialEq)]
pub enum StudioRoute {
    /// Run the code sent in the request body.
    Run(String),
    /// A `POST /run` request without a body: nothing is answered.
    Ignore,
    /// Any other request: the studio page is sent.
    Page,
}

/// The model of a [`StudioRoute`].
pub enum SpecRoute {
    Run(Seq<char>),
    Ignore,
    Page,
}

impl View for StudioRoute {
    type V = SpecRoute;

    open spec fn view(&self) -> SpecRoute {
        match self {
            StudioRoute::Run(code) => SpecRoute::Run(code@),
            StudioRoute::Ignore => SpecRoute::Ignore,
            StudioRoute::Page => SpecRoute::Page,
        }
    }
}

/// The route of a request `req`: a request that starts with `POST /run` runs the text
/// after the first blank line (`\r\n\r\n`), with NUL characters stripped from both ends
/// and then whitespace stripped from both ends.
pub open spec fn route_spec(req: Seq<char>) -> SpecRoute {
    if !occurs_at(req, "POST /run"@, 0) {
        SpecRoute::Page
    } else {
        match first_occurrence_from(req, "\r\n\r\n"@, 0) {
            None => SpecRoute::Ignore,
            Some(i) => SpecRoute::Run(
                trim_class(trim_class(req.subrange(i + 4, req.len() as int), nul_class()), space_class()),
            ),
        }
    }
}

/// Decides what to do with the request text `req`.
pub fn route_request(req: &str) -> (r: StudioRoute)
    ensures
        r@ == route_spec(req@),
{
    let v = chars_of(req);
    let prefix = chars_of("POST /run");
    let separator = chars_of("\r\n\r\n");
    let starts = match find_chars(&v, &prefix) {
        Some(i) => i == 0,
        None => false,
    };
    proof {
        reveal_strlit("POST /run");
        reveal_strlit("\r\n\r\n");
        if occurs_at(v@, prefix@, 0) {
            assert(first_occurrence_from(v@, prefix@, 0) == Some(0int));
        }
    }
    if !starts {
        return StudioRoute::Page;
    }
    match find_chars(&v, &separator) {
        None => StudioRoute::Ignore,
        Some(i) => {
            let n = v.len();
            let body = collect_chars(&v, i + 4, n);
            let body_chars = chars_of(body.as_str());
            let stripped = trim_chars(&body_chars, false);
            let code = trim_chars(&stripped, true);
            assert(trim_target(false) == nul_class());
            assert(trim_target(true) == space_class());
            let text = collect_chars(&code, 0, code.len());
            assert(text@ =~= code@);
            assert(body_chars@ == v@.subrange(i + 4, n as int));
            StudioRoute::Run(text)
        },
    }
}

/// The head of a plain-text answer.
pub open spec fn text_head() -> Seq<char> {
    "HTTP/1.1 200 OK\r\nContent-Type: text/plain; charset=utf-8\r\nAccess-Control-Allow-Origin: *\r\n\r\n"@
}

/// The head of an HTML answer.
pub open spec fn html_head() -> Seq<char> {
    "HTTP/1.1 200 OK\r\nContent-Type: text/html; charset=utf-8\r\n\r\n"@
}

/// A plain-text HTTP answer carrying `body`.
pub fn text_response(body: &str) -> (r: String)
    ensures
        r@ == text_head() + body@,
{
    let mut r = String::from_str(
        "HTTP/1.1 200 OK\r\nContent-Type: text/plain; charset=utf-8\r\nAccess-Control-Allow-Origin: *\r\n\r\n",
    );
    r.append(body);
    r
}

/// An HTML HTTP answer carrying `page`.
pub fn html_response(page: &str) -> (r: String)
    ensures
        r@ == html_head() + page@,
{
    let mut r = String::from_str("HTTP/1.1 200 OK\r\nContent-Type: text/html; charset=utf-8\r\n\r\n");
    r.append(page);
    r
}

} // verus!
