//! Responses and their wire form: a status line, a `Content-Type` header,
//! a blank line, and a body that is absent, held in memory, or streamed
//! from a file by the embedding program.

use vstd::prelude::*;
use vstd::string::StrSliceExecFns;
use vstd::string::StringExecFns;

verus! {

/// A response body: absent, in-memory text, or the contents of the file
/// at a candidate path, streamed by the embedding program.
pub enum Body {
    Empty,
    Text(String),
    File(String),
}

/// The mathematical shape of a `Body`.
pub enum BodyModel {
    Empty,
    Text(Seq<char>),
    File(Seq<char>),
}

impl View for Body {
    type V = BodyModel;

    open spec fn view(&self) -> BodyModel {
        match self {
            Body::Empty => BodyModel::Empty,
            Body::Text(t) => BodyModel::Text(t@),
            Body::File(p) => BodyModel::File(p@),
        }
    }
}

/// One HTTP response: status code, reason phrase, content type, and body.
pub struct Response {
    pub status: u16,
    pub reason: String,
    pub content_type: String,
    pub body: Body,
}

/// The mathematical shape of a `Response`.
#[verifier::ext_equal]
pub struct ResponseModel {
    pub status: u16,
    pub reason: Seq<char>,
    pub content_type: Seq<char>,
    pub body: BodyModel,
}

impl View for Response {
    type V = ResponseModel;

    open spec fn view(&self) -> ResponseModel {
        ResponseModel {
            status: self.status,
            reason: self.reason@,
            content_type: self.content_type@,
            body: self.body@,
        }
    }
}

/// A response carries a body exactly when its status is 200.
pub open spec fn response_wf(r: ResponseModel) -> bool {
    (r.status == 200) <==> !(r.body is Empty)
}

/// The decimal digits of `n`, most significant first.
pub open spec fn dec_digits(n: nat) -> Seq<char>
    decreases n,
{
    if n < 10 {
        seq![digit_char(n)]
    } else {
        dec_digits(n / 10) + seq![digit_char(n % 10)]
    }
}

/// The digit character for a value below ten.
pub open spec fn digit_char(d: nat) -> char {
    if d == 0 {
        '0'
    } else if d == 1 {
        '1'
    } else if d == 2 {
        '2'
    } else if d == 3 {
        '3'
    } else if d == 4 {
        '4'
    } else if d == 5 {
        '5'
    } else if d == 6 {
        '6'
    } else if d == 7 {
        '7'
    } else if d == 8 {
        '8'
    } else {
        '9'
    }
}

fn digit_str(d: u16) -> (s: &'static str)
    requires
        d < 10,
    ensures
        s@ == seq![digit_char(d as nat)],
{
    let s: &'static str = if d == 0 {
        "0"
    } else if d == 1 {
        "1"
    } else if d == 2 {
        "2"
    } else if d == 3 {
        "3"
    } else if d == 4 {
        "4"
    } else if d == 5 {
        "5"
    } else if d == 6 {
        "6"
    } else if d == 7 {
        "7"
    } else if d == 8 {
        "8"
    } else {
        "9"
    };
    proof {
        reveal_strlit("0");
        reveal_strlit("1");
        reveal_strlit("2");
        reveal_strlit("3");
        reveal_strlit("4");
        reveal_strlit("5");
        reveal_strlit("6");
        reveal_strlit("7");
        reveal_strlit("8");
        reveal_strlit("9");
        assert(s@ =~= seq![digit_char(d as nat)]);
    }
    s
}

/// Renders a status code in decimal.
pub fn status_digits(n: u16) -> (s: String)
    ensures
        s@ == dec_digits(n as nat),
    decreases n,
{
    if n < 10 {
        String::from_str(digit_str(n))
    } else {
        let mut s = status_digits(n / 10);
        s.append(digit_str(n % 10));
        proof {
            assert(s@ =~= dec_digits(n as nat));
        }
        s
    }
}

/// The wire form of a response's status line and headers: everything
/// before the body.
pub open spec fn head_model(r: ResponseModel) -> Seq<char> {
    "HTTP/1.1 "@ + dec_digits(r.status as nat) + " "@ + r.reason + "\r\nContent-Type: "@
        + r.content_type + "\r\n\r\n"@
}

/// Renders the status line, the `Content-Type` header, and the blank line
/// that ends the head of a response.
pub fn response_head(r: &Response) -> (s: String)
    ensures
        s@ == head_model(r@),
{
    let mut s = String::from_str("HTTP/1.1 ");
    let digits = status_digits(r.status);
    s.append(digits.as_str());
    s.append(" ");
    s.append(r.reason.as_str());
    s.append("\r\nContent-Type: ");
    s.append(r.content_type.as_str());
    s.append("\r\n\r\n");
    proof {
        assert(s@ =~= head_model(r@));
    }
    s
}

/// The fixed response written when a request fails the `Host`-header
/// check.
pub open spec fn bad_request_model() -> Seq<char> {
    "HTTP/1.1 400 Bad Request\r\nContent-Length: 0\r\n\r\n"@
}

/// The complete wire form of the fixed `400 Bad Request` response.
pub fn bad_request_response() -> (s: String)
    ensures
        s@ == bad_request_model(),
{
    String::from_str("HTTP/1.1 400 Bad Request\r\nContent-Length: 0\r\n\r\n")
}

} // verus!
