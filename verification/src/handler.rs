//! What the engine hands to a handler, and what the handler hands back.

use vstd::prelude::*;

verus! {

/// A request as the handler sees it. Everything in it borrows from the
/// connection's buffer.
#[derive(Debug)]
pub struct ParsedRequest<'req> {
    pub method: &'req str,
    pub path: &'req str,
    pub query: &'req str,
    pub headers: Vec<(&'req str, &'req str)>,
    pub body: &'req [u8],
}

/// A request as plain values.
#[verifier::ext_equal]
pub struct RequestView {
    pub method: Seq<char>,
    pub path: Seq<char>,
    pub query: Seq<char>,
    pub headers: Seq<(Seq<char>, Seq<char>)>,
    pub body: Seq<u8>,
}

impl<'req> View for ParsedRequest<'req> {
    type V = RequestView;

    open spec fn view(&self) -> RequestView {
        RequestView {
            method: self.method@,
            path: self.path@,
            query: self.query@,
            headers: self.headers@.map_values(|h: (&'req str, &'req str)| (h.0@, h.1@)),
            body: self.body@,
        }
    }
}

/// A response body: bytes in memory, or a file that holds them. `F` is the kind
/// of file handle that the program around the engine uses; the engine never
/// looks inside one.
#[derive(Debug, Clone)]
pub enum ResponseBody<F> {
    InMemory(Vec<u8>),
    Spooled(F),
}

/// A response body as plain values.
#[verifier::ext_equal]
pub enum BodyView<F> {
    InMemory(Seq<u8>),
    Spooled(F),
}

impl<F> View for ResponseBody<F> {
    type V = BodyView<F>;

    open spec fn view(&self) -> BodyView<F> {
        match self {
            ResponseBody::InMemory(bytes) => BodyView::InMemory(bytes@),
            ResponseBody::Spooled(file) => BodyView::Spooled(*file),
        }
    }
}

/// What a handler answers.
#[derive(Debug, Clone)]
pub struct HandlerResponse<F> {
    pub status: u16,
    pub headers: Vec<(String, String)>,
    pub body: ResponseBody<F>,
}

/// A response as plain values.
#[verifier::ext_equal]
pub struct ResponseView<F> {
    pub status: u16,
    pub headers: Seq<(Seq<char>, Seq<char>)>,
    pub body: BodyView<F>,
}

/// Header fields as plain values.
pub open spec fn fields(headers: Seq<(String, String)>) -> Seq<(Seq<char>, Seq<char>)> {
    headers.map_values(|h: (String, String)| (h.0@, h.1@))
}

impl<F> View for HandlerResponse<F> {
    type V = ResponseView<F>;

    open spec fn view(&self) -> ResponseView<F> {
        ResponseView {
            status: self.status,
            headers: fields(self.headers@),
            body: self.body@,
        }
    }
}

/// The application behind the engine: one call for each request. An
/// implementation may answer whatever it likes; nothing in the engine rests on
/// what it says.
pub trait Handler<F> {
    fn call(&self, req: &ParsedRequest<'_>) -> HandlerResponse<F>;
}

} // verus!
