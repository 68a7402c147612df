//! The `{header, body}` envelope exchanged with clients.

use vstd::prelude::*;

verus! {

/// Metadata of an envelope.
#[derive(Debug)]
pub struct Header {
    pub status: Option<u64>,
    pub content_type: String,
    pub authorization: Option<String>,
}

/// The envelope: a header and a textual body.
#[derive(Debug)]
pub struct Message {
    pub header: Header,
    pub body: String,
}

impl Clone for Header {
    fn clone(&self) -> (r: Header)
        ensures
            r == *self,
    {
        Header {
            status: self.status,
            content_type: self.content_type.clone(),
            authorization: match &self.authorization {
                Some(a) => Some(a.clone()),
                None => None,
            },
        }
    }
}

impl Clone for Message {
    fn clone(&self) -> (r: Message)
        ensures
            r == *self,
    {
        Message { header: self.header.clone(), body: self.body.clone() }
    }
}

impl Header {
    /// A header with the given status, content type and authorization.
    pub fn new(status: u64, content_type: String, authorization: Option<String>) -> (r: Header)
        ensures
            r == (Header { status: Some(status), content_type, authorization }),
    {
        Header { status: Some(status), content_type, authorization }
    }
}

impl Message {
    /// An envelope made of `header` and `body`.
    pub fn new(header: Header, body: String) -> (r: Message)
        ensures
            r == (Message { header, body }),
    {
        Message { header, body }
    }
}

/// The content type of envelopes built by `create_json_message`.
pub open spec fn json_content_type() -> Seq<char> {
    seq!['j', 's', 'o', 'n']
}

/// An envelope with `body`: under `header` when one is given, else under a
/// fresh header of content type `json`, the given status and no authorization.
pub fn create_json_message(body: String, status: u64, header: Option<Header>) -> (r: Message)
    ensures
        r.body == body,
        header is Some ==> r.header == header->Some_0,
        header is None ==> {
            &&& r.header.status == Some(status)
            &&& r.header.content_type@ == json_content_type()
            &&& r.header.authorization is None
        },
{
    match header {
        Some(h) => Message::new(h, body),
        None => {
            let content_type = "json".to_owned();
            proof {
                reveal_strlit("json");
            }
            Message::new(Header::new(status, content_type, None), body)
        },
    }
}

} // verus!
