use vstd::prelude::*;

verus! {

/// A text message whose bytes are its content, as written to a topic.
pub struct TheMessage {
    content: String,
}

impl TheMessage {
    pub closed spec fn spec_content(&self) -> Seq<char> {
        self.content@
    }

    /// A message holding a copy of `content`.
    pub fn new(content: &str) -> (r: Self)
        ensures
            r.spec_content() == content@,
    {
        TheMessage { content: content.to_owned() }
    }

    pub fn content(&self) -> (r: &str)
        ensures
            r@ == self.spec_content(),
    {
        self.content.as_str()
    }

    /// The bytes that go on the wire: the UTF-8 encoding of the content.
    pub fn to_bytes(&self) -> (r: &[u8])
        ensures
            r@ == vstd::utf8::encode_utf8(self.spec_content()),
    {
        self.content.as_str().as_bytes()
    }
}

} // verus!
