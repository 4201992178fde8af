use vstd::prelude::*;

verus! {

/// One header of a record: a name and a value.
pub struct Header {
    pub name: String,
    pub value: Vec<u8>,
}

/// A record read from the source topic, with where it was read.
pub struct SourceRecord {
    pub topic: String,
    pub partition: i32,
    pub offset: i64,
    pub key: Option<Vec<u8>>,
    pub payload: Option<Vec<u8>>,
    pub headers: Vec<Header>,
}

/// A record to write to the destination topic.
pub struct Record {
    pub key: Option<Vec<u8>>,
    pub payload: Vec<u8>,
    pub headers: Vec<Header>,
}

/// What a `Record` holds, as values.
pub ghost struct RecordView {
    pub key: Option<Seq<u8>>,
    pub payload: Seq<u8>,
    pub headers: Seq<Header>,
}

impl View for Record {
    type V = RecordView;

    open spec fn view(&self) -> RecordView {
        RecordView {
            key: match self.key {
                Some(k) => Some(k@),
                None => None,
            },
            payload: self.payload@,
            headers: self.headers@,
        }
    }
}

/// What to do with a record whose payload is not valid UTF-8.
#[derive(PartialEq, Eq, Structural, Clone, Copy, Debug)]
pub enum MalformedPolicy {
    /// Leave it out of the destination; its offset still advances.
    Skip,
    /// Forward it with an empty payload.
    ForwardEmpty,
}

impl Default for MalformedPolicy {
    /// Skipping is the default.
    fn default() -> (r: MalformedPolicy)
        ensures
            r == MalformedPolicy::Skip,
    {
        MalformedPolicy::Skip
    }
}

/// The payload written for a record that has none.
pub open spec fn missing_payload() -> Seq<u8> {
    seq![45u8, 45u8]
}

/// The record written to the destination for `r`, or `None` where it is
/// skipped: the key is empty, the headers are kept, and the payload is the
/// source payload where it is valid UTF-8.
pub open spec fn transform_spec(r: SourceRecord, policy: MalformedPolicy) -> Option<RecordView> {
    let out = |p: Seq<u8>| RecordView { key: Some(Seq::empty()), payload: p, headers: r.headers@ };
    match r.payload {
        None => Some(out(missing_payload())),
        Some(p) => if vstd::utf8::valid_utf8(p@) {
            Some(out(p@))
        } else if policy == MalformedPolicy::Skip {
            None
        } else {
            Some(out(Seq::empty()))
        },
    }
}

/// Relies on std::str::from_utf8: it succeeds exactly on valid UTF-8.
#[verifier::external_body]
fn is_utf8(b: &[u8]) -> (r: bool)
    ensures
        r == vstd::utf8::valid_utf8(b@),
{
    std::str::from_utf8(b).is_ok()
}

/// Turns a consumed record into the record to produce, as `transform_spec`
/// says.
pub fn transform(r: SourceRecord, policy: MalformedPolicy) -> (out: Option<Record>)
    ensures
        match out {
            Some(o) => transform_spec(r, policy) == Some(o@),
            None => transform_spec(r, policy) is None,
        },
{
    let ghost orig = r;
    let SourceRecord { payload, headers, .. } = r;
    let payload: Vec<u8> = match payload {
        None => {
            let v: Vec<u8> = vec![45u8, 45u8];
            assert(v@ =~= missing_payload());
            v
        },
        Some(p) => {
            if is_utf8(p.as_slice()) {
                p
            } else if policy == MalformedPolicy::Skip {
                return None;
            } else {
                Vec::new()
            }
        },
    };
    let key: Vec<u8> = Vec::new();
    let o = Record { key: Some(key), payload, headers };
    assert(o@.key == Some(Seq::<u8>::empty()));
    Some(o)
}

} // verus!
