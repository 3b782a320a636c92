//! The todo record and its binary encoding.
//!
//! Layout, version 1: byte 0 is the schema version, byte 1 the priority tag
//! (0 to 4), byte 2 the done flag (0 or 1), bytes 3 to 6 the text length as a
//! big-endian `u32`, and the rest the text in UTF-8, exactly that long.
use crate::keys::{be_bytes, be_decode, be_encode, be_value, lemma_be_bytes_len, lemma_be_round_trip, pow256};
use vstd::prelude::*;
use vstd::slice::slice_subrange;
use vstd::string::StrSliceExecFns;
use vstd::utf8::{decode_utf8, encode_utf8, encode_utf8_decode_utf8, valid_utf8};

verus! {

/// The schema version written in front of every record.
pub const FORMAT_VERSION: u8 = 1;

/// Bytes in front of the text: version, priority, done flag, text length.
pub const HEADER_LEN: usize = 7;

/// Severity of a task, from most to least urgent.
#[derive(Clone, Copy, Debug, PartialEq, Eq, Structural)]
pub enum Priority {
    Fuck,
    High,
    Medium,
    Soft,
    Chill,
}

/// What can go wrong in the store.
#[derive(Clone, Copy, Debug, PartialEq, Eq, Structural)]
pub enum TodoError {
    /// Blank text, text too long for the record format, or an unknown priority.
    InvalidInput,
    /// No record is stored under the id.
    NotFound,
    /// The record's bytes do not follow the format.
    CorruptRecord,
    /// The record was written in a schema version this library does not read.
    SchemaMismatch,
    /// The storage engine reported an error.
    StorageFailure,
    /// Every 64-bit id has been issued.
    IdsExhausted,
}

/// One task. `id` is also its storage key; it is not part of the record bytes.
#[derive(Clone, Debug, PartialEq, Eq)]
pub struct Todo {
    pub id: u64,
    pub text: String,
    pub priority: Priority,
    pub done: bool,
}

/// The mathematical value of a [`Todo`].
pub ghost struct TodoModel {
    pub id: u64,
    pub text: Seq<char>,
    pub priority: Priority,
    pub done: bool,
}

impl View for Todo {
    type V = TodoModel;

    open spec fn view(&self) -> TodoModel {
        TodoModel { id: self.id, text: self.text@, priority: self.priority, done: self.done }
    }
}

impl Priority {
    /// The priority's tag on the wire.
    pub open spec fn tag(self) -> u8 {
        match self {
            Priority::Fuck => 0,
            Priority::High => 1,
            Priority::Medium => 2,
            Priority::Soft => 3,
            Priority::Chill => 4,
        }
    }

    pub fn discriminant(&self) -> (r: u8)
        ensures
            r == self.tag(),
    {
        match self {
            Priority::Fuck => 0,
            Priority::High => 1,
            Priority::Medium => 2,
            Priority::Soft => 3,
            Priority::Chill => 4,
        }
    }

    /// The priority with tag `d`, if there is one.
    pub fn from_discriminant(d: u8) -> (r: Option<Priority>)
        ensures
            r == priority_of_tag(d),
    {
        match d {
            0 => Some(Priority::Fuck),
            1 => Some(Priority::High),
            2 => Some(Priority::Medium),
            3 => Some(Priority::Soft),
            4 => Some(Priority::Chill),
            _ => None,
        }
    }
}

/// The priority whose tag is `d`.
pub open spec fn priority_of_tag(d: u8) -> Option<Priority> {
    if d == 0 {
        Some(Priority::Fuck)
    } else if d == 1 {
        Some(Priority::High)
    } else if d == 2 {
        Some(Priority::Medium)
    } else if d == 3 {
        Some(Priority::Soft)
    } else if d == 4 {
        Some(Priority::Chill)
    } else {
        None
    }
}

/// The UTF-8 length of the text fits the record's 32-bit length field.
pub open spec fn text_fits(text: Seq<char>) -> bool {
    encode_utf8(text).len() <= 0xffff_ffff
}

/// The bytes of the record of `t`.
pub open spec fn encode_spec(t: TodoModel) -> Seq<u8> {
    seq![FORMAT_VERSION, t.priority.tag(), if t.done { 1u8 } else { 0u8 }] + be_bytes(
        encode_utf8(t.text).len(),
        4,
    ) + encode_utf8(t.text)
}

/// What the record bytes `b` stored under `id` decode to.
pub open spec fn decode_spec(id: u64, b: Seq<u8>) -> Result<TodoModel, TodoError> {
    if b.len() == 0 {
        Err(TodoError::CorruptRecord)
    } else if b[0] != FORMAT_VERSION {
        Err(TodoError::SchemaMismatch)
    } else if b.len() < HEADER_LEN {
        Err(TodoError::CorruptRecord)
    } else if priority_of_tag(b[1]) is None || b[2] > 1 {
        Err(TodoError::CorruptRecord)
    } else if be_value(b.subrange(3, 7)) != b.len() - HEADER_LEN {
        Err(TodoError::CorruptRecord)
    } else if !valid_utf8(b.skip(7)) {
        Err(TodoError::CorruptRecord)
    } else {
        Ok(
            TodoModel {
                id,
                text: decode_utf8(b.skip(7)),
                priority: priority_of_tag(b[1])->Some_0,
                done: b[2] == 1,
            },
        )
    }
}

/// The mathematical value of a decoding result.
pub open spec fn result_view(r: Result<Todo, TodoError>) -> Result<TodoModel, TodoError> {
    match r {
        Ok(t) => Ok(t@),
        Err(e) => Err(e),
    }
}

/// Relies on `std::str::from_utf8`: it accepts exactly the well-formed UTF-8
/// byte strings, and the string it returns is made of those same bytes.
#[verifier::external_body]
fn utf8_to_string(b: &[u8]) -> (r: Option<String>)
    ensures
        r is Some <==> valid_utf8(b@),
        r is Some ==> encode_utf8(r->Some_0@) == b@,
{
    match std::str::from_utf8(b) {
        Ok(s) => Some(s.to_string()),
        Err(_) => None,
    }
}

impl Todo {
    /// A fresh task: not done yet.
    pub fn new(id: u64, text: String, priority: Priority) -> (r: Todo)
        ensures
            r@ == (TodoModel { id, text: text@, priority, done: false }),
    {
        Todo { id, text, priority, done: false }
    }

    /// Encodes the task in the version 1 layout.
    pub fn serialize(&self) -> (r: Vec<u8>)
        requires
            text_fits(self.text@),
        ensures
            r@ == encode_spec(self@),
    {
        let mut text = self.text.as_str().as_bytes_vec();
        let n = text.len();
        let mut r: Vec<u8> = Vec::new();
        r.push(FORMAT_VERSION);
        r.push(self.priority.discriminant());
        r.push(if self.done { 1u8 } else { 0u8 });
        let mut len = be_encode(n as u64, 4);
        r.append(&mut len);
        r.append(&mut text);
        r
    }

    /// The task whose record, stored under `id`, is `encoded`.
    pub fn deserialize(id: u64, encoded: &[u8]) -> (r: Result<Todo, TodoError>)
        ensures
            result_view(r) == decode_spec(id, encoded@),
    {
        let len = encoded.len();
        if len == 0 {
            return Err(TodoError::CorruptRecord);
        }
        if encoded[0] != FORMAT_VERSION {
            return Err(TodoError::SchemaMismatch);
        }
        if len < HEADER_LEN {
            return Err(TodoError::CorruptRecord);
        }
        let priority = match Priority::from_discriminant(encoded[1]) {
            Some(p) => p,
            None => return Err(TodoError::CorruptRecord),
        };
        if encoded[2] > 1 {
            return Err(TodoError::CorruptRecord);
        }
        let n = be_decode(encoded, 3, 4);
        if n != (len - HEADER_LEN) as u64 {
            return Err(TodoError::CorruptRecord);
        }
        let body = slice_subrange(encoded, HEADER_LEN, len);
        assert(body@ == encoded@.skip(7));
        match utf8_to_string(body) {
            Some(text) => {
                proof {
                    encode_utf8_decode_utf8(text@);
                }
                Ok(Todo { id, text, priority, done: encoded[2] == 1 })
            },
            None => Err(TodoError::CorruptRecord),
        }
    }
}

/// Decoding the record of a task gives the task back.
pub proof fn lemma_round_trip(t: TodoModel)
    requires
        text_fits(t.text),
    ensures
        decode_spec(t.id, encode_spec(t)) == Ok::<TodoModel, TodoError>(t),
{
    let b = encode_spec(t);
    let body = encode_utf8(t.text);
    let n = body.len();
    assert(pow256(4) == 0x1_0000_0000nat) by {
        reveal_with_fuel(pow256, 5);
    }
    lemma_be_bytes_len(n, 4);
    lemma_be_round_trip(n, 4);
    assert(b.subrange(3, 7) == be_bytes(n, 4));
    assert(b.skip(7) == body);
    vstd::utf8::encode_utf8_valid_utf8(t.text);
    encode_utf8_decode_utf8(t.text);
    assert(priority_of_tag(t.priority.tag()) == Some(t.priority));
}

} // verus!
