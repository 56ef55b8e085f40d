use vstd::prelude::*;
use crate::text::chars_of;

verus! {

/// A JSON document as the upstream catalog sends it.
#[derive(Debug)]
pub enum JsonValue {
    Null,
    Bool(bool),
    /// A number, in its textual form.
    Number(String),
    Str(String),
    Array(Vec<JsonValue>),
    /// Members in document order; keys are unique.
    Object(Vec<(String, JsonValue)>),
}

/// Position of the first member of `m` whose key is `key`.
pub open spec fn member_index(m: Seq<(String, JsonValue)>, key: Seq<char>) -> Option<int>
    decreases m.len(),
{
    if m.len() == 0 {
        None
    } else if m[0].0@ == key {
        Some(0)
    } else {
        match member_index(m.drop_first(), key) {
            Some(k) => Some(k + 1),
            None => None,
        }
    }
}

/// The member `key` of an object; `None` for a missing key or a non-object.
pub open spec fn field_of(v: JsonValue, key: Seq<char>) -> Option<JsonValue> {
    match v {
        JsonValue::Object(m) => match member_index(m@, key) {
            Some(i) => Some(m@[i].1),
            None => None,
        },
        _ => None,
    }
}

/// The text of the member `key`, when it is a string.
pub open spec fn str_field(v: JsonValue, key: Seq<char>) -> Option<Seq<char>> {
    match field_of(v, key) {
        Some(JsonValue::Str(s)) => Some(s@),
        _ => None,
    }
}

/// The elements of the member `key`, when it is an array.
pub open spec fn array_field(v: JsonValue, key: Seq<char>) -> Option<Seq<JsonValue>> {
    match field_of(v, key) {
        Some(JsonValue::Array(a)) => Some(a@),
        _ => None,
    }
}

proof fn lemma_member_index(m: Seq<(String, JsonValue)>, key: Seq<char>, i: int)
    requires
        0 <= i <= m.len(),
        forall|j: int| 0 <= j < i ==> (#[trigger] m[j]).0@ != key,
    ensures
        i < m.len() && m[i].0@ == key ==> member_index(m, key) == Some(i),
        i == m.len() ==> member_index(m, key) is None,
    decreases i,
{
    if i > 0 {
        let d = m.drop_first();
        assert forall|j: int| 0 <= j < i - 1 implies (#[trigger] d[j]).0@ != key by {
            assert(d[j] == m[j + 1]);
        }
        lemma_member_index(d, key, i - 1);
    }
}

/// Whether two strings hold the same characters.
pub fn same_text(a: &str, b: &str) -> (r: bool)
    ensures
        r == (a@ == b@),
{
    let x = chars_of(a);
    let y = chars_of(b);
    if x.len() != y.len() {
        return false;
    }
    let mut i: usize = 0;
    while i < x.len()
        invariant
            x@ == a@,
            y@ == b@,
            x@.len() == y@.len(),
            i <= x@.len(),
            forall|j: int| 0 <= j < i ==> x@[j] == y@[j],
        decreases x@.len() - i,
    {
        if x[i] != y[i] {
            assert(x@[i as int] != y@[i as int]);
            return false;
        }
        i = i + 1;
    }
    assert(x@ =~= y@);
    true
}

impl JsonValue {
    /// The member `key` of an object.
    pub fn get(&self, key: &str) -> (r: Option<&JsonValue>)
        ensures
            r matches Some(x) ==> field_of(*self, key@) == Some(*x),
            r is None ==> field_of(*self, key@) is None,
    {
        match self {
            JsonValue::Object(m) => {
                let mut i: usize = 0;
                while i < m.len()
                    invariant
                        *self == JsonValue::Object(*m),
                        i <= m@.len(),
                        forall|j: int| 0 <= j < i ==> (#[trigger] m@[j]).0@ != key@,
                    decreases m@.len() - i,
                {
                    if same_text(m[i].0.as_str(), key) {
                        proof {
                            lemma_member_index(m@, key@, i as int);
                        }
                        let found = &m[i].1;
                        return Some(found);
                    }
                    i = i + 1;
                }
                proof {
                    lemma_member_index(m@, key@, i as int);
                }
                None
            },
            _ => None,
        }
    }

    /// The text of the member `key`, when it is a string.
    pub fn get_str(&self, key: &str) -> (r: Option<&String>)
        ensures
            r matches Some(s) ==> str_field(*self, key@) == Some(s@),
            r is None ==> str_field(*self, key@) is None,
    {
        match self.get(key) {
            Some(JsonValue::Str(s)) => Some(s),
            _ => None,
        }
    }

    /// The elements of the member `key`, when it is an array.
    pub fn get_array(&self, key: &str) -> (r: Option<&Vec<JsonValue>>)
        ensures
            r matches Some(a) ==> array_field(*self, key@) == Some(a@),
            r is None ==> array_field(*self, key@) is None,
    {
        match self.get(key) {
            Some(JsonValue::Array(a)) => Some(a),
            _ => None,
        }
    }
}

} // verus!
