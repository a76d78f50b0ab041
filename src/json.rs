use vstd::prelude::*;

verus! {

/// A JSON number, kept in the form that serde_json reads it into.
#[derive(Copy, Clone, Debug, PartialEq, Eq, Structural)]
pub enum Number {
    /// A non-negative integer.
    PosInt(u64),
    /// A negative integer.
    NegInt(i64),
    /// Any other number, as the bits of its IEEE 754 double.
    Float(u64),
}

/// A JSON document as the room assembler reads it.
#[derive(Debug)]
pub enum JsonValue {
    Null,
    Bool(bool),
    Number(Number),
    String(String),
    Array(Vec<JsonValue>),
    /// The members of an object, in order; a lookup finds the first member
    /// of a name.
    Object(Vec<(String, JsonValue)>),
}

/// The value of the first member of `members` named `key`.
pub open spec fn member(members: Seq<(String, JsonValue)>, key: Seq<char>) -> Option<JsonValue>
    decreases members.len(),
{
    if members.len() == 0 {
        None
    } else if members[0].0@ == key {
        Some(members[0].1)
    } else {
        member(members.drop_first(), key)
    }
}

impl JsonValue {
    /// The items of an array.
    pub open spec fn items(self) -> Option<Seq<JsonValue>> {
        match self {
            JsonValue::Array(a) => Some(a@),
            _ => None,
        }
    }

    /// The item at `i` of an array.
    pub open spec fn at(self, i: int) -> Option<JsonValue> {
        match self {
            JsonValue::Array(a) => if 0 <= i < a@.len() {
                Some(a@[i])
            } else {
                None
            },
            _ => None,
        }
    }

    /// The member `key` of an object.
    pub open spec fn member(self, key: Seq<char>) -> Option<JsonValue> {
        match self {
            JsonValue::Object(m) => member(m@, key),
            _ => None,
        }
    }

    /// The characters of a string.
    pub open spec fn text(self) -> Option<Seq<char>> {
        match self {
            JsonValue::String(s) => Some(s@),
            _ => None,
        }
    }

    /// A number that is a non-negative integer, as serde_json's `as_u64` reads it.
    pub open spec fn unsigned(self) -> Option<u64> {
        match self {
            JsonValue::Number(Number::PosInt(n)) => Some(n),
            _ => None,
        }
    }

    /// The item at `index` of an array.
    pub fn get_index(&self, index: usize) -> (r: Option<&JsonValue>)
        ensures
            r is Some <==> self.at(index as int) is Some,
            r matches Some(v) ==> *v == self.at(index as int)->0,
    {
        match self {
            JsonValue::Array(a) => if index < a.len() {
                Some(&a[index])
            } else {
                None
            },
            _ => None,
        }
    }

    /// The member `key` of an object.
    #[verifier::loop_isolation(false)]
    pub fn get(&self, key: &String) -> (r: Option<&JsonValue>)
        ensures
            r is Some <==> self.member(key@) is Some,
            r matches Some(v) ==> *v == self.member(key@)->0,
    {
        match self {
            JsonValue::Object(m) => {
                let mut i: usize = 0;
                assert(m@.subrange(0, m@.len() as int) == m@);
                while i < m.len()
                    invariant
                        i <= m@.len(),
                        member(m@, key@) == member(m@.subrange(i as int, m@.len() as int), key@),
                    decreases m@.len() - i,
                {
                    proof {
                        assert(m@.subrange(i as int, m@.len() as int).drop_first() == m@.subrange(
                            i + 1,
                            m@.len() as int,
                        ));
                    }
                    if m[i].0 == *key {
                        assert(m@.subrange(i as int, m@.len() as int)[0] == m@[i as int]);
                        return Some(&m[i].1);
                    }
                    i = i + 1;
                }
                None
            },
            _ => None,
        }
    }

    /// The items of an array.
    pub fn as_array(&self) -> (r: Option<&Vec<JsonValue>>)
        ensures
            r is Some <==> self.items() is Some,
            r matches Some(a) ==> a@ == self.items()->0,
    {
        match self {
            JsonValue::Array(a) => Some(a),
            _ => None,
        }
    }

    /// The characters of a string.
    pub fn as_str(&self) -> (r: Option<&str>)
        ensures
            r is Some <==> self.text() is Some,
            r matches Some(s) ==> s@ == self.text()->0,
    {
        match self {
            JsonValue::String(s) => Some(s.as_str()),
            _ => None,
        }
    }

    /// A number that is a non-negative integer.
    pub fn as_u64(&self) -> (r: Option<u64>)
        ensures
            r == self.unsigned(),
    {
        match self {
            JsonValue::Number(Number::PosInt(n)) => Some(*n),
            _ => None,
        }
    }

}

} // verus!
