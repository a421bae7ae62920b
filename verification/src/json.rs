//! A loosely typed, JSON-like document tree.
//!
//! The metadata extractor's output shape is not controlled by this system, so
//! a metadata record is kept as a dynamic tree and read through fallible
//! accessors rather than a fixed schema.

use vstd::prelude::*;

verus! {

/// One node of a JSON-like document.
#[derive(Debug)]
pub enum JsonVal {
    Null,
    Bool(bool),
    /// A number that has an i64 value.
    Int(i64),
    /// A number with no i64 value (fractional, or out of range).
    BigNum,
    Str(String),
    Arr(Vec<JsonVal>),
    Obj(Vec<(String, JsonVal)>),
}

/// The value of the first field named `key`, if any.
pub open spec fn fields_get(fields: Seq<(String, JsonVal)>, key: Seq<char>) -> Option<JsonVal>
    decreases fields.len(),
{
    if fields.len() == 0 {
        None
    } else if fields[0].0@ == key {
        Some(fields[0].1)
    } else {
        fields_get(fields.drop_first(), key)
    }
}

/// If no field among the first `i` is named `key`, the lookup result is
/// decided by the rest.
proof fn lemma_fields_get_skip(fields: Seq<(String, JsonVal)>, key: Seq<char>, i: int)
    requires
        0 <= i <= fields.len(),
        forall|j: int| 0 <= j < i ==> fields[j].0@ != key,
    ensures
        fields_get(fields, key) == fields_get(fields.skip(i), key),
    decreases i,
{
    if i > 0 {
        lemma_fields_get_skip(fields.drop_first(), key, i - 1);
        assert(fields.drop_first().skip(i - 1) =~= fields.skip(i));
    } else {
        assert(fields.skip(0) =~= fields);
    }
}

/// Character-by-character string equality.
pub fn str_eq(a: &str, b: &str) -> (r: bool)
    ensures
        r == (a@ == b@),
{
    let alen = a.unicode_len();
    let blen = b.unicode_len();
    if alen != blen {
        return false;
    }
    let mut i: usize = 0;
    while i < alen
        invariant
            i <= alen,
            alen == a@.len(),
            alen == b@.len(),
            forall|j: int| 0 <= j < i ==> a@[j] == b@[j],
        decreases alen - i,
    {
        if a.get_char(i) != b.get_char(i) {
            return false;
        }
        i += 1;
    }
    proof {
        assert(a@ =~= b@);
    }
    true
}

impl JsonVal {
    /// Field lookup: the value under `key` if this node is an object that has
    /// such a field.
    pub open spec fn spec_get(self, key: Seq<char>) -> Option<JsonVal> {
        match self {
            JsonVal::Obj(fields) => fields_get(fields@, key),
            _ => None,
        }
    }

    /// The character sequence if this node is a string.
    pub open spec fn spec_as_str(self) -> Option<Seq<char>> {
        match self {
            JsonVal::Str(s) => Some(s@),
            _ => None,
        }
    }

    /// The integer if this node is a number with an i64 value.
    pub open spec fn spec_as_i64(self) -> Option<i64> {
        match self {
            JsonVal::Int(n) => Some(n),
            _ => None,
        }
    }

    /// The elements if this node is an array.
    pub open spec fn spec_as_arr(self) -> Option<Seq<JsonVal>> {
        match self {
            JsonVal::Arr(a) => Some(a@),
            _ => None,
        }
    }

    /// The value of field `key`, if this node is an object that has it.
    pub fn get_field<'a>(&'a self, key: &str) -> (r: Option<&'a JsonVal>)
        ensures
            match r {
                Some(v) => self.spec_get(key@) == Some(*v),
                None => self.spec_get(key@) is None,
            },
    {
        match self {
            JsonVal::Obj(fields) => {
                let n = fields.len();
                let mut i: usize = 0;
                while i < n
                    invariant
                        i <= n,
                        n == fields@.len(),
                        self.spec_get(key@) == fields_get(fields@, key@),
                        forall|j: int| 0 <= j < i ==> fields@[j].0@ != key@,
                    decreases n - i,
                {
                    if str_eq(fields[i].0.as_str(), key) {
                        proof {
                            lemma_fields_get_skip(fields@, key@, i as int);
                            assert(fields@.skip(i as int)[0] == fields@[i as int]);
                            assert(fields@.skip(i as int).len() > 0);
                            assert(fields_get(fields@.skip(i as int), key@) == Some(
                                fields@[i as int].1,
                            ));
                        }
                        return Some(&fields[i].1);
                    }
                    i += 1;
                }
                proof {
                    lemma_fields_get_skip(fields@, key@, n as int);
                    assert(fields@.skip(n as int).len() == 0);
                }
                None
            },
            _ => None,
        }
    }

    /// The string under this node, if it is a string.
    pub fn as_str<'a>(&'a self) -> (r: Option<&'a String>)
        ensures
            match r {
                Some(s) => self.spec_as_str() == Some(s@),
                None => self.spec_as_str() is None,
            },
    {
        match self {
            JsonVal::Str(s) => Some(s),
            _ => None,
        }
    }

    /// The integer under this node, if it is a number with an i64 value.
    pub fn as_i64(&self) -> (r: Option<i64>)
        ensures
            r == self.spec_as_i64(),
    {
        match self {
            JsonVal::Int(n) => Some(*n),
            _ => None,
        }
    }

    /// The elements under this node, if it is an array.
    pub fn as_array<'a>(&'a self) -> (r: Option<&'a Vec<JsonVal>>)
        ensures
            match r {
                Some(a) => self.spec_as_arr() == Some(a@),
                None => self.spec_as_arr() is None,
            },
    {
        match self {
            JsonVal::Arr(a) => Some(a),
            _ => None,
        }
    }
}

} // verus!
