use vstd::prelude::*;

verus! {

broadcast use vstd::std_specs::vec::group_vec_axioms;

/// A JSON document as the library reads and builds it. Numbers are kept as
/// their decimal text; an object keeps its members in order.
#[derive(Debug, PartialEq)]
pub enum JsonValue {
    Null,
    Bool(bool),
    Number(String),
    Str(String),
    Array(Vec<JsonValue>),
    Object(Vec<(String, JsonValue)>),
}

/// Every object inside `j`, `j` itself first when it is one, then those of its
/// members (or items) in order: a pre-order walk.
pub open spec fn objects_in(j: JsonValue) -> Seq<JsonValue>
    decreases j, 1nat,
{
    match j {
        JsonValue::Object(fields) => seq![j] + objects_in_children(j, fields.len() as nat),
        JsonValue::Array(items) => objects_in_children(j, items.len() as nat),
        _ => Seq::empty(),
    }
}

/// The objects inside the first `n` children of `parent`: the items of an
/// array, or the values of an object's members.
pub open spec fn objects_in_children(parent: JsonValue, n: nat) -> Seq<JsonValue>
    decreases parent, 0nat, n,
{
    match parent {
        JsonValue::Array(items) => if n == 0 || n > items.len() {
            Seq::empty()
        } else {
            objects_in_children(parent, (n - 1) as nat) + objects_in(items[n - 1])
        },
        JsonValue::Object(fields) => if n == 0 || n > fields.len() {
            Seq::empty()
        } else {
            objects_in_children(parent, (n - 1) as nat) + objects_in(fields[n - 1].1)
        },
        _ => Seq::empty(),
    }
}

/// The value of the first member of `fields` named `key`.
pub open spec fn first_member(fields: Seq<(String, JsonValue)>, key: Seq<char>) -> Option<JsonValue>
    decreases fields.len(),
{
    if fields.len() == 0 {
        None
    } else if fields[0].0@ == key {
        Some(fields[0].1)
    } else {
        first_member(fields.drop_first(), key)
    }
}

/// The value of the member `key` of an object; nothing for another value.
pub open spec fn member(j: JsonValue, key: Seq<char>) -> Option<JsonValue> {
    match j {
        JsonValue::Object(fields) => first_member(fields@, key),
        _ => None,
    }
}

/// The text of the member `key` of an object, where that member is a string.
pub open spec fn str_member(j: JsonValue, key: Seq<char>) -> Option<Seq<char>> {
    match member(j, key) {
        Some(JsonValue::Str(s)) => Some(s@),
        _ => None,
    }
}

/// The characters of an optional string.
pub open spec fn opt_text(o: Option<String>) -> Option<Seq<char>> {
    match o {
        Some(s) => Some(s@),
        None => None,
    }
}

/// The values that a sequence of references points at.
pub open spec fn derefs(s: Seq<&JsonValue>) -> Seq<JsonValue> {
    s.map_values(|r: &JsonValue| *r)
}

impl JsonValue {
    /// The value of the member `key`, where `self` is an object that has one.
    pub fn get(&self, key: &str) -> (r: Option<&JsonValue>)
        ensures
            match r {
                Some(v) => member(*self, key@) == Some(*v),
                None => member(*self, key@).is_none(),
            },
    {
        match self {
            JsonValue::Object(fields) => {
                let mut i: usize = 0;
                assert(fields@.subrange(0, fields@.len() as int) =~= fields@);
                while i < fields.len()
                    invariant
                        i <= fields@.len(),
                        *self == JsonValue::Object(*fields),
                        first_member(fields@, key@) == first_member(fields@.subrange(i as int, fields@.len() as int), key@),
                    decreases fields@.len() - i,
                {
                    assert(fields@.subrange(i as int, fields@.len() as int).drop_first()
                        =~= fields@.subrange(i + 1, fields@.len() as int));
                    assert(fields@.subrange(i as int, fields@.len() as int)[0] == fields@[i as int]);
                    if crate::text::same_text(fields[i].0.as_str(), key) {
                        return Some(&fields[i].1);
                    }
                    i = i + 1;
                }
                None
            },
            _ => None,
        }
    }

    /// The text of the member `key`, where it is a string.
    pub fn get_str(&self, key: &str) -> (r: Option<String>)
        ensures
            opt_text(r) == str_member(*self, key@),
    {
        match self.get(key) {
            Some(JsonValue::Str(s)) => Some(s.clone()),
            _ => None,
        }
    }

    /// The items, where `self` is an array.
    pub fn as_array(&self) -> (r: Option<&Vec<JsonValue>>)
        ensures
            match *self {
                JsonValue::Array(items) => r == Some(&items),
                _ => r.is_none(),
            },
    {
        match self {
            JsonValue::Array(items) => Some(items),
            _ => None,
        }
    }
}

/// Appends to `out` every object inside `value`, in the order of a pre-order walk.
pub fn gather_objects<'a>(value: &'a JsonValue, out: &mut Vec<&'a JsonValue>)
    ensures
        derefs(final(out)@) == derefs(old(out)@) + objects_in(*value),
    decreases value,
{
    let ghost start = derefs(out@);
    match value {
        JsonValue::Object(fields) => {
            out.push(value);
            assert(derefs(out@) =~= start + seq![*value]);
            let mut i: usize = 0;
            while i < fields.len()
                invariant
                    i <= fields@.len(),
                    *value == JsonValue::Object(*fields),
                    derefs(out@) == start + seq![*value] + objects_in_children(*value, i as nat),
                decreases fields@.len() - i,
            {
                gather_objects(&fields[i].1, out);
                assert(derefs(out@) =~= start + seq![*value] + objects_in_children(*value, (i + 1) as nat));
                i = i + 1;
            }
            assert(objects_in(*value) =~= seq![*value] + objects_in_children(*value, fields.len() as nat));
            assert(derefs(out@) =~= start + objects_in(*value));
        },
        JsonValue::Array(items) => {
            let mut i: usize = 0;
            while i < items.len()
                invariant
                    i <= items@.len(),
                    *value == JsonValue::Array(*items),
                    derefs(out@) == start + objects_in_children(*value, i as nat),
                decreases items@.len() - i,
            {
                gather_objects(&items[i], out);
                assert(derefs(out@) =~= start + objects_in_children(*value, (i + 1) as nat));
                i = i + 1;
            }
            assert(derefs(out@) =~= start + objects_in(*value));
        },
        _ => {
            assert(derefs(out@) =~= start + objects_in(*value));
        },
    }
}

} // verus!
