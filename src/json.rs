use vstd::prelude::*;

verus! {

/// A JSON value as the engine reads it.
///
/// Numbers keep their literal text, so that no precision is lost and no
/// floating-point value is ever needed to carry one through.  Object members
/// keep the order in which they were written; a lookup finds the first member
/// with a given key.
#[derive(Debug)]
pub enum JsonValue {
    Null,
    Bool(bool),
    Number(String),
    String(String),
    Array(Vec<JsonValue>),
    Object(Vec<(String, JsonValue)>),
}

/// The mathematical model of a [`JsonValue`].
pub enum JsonView {
    Null,
    Bool(bool),
    Number(Seq<char>),
    Str(Seq<char>),
    Array(Seq<JsonView>),
    Object(Seq<(Seq<char>, JsonView)>),
}

impl JsonValue {
    pub open spec fn view_of(v: JsonValue) -> JsonView
        decreases v,
    {
        match v {
            JsonValue::Null => JsonView::Null,
            JsonValue::Bool(b) => JsonView::Bool(b),
            JsonValue::Number(n) => JsonView::Number(n@),
            JsonValue::String(s) => JsonView::Str(s@),
            JsonValue::Array(items) => JsonView::Array(
                Seq::new(
                    items@.len(),
                    |i: int|
                        if 0 <= i < items@.len() {
                            JsonValue::view_of(items@[i])
                        } else {
                            JsonView::Null
                        },
                ),
            ),
            JsonValue::Object(members) => JsonView::Object(
                Seq::new(
                    members@.len(),
                    |i: int|
                        if 0 <= i < members@.len() {
                            (members@[i].0@, JsonValue::view_of(members@[i].1))
                        } else {
                            (Seq::empty(), JsonView::Null)
                        },
                ),
            ),
        }
    }
}

impl View for JsonValue {
    type V = JsonView;

    open spec fn view(&self) -> JsonView {
        JsonValue::view_of(*self)
    }
}

} // verus!

verus! {

/// The first member of `members` whose key is `key`, if any.
pub open spec fn member(members: Seq<(Seq<char>, JsonView)>, key: Seq<char>) -> Option<JsonView>
    decreases members.len(),
{
    if members.len() == 0 {
        None
    } else if members[0].0 == key {
        Some(members[0].1)
    } else {
        member(members.drop_first(), key)
    }
}

impl JsonValue {
    /// A copy of this value, member for member and element for element.
    pub fn copy_value(&self) -> (r: JsonValue)
        ensures
            r@ == self@,
        decreases self,
    {
        match self {
            JsonValue::Null => JsonValue::Null,
            JsonValue::Bool(b) => JsonValue::Bool(*b),
            JsonValue::Number(n) => JsonValue::Number(n.clone()),
            JsonValue::String(s) => JsonValue::String(s.clone()),
            JsonValue::Array(items) => {
                let mut out: Vec<JsonValue> = Vec::new();
                let mut i: usize = 0;
                while i < items.len()
                    invariant
                        *self == JsonValue::Array(*items),
                        i <= items@.len(),
                        out@.len() == i,
                        forall|j: int| 0 <= j < i ==> (#[trigger] out@[j])@ == items@[j]@,
                    decreases items@.len() - i,
                {
                    proof {
                        vstd::std_specs::vec::axiom_vec_index_decreases(*items, i as int);
                        assert(decreases_to!(*self => self->Array_0));
                        assert(decreases_to!(*self => items[i as int]));
                    }
                    let c = items[i].copy_value();
                    out.push(c);
                    i = i + 1;
                }
                let r = JsonValue::Array(out);
                proof {
                    if let JsonView::Array(a) = r@ {
                        if let JsonView::Array(b) = self@ {
                            assert(a =~= b);
                        }
                    }
                }
                r
            },
            JsonValue::Object(members) => {
                let mut out: Vec<(String, JsonValue)> = Vec::new();
                let mut i: usize = 0;
                while i < members.len()
                    invariant
                        *self == JsonValue::Object(*members),
                        i <= members@.len(),
                        out@.len() == i,
                        forall|j: int|
                            0 <= j < i ==> (#[trigger] out@[j]).0@ == members@[j].0@
                                && out@[j].1@ == members@[j].1@,
                    decreases members@.len() - i,
                {
                    proof {
                        vstd::std_specs::vec::axiom_vec_index_decreases(*members, i as int);
                        assert(decreases_to!(*self => self->Object_0));
                        assert(decreases_to!(*self => members[i as int].1));
                        assert(decreases_to!(members@[i as int] => members@[i as int].1));
                    }
                    let k = members[i].0.clone();
                    let c = members[i].1.copy_value();
                    out.push((k, c));
                    i = i + 1;
                }
                let r = JsonValue::Object(out);
                proof {
                    if let JsonView::Object(a) = r@ {
                        if let JsonView::Object(b) = self@ {
                            assert(a =~= b);
                        }
                    }
                }
                r
            },
        }
    }
}

} // verus!

verus! {

/// The member of `v` named `key`, where `v` is an object that has one.
pub open spec fn object_member(v: JsonView, key: Seq<char>) -> Option<JsonView> {
    match v {
        JsonView::Object(members) => member(members, key),
        _ => None,
    }
}

impl JsonValue {
    /// The first member named `key`, where this is an object that has one.
    pub fn get(&self, key: &str) -> (r: Option<&JsonValue>)
        ensures
            match r {
                Some(c) => object_member(self@, key@) == Some(c@),
                None => object_member(self@, key@) is None,
            },
    {
        match self {
            JsonValue::Object(members) => {
                let ghost mv = self@->Object_0;
                let k = key.to_owned();
                let mut j: usize = 0;
                proof {
                    assert(mv.skip(0) =~= mv);
                }
                while j < members.len()
                    invariant
                        *self == JsonValue::Object(*members),
                        mv == self@->Object_0,
                        mv.len() == members@.len(),
                        k@ == key@,
                        j <= members@.len(),
                        member(mv, key@) == member(mv.skip(j as int), key@),
                    decreases members@.len() - j,
                {
                    assert(mv.skip(j as int)[0] == mv[j as int]);
                    assert(mv[j as int] == (members@[j as int].0@, members@[j as int].1@));
                    if members[j].0 == k {
                        return Some(&members[j].1);
                    }
                    assert(mv.skip(j as int).drop_first() =~= mv.skip(j + 1));
                    j = j + 1;
                }
                None
            },
            _ => None,
        }
    }
}

} // verus!
