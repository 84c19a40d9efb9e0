use vstd::prelude::*;
use crate::enrichable::Enrichable;
use crate::error::{EnrichmentError, lemma_mentions};
use crate::json::{JsonValue, JsonView};

verus! {

/// The shape of value that a field of a [`FieldTable`] takes.
#[derive(Debug, Clone, Copy, PartialEq, Eq, Structural)]
pub enum FieldKind {
    Any,
    Text,
    Number,
    Boolean,
    List,
    Object,
}

/// Whether a field of kind `kind` takes `v`.
pub open spec fn fits(kind: FieldKind, v: JsonView) -> bool {
    match kind {
        FieldKind::Any => true,
        FieldKind::Text => v is Str,
        FieldKind::Number => v is Number,
        FieldKind::Boolean => v is Bool,
        FieldKind::List => v is Array,
        FieldKind::Object => v is Object,
    }
}

/// Whether a field of kind `kind` takes `v`.
pub fn kind_fits(kind: FieldKind, v: &JsonValue) -> (r: bool)
    ensures
        r == fits(kind, v@),
{
    match kind {
        FieldKind::Any => true,
        FieldKind::Text => matches!(v, JsonValue::String(_)),
        FieldKind::Number => matches!(v, JsonValue::Number(_)),
        FieldKind::Boolean => matches!(v, JsonValue::Bool(_)),
        FieldKind::List => matches!(v, JsonValue::Array(_)),
        FieldKind::Object => matches!(v, JsonValue::Object(_)),
    }
}

/// One declared field: its name, its kind, and what it holds.
#[derive(Debug)]
pub struct Field {
    pub name: String,
    pub kind: FieldKind,
    pub value: Option<JsonValue>,
}

/// The first position from `i` on where `names` holds `n`.
pub open spec fn position_from(names: Seq<Seq<char>>, n: Seq<char>, i: int) -> Option<int>
    decreases names.len() - i,
{
    if i < 0 || i >= names.len() {
        None
    } else if names[i] == n {
        Some(i)
    } else {
        position_from(names, n, i + 1)
    }
}

pub proof fn lemma_position(names: Seq<Seq<char>>, n: Seq<char>, i: int)
    requires
        0 <= i,
    ensures
        match position_from(names, n, i) {
            Some(j) => i <= j < names.len() && names[j] == n,
            None => forall|k: int| i <= k < names.len() ==> names[k] != n,
        },
    decreases names.len() - i,
{
    if i < names.len() && names[i] != n {
        lemma_position(names, n, i + 1);
    }
}

pub proof fn lemma_position_push(names: Seq<Seq<char>>, x: Seq<char>, n: Seq<char>, i: int)
    requires
        0 <= i <= names.len(),
        x != n,
    ensures
        position_from(names.push(x), n, i) == position_from(names, n, i),
    decreases names.len() - i,
{
    assert(names.push(x)[names.len() as int] == x);
    if i < names.len() {
        assert(names.push(x)[i] == names[i]);
        if names[i] != n {
            lemma_position_push(names, x, n, i + 1);
        }
    } else {
        assert(position_from(names.push(x), n, i + 1) is None);
    }
}

pub proof fn lemma_position_absent(names: Seq<Seq<char>>, n: Seq<char>, i: int)
    requires
        0 <= i <= names.len(),
        position_from(names, n, i) is None,
    ensures
        position_from(names.push(n), n, i) == Some(names.len() as int),
    decreases names.len() - i,
{
    assert(names.push(n)[names.len() as int] == n);
    if i < names.len() {
        assert(names.push(n)[i] == names[i]);
        lemma_position(names, n, i);
        lemma_position_absent(names, n, i + 1);
    }
}

/// A destination whose fields are declared at run time, each with a kind.
///
/// This is a registration table: a field name leads to the kind of value it
/// takes and to the value it holds.  Declaring a name twice has no effect.
#[derive(Debug)]
pub struct FieldTable {
    fields: Vec<Field>,
}

impl FieldTable {
    pub closed spec fn names(&self) -> Seq<Seq<char>> {
        self.fields@.map_values(|f: Field| f.name@)
    }

    pub closed spec fn position(&self, n: Seq<char>) -> Option<int> {
        position_from(self.names(), n, 0)
    }

    /// The kind of the declared field `n`.
    pub closed spec fn kind_spec(&self, n: Seq<char>) -> FieldKind {
        self.fields@[self.position(n)->0].kind
    }

    /// A table that declares no field.
    pub fn new() -> (r: Self)
        ensures
            forall|n: Seq<char>| !#[trigger] r.declares(n),
    {
        FieldTable { fields: Vec::new() }
    }

    /// Declares field `name` of kind `kind`, holding nothing; `false`, and no
    /// change, where `name` is declared already.
    pub fn declare(&mut self, name: &str, kind: FieldKind) -> (r: bool)
        ensures
            r == !old(self).declares(name@),
            r ==> final(self).declares(name@) && final(self).field(name@) is None
                && forall|v: JsonView| #[trigger] final(self).accepts(name@, v) == fits(kind, v),
            forall|n: Seq<char>| n != name@ ==> #[trigger] final(self).declares(n) == old(self).declares(n),
            forall|n: Seq<char>, v: JsonView| n != name@ ==> #[trigger] final(self).accepts(n, v)
                == old(self).accepts(n, v),
            forall|n: Seq<char>| n != name@ ==> #[trigger] final(self).field(n) == old(self).field(n),
            !r ==> *final(self) == *old(self),
    {
        let ghost names0 = self.names();
        let key = name.to_owned();
        let mut i: usize = 0;
        while i < self.fields.len()
            invariant
                *self == *old(self),
                names0 == self.names(),
                key@ == name@,
                i <= self.fields@.len(),
                position_from(names0, name@, 0) == position_from(names0, name@, i as int),
            decreases self.fields@.len() - i,
        {
            assert(names0[i as int] == self.fields@[i as int].name@);
            if self.fields[i].name == key {
                return false;
            }
            i = i + 1;
        }
        let ghost old_fields = self.fields@;
        self.fields.push(Field { name: name.to_owned(), kind, value: None });
        proof {
            assert(self.names() =~= names0.push(name@));
            lemma_position_absent(names0, name@, 0);
            assert forall|n: Seq<char>| n != name@ implies #[trigger] self.position(n)
                == position_from(names0, n, 0) by {
                lemma_position_push(names0, name@, n, 0);
                lemma_position(names0, n, 0);
            }
            assert forall|n: Seq<char>| n != name@ implies #[trigger] self.field(n) == old(
                self,
            ).field(n) by {
                lemma_position(names0, n, 0);
                lemma_position_push(names0, name@, n, 0);
            }
            assert forall|n: Seq<char>, v: JsonView| n != name@ implies #[trigger] self.accepts(
                n,
                v,
            ) == old(self).accepts(n, v) by {
                lemma_position(names0, n, 0);
                lemma_position_push(names0, name@, n, 0);
            }
        }
        true
    }

    /// What field `name` holds, if it is declared and holds a value.
    pub fn get(&self, name: &str) -> (r: Option<&JsonValue>)
        ensures
            match r {
                Some(v) => self.field(name@) == Some(v@),
                None => self.field(name@) is None,
            },
    {
        let ghost names0 = self.names();
        let key = name.to_owned();
        let mut i: usize = 0;
        while i < self.fields.len()
            invariant
                names0 == self.names(),
                key@ == name@,
                i <= self.fields@.len(),
                position_from(names0, name@, 0) == position_from(names0, name@, i as int),
            decreases self.fields@.len() - i,
        {
            assert(names0[i as int] == self.fields@[i as int].name@);
            if self.fields[i].name == key {
                return match &self.fields[i].value {
                    Some(v) => Some(v),
                    None => None,
                };
            }
            i = i + 1;
        }
        None
    }
}

impl Enrichable for FieldTable {
    open spec fn declares(&self, name: Seq<char>) -> bool {
        self.position(name) is Some
    }

    open spec fn accepts(&self, name: Seq<char>, value: JsonView) -> bool {
        self.declares(name) && fits(self.kind_spec(name), value)
    }

    closed spec fn field(&self, name: Seq<char>) -> Option<JsonView> {
        match self.position(name) {
            Some(i) => match self.fields@[i].value {
                Some(v) => Some(v@),
                None => None,
            },
            None => None,
        }
    }

    fn set_field(&mut self, name: &str, value: &JsonValue) -> (r: Result<(), EnrichmentError>) {
        let ghost names0 = self.names();
        let key = name.to_owned();
        let mut i: usize = 0;
        while i < self.fields.len()
            invariant
                *self == *old(self),
                names0 == self.names(),
                key@ == name@,
                i <= self.fields@.len(),
                position_from(names0, name@, 0) == position_from(names0, name@, i as int),
            decreases self.fields@.len() - i,
        {
            assert(names0[i as int] == self.fields@[i as int].name@);
            if self.fields[i].name == key {
                if !kind_fits(self.fields[i].kind, value) {
                    let mut m = String::from_str("Field ");
                    let ghost pre = m@;
                    m.append(name);
                    let ghost mid = m@;
                    m.append(" cannot take this value");
                    proof {
                        lemma_mentions(pre, name@, m@.subrange(mid.len() as int, m@.len() as int));
                        assert(pre + name@ + m@.subrange(mid.len() as int, m@.len() as int) =~= m@);
                    }
                    return Err(EnrichmentError::DataTypeError(m));
                }
                let f = Field {
                    name: self.fields[i].name.clone(),
                    kind: self.fields[i].kind,
                    value: Some(value.copy_value()),
                };
                let ghost old_self = *self;
                self.fields.set(i, f);
                proof {
                    assert(self.names() =~= names0);
                    assert forall|n: Seq<char>, v: JsonView| #[trigger] self.accepts(n, v)
                        == old_self.accepts(n, v) by {
                        lemma_position(names0, n, 0);
                        if self.position(n) is Some {
                            let j = self.position(n)->0;
                            assert(self.fields@[j].kind == old_self.fields@[j].kind);
                        }
                    }
                    assert forall|n: Seq<char>| n != name@ implies #[trigger] self.field(n)
                        == old_self.field(n) by {
                        lemma_position(names0, n, 0);
                    }
                }
                return Ok(());
            }
            i = i + 1;
        }
        let mut m = String::from_str("Field ");
        let ghost pre = m@;
        m.append(name);
        let ghost mid = m@;
        m.append(" not found");
        proof {
            lemma_mentions(pre, name@, m@.subrange(mid.len() as int, m@.len() as int));
            assert(pre + name@ + m@.subrange(mid.len() as int, m@.len() as int) =~= m@);
        }
        Err(EnrichmentError::SpecError(m))
    }
}

} // verus!
