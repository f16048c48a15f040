//! Identifiers and the values a generic record can hold.

use vstd::prelude::*;
use vstd::string::*;
use crate::error::{Error, Result};

verus! {

/// Addresses one persisted record: a table and a key inside it.
#[derive(Debug, PartialEq)]
pub struct Thing {
    pub tb: String,
    pub id: String,
}

/// What a [`Thing`] stands for.
pub struct ThingView {
    pub tb: Seq<char>,
    pub id: Seq<char>,
}

impl View for Thing {
    type V = ThingView;

    open spec fn view(&self) -> ThingView {
        ThingView { tb: self.tb@, id: self.id@ }
    }
}

/// A schema-less value. A floating-point number is carried as the bit pattern
/// of its IEEE 754 double, which this library never interprets. An object
/// inside a value is the list of its fields as they came.
#[derive(Debug, PartialEq)]
pub enum Value {
    Null,
    Bool(bool),
    Int(i64),
    Float(u64),
    Text(String),
    Id(Thing),
    List(Vec<Value>),
    Object(Vec<Field>),
}

/// A name and the value stored under it.
#[derive(Debug, PartialEq)]
pub struct Field {
    pub name: String,
    pub value: Value,
}

/// What a [`Value`] stands for.
pub enum ValueView {
    Null,
    Bool(bool),
    Int(int),
    Float(u64),
    Text(Seq<char>),
    Id(ThingView),
    List(Seq<ValueView>),
    Object(Seq<FieldView>),
}

/// What a [`Field`] stands for.
pub struct FieldView {
    pub name: Seq<char>,
    pub value: ValueView,
}

impl View for Value {
    type V = ValueView;

    open spec fn view(&self) -> ValueView
        decreases self,
    {
        match self {
            Value::Null => ValueView::Null,
            Value::Bool(b) => ValueView::Bool(*b),
            Value::Int(n) => ValueView::Int(*n as int),
            Value::Float(bits) => ValueView::Float(*bits),
            Value::Text(s) => ValueView::Text(s@),
            Value::Id(t) => ValueView::Id(t@),
            Value::List(items) => ValueView::List(
                Seq::new(
                    items@.len(),
                    |i: int|
                        if 0 <= i < items@.len() {
                            items@[i].view()
                        } else {
                            ValueView::Null
                        },
                ),
            ),
            Value::Object(fields) => ValueView::Object(
                Seq::new(
                    fields@.len(),
                    |i: int|
                        if 0 <= i < fields@.len() {
                            FieldView { name: fields@[i].name@, value: fields@[i].value.view() }
                        } else {
                            FieldView { name: Seq::empty(), value: ValueView::Null }
                        },
                ),
            ),
        }
    }
}

impl View for Field {
    type V = FieldView;

    open spec fn view(&self) -> FieldView {
        FieldView { name: self.name@, value: self.value@ }
    }
}

/// The identifier written out: the table, a colon, the key.
pub open spec fn thing_text(t: ThingView) -> Seq<char> {
    t.tb + ":"@ + t.id
}

impl Thing {
    /// The identifier written out: the table, a colon, the key.
    pub fn to_text(&self) -> (text: String)
        ensures
            text@ == thing_text(self@),
    {
        let mut text = String::new();
        text.append(self.tb.as_str());
        text.append(":");
        text.append(self.id.as_str());
        assert(text@ =~= thing_text(self@));
        text
    }

    /// A copy that stands for the same identifier.
    pub fn duplicate(&self) -> (copy: Thing)
        ensures
            copy@ == self@,
    {
        Thing { tb: self.tb.clone(), id: self.id.clone() }
    }
}

impl Value {
    /// A copy that stands for the same value.
    #[verifier::loop_isolation(false)]
    pub fn duplicate(&self) -> (copy: Value)
        ensures
            copy@ == self@,
        decreases self,
    {
        match self {
            Value::Null => Value::Null,
            Value::Bool(b) => Value::Bool(*b),
            Value::Int(n) => Value::Int(*n),
            Value::Float(bits) => Value::Float(*bits),
            Value::Text(s) => Value::Text(s.clone()),
            Value::Id(t) => Value::Id(t.duplicate()),
            Value::List(items) => {
                let mut copies: Vec<Value> = Vec::new();
                let mut i: usize = 0;
                while i < items.len()
                    invariant
                        i <= items.len(),
                        copies.len() == i,
                        forall|j: int| 0 <= j < i ==> copies@[j]@ == items@[j]@,
                    decreases items.len() - i,
                {
                    assert(decreases_to!(*items => items[i as int]));
                    let item = items[i].duplicate();
                    copies.push(item);
                    i += 1;
                }
                let copy = Value::List(copies);
                assert(copy@ =~= self@) by {
                    assert(copy@ is List);
                    assert(copy@->List_0 =~= self@->List_0);
                }
                copy
            },
            Value::Object(fields) => {
                let mut copies: Vec<Field> = Vec::new();
                let mut i: usize = 0;
                while i < fields.len()
                    invariant
                        i <= fields.len(),
                        copies.len() == i,
                        forall|j: int| 0 <= j < i ==> copies@[j]@ == fields@[j]@,
                    decreases fields.len() - i,
                {
                    assert(decreases_to!(*fields => fields[i as int]));
                    let field = Field {
                        name: fields[i].name.clone(),
                        value: fields[i].value.duplicate(),
                    };
                    copies.push(field);
                    i += 1;
                }
                let copy = Value::Object(copies);
                assert(copy@ =~= self@) by {
                    assert(copy@ is Object);
                    assert(copy@->Object_0 =~= self@->Object_0);
                }
                copy
            },
        }
    }
}

impl Value {
    /// The text that the value holds. Any other value is not of the type.
    pub fn into_text(self) -> (r: Result<String>)
        ensures
            match r {
                Ok(s) => self@ == ValueView::Text(s@),
                Err(Error::XValueNotOfType(ty)) => !(self@ is Text) && ty@ == "String"@,
                Err(_) => false,
            },
    {
        match self {
            Value::Text(s) => Ok(s),
            _ => Err(Error::XValueNotOfType("String")),
        }
    }

    /// The integer that the value holds. Any other value is not of the type.
    pub fn into_int(self) -> (r: Result<i64>)
        ensures
            match r {
                Ok(n) => self@ == ValueView::Int(n as int),
                Err(Error::XValueNotOfType(ty)) => !(self@ is Int) && ty@ == "i64"@,
                Err(_) => false,
            },
    {
        match self {
            Value::Int(n) => Ok(n),
            _ => Err(Error::XValueNotOfType("i64")),
        }
    }

    /// The truth value that the value holds. Any other value is not of the
    /// type.
    pub fn into_bool(self) -> (r: Result<bool>)
        ensures
            match r {
                Ok(b) => self@ == ValueView::Bool(b),
                Err(Error::XValueNotOfType(ty)) => !(self@ is Bool) && ty@ == "bool"@,
                Err(_) => false,
            },
    {
        match self {
            Value::Bool(b) => Ok(b),
            _ => Err(Error::XValueNotOfType("bool")),
        }
    }

    /// The identifier that the value holds. Any other value is not of the
    /// type.
    pub fn into_thing(self) -> (r: Result<Thing>)
        ensures
            match r {
                Ok(t) => self@ == ValueView::Id(t@),
                Err(Error::XValueNotOfType(ty)) => !(self@ is Id) && ty@ == "Thing"@,
                Err(_) => false,
            },
    {
        match self {
            Value::Id(t) => Ok(t),
            _ => Err(Error::XValueNotOfType("Thing")),
        }
    }
}

} // verus!
