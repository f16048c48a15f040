//! The generic record: the schema-less form in which an entity travels to
//! the backend and back. It maps field names to values, keeps its fields in
//! the order of their names, and carries the identifier of the persisted
//! record once there is one.

use vstd::prelude::*;
use vstd::string::*;
use crate::error::{Error, Result};
use crate::order::{
    lemma_name_before_chain,
    lemma_name_not_before_itself,
    name_before,
    place_of,
    Place,
};
use crate::value::{Field, FieldView, Thing, ThingView, Value, ValueView};

verus! {

/// A generic record.
#[derive(Debug, PartialEq)]
pub struct Record {
    id: Option<Thing>,
    fields: Vec<Field>,
}

/// What a [`Record`] stands for: its identifier, if it has one, and the value
/// under each field name.
pub struct RecordView {
    pub id: Option<ThingView>,
    pub fields: Map<Seq<char>, ValueView>,
}

/// Each entry's name comes before the names of all later entries.
pub open spec fn in_name_order(entries: Seq<FieldView>) -> bool {
    forall|i: int, j: int|
        0 <= i < j < entries.len() ==> name_before(
            (#[trigger] entries[i]).name,
            (#[trigger] entries[j]).name,
        )
}

/// Whether some entry has the name.
pub open spec fn has_entry(entries: Seq<FieldView>, name: Seq<char>) -> bool {
    exists|i: int| 0 <= i < entries.len() && (#[trigger] entries[i]).name == name
}

/// The place of an entry with the name.
pub open spec fn entry_place(entries: Seq<FieldView>, name: Seq<char>) -> int {
    choose|i: int| 0 <= i < entries.len() && (#[trigger] entries[i]).name == name
}

/// The mapping that a list of entries stands for.
pub open spec fn entries_map(entries: Seq<FieldView>) -> Map<Seq<char>, ValueView> {
    Map::new(
        |name: Seq<char>| has_entry(entries, name),
        |name: Seq<char>| entries[entry_place(entries, name)].value,
    )
}

/// A record with a value stored under a name, in place of any that was there.
pub open spec fn with_field(record: RecordView, name: Seq<char>, value: ValueView) -> RecordView {
    RecordView { id: record.id, fields: record.fields.insert(name, value) }
}

/// A record without the field of a name.
pub open spec fn without_field(record: RecordView, name: Seq<char>) -> RecordView {
    RecordView { id: record.id, fields: record.fields.remove(name) }
}

/// A field survives the way through a record. What is stored under a name
/// is what is found under it; every other field is as it was; and taking
/// the field out again gives back the record as it was, if it had no field
/// of that name before. The identifier is not touched.
pub proof fn lemma_field_is_read_back(record: RecordView, name: Seq<char>, value: ValueView)
    ensures
        with_field(record, name, value).fields.contains_key(name),
        with_field(record, name, value).fields[name] == value,
        with_field(record, name, value).id == record.id,
        forall|other: Seq<char>|
            other != name ==> (with_field(record, name, value).fields.contains_key(other)
                <==> record.fields.contains_key(other)),
        forall|other: Seq<char>|
            other != name && record.fields.contains_key(other) ==> with_field(
                record,
                name,
                value,
            ).fields[other] == record.fields[other],
        !record.fields.contains_key(name) ==> without_field(
            with_field(record, name, value),
            name,
        ) == record,
{
    if !record.fields.contains_key(name) {
        assert(record.fields.insert(name, value).remove(name) =~= record.fields);
    }
}

/// What each of a list of fields stands for.
pub open spec fn fields_view(fields: Seq<Field>) -> Seq<FieldView> {
    fields.map_values(|f: Field| f@)
}

proof fn lemma_entry_found(entries: Seq<FieldView>, i: int)
    requires
        in_name_order(entries),
        0 <= i < entries.len(),
    ensures
        entries_map(entries).contains_key(entries[i].name),
        entries_map(entries)[entries[i].name] == entries[i].value,
        entry_place(entries, entries[i].name) == i,
{
    let name = entries[i].name;
    assert(has_entry(entries, name));
    let j = entry_place(entries, name);
    lemma_name_not_before_itself(name);
    if j < i {
        assert(name_before(entries[j].name, entries[i].name));
    } else if i < j {
        assert(name_before(entries[i].name, entries[j].name));
    }
}

proof fn lemma_entry_absent(entries: Seq<FieldView>, name: Seq<char>, pos: int)
    requires
        in_name_order(entries),
        0 <= pos <= entries.len(),
        forall|j: int| 0 <= j < pos ==> name_before((#[trigger] entries[j]).name, name),
        pos == entries.len() || name_before(name, entries[pos].name),
    ensures
        !entries_map(entries).contains_key(name),
{
    lemma_name_not_before_itself(name);
    if has_entry(entries, name) {
        let i = entry_place(entries, name);
        if i < pos {
            assert(name_before(entries[i].name, name));
        } else if i > pos {
            assert(name_before(entries[pos].name, entries[i].name));
            lemma_name_before_chain(name, entries[pos].name, entries[i].name);
        }
    }
}

proof fn lemma_entries_insert(entries: Seq<FieldView>, pos: int, f: FieldView)
    requires
        in_name_order(entries),
        0 <= pos <= entries.len(),
        forall|j: int| 0 <= j < pos ==> name_before((#[trigger] entries[j]).name, f.name),
        pos == entries.len() || name_before(f.name, entries[pos].name),
    ensures
        in_name_order(entries.insert(pos, f)),
        entries_map(entries.insert(pos, f)) == entries_map(entries).insert(f.name, f.value),
{
    let longer = entries.insert(pos, f);
    assert forall|i: int, j: int| 0 <= i < j < longer.len() implies name_before(
        (#[trigger] longer[i]).name,
        (#[trigger] longer[j]).name,
    ) by {
        if j < pos {
            assert(longer[i] == entries[i] && longer[j] == entries[j]);
        } else if j == pos {
            assert(longer[i] == entries[i]);
        } else if i < pos {
            assert(longer[i] == entries[i] && longer[j] == entries[j - 1]);
            if pos < j - 1 {
                assert(name_before(entries[i].name, entries[j - 1].name));
            } else {
                lemma_name_before_chain(entries[i].name, f.name, entries[pos].name);
            }
        } else if i == pos {
            assert(longer[j] == entries[j - 1]);
            if pos < j - 1 {
                assert(name_before(entries[pos].name, entries[j - 1].name));
                lemma_name_before_chain(f.name, entries[pos].name, entries[j - 1].name);
            }
        } else {
            assert(longer[i] == entries[i - 1] && longer[j] == entries[j - 1]);
        }
    }
    let a = entries_map(longer);
    let b = entries_map(entries).insert(f.name, f.value);
    lemma_entry_absent(entries, f.name, pos);
    assert forall|name: Seq<char>| a.contains_key(name) <==> b.contains_key(name) by {
        if has_entry(longer, name) {
            let i = entry_place(longer, name);
            if i < pos {
                assert(entries[i].name == name);
            } else if i > pos {
                assert(entries[i - 1].name == name);
            }
        }
        if has_entry(entries, name) {
            let i = entry_place(entries, name);
            if i < pos {
                assert(longer[i].name == name);
            } else {
                assert(longer[i + 1].name == name);
            }
        }
        if name == f.name {
            assert(longer[pos].name == name);
        }
    }
    assert forall|name: Seq<char>| a.contains_key(name) implies a[name] == b[name] by {
        let i = entry_place(longer, name);
        lemma_entry_found(longer, i);
        if i < pos {
            assert(longer[i] == entries[i]);
            lemma_entry_found(entries, i);
        } else if i > pos {
            assert(longer[i] == entries[i - 1]);
            lemma_entry_found(entries, i - 1);
        }
    }
    assert(a =~= b);
}

proof fn lemma_entries_remove(entries: Seq<FieldView>, pos: int)
    requires
        in_name_order(entries),
        0 <= pos < entries.len(),
    ensures
        in_name_order(entries.remove(pos)),
        entries_map(entries.remove(pos)) == entries_map(entries).remove(entries[pos].name),
        forall|j: int| 0 <= j < pos ==> name_before(
            (#[trigger] entries.remove(pos)[j]).name,
            entries[pos].name,
        ),
        pos == entries.remove(pos).len() || name_before(
            entries[pos].name,
            entries.remove(pos)[pos].name,
        ),
{
    let shorter = entries.remove(pos);
    let gone = entries[pos].name;
    assert forall|i: int, j: int| 0 <= i < j < shorter.len() implies name_before(
        (#[trigger] shorter[i]).name,
        (#[trigger] shorter[j]).name,
    ) by {
        let i0 = if i < pos {
            i
        } else {
            i + 1
        };
        let j0 = if j < pos {
            j
        } else {
            j + 1
        };
        assert(shorter[i] == entries[i0] && shorter[j] == entries[j0]);
    }
    assert forall|j: int| 0 <= j < pos implies name_before((#[trigger] shorter[j]).name, gone) by {
        assert(shorter[j] == entries[j]);
    }
    if pos < shorter.len() {
        assert(shorter[pos] == entries[pos + 1]);
    }
    let a = entries_map(shorter);
    let b = entries_map(entries).remove(gone);
    lemma_entry_absent(shorter, gone, pos);
    assert forall|name: Seq<char>| a.contains_key(name) <==> b.contains_key(name) by {
        if has_entry(shorter, name) {
            let i = entry_place(shorter, name);
            if i < pos {
                assert(entries[i].name == name);
            } else {
                assert(entries[i + 1].name == name);
            }
        }
        if has_entry(entries, name) && name != gone {
            let i = entry_place(entries, name);
            if i < pos {
                assert(shorter[i].name == name);
            } else {
                assert(shorter[i - 1].name == name);
            }
        }
    }
    assert forall|name: Seq<char>| a.contains_key(name) implies a[name] == b[name] by {
        let i = entry_place(shorter, name);
        lemma_entry_found(shorter, i);
        if i < pos {
            assert(shorter[i] == entries[i]);
            lemma_entry_found(entries, i);
        } else {
            assert(shorter[i] == entries[i + 1]);
            lemma_entry_found(entries, i + 1);
        }
    }
    assert(a =~= b);
}

impl Record {
    /// The fields, in the order of their names.
    pub closed spec fn entries(&self) -> Seq<FieldView> {
        fields_view(self.fields@)
    }

    /// The identifier, if the record has one.
    pub closed spec fn spec_id(&self) -> Option<ThingView> {
        match self.id {
            Some(t) => Some(t@),
            None => None,
        }
    }

    #[verifier::type_invariant]
    spec fn ordered(&self) -> bool {
        in_name_order(self.entries())
    }
}

impl View for Record {
    type V = RecordView;

    open spec fn view(&self) -> RecordView {
        RecordView { id: self.spec_id(), fields: entries_map(self.entries()) }
    }
}

impl Record {
    /// A record without identifier and without fields.
    pub fn new() -> (record: Record)
        ensures
            record@.id is None,
            record@.fields == Map::<Seq<char>, ValueView>::empty(),
            record.entries() == Seq::<FieldView>::empty(),
    {
        let record = Record { id: None, fields: Vec::new() };
        assert(record.entries() =~= Seq::<FieldView>::empty());
        assert(record@.fields =~= Map::<Seq<char>, ValueView>::empty());
        record
    }

    /// The identifier, if the record has one.
    pub fn id(&self) -> (id: Option<&Thing>)
        ensures
            match id {
                Some(t) => self@.id == Some(t@),
                None => self@.id is None,
            },
    {
        self.id.as_ref()
    }

    /// Gives the record an identifier, or takes it away; the fields stay.
    pub fn set_id(&mut self, id: Option<Thing>)
        ensures
            final(self)@.id == match id {
                Some(t) => Some(t@),
                None => None,
            },
            final(self)@.fields == old(self)@.fields,
            final(self).entries() == old(self).entries(),
    {
        proof {
            use_type_invariant(&*self);
        }
        self.id = id;
    }

    /// How many fields the record has.
    pub fn len(&self) -> (n: usize)
        ensures
            n == self.entries().len(),
    {
        self.fields.len()
    }

    /// The fields, in the order of their names.
    pub fn fields(&self) -> (fields: &Vec<Field>)
        ensures
            fields_view(fields@) == self.entries(),
            in_name_order(self.entries()),
            self@.fields == entries_map(self.entries()),
    {
        proof {
            use_type_invariant(self);
        }
        &self.fields
    }

    fn locate(&self, name: &str) -> (r: (usize, bool))
        ensures
            r.0 <= self.entries().len(),
            forall|j: int| 0 <= j < r.0 ==> name_before((#[trigger] self.entries()[j]).name, name@),
            r.1 ==> r.0 < self.entries().len() && self.entries()[r.0 as int].name == name@,
            !r.1 ==> r.0 == self.entries().len() || name_before(
                name@,
                self.entries()[r.0 as int].name,
            ),
            r.1 == self@.fields.contains_key(name@),
    {
        proof {
            use_type_invariant(self);
        }
        let mut i: usize = 0;
        while i < self.fields.len()
            invariant
                i <= self.fields.len(),
                in_name_order(self.entries()),
                forall|j: int| 0 <= j < i ==> name_before((#[trigger] self.entries()[j]).name, name@),
            decreases self.fields.len() - i,
        {
            assert(self.entries()[i as int] == self.fields@[i as int]@);
            match place_of(self.fields[i].name.as_str(), name) {
                Place::Before => {},
                Place::Same => {
                    proof {
                        lemma_entry_found(self.entries(), i as int);
                    }
                    return (i, true);
                },
                Place::After => {
                    proof {
                        lemma_entry_absent(self.entries(), name@, i as int);
                    }
                    return (i, false);
                },
            }
            i += 1;
        }
        proof {
            lemma_entry_absent(self.entries(), name@, i as int);
        }
        (i, false)
    }

    /// Whether the record has a field of this name.
    pub fn contains(&self, name: &str) -> (b: bool)
        ensures
            b == self@.fields.contains_key(name@),
    {
        self.locate(name).1
    }

    /// The value under a name, if the record has such a field.
    pub fn get(&self, name: &str) -> (value: Option<&Value>)
        ensures
            match value {
                Some(v) => self@.fields.contains_key(name@) && v@ == self@.fields[name@],
                None => !self@.fields.contains_key(name@),
            },
    {
        let (pos, found) = self.locate(name);
        if found {
            proof {
                use_type_invariant(self);
                lemma_entry_found(self.entries(), pos as int);
            }
            Some(&self.fields[pos].value)
        } else {
            None
        }
    }

    /// Stores a value under a name, in place of the one that was there if
    /// there was one, which is handed back.
    pub fn put(&mut self, name: &str, value: Value) -> (previous: Option<Value>)
        ensures
            final(self)@ == with_field(old(self)@, name@, value@),
            match previous {
                Some(v) => old(self)@.fields.contains_key(name@) && v@ == old(self)@.fields[name@],
                None => !old(self)@.fields.contains_key(name@),
            },
    {
        proof {
            use_type_invariant(&*self);
        }
        let (pos, found) = self.locate(name);
        let ghost before = self.entries();
        let mut fields: Vec<Field> = Vec::new();
        assert(fields_view(fields@) =~= Seq::<FieldView>::empty());
        core::mem::swap(&mut self.fields, &mut fields);
        let previous = if found {
            proof {
                lemma_entry_found(before, pos as int);
                lemma_entries_remove(before, pos as int);
            }
            let gone = fields.remove(pos);
            assert(fields_view(fields@) =~= before.remove(pos as int));
            Some(gone.value)
        } else {
            None
        };
        let ghost middle = fields_view(fields@);
        let field = Field { name: name.to_owned(), value };
        proof {
            lemma_entries_insert(middle, pos as int, field@);
        }
        fields.insert(pos, field);
        assert(fields_view(fields@) =~= middle.insert(pos as int, field@));
        core::mem::swap(&mut self.fields, &mut fields);
        assert(self@.fields =~= old(self)@.fields.insert(name@, value@));
        previous
    }

    /// Takes the field of a name out of the record, if there is one, and
    /// hands its value back.
    pub fn take(&mut self, name: &str) -> (value: Option<Value>)
        ensures
            final(self)@ == without_field(old(self)@, name@),
            match value {
                Some(v) => old(self)@.fields.contains_key(name@) && v@ == old(self)@.fields[name@],
                None => !old(self)@.fields.contains_key(name@),
            },
    {
        proof {
            use_type_invariant(&*self);
        }
        let (pos, found) = self.locate(name);
        let ghost before = self.entries();
        if found {
            proof {
                lemma_entry_found(before, pos as int);
                lemma_entries_remove(before, pos as int);
            }
            let mut fields: Vec<Field> = Vec::new();
            assert(fields_view(fields@) =~= Seq::<FieldView>::empty());
            core::mem::swap(&mut self.fields, &mut fields);
            let gone = fields.remove(pos);
            assert(fields_view(fields@) =~= before.remove(pos as int));
            core::mem::swap(&mut self.fields, &mut fields);
            Some(gone.value)
        } else {
            assert(self@.fields =~= old(self)@.fields.remove(name@));
            assert(self.spec_id() == old(self).spec_id());
            None
        }
    }
}

impl Record {
    /// Takes the field of a name out of the record and hands its value back.
    /// A record without such a field is an error that names the property.
    pub fn take_val(&mut self, name: &str) -> (r: Result<Value>)
        ensures
            final(self)@ == without_field(old(self)@, name@),
            match r {
                Ok(v) => old(self)@.fields.contains_key(name@) && v@ == old(self)@.fields[name@],
                Err(Error::XPropertyNotFound(n)) => !old(self)@.fields.contains_key(name@) && n@
                    == name@,
                Err(_) => false,
            },
    {
        match self.take(name) {
            Some(v) => Ok(v),
            None => Err(Error::XPropertyNotFound(name.to_owned())),
        }
    }

    /// Takes a text field out of the record. The field leaves the record
    /// whether or not its value is a text.
    pub fn take_text(&mut self, name: &str) -> (r: Result<String>)
        ensures
            final(self)@ == without_field(old(self)@, name@),
            match r {
                Ok(s) => old(self)@.fields.contains_key(name@) && old(self)@.fields[name@]
                    == ValueView::Text(s@),
                Err(Error::XPropertyNotFound(n)) => !old(self)@.fields.contains_key(name@) && n@
                    == name@,
                Err(Error::XValueNotOfType(ty)) => old(self)@.fields.contains_key(name@) && !(old(
                    self,
                )@.fields[name@] is Text) && ty@ == "String"@,
                Err(_) => false,
            },
    {
        match self.take_val(name) {
            Ok(v) => v.into_text(),
            Err(e) => Err(e),
        }
    }

    /// Takes an integer field out of the record. The field leaves the record
    /// whether or not its value is an integer.
    pub fn take_int(&mut self, name: &str) -> (r: Result<i64>)
        ensures
            final(self)@ == without_field(old(self)@, name@),
            match r {
                Ok(n) => old(self)@.fields.contains_key(name@) && old(self)@.fields[name@]
                    == ValueView::Int(n as int),
                Err(Error::XPropertyNotFound(n)) => !old(self)@.fields.contains_key(name@) && n@
                    == name@,
                Err(Error::XValueNotOfType(ty)) => old(self)@.fields.contains_key(name@) && !(old(
                    self,
                )@.fields[name@] is Int) && ty@ == "i64"@,
                Err(_) => false,
            },
    {
        match self.take_val(name) {
            Ok(v) => v.into_int(),
            Err(e) => Err(e),
        }
    }

    /// Takes a truth-value field out of the record. The field leaves the
    /// record whether or not its value is a truth value.
    pub fn take_bool(&mut self, name: &str) -> (r: Result<bool>)
        ensures
            final(self)@ == without_field(old(self)@, name@),
            match r {
                Ok(b) => old(self)@.fields.contains_key(name@) && old(self)@.fields[name@]
                    == ValueView::Bool(b),
                Err(Error::XPropertyNotFound(n)) => !old(self)@.fields.contains_key(name@) && n@
                    == name@,
                Err(Error::XValueNotOfType(ty)) => old(self)@.fields.contains_key(name@) && !(old(
                    self,
                )@.fields[name@] is Bool) && ty@ == "bool"@,
                Err(_) => false,
            },
    {
        match self.take_val(name) {
            Ok(v) => v.into_bool(),
            Err(e) => Err(e),
        }
    }

    /// A copy that stands for the same record.
    pub fn duplicate(&self) -> (copy: Record)
        ensures
            copy@ == self@,
            copy.entries() == self.entries(),
    {
        proof {
            use_type_invariant(self);
        }
        let mut fields: Vec<Field> = Vec::new();
        let mut i: usize = 0;
        while i < self.fields.len()
            invariant
                i <= self.fields.len(),
                fields.len() == i,
                forall|j: int| 0 <= j < i ==> fields@[j]@ == self.fields@[j]@,
            decreases self.fields.len() - i,
        {
            let field = Field {
                name: self.fields[i].name.clone(),
                value: self.fields[i].value.duplicate(),
            };
            fields.push(field);
            i += 1;
        }
        let id = match &self.id {
            Some(t) => Some(t.duplicate()),
            None => None,
        };
        assert(fields_view(fields@) =~= self.entries());
        Record { id, fields }
    }
}

} // verus!
