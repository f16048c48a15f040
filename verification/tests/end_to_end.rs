use std::collections::BTreeMap;

use model_store::store::{
    begin_create, begin_delete, begin_get, begin_list, begin_update, end_create, end_delete,
    end_get, end_list, end_update, Bound,
};
use model_store::{
    Creatable, Error, Field, FilterGroup, FilterGroups, FilterNode, ListOptions, OpVal, Operator,
    OrderBy, Outcome, Patchable, Record, Request, Result, Thing, Value,
};
use surrealdb::dbs::Session;
use surrealdb::kvs::Datastore;
use surrealdb::sql;

#[derive(Debug, PartialEq)]
struct User {
    id: Option<Thing>,
    name: Option<String>,
    age: Option<i64>,
}

impl User {
    fn named(name: &str, age: Option<i64>) -> User {
        User { id: None, name: Some(name.to_string()), age }
    }
}

impl Creatable for User {
    fn table() -> &'static str {
        "user"
    }

    fn to_thing(&self) -> Result<Record> {
        let mut record = Record::new();
        match &self.name {
            Some(name) => record.put("name", Value::Text(name.clone())),
            None => return Err(Error::XPropertyNotFound("name".to_string())),
        };
        if let Some(age) = self.age {
            record.put("age", Value::Int(age));
        }
        Ok(record)
    }

    fn from_thing(mut record: Record) -> Result<Self> {
        let id = record.id().map(|t| t.duplicate());
        let name = record.take_text("name")?;
        let age = if record.contains("age") { Some(record.take_int("age")?) } else { None };
        Ok(User { id, name: Some(name), age })
    }
}

struct AgePatch {
    age: i64,
}

impl Patchable for AgePatch {
    fn to_patch(&self) -> Result<Record> {
        let mut record = Record::new();
        record.put("age", Value::Int(self.age));
        Ok(record)
    }

    fn from_patch(mut record: Record) -> Result<Self> {
        Ok(AgePatch { age: record.take_int("age")? })
    }
}

fn to_sql(value: &Value) -> sql::Value {
    match value {
        Value::Null => sql::Value::Null,
        Value::Bool(b) => sql::Value::Bool(*b),
        Value::Int(n) => sql::Value::from(*n),
        Value::Float(bits) => sql::Value::from(f64::from_bits(*bits)),
        Value::Text(s) => sql::Value::from(s.as_str()),
        Value::Id(t) => sql::Value::Thing(sql::Thing::from((t.tb.as_str(), t.id.as_str()))),
        Value::List(items) => sql::Value::Array(sql::Array(items.iter().map(to_sql).collect())),
        Value::Object(fields) => sql::Value::Object(sql::Object(
            fields.iter().map(|f| (f.name.clone(), to_sql(&f.value))).collect(),
        )),
    }
}

fn thing_from_sql(t: sql::Thing) -> Thing {
    Thing { tb: t.tb, id: t.id.to_raw() }
}

fn from_sql(value: sql::Value) -> Value {
    match value {
        sql::Value::None | sql::Value::Null => Value::Null,
        sql::Value::Bool(b) => Value::Bool(b),
        sql::Value::Number(sql::Number::Int(n)) => Value::Int(n),
        sql::Value::Number(sql::Number::Float(f)) => Value::Float(f.to_bits()),
        sql::Value::Strand(s) => Value::Text(s.0),
        sql::Value::Thing(t) => Value::Id(thing_from_sql(t)),
        sql::Value::Array(a) => Value::List(a.0.into_iter().map(from_sql).collect()),
        sql::Value::Object(o) => Value::Object(
            o.0.into_iter().map(|(name, value)| Field { name, value: from_sql(value) }).collect(),
        ),
        other => Value::Text(other.to_string()),
    }
}

fn record_to_sql(record: &Record) -> sql::Value {
    let mut map = BTreeMap::new();
    for field in record.fields() {
        map.insert(field.name.clone(), to_sql(&field.value));
    }
    sql::Value::Object(sql::Object(map))
}

fn record_from_sql(value: sql::Value) -> Option<Record> {
    match value {
        sql::Value::Object(object) => {
            let mut record = Record::new();
            for (name, value) in object.0 {
                match (name.as_str(), value) {
                    ("id", sql::Value::Thing(t)) => record.set_id(Some(thing_from_sql(t))),
                    (_, value) => {
                        record.put(&name, from_sql(value));
                    }
                }
            }
            Some(record)
        }
        _ => None,
    }
}

struct Backend {
    runtime: tokio::runtime::Runtime,
    ds: Datastore,
    ses: Session,
}

impl Backend {
    fn new() -> Backend {
        let runtime = tokio::runtime::Builder::new_current_thread().build().unwrap();
        let ds = runtime.block_on(Datastore::new("memory")).unwrap();
        let ses = Session::owner().with_ns("test").with_db("test");
        Backend { runtime, ds, ses }
    }

    fn run(&self, request: &Request) -> Outcome {
        let mut vars: BTreeMap<String, sql::Value> = BTreeMap::new();
        for variable in request.variables() {
            let value = match &variable.bound {
                Bound::Name(name) => sql::Value::from(name.as_str()),
                Bound::Data(record) => record_to_sql(record),
                Bound::Operand(value) => to_sql(value),
            };
            vars.insert(variable.name, value);
        }
        let statement = request.statement();
        let responses =
            self.runtime.block_on(self.ds.execute(&statement, &self.ses, Some(vars)))?;
        let mut records = Vec::new();
        for response in responses {
            match response.result? {
                sql::Value::Array(rows) => {
                    records.extend(rows.0.into_iter().filter_map(record_from_sql));
                }
                other => records.extend(record_from_sql(other)),
            }
        }
        Ok(records)
    }

    fn create<T: Creatable>(&self, entity: T) -> Result<T> {
        let request = begin_create(&entity)?;
        end_create(self.run(&request))
    }

    fn get<T: Creatable>(&self, id: &Thing) -> Result<T> {
        end_get(self.run(&begin_get(id.duplicate())))
    }

    fn update<P: Patchable>(&self, id: &Thing, patch: P) -> Result<P> {
        let request = begin_update(id.duplicate(), &patch)?;
        end_update(self.run(&request))
    }

    fn delete(&self, id: &Thing) -> Result<()> {
        end_delete(self.run(&begin_delete(id.duplicate())))
    }

    fn list<T: Creatable>(&self, filter: &FilterGroups, options: &ListOptions) -> Result<Vec<T>> {
        let request = begin_list::<T>(filter, options)?;
        end_list(self.run(&request))
    }
}

fn everything() -> FilterGroups {
    FilterGroups { groups: vec![] }
}

fn unordered() -> ListOptions {
    ListOptions { limit: None, offset: None, order_bys: vec![] }
}

fn by_name_order() -> ListOptions {
    ListOptions { limit: None, offset: None, order_bys: vec![OrderBy::Asc("name".to_string())] }
}

fn cond(name: &str, op: Operator, value: Value) -> FilterNode {
    FilterNode { name: name.to_string(), opvals: vec![OpVal { op, value }] }
}

#[test]
fn create_get_delete_get() {
    let backend = Backend::new();
    let created = backend.create(User::named("alice", None)).unwrap();
    assert_eq!(created.name.as_deref(), Some("alice"));
    let id = created.id.as_ref().expect("the created entity carries its identifier").duplicate();
    assert_eq!(id.tb, "user");
    assert!(!id.id.is_empty());
    assert!(id.to_text().starts_with("user:"));
    assert_eq!(id.to_text(), format!("user:{}", id.id));

    let got: User = backend.get(&id).unwrap();
    assert_eq!(got, created);

    backend.delete(&id).unwrap();
    match backend.get::<User>(&id) {
        Err(Error::Surreal(surrealdb::err::Error::NoRecordFound)) => {}
        other => panic!("expected a backend error for a record that is gone, got {:?}", other),
    }
}

#[test]
fn a_failed_conversion_creates_nothing_in_the_backend() {
    let backend = Backend::new();
    let nameless = User { id: None, name: None, age: Some(5) };
    assert!(matches!(backend.create(nameless), Err(Error::XPropertyNotFound(ref n)) if n == "name"));
    let all: Vec<User> = backend.list(&everything(), &unordered()).unwrap();
    assert!(all.is_empty());
}

#[test]
fn update_merges_the_patch_and_acknowledges_it() {
    let backend = Backend::new();
    let created = backend.create(User::named("alice", Some(30))).unwrap();
    let id = created.id.unwrap();
    let ack = backend.update(&id, AgePatch { age: 31 }).unwrap();
    assert_eq!(ack.age, 31);
    let got: User = backend.get(&id).unwrap();
    assert_eq!(got.name.as_deref(), Some("alice"));
    assert_eq!(got.age, Some(31));
}

#[test]
fn list_filters_orders_and_pages() {
    let backend = Backend::new();
    for (name, age) in [("dave", 17), ("alice", 30), ("carol", 65), ("bob", 41), ("erin", 18)] {
        backend.create(User::named(name, Some(age))).unwrap();
    }
    let names = |users: Vec<User>| -> Vec<String> {
        users.into_iter().map(|u| u.name.unwrap()).collect()
    };

    let all: Vec<User> = backend.list(&everything(), &by_name_order()).unwrap();
    assert_eq!(names(all), vec!["alice", "bob", "carol", "dave", "erin"]);

    let adults = FilterGroups {
        groups: vec![FilterGroup {
            nodes: vec![FilterNode {
                name: "age".to_string(),
                opvals: vec![
                    OpVal { op: Operator::Gte, value: Value::Int(18) },
                    OpVal { op: Operator::Lt, value: Value::Int(65) },
                ],
            }],
        }],
    };
    let found: Vec<User> = backend.list(&adults, &by_name_order()).unwrap();
    assert_eq!(names(found), vec!["alice", "bob", "erin"]);

    let either = FilterGroups {
        groups: vec![
            FilterGroup {
                nodes: vec![
                    cond("name", Operator::Not, Value::Text("alice".to_string())),
                    cond("age", Operator::Lte, Value::Int(18)),
                ],
            },
            FilterGroup { nodes: vec![cond("name", Operator::Eq, Value::Text("carol".to_string()))] },
        ],
    };
    let found: Vec<User> = backend.list(&either, &by_name_order()).unwrap();
    assert_eq!(names(found), vec!["carol", "dave", "erin"]);

    let page = ListOptions {
        limit: Some(2),
        offset: Some(1),
        order_bys: vec![OrderBy::Desc("age".to_string())],
    };
    let found: Vec<User> = backend.list(&everything(), &page).unwrap();
    assert_eq!(names(found), vec!["bob", "alice"]);

    let with_empty_group = FilterGroups {
        groups: vec![
            FilterGroup { nodes: vec![cond("age", Operator::Gt, Value::Int(1000))] },
            FilterGroup { nodes: vec![] },
        ],
    };
    let found: Vec<User> = backend.list(&with_empty_group, &by_name_order()).unwrap();
    assert_eq!(found.len(), 5);
}

#[test]
fn delete_of_a_record_that_is_not_there_succeeds() {
    let backend = Backend::new();
    backend.delete(&Thing { tb: "user".to_string(), id: "nobody".to_string() }).unwrap();
}

struct Note {
    body: Value,
}

impl Creatable for Note {
    fn table() -> &'static str {
        "note"
    }

    fn to_thing(&self) -> Result<Record> {
        let mut record = Record::new();
        record.put("body", self.body.duplicate());
        Ok(record)
    }

    fn from_thing(mut record: Record) -> Result<Self> {
        Ok(Note { body: record.take_val("body")? })
    }
}

#[test]
fn nested_values_come_back_as_they_went() {
    let backend = Backend::new();
    let body = Value::Object(vec![
        Field { name: "count".to_string(), value: Value::Int(3) },
        Field {
            name: "inner".to_string(),
            value: Value::Object(vec![Field {
                name: "flag".to_string(),
                value: Value::Bool(true),
            }]),
        },
        Field {
            name: "items".to_string(),
            value: Value::List(vec![
                Value::Text("a".to_string()),
                Value::Float(0.25f64.to_bits()),
                Value::Null,
                Value::Id(Thing { tb: "user".to_string(), id: "k1".to_string() }),
            ]),
        },
    ]);
    let created = backend.create(Note { body: body.duplicate() }).unwrap();
    assert_eq!(created.body, body);
}
