//! The store's side of every exchange with the backend.
//!
//! An operation is an exchange in two steps. The first turns the caller's
//! arguments into a [`Request`], or fails before the backend is asked
//! anything. Whoever owns the connection then runs the request and hands the
//! backend's [`Outcome`] to the second step, which turns it into the caller's
//! result. Nothing is retried, and the first failure is the result.

use vstd::prelude::*;
use vstd::string::*;
use crate::error::{Error, Result};
use crate::filter::{FilterGroups, FilterNodeView, ListOptions};
use crate::query::{
    build_select_query,
    filter_bindings,
    first_unsupported,
    lemma_bindings_have_their_own_names,
    select_text,
    BackendQuery,
    BackendQueryView,
    BindingView,
};
use crate::record::{Record, RecordView};
use crate::value::{Thing, ThingView, Value, ValueView};

verus! {

/// An entity type that can be created and read: it says in which table its
/// records live and how an entity becomes a generic record and a generic
/// record an entity.
///
/// The two conversions belong together. What an entity writes into a record
/// is its content; and a record that holds the content of an entity of this
/// type, if it is read at all, is read as an entity with that content. The
/// identifier is no part of the content: the backend assigns it.
pub trait Creatable: Sized {
    /// What the entity holds, its identifier aside: the fields that
    /// [`Creatable::to_thing`] writes. A type that does not say what its
    /// content is leaves it unknown, and is taken at its word on what the
    /// two conversions promise.
    open spec fn content(&self) -> Map<Seq<char>, ValueView> {
        arbitrary()
    }

    /// The table that holds the records of this type.
    fn table() -> (name: &'static str);

    /// The entity as a record to insert.
    fn to_thing(&self) -> (r: Result<Record>)
        ensures
            r matches Ok(record) ==> record@.fields == self.content(),
    ;

    /// The entity that a record of the backend holds.
    fn from_thing(record: Record) -> (r: Result<Self>)
        ensures
            r matches Ok(entity) ==> (exists|other: Self| other.content() == record@.fields)
                ==> entity.content() == record@.fields,
    ;
}

/// An entity survives the way into a record and back. Let an entity be
/// written to a record, and let a record with the same fields, with or
/// without an identifier, be read as an entity of the same type. Then the
/// entity read holds what the entity written held: every field, the
/// identifier aside.
pub proof fn lemma_entity_is_read_back<T: Creatable>(
    entity: T,
    written: Record,
    stored: Record,
    read: T,
)
    requires
        call_ensures(T::to_thing, (&entity,), Ok::<Record, Error>(written)),
        stored@.fields == written@.fields,
        call_ensures(T::from_thing, (stored,), Ok::<T, Error>(read)),
    ensures
        read.content() == entity.content(),
{
    assert(written@.fields == entity.content());
    assert(entity.content() == stored@.fields);
}

/// A partial update: it says how the changed fields become a sparse record
/// and how the backend's acknowledgement becomes a value again.
pub trait Patchable: Sized {
    /// The changed fields, and no others, as a record to merge.
    fn to_patch(&self) -> (r: Result<Record>);

    /// What the backend's acknowledgement of a patch holds.
    fn from_patch(record: Record) -> (r: Result<Self>);
}

/// What the store asks of the backend.
#[derive(Debug, PartialEq)]
pub enum Request {
    /// Insert `content` into `table` as one new record.
    Create { table: String, content: Record },
    /// Read the record that `id` addresses.
    Get { id: Thing },
    /// Merge `patch` into the record that `id` addresses.
    Update { id: Thing, patch: Record },
    /// Remove the record that `id` addresses.
    Delete { id: Thing },
    /// Run `query` on `table`.
    List { table: String, query: BackendQuery },
}

/// What a [`Request`] stands for.
pub enum RequestView {
    Create { table: Seq<char>, content: RecordView },
    Get { id: ThingView },
    Update { id: ThingView, patch: RecordView },
    Delete { id: ThingView },
    List { table: Seq<char>, query: BackendQueryView },
}

impl View for Request {
    type V = RequestView;

    open spec fn view(&self) -> RequestView {
        match self {
            Request::Create { table, content } => RequestView::Create {
                table: table@,
                content: content@,
            },
            Request::Get { id } => RequestView::Get { id: id@ },
            Request::Update { id, patch } => RequestView::Update { id: id@, patch: patch@ },
            Request::Delete { id } => RequestView::Delete { id: id@ },
            Request::List { table, query } => RequestView::List { table: table@, query: query@ },
        }
    }
}

/// What the backend answered: the records it returned, in its order, or its
/// own error.
pub type Outcome = core::result::Result<Vec<Record>, surrealdb::err::Error>;

/// The statement that carries out a request. It names no value: the table is
/// the variable `tb`, the key of an identifier `id`, a record `data`, and a
/// filter's values are the variables of the query.
pub open spec fn statement_text(request: RequestView) -> Seq<char> {
    match request {
        RequestView::Create { .. } => "CREATE type::table($tb) CONTENT $data RETURN AFTER"@,
        RequestView::Get { .. } => "SELECT * FROM type::thing($tb, $id)"@,
        RequestView::Update { .. } => "UPDATE type::thing($tb, $id) MERGE $data RETURN AFTER"@,
        RequestView::Delete { .. } => "DELETE type::thing($tb, $id)"@,
        RequestView::List { query, .. } => query.text,
    }
}

impl Request {
    /// The statement that carries out the request.
    pub fn statement(&self) -> (text: String)
        ensures
            text@ == statement_text(self@),
    {
        match self {
            Request::Create { .. } => "CREATE type::table($tb) CONTENT $data RETURN AFTER".to_owned(),
            Request::Get { .. } => "SELECT * FROM type::thing($tb, $id)".to_owned(),
            Request::Update { .. } => "UPDATE type::thing($tb, $id) MERGE $data RETURN AFTER".to_owned(),
            Request::Delete { .. } => "DELETE type::thing($tb, $id)".to_owned(),
            Request::List { query, .. } => query.text.clone(),
        }
    }
}

/// What a variable of a statement is bound to.
#[derive(Debug, PartialEq)]
pub enum Bound {
    /// A name: a table, or the key of an identifier.
    Name(String),
    /// A whole record.
    Data(Record),
    /// A value that a filter compares with.
    Operand(Value),
}

/// What a [`Bound`] stands for.
pub enum BoundView {
    Name(Seq<char>),
    Data(RecordView),
    Operand(ValueView),
}

impl View for Bound {
    type V = BoundView;

    open spec fn view(&self) -> BoundView {
        match self {
            Bound::Name(name) => BoundView::Name(name@),
            Bound::Data(record) => BoundView::Data(record@),
            Bound::Operand(value) => BoundView::Operand(value@),
        }
    }
}

/// A variable of a statement, written `$name` in its text, and what it is
/// bound to.
#[derive(Debug, PartialEq)]
pub struct Variable {
    pub name: String,
    pub bound: Bound,
}

/// What a [`Variable`] stands for.
pub struct VariableView {
    pub name: Seq<char>,
    pub bound: BoundView,
}

impl View for Variable {
    type V = VariableView;

    open spec fn view(&self) -> VariableView {
        VariableView { name: self.name@, bound: self.bound@ }
    }
}

/// What each of a list of variables stands for.
pub open spec fn variables_view(vars: Seq<Variable>) -> Seq<VariableView> {
    vars.map_values(|v: Variable| v@)
}

/// The variable `tb`, bound to a table.
pub open spec fn table_variable(table: Seq<char>) -> VariableView {
    VariableView { name: "tb"@, bound: BoundView::Name(table) }
}

/// The variable `id`, bound to the key of an identifier.
pub open spec fn key_variable(key: Seq<char>) -> VariableView {
    VariableView { name: "id"@, bound: BoundView::Name(key) }
}

/// The variable `data`, bound to a record.
pub open spec fn data_variable(record: RecordView) -> VariableView {
    VariableView { name: "data"@, bound: BoundView::Data(record) }
}

/// The variables of a query, each bound to its operand.
pub open spec fn operand_variables(vars: Seq<BindingView>) -> Seq<VariableView> {
    Seq::new(
        vars.len(),
        |i: int| VariableView { name: vars[i].name, bound: BoundView::Operand(vars[i].value) },
    )
}

/// The variables that the statement of a request names, with what each is
/// bound to: the table first, then what the kind of request adds.
pub open spec fn statement_variables(request: RequestView) -> Seq<VariableView> {
    match request {
        RequestView::Create { table, content } => seq![
            table_variable(table),
            data_variable(content),
        ],
        RequestView::Get { id } => seq![table_variable(id.tb), key_variable(id.id)],
        RequestView::Update { id, patch } => seq![
            table_variable(id.tb),
            key_variable(id.id),
            data_variable(patch),
        ],
        RequestView::Delete { id } => seq![table_variable(id.tb), key_variable(id.id)],
        RequestView::List { table, query } => seq![table_variable(table)] + operand_variables(
            query.vars,
        ),
    }
}

/// No two of the variables have the same name.
pub open spec fn variable_names_differ(vars: Seq<VariableView>) -> bool {
    forall|i: int, j: int|
        0 <= i < j < vars.len() ==> (#[trigger] vars[i]).name != (#[trigger] vars[j]).name
}

/// Every variable of a statement has a name of its own, so that binding one
/// never overwrites another. For a request to list, this holds of the
/// queries that are built from a filter.
pub proof fn lemma_variables_have_their_own_names(
    request: RequestView,
    filter: Seq<Seq<FilterNodeView>>,
)
    requires
        request matches RequestView::List { query, .. } ==> query.vars == filter_bindings(filter),
    ensures
        variable_names_differ(statement_variables(request)),
{
    reveal_strlit("tb");
    reveal_strlit("id");
    reveal_strlit("data");
    let vars = statement_variables(request);
    assert("tb"@[0] == 't');
    assert("id"@[0] == 'i');
    assert("data"@[0] == 'd');
    match request {
        RequestView::List { table, query } => {
            lemma_bindings_have_their_own_names(filter);
            let operands = operand_variables(query.vars);
            assert forall|i: int, j: int| 0 <= i < j < vars.len() implies (#[trigger] vars[i]).name
                != (#[trigger] vars[j]).name by {
                assert(vars[j] == operands[j - 1]);
                assert(query.vars[j - 1].name[0] == 'w');
                if i > 0 {
                    assert(vars[i] == operands[i - 1]);
                    assert(query.vars[i - 1].name != query.vars[j - 1].name);
                }
            }
        },
        _ => {},
    }
}

fn table_var(table: &String) -> (v: Variable)
    ensures
        v@ == table_variable(table@),
{
    Variable { name: "tb".to_owned(), bound: Bound::Name(table.clone()) }
}

fn key_var(key: &String) -> (v: Variable)
    ensures
        v@ == key_variable(key@),
{
    Variable { name: "id".to_owned(), bound: Bound::Name(key.clone()) }
}

fn data_var(record: &Record) -> (v: Variable)
    ensures
        v@ == data_variable(record@),
{
    Variable { name: "data".to_owned(), bound: Bound::Data(record.duplicate()) }
}

impl Request {
    /// The variables that the statement names, with what each is bound to.
    pub fn variables(&self) -> (vars: Vec<Variable>)
        ensures
            variables_view(vars@) == statement_variables(self@),
    {
        let mut vars: Vec<Variable> = Vec::new();
        match self {
            Request::Create { table, content } => {
                vars.push(table_var(table));
                vars.push(data_var(content));
            },
            Request::Get { id } => {
                vars.push(table_var(&id.tb));
                vars.push(key_var(&id.id));
            },
            Request::Update { id, patch } => {
                vars.push(table_var(&id.tb));
                vars.push(key_var(&id.id));
                vars.push(data_var(patch));
            },
            Request::Delete { id } => {
                vars.push(table_var(&id.tb));
                vars.push(key_var(&id.id));
            },
            Request::List { table, query } => {
                vars.push(table_var(table));
                let mut i: usize = 0;
                while i < query.vars.len()
                    invariant
                        i <= query.vars.len(),
                        vars.len() == i + 1,
                        vars@[0]@ == table_variable(table@),
                        forall|j: int|
                            1 <= j <= i ==> (#[trigger] vars@[j])@ == operand_variables(
                                query@.vars,
                            )[j - 1],
                    decreases query.vars.len() - i,
                {
                    let binding = &query.vars[i];
                    assert(query@.vars[i as int] == binding@);
                    vars.push(
                        Variable {
                            name: binding.name.clone(),
                            bound: Bound::Operand(binding.value.duplicate()),
                        },
                    );
                    i += 1;
                }
            },
        }
        assert(variables_view(vars@) =~= statement_variables(self@));
        vars
    }
}

/// `surrealdb::err::Error::NoRecordFound`, the engine's own error for a
/// record that is not there. The value is built, nothing is called, and
/// nothing is claimed of it.
#[verifier::external_body]
fn no_record_found() -> (e: surrealdb::err::Error) {
    surrealdb::err::Error::NoRecordFound
}

/// Whether `r` is what creating in `table` asks of the backend, given how
/// the entity's conversion to a record went.
pub open spec fn is_create_request(
    table: Seq<char>,
    converted: Result<Record>,
    r: Result<Request>,
) -> bool {
    match converted {
        Ok(record) => r matches Ok(Request::Create { table: t, content }) && t@ == table && content
            == record,
        Err(e) => r == Err::<Request, Error>(e),
    }
}

/// The request that creates a record, from the outcome of the entity's
/// conversion. A failed conversion is the result, and no request is made.
pub fn create_request(table: &str, converted: Result<Record>) -> (r: Result<Request>)
    ensures
        is_create_request(table@, converted, r),
{
    match converted {
        Ok(content) => Ok(Request::Create { table: table.to_owned(), content }),
        Err(e) => Err(e),
    }
}

/// First step of `create`: converts the entity and asks for its insertion
/// into the entity type's table. If the conversion fails, that failure is
/// the result and the backend is asked nothing.
pub fn begin_create<T: Creatable>(entity: &T) -> (r: Result<Request>)
    ensures
        exists|table: &'static str, converted: Result<Record>|
            call_ensures(T::table, (), table) && call_ensures(T::to_thing, (entity,), converted)
                && is_create_request(table@, converted, r),
{
    let converted = entity.to_thing();
    let table = T::table();
    create_request(table, converted)
}

/// The first record of an answer, or the failure that its absence means when
/// a record was to be created.
pub open spec fn is_created_record(outcome: Outcome, r: Result<Record>) -> bool {
    match outcome {
        Err(e) => r == Err::<Record, Error>(Error::Surreal(e)),
        Ok(records) => if records.len() == 0 {
            r matches Err(Error::StoreFailToCreate(m)) && m@ == "nothing returned"@
        } else if records[0]@.id is None {
            r matches Err(Error::StoreFailToCreate(m)) && m@ == "no id returned"@
        } else {
            r == Ok::<Record, Error>(records[0])
        },
    }
}

/// The record that the backend created: the first of its answer, which must
/// carry an identifier. The backend's error is passed on inside
/// `Error::Surreal`; an answer without a record, or with a record that has no
/// identifier, is a failure to create.
pub fn created_record(outcome: Outcome) -> (r: Result<Record>)
    ensures
        is_created_record(outcome, r),
{
    match outcome {
        Err(e) => Err(Error::Surreal(e)),
        Ok(records) => {
            let mut records = records;
            if records.len() == 0 {
                Err(Error::StoreFailToCreate("nothing returned".to_owned()))
            } else {
                let first = records.remove(0);
                if first.id().is_none() {
                    Err(Error::StoreFailToCreate("no id returned".to_owned()))
                } else {
                    Ok(first)
                }
            }
        },
    }
}

/// Second step of `create`: hands the created record to the entity type's
/// conversion, whose result is the result. An entity that comes back was
/// read from a record that carries its identifier.
pub fn end_create<T: Creatable>(outcome: Outcome) -> (r: Result<T>)
    ensures
        exists|created: Result<Record>|
            is_created_record(outcome, created) && match created {
                Ok(record) => record@.id is Some && call_ensures(T::from_thing, (record,), r),
                Err(e) => r == Err::<T, Error>(e),
            },
{
    match created_record(outcome) {
        Ok(record) => T::from_thing(record),
        Err(e) => Err(e),
    }
}

/// First step of `get`: asks for the record that `id` addresses.
pub fn begin_get(id: Thing) -> (request: Request)
    ensures
        request == (Request::Get { id }),
{
    Request::Get { id }
}

/// The first record of an answer, or the failure that its absence means when
/// a record was addressed.
pub open spec fn is_found_record(outcome: Outcome, r: Result<Record>) -> bool {
    match outcome {
        Err(e) => r == Err::<Record, Error>(Error::Surreal(e)),
        Ok(records) => if records.len() == 0 {
            r matches Err(Error::Surreal(_))
        } else {
            r == Ok::<Record, Error>(records[0])
        },
    }
}

/// The record that was addressed: the first of the backend's answer. The
/// backend's error is passed on inside `Error::Surreal`; an answer without a
/// record means that there is no such record, which is reported as the
/// backend's own not-found error, inside `Error::Surreal` too.
pub fn found_record(outcome: Outcome) -> (r: Result<Record>)
    ensures
        is_found_record(outcome, r),
{
    match outcome {
        Err(e) => Err(Error::Surreal(e)),
        Ok(records) => {
            let mut records = records;
            if records.len() == 0 {
                Err(Error::Surreal(no_record_found()))
            } else {
                Ok(records.remove(0))
            }
        },
    }
}

/// Second step of `get`: hands the record to the entity type's conversion,
/// whose result is the result.
pub fn end_get<T: Creatable>(outcome: Outcome) -> (r: Result<T>)
    ensures
        exists|found: Result<Record>|
            is_found_record(outcome, found) && match found {
                Ok(record) => call_ensures(T::from_thing, (record,), r),
                Err(e) => r == Err::<T, Error>(e),
            },
{
    match found_record(outcome) {
        Ok(record) => T::from_thing(record),
        Err(e) => Err(e),
    }
}

/// Whether `r` is what updating the record at `id` asks of the backend,
/// given how the patch's conversion to a record went.
pub open spec fn is_update_request(id: Thing, converted: Result<Record>, r: Result<Request>) -> bool {
    match converted {
        Ok(record) => r == Ok::<Request, Error>(Request::Update { id, patch: record }),
        Err(e) => r == Err::<Request, Error>(e),
    }
}

/// The request that updates a record, from the outcome of the patch's
/// conversion. A failed conversion is the result, and no request is made.
pub fn update_request(id: Thing, converted: Result<Record>) -> (r: Result<Request>)
    ensures
        is_update_request(id, converted, r),
{
    match converted {
        Ok(patch) => Ok(Request::Update { id, patch }),
        Err(e) => Err(e),
    }
}

/// First step of `update`: converts the patch and asks for its merge into
/// the record that `id` addresses. If the conversion fails, that failure is
/// the result and the backend is asked nothing.
pub fn begin_update<P: Patchable>(id: Thing, patch: &P) -> (r: Result<Request>)
    ensures
        exists|converted: Result<Record>|
            call_ensures(P::to_patch, (patch,), converted) && is_update_request(id, converted, r),
{
    let converted = patch.to_patch();
    update_request(id, converted)
}

/// Second step of `update`: hands the acknowledged record to the patch
/// type's conversion, whose result is the result.
pub fn end_update<P: Patchable>(outcome: Outcome) -> (r: Result<P>)
    ensures
        exists|found: Result<Record>|
            is_found_record(outcome, found) && match found {
                Ok(record) => call_ensures(P::from_patch, (record,), r),
                Err(e) => r == Err::<P, Error>(e),
            },
{
    match found_record(outcome) {
        Ok(record) => P::from_patch(record),
        Err(e) => Err(e),
    }
}

/// First step of `delete`: asks for the removal of the record that `id`
/// addresses.
pub fn begin_delete(id: Thing) -> (request: Request)
    ensures
        request == (Request::Delete { id }),
{
    Request::Delete { id }
}

/// Second step of `delete`: the backend's error is passed on inside
/// `Error::Surreal`; any answer is success.
pub fn end_delete(outcome: Outcome) -> (r: Result<()>)
    ensures
        match outcome {
            Err(e) => r == Err::<(), Error>(Error::Surreal(e)),
            Ok(_) => r is Ok,
        },
{
    match outcome {
        Err(e) => Err(Error::Surreal(e)),
        Ok(_) => Ok(()),
    }
}

/// Whether `r` is what listing from `table` asks of the backend.
pub open spec fn is_list_request(
    table: Seq<char>,
    filter: FilterGroups,
    options: ListOptions,
    r: Result<Request>,
) -> bool {
    match first_unsupported(filter@) {
        Some(op) => r matches Err(Error::ModqlOperatorNotSupported(name)) && name@
            == op.spec_name(),
        None => r matches Ok(Request::List { table: t, query }) && t@ == table && query@.text
            == select_text(filter@, options@) && query@.vars == filter_bindings(filter@),
    }
}

/// The request that lists the records of `table` which pass `filter`, in
/// the order and the range that `options` ask for. A filter with an operator
/// that the backend has no spelling for is an error, and no request is made.
pub fn list_request(table: &str, filter: &FilterGroups, options: &ListOptions) -> (r: Result<
    Request,
>)
    ensures
        is_list_request(table@, *filter, *options, r),
{
    match build_select_query(filter, options) {
        Ok(query) => Ok(Request::List { table: table.to_owned(), query }),
        Err(e) => Err(e),
    }
}

/// First step of `list`: builds the query for the filter and the options
/// and asks for it to be run on the entity type's table.
pub fn begin_list<T: Creatable>(filter: &FilterGroups, options: &ListOptions) -> (r: Result<
    Request,
>)
    ensures
        exists|table: &'static str|
            call_ensures(T::table, (), table) && is_list_request(table@, *filter, *options, r),
{
    let table = T::table();
    list_request(table, filter, options)
}

fn reversed(records: Vec<Record>) -> (turned: Vec<Record>)
    ensures
        turned@ == records@.reverse(),
{
    let mut source = records;
    let mut turned: Vec<Record> = Vec::new();
    while source.len() > 0
        invariant
            source.len() + turned.len() == records.len(),
            source@ == records@.take(source.len() as int),
            forall|i: int| 0 <= i < turned.len() ==> turned@[i] == records@[records.len() - 1 - i],
        decreases source.len(),
    {
        match source.pop() {
            Some(record) => {
                assert(record == records@[source.len() as int]);
                turned.push(record);
            },
            None => {},
        }
        assert(source@ =~= records@.take(source.len() as int));
    }
    assert(turned@ =~= records@.reverse());
    turned
}

/// Whether the entity type's conversion can turn `record` into `item`.
pub open spec fn converts_to<T: Creatable>(record: Record, item: T) -> bool {
    call_ensures(T::from_thing, (record,), Ok::<T, Error>(item))
}

/// Whether the entity type's conversion can turn `record` into some entity.
pub open spec fn converts<T: Creatable>(record: Record) -> bool {
    exists|item: T| converts_to::<T>(record, item)
}

/// Whether the entity type's conversion can fail on `record` with `e`.
pub open spec fn fails_with<T: Creatable>(record: Record, e: Error) -> bool {
    call_ensures(T::from_thing, (record,), Err::<T, Error>(e))
}

/// Whether `e` is the failure of the record at place `i`, all records before
/// it having been converted.
pub open spec fn is_first_failure<T: Creatable>(records: Seq<Record>, i: int, e: Error) -> bool {
    0 <= i < records.len() && fails_with::<T>(records[i], e) && forall|j: int|
        0 <= j < i ==> converts::<T>(#[trigger] records[j])
}

/// Whether `r` is what converting `records` one after another gives: all
/// entities in the records' order, or the first failure.
pub open spec fn is_converted_list<T: Creatable>(records: Seq<Record>, r: Result<Vec<T>>) -> bool {
    match r {
        Ok(items) => items.len() == records.len() && forall|i: int|
            0 <= i < records.len() ==> converts_to::<T>(#[trigger] records[i], items[i]),
        Err(e) => exists|i: int| is_first_failure::<T>(records, i, e),
    }
}

/// Second step of `list`: hands each record of the answer, in order, to the
/// entity type's conversion. The result holds an entity for every record,
/// in the same order; the first conversion that fails ends the work and its
/// failure is the result. The backend's error is passed on inside
/// `Error::Surreal`.
#[verifier::loop_isolation(false)]
pub fn end_list<T: Creatable>(outcome: Outcome) -> (r: Result<Vec<T>>)
    ensures
        match outcome {
            Err(e) => r == Err::<Vec<T>, Error>(Error::Surreal(e)),
            Ok(records) => is_converted_list::<T>(records@, r),
        },
{
    match outcome {
        Err(e) => Err(Error::Surreal(e)),
        Ok(records) => {
            let ghost all = records@;
            let mut backlog = reversed(records);
            let mut items: Vec<T> = Vec::new();
            while backlog.len() > 0
                invariant
                    backlog.len() + items.len() == all.len(),
                    forall|k: int|
                        0 <= k < backlog.len() ==> backlog@[k] == all[all.len() - 1 - k],
                    forall|i: int|
                        0 <= i < items.len() ==> converts_to::<T>(#[trigger] all[i], items@[i]),
                decreases backlog.len(),
            {
                let ghost i = items.len() as int;
                match backlog.pop() {
                    Some(record) => {
                        assert(record == all[i]);
                        match T::from_thing(record) {
                            Ok(item) => {
                                items.push(item);
                            },
                            Err(e) => {
                                proof {
                                    assert forall|j: int| 0 <= j < i implies converts::<T>(
                                        #[trigger] all[j],
                                    ) by {
                                        assert(converts_to::<T>(all[j], items@[j]));
                                    }
                                    assert(is_first_failure::<T>(all, i, e));
                                }
                                return Err(e);
                            },
                        }
                    },
                    None => {},
                }
            }
            Ok(items)
        },
    }
}

} // verus!
