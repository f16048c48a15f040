//! The backend-agnostic description of what to select: groups of comparisons
//! on entity fields, and ordering and paging options.

use vstd::prelude::*;
use vstd::string::*;
use crate::value::{Value, ValueView};

verus! {

/// Every operator a filter can name. Only some have a place in the backend's
/// syntax; see [`Operator::symbol`].
#[derive(Clone, Copy, Debug, PartialEq, Eq, Structural)]
pub enum Operator {
    Eq,
    Not,
    In,
    NotIn,
    Lt,
    Lte,
    Gt,
    Gte,
    Empty,
    Contains,
    NotContains,
    ContainsIn,
    NotContainsIn,
    StartsWith,
    NotStartsWith,
    StartsWithIn,
    NotStartsWithIn,
    EndsWith,
    NotEndsWith,
    EndsWithIn,
    NotEndsWithIn,
}

impl Operator {
    /// The mapping table: the backend's spelling of the operator, where it has one.
    pub open spec fn spec_symbol(self) -> Option<Seq<char>> {
        match self {
            Operator::Eq => Some("="@),
            Operator::Not => Some("!="@),
            Operator::Lt => Some("<"@),
            Operator::Lte => Some("<="@),
            Operator::Gt => Some(">"@),
            Operator::Gte => Some(">="@),
            _ => None,
        }
    }

    /// Whether the mapping table has an entry for the operator.
    pub open spec fn spec_is_supported(self) -> bool {
        self.spec_symbol() is Some
    }

    /// The name by which the operator is reported.
    pub open spec fn spec_name(self) -> Seq<char> {
        match self {
            Operator::Eq => "Eq"@,
            Operator::Not => "Not"@,
            Operator::In => "In"@,
            Operator::NotIn => "NotIn"@,
            Operator::Lt => "Lt"@,
            Operator::Lte => "Lte"@,
            Operator::Gt => "Gt"@,
            Operator::Gte => "Gte"@,
            Operator::Empty => "Empty"@,
            Operator::Contains => "Contains"@,
            Operator::NotContains => "NotContains"@,
            Operator::ContainsIn => "ContainsIn"@,
            Operator::NotContainsIn => "NotContainsIn"@,
            Operator::StartsWith => "StartsWith"@,
            Operator::NotStartsWith => "NotStartsWith"@,
            Operator::StartsWithIn => "StartsWithIn"@,
            Operator::NotStartsWithIn => "NotStartsWithIn"@,
            Operator::EndsWith => "EndsWith"@,
            Operator::NotEndsWith => "NotEndsWith"@,
            Operator::EndsWithIn => "EndsWithIn"@,
            Operator::NotEndsWithIn => "NotEndsWithIn"@,
        }
    }

    /// Looks the operator up in the mapping table.
    pub fn symbol(&self) -> (s: Option<&'static str>)
        ensures
            s is Some <==> self.spec_symbol() is Some,
            s matches Some(t) ==> Some(t@) == self.spec_symbol(),
    {
        match self {
            Operator::Eq => Some("="),
            Operator::Not => Some("!="),
            Operator::Lt => Some("<"),
            Operator::Lte => Some("<="),
            Operator::Gt => Some(">"),
            Operator::Gte => Some(">="),
            _ => None,
        }
    }

    /// Whether the mapping table has an entry for the operator.
    pub fn is_supported(&self) -> (b: bool)
        ensures
            b == self.spec_is_supported(),
    {
        self.symbol().is_some()
    }

    /// The name by which the operator is reported.
    pub fn name(&self) -> (s: &'static str)
        ensures
            s@ == self.spec_name(),
    {
        match self {
            Operator::Eq => "Eq",
            Operator::Not => "Not",
            Operator::In => "In",
            Operator::NotIn => "NotIn",
            Operator::Lt => "Lt",
            Operator::Lte => "Lte",
            Operator::Gt => "Gt",
            Operator::Gte => "Gte",
            Operator::Empty => "Empty",
            Operator::Contains => "Contains",
            Operator::NotContains => "NotContains",
            Operator::ContainsIn => "ContainsIn",
            Operator::NotContainsIn => "NotContainsIn",
            Operator::StartsWith => "StartsWith",
            Operator::NotStartsWith => "NotStartsWith",
            Operator::StartsWithIn => "StartsWithIn",
            Operator::NotStartsWithIn => "NotStartsWithIn",
            Operator::EndsWith => "EndsWith",
            Operator::NotEndsWith => "NotEndsWith",
            Operator::EndsWithIn => "EndsWithIn",
            Operator::NotEndsWithIn => "NotEndsWithIn",
        }
    }
}

/// One comparison: an operator and the value it compares a field with.
#[derive(Debug, PartialEq)]
pub struct OpVal {
    pub op: Operator,
    pub value: Value,
}

/// What an [`OpVal`] stands for.
pub struct OpValView {
    pub op: Operator,
    pub value: ValueView,
}

impl View for OpVal {
    type V = OpValView;

    open spec fn view(&self) -> OpValView {
        OpValView { op: self.op, value: self.value@ }
    }
}

/// A field and the comparisons it must all pass.
#[derive(Debug, PartialEq)]
pub struct FilterNode {
    pub name: String,
    pub opvals: Vec<OpVal>,
}

/// What a [`FilterNode`] stands for.
pub struct FilterNodeView {
    pub name: Seq<char>,
    pub opvals: Seq<OpValView>,
}

impl View for FilterNode {
    type V = FilterNodeView;

    open spec fn view(&self) -> FilterNodeView {
        FilterNodeView { name: self.name@, opvals: self.opvals@.map_values(|o: OpVal| o@) }
    }
}

/// Nodes that must all pass: a conjunction.
#[derive(Debug, PartialEq)]
pub struct FilterGroup {
    pub nodes: Vec<FilterNode>,
}

impl View for FilterGroup {
    type V = Seq<FilterNodeView>;

    open spec fn view(&self) -> Seq<FilterNodeView> {
        self.nodes@.map_values(|n: FilterNode| n@)
    }
}

/// Groups of which one must pass: a disjunction of conjunctions. No group at
/// all selects everything.
#[derive(Debug, PartialEq)]
pub struct FilterGroups {
    pub groups: Vec<FilterGroup>,
}

impl View for FilterGroups {
    type V = Seq<Seq<FilterNodeView>>;

    open spec fn view(&self) -> Seq<Seq<FilterNodeView>> {
        self.groups@.map_values(|g: FilterGroup| g@)
    }
}

/// One sort field and its direction.
#[derive(Debug, PartialEq)]
pub enum OrderBy {
    Asc(String),
    Desc(String),
}

/// What an [`OrderBy`] stands for.
pub enum OrderByView {
    Asc(Seq<char>),
    Desc(Seq<char>),
}

impl View for OrderBy {
    type V = OrderByView;

    open spec fn view(&self) -> OrderByView {
        match self {
            OrderBy::Asc(name) => OrderByView::Asc(name@),
            OrderBy::Desc(name) => OrderByView::Desc(name@),
        }
    }
}

/// Ordering and paging, independent of the filter.
#[derive(Debug, PartialEq)]
pub struct ListOptions {
    pub limit: Option<i64>,
    pub offset: Option<i64>,
    pub order_bys: Vec<OrderBy>,
}

/// What a [`ListOptions`] stands for.
pub struct ListOptionsView {
    pub limit: Option<int>,
    pub offset: Option<int>,
    pub order_bys: Seq<OrderByView>,
}

impl View for ListOptions {
    type V = ListOptionsView;

    open spec fn view(&self) -> ListOptionsView {
        ListOptionsView {
            limit: match self.limit {
                Some(n) => Some(n as int),
                None => None,
            },
            offset: match self.offset {
                Some(n) => Some(n as int),
                None => None,
            },
            order_bys: self.order_bys@.map_values(|o: OrderBy| o@),
        }
    }
}

} // verus!
