//! From a filter and list options to the backend's query text.
//!
//! The text has a fixed layout: the selection itself, then the filter, then
//! the sort fields, then the limit, then the offset. Values never appear in
//! the text; each comparison refers to a variable, and the variables come
//! with the query as bindings.

use vstd::prelude::*;
use vstd::string::*;
use crate::error::{Error, Result};
use crate::filter::{
    FilterGroup,
    FilterGroups,
    FilterNode,
    FilterNodeView,
    ListOptions,
    ListOptionsView,
    Operator,
    OrderBy,
    OrderByView,
};
use crate::text::{
    decimal,
    is_digit,
    joined,
    lemma_decimal_digits,
    lemma_joined_push,
    lemma_number_of_decimal,
    push_decimal,
    push_signed_decimal,
    signed_decimal,
};
use crate::value::{Value, ValueView};

verus! {

/// A variable of a query and the value bound to it.
#[derive(Debug, PartialEq)]
pub struct Binding {
    pub name: String,
    pub value: Value,
}

/// What a [`Binding`] stands for.
pub struct BindingView {
    pub name: Seq<char>,
    pub value: ValueView,
}

impl View for Binding {
    type V = BindingView;

    open spec fn view(&self) -> BindingView {
        BindingView { name: self.name@, value: self.value@ }
    }
}

/// A query in the backend's own language, with the values of its variables.
/// The table is not part of it: the text selects from the variable `tb`,
/// which whoever runs the query binds.
#[derive(Debug, PartialEq)]
pub struct BackendQuery {
    pub text: String,
    pub vars: Vec<Binding>,
}

/// What a [`BackendQuery`] stands for.
pub struct BackendQueryView {
    pub text: Seq<char>,
    pub vars: Seq<BindingView>,
}

/// What each of a list of bindings stands for.
pub open spec fn bindings_view(vars: Seq<Binding>) -> Seq<BindingView> {
    vars.map_values(|b: Binding| b@)
}

impl View for BackendQuery {
    type V = BackendQueryView;

    open spec fn view(&self) -> BackendQueryView {
        BackendQueryView { text: self.text@, vars: bindings_view(self.vars@) }
    }
}

/// One comparison as the query text shows it: a field, the backend's
/// operator symbol, and the variable that holds the value.
pub struct Comparison {
    pub field: Seq<char>,
    pub symbol: Seq<char>,
    pub var: Seq<char>,
}

/// The variable of the comparison at place `k` of node `n` of group `g`.
pub open spec fn var_name(g: nat, n: nat, k: nat) -> Seq<char> {
    "w"@ + decimal(g) + "_"@ + decimal(n) + "_"@ + decimal(k)
}

/// The backend's spelling of `op`; empty where the mapping table has none.
pub open spec fn symbol_text(op: Operator) -> Seq<char> {
    match op.spec_symbol() {
        Some(s) => s,
        None => Seq::empty(),
    }
}

/// The comparisons of one node, in order.
pub open spec fn node_comparisons(node: FilterNodeView, g: nat, n: nat) -> Seq<Comparison> {
    Seq::new(
        node.opvals.len(),
        |k: int|
            Comparison {
                field: node.name,
                symbol: symbol_text(node.opvals[k].op),
                var: var_name(g, n, k as nat),
            },
    )
}

/// The bindings of one node, in order.
pub open spec fn node_bindings(node: FilterNodeView, g: nat, n: nat) -> Seq<BindingView> {
    Seq::new(
        node.opvals.len(),
        |k: int| BindingView { name: var_name(g, n, k as nat), value: node.opvals[k].value },
    )
}

/// The comparisons of the first `count` nodes of a group, in order.
pub open spec fn group_comparisons_upto(nodes: Seq<FilterNodeView>, g: nat, count: nat) -> Seq<
    Comparison,
>
    decreases count,
{
    if count == 0 {
        Seq::empty()
    } else {
        group_comparisons_upto(nodes, g, (count - 1) as nat) + node_comparisons(
            nodes[count - 1],
            g,
            (count - 1) as nat,
        )
    }
}

/// All comparisons of a group, in order: node after node, and inside a node
/// comparison after comparison.
pub open spec fn group_comparisons(nodes: Seq<FilterNodeView>, g: nat) -> Seq<Comparison> {
    group_comparisons_upto(nodes, g, nodes.len())
}

/// The bindings of the first `count` nodes of a group, in order.
pub open spec fn group_bindings_upto(nodes: Seq<FilterNodeView>, g: nat, count: nat) -> Seq<
    BindingView,
>
    decreases count,
{
    if count == 0 {
        Seq::empty()
    } else {
        group_bindings_upto(nodes, g, (count - 1) as nat) + node_bindings(
            nodes[count - 1],
            g,
            (count - 1) as nat,
        )
    }
}

/// All bindings of a group, in the order of its comparisons.
pub open spec fn group_bindings(nodes: Seq<FilterNodeView>, g: nat) -> Seq<BindingView> {
    group_bindings_upto(nodes, g, nodes.len())
}

/// The bindings of the first `count` groups of a filter, in order.
pub open spec fn filter_bindings_upto(filter: Seq<Seq<FilterNodeView>>, count: nat) -> Seq<
    BindingView,
>
    decreases count,
{
    if count == 0 {
        Seq::empty()
    } else {
        filter_bindings_upto(filter, (count - 1) as nat) + group_bindings(
            filter[count - 1],
            (count - 1) as nat,
        )
    }
}

/// All bindings of a filter, in the order in which the text names them.
pub open spec fn filter_bindings(filter: Seq<Seq<FilterNodeView>>) -> Seq<BindingView> {
    filter_bindings_upto(filter, filter.len())
}

/// The structure of a filter as the query text shows it: for each group, in
/// order, its comparisons, in order.
pub open spec fn filter_shape(filter: Seq<Seq<FilterNodeView>>) -> Seq<Seq<Comparison>> {
    Seq::new(filter.len(), |g: int| group_comparisons(filter[g], g as nat))
}

/// `field symbol $var`
pub open spec fn comparison_text(c: Comparison) -> Seq<char> {
    c.field + " "@ + c.symbol + " $"@ + c.var
}

/// The text of each comparison.
pub open spec fn comparison_texts(cs: Seq<Comparison>) -> Seq<Seq<char>> {
    cs.map_values(|c: Comparison| comparison_text(c))
}

/// A group in round brackets, its comparisons joined by `AND`. A group
/// without comparisons holds of every record and is written `(true)`.
pub open spec fn group_text(cs: Seq<Comparison>) -> Seq<char> {
    "("@ + (if cs.len() == 0 {
        "true"@
    } else {
        joined(comparison_texts(cs), " AND "@)
    }) + ")"@
}

/// The text of each group.
pub open spec fn group_texts(shape: Seq<Seq<Comparison>>) -> Seq<Seq<char>> {
    shape.map_values(|cs: Seq<Comparison>| group_text(cs))
}

/// The filter clause: the groups joined by `OR`, each kept in its own
/// brackets and in its place. Without groups there is no clause.
pub open spec fn where_text(shape: Seq<Seq<Comparison>>) -> Seq<char> {
    if shape.len() == 0 {
        Seq::empty()
    } else {
        " WHERE "@ + joined(group_texts(shape), " OR "@)
    }
}

/// A sort field followed by its direction.
pub open spec fn order_by_text(o: OrderByView) -> Seq<char> {
    match o {
        OrderByView::Asc(name) => name + " ASC"@,
        OrderByView::Desc(name) => name + " DESC"@,
    }
}

/// The text of each sort field.
pub open spec fn order_by_texts(order_bys: Seq<OrderByView>) -> Seq<Seq<char>> {
    order_bys.map_values(|o: OrderByView| order_by_text(o))
}

/// The sort clause: the sort fields in order, separated by commas. Without
/// sort fields there is no clause.
pub open spec fn order_text(order_bys: Seq<OrderByView>) -> Seq<char> {
    if order_bys.len() == 0 {
        Seq::empty()
    } else {
        " ORDER BY "@ + joined(order_by_texts(order_bys), ","@)
    }
}

/// The limit clause, if a limit is set.
pub open spec fn limit_text(limit: Option<int>) -> Seq<char> {
    match limit {
        Some(n) => " LIMIT "@ + signed_decimal(n),
        None => Seq::empty(),
    }
}

/// The offset clause, if an offset is set.
pub open spec fn start_text(offset: Option<int>) -> Seq<char> {
    match offset {
        Some(n) => " START "@ + signed_decimal(n),
        None => Seq::empty(),
    }
}

/// How every query begins.
pub open spec fn select_head() -> Seq<char> {
    "SELECT * FROM type::table($tb)"@
}

/// The text of the query for a filter and list options: the selection, the
/// filter clause, the sort clause, the limit, the offset, in this order.
pub open spec fn select_text(filter: Seq<Seq<FilterNodeView>>, options: ListOptionsView) -> Seq<
    char,
> {
    select_head() + where_text(filter_shape(filter)) + order_text(options.order_bys) + limit_text(
        options.limit,
    ) + start_text(options.offset)
}

/// The first element that holds something.
pub open spec fn first_some<T>(s: Seq<Option<T>>) -> Option<T>
    decreases s.len(),
{
    if s.len() == 0 {
        None
    } else if s[0] is Some {
        s[0]
    } else {
        first_some(s.drop_first())
    }
}

/// The first operator of a node that the mapping table lacks.
pub open spec fn node_unsupported(node: FilterNodeView) -> Option<Operator> {
    first_some(
        Seq::new(
            node.opvals.len(),
            |k: int|
                if node.opvals[k].op.spec_is_supported() {
                    None
                } else {
                    Some(node.opvals[k].op)
                },
        ),
    )
}

/// The first operator of a group that the mapping table lacks.
pub open spec fn group_unsupported(nodes: Seq<FilterNodeView>) -> Option<Operator> {
    first_some(Seq::new(nodes.len(), |n: int| node_unsupported(nodes[n])))
}

/// The first operator of a filter, in reading order, that the mapping table
/// lacks.
pub open spec fn first_unsupported(filter: Seq<Seq<FilterNodeView>>) -> Option<Operator> {
    first_some(Seq::new(filter.len(), |g: int| group_unsupported(filter[g])))
}

/// Every operator of the group is in the mapping table.
pub open spec fn group_supported(nodes: Seq<FilterNodeView>) -> bool {
    forall|n: int, k: int|
        0 <= n < nodes.len() && 0 <= k < nodes[n].opvals.len()
            ==> #[trigger] nodes[n].opvals[k].op.spec_is_supported()
}

proof fn lemma_first_some_at<T>(s: Seq<Option<T>>, i: int)
    requires
        0 <= i < s.len(),
        s[i] is Some,
        forall|j: int| 0 <= j < i ==> s[j] is None,
    ensures
        first_some(s) == s[i],
    decreases i,
{
    if i > 0 {
        let t = s.drop_first();
        assert forall|j: int| 0 <= j < i - 1 implies t[j] is None by {
            assert(t[j] == s[j + 1]);
        }
        lemma_first_some_at(t, i - 1);
    }
}

proof fn lemma_first_some_none<T>(s: Seq<Option<T>>)
    requires
        forall|j: int| 0 <= j < s.len() ==> s[j] is None,
    ensures
        first_some(s) is None,
    decreases s.len(),
{
    if s.len() > 0 {
        let t = s.drop_first();
        assert forall|j: int| 0 <= j < t.len() implies t[j] is None by {
            assert(t[j] == s[j + 1]);
        }
        lemma_first_some_none(t);
    }
}

proof fn lemma_split_at_underscore(x1: Seq<char>, t1: Seq<char>, x2: Seq<char>, t2: Seq<char>)
    requires
        forall|i: int| 0 <= i < x1.len() ==> is_digit(#[trigger] x1[i]),
        forall|i: int| 0 <= i < x2.len() ==> is_digit(#[trigger] x2[i]),
        x1 + seq!['_'] + t1 == x2 + seq!['_'] + t2,
    ensures
        x1 == x2,
        t1 == t2,
{
    let a = x1 + seq!['_'] + t1;
    let b = x2 + seq!['_'] + t2;
    if x1.len() < x2.len() {
        assert(a[x1.len() as int] == '_');
        assert(b[x1.len() as int] == x2[x1.len() as int]);
        assert(is_digit(x2[x1.len() as int]));
    } else if x2.len() < x1.len() {
        assert(b[x2.len() as int] == '_');
        assert(a[x2.len() as int] == x1[x2.len() as int]);
        assert(is_digit(x1[x2.len() as int]));
    }
    assert(x1 =~= a.take(x1.len() as int));
    assert(x2 =~= b.take(x2.len() as int));
    assert(t1 =~= a.skip(x1.len() as int + 1));
    assert(t2 =~= b.skip(x2.len() as int + 1));
}

/// Each place has a variable of its own: if two places have the same
/// variable, they are the same place.
pub proof fn lemma_var_names_differ(g1: nat, n1: nat, k1: nat, g2: nat, n2: nat, k2: nat)
    requires
        var_name(g1, n1, k1) == var_name(g2, n2, k2),
    ensures
        g1 == g2,
        n1 == n2,
        k1 == k2,
{
    reveal_strlit("w");
    reveal_strlit("_");
    let u = seq!['_'];
    assert("_"@ =~= u);
    lemma_decimal_digits(g1);
    lemma_decimal_digits(g2);
    lemma_decimal_digits(n1);
    lemma_decimal_digits(n2);
    let a = var_name(g1, n1, k1);
    let b = var_name(g2, n2, k2);
    let ta = decimal(n1) + u + decimal(k1);
    let tb = decimal(n2) + u + decimal(k2);
    assert(a.skip(1) =~= decimal(g1) + u + ta);
    assert(b.skip(1) =~= decimal(g2) + u + tb);
    lemma_split_at_underscore(decimal(g1), ta, decimal(g2), tb);
    lemma_split_at_underscore(decimal(n1), decimal(k1), decimal(n2), decimal(k2));
    lemma_number_of_decimal(g1);
    lemma_number_of_decimal(g2);
    lemma_number_of_decimal(n1);
    lemma_number_of_decimal(n2);
    lemma_number_of_decimal(k1);
    lemma_number_of_decimal(k2);
}

/// No two of the bindings have the same name.
pub open spec fn names_differ(vars: Seq<BindingView>) -> bool {
    forall|i: int, j: int|
        0 <= i < j < vars.len() ==> (#[trigger] vars[i]).name != (#[trigger] vars[j]).name
}

/// Whether `name` is the variable of a place in one of the first `count`
/// nodes of group `g`.
spec fn named_in_group(name: Seq<char>, g: nat, count: nat) -> bool {
    exists|n: nat, k: nat| n < count && name == #[trigger] var_name(g, n, k)
}

/// Whether `name` is the variable of a place in one of the first `count`
/// groups.
spec fn named_in_filter(name: Seq<char>, count: nat) -> bool {
    exists|g: nat, n: nat, k: nat| g < count && name == #[trigger] var_name(g, n, k)
}

proof fn lemma_group_names(nodes: Seq<FilterNodeView>, g: nat, count: nat)
    requires
        count <= nodes.len(),
    ensures
        names_differ(group_bindings_upto(nodes, g, count)),
        forall|i: int|
            0 <= i < group_bindings_upto(nodes, g, count).len() ==> named_in_group(
                (#[trigger] group_bindings_upto(nodes, g, count)[i]).name,
                g,
                count,
            ),
    decreases count,
{
    if count > 0 {
        let n = (count - 1) as nat;
        lemma_group_names(nodes, g, n);
        let before = group_bindings_upto(nodes, g, n);
        let here = node_bindings(nodes[n as int], g, n);
        let all = group_bindings_upto(nodes, g, count);
        assert(all == before + here);
        assert forall|i: int| 0 <= i < all.len() implies named_in_group(
            (#[trigger] all[i]).name,
            g,
            count,
        ) by {
            if i < before.len() {
                assert(all[i] == before[i]);
                assert(named_in_group(before[i].name, g, n));
                let (n0, k0) = choose|n0: nat, k0: nat|
                    n0 < n && before[i].name == #[trigger] var_name(g, n0, k0);
                assert(n0 < count && all[i].name == var_name(g, n0, k0));
            } else {
                let k = (i - before.len()) as nat;
                assert(all[i] == here[k as int]);
                assert(n < count && all[i].name == var_name(g, n, k));
            }
        }
        assert forall|i: int, j: int| 0 <= i < j < all.len() implies (#[trigger] all[i]).name != (
        #[trigger] all[j]).name by {
            if j < before.len() {
                assert(all[i] == before[i] && all[j] == before[j]);
            } else {
                let kj = (j - before.len()) as nat;
                assert(all[j] == here[kj as int]);
                if i < before.len() {
                    assert(all[i] == before[i]);
                    assert(named_in_group(before[i].name, g, n));
                    let (n0, k0) = choose|n0: nat, k0: nat|
                        n0 < n && before[i].name == #[trigger] var_name(g, n0, k0);
                    if all[i].name == all[j].name {
                        lemma_var_names_differ(g, n0, k0, g, n, kj);
                    }
                } else {
                    let ki = (i - before.len()) as nat;
                    assert(all[i] == here[ki as int]);
                    if all[i].name == all[j].name {
                        lemma_var_names_differ(g, n, ki, g, n, kj);
                    }
                }
            }
        }
    }
}

proof fn lemma_filter_names(filter: Seq<Seq<FilterNodeView>>, count: nat)
    requires
        count <= filter.len(),
    ensures
        names_differ(filter_bindings_upto(filter, count)),
        forall|i: int|
            0 <= i < filter_bindings_upto(filter, count).len() ==> named_in_filter(
                (#[trigger] filter_bindings_upto(filter, count)[i]).name,
                count,
            ),
    decreases count,
{
    if count > 0 {
        let g = (count - 1) as nat;
        lemma_filter_names(filter, g);
        let nodes = filter[g as int];
        lemma_group_names(nodes, g, nodes.len());
        let before = filter_bindings_upto(filter, g);
        let here = group_bindings(nodes, g);
        let all = filter_bindings_upto(filter, count);
        assert(all == before + here);
        assert forall|i: int| 0 <= i < all.len() implies named_in_filter(
            (#[trigger] all[i]).name,
            count,
        ) by {
            if i < before.len() {
                assert(all[i] == before[i]);
                assert(named_in_filter(before[i].name, g));
                let (g0, n0, k0) = choose|g0: nat, n0: nat, k0: nat|
                    g0 < g && before[i].name == #[trigger] var_name(g0, n0, k0);
                assert(g0 < count && all[i].name == var_name(g0, n0, k0));
            } else {
                let at = i - before.len();
                assert(all[i] == here[at]);
                assert(named_in_group(here[at].name, g, nodes.len()));
                let (n0, k0) = choose|n0: nat, k0: nat|
                    n0 < nodes.len() && here[at].name == #[trigger] var_name(g, n0, k0);
                assert(g < count && all[i].name == var_name(g, n0, k0));
            }
        }
        assert forall|i: int, j: int| 0 <= i < j < all.len() implies (#[trigger] all[i]).name != (
        #[trigger] all[j]).name by {
            if j < before.len() {
                assert(all[i] == before[i] && all[j] == before[j]);
            } else {
                let aj = j - before.len();
                assert(all[j] == here[aj]);
                if i < before.len() {
                    assert(all[i] == before[i]);
                    assert(named_in_filter(before[i].name, g));
                    let (g0, n0, k0) = choose|g0: nat, n0: nat, k0: nat|
                        g0 < g && before[i].name == #[trigger] var_name(g0, n0, k0);
                    assert(named_in_group(here[aj].name, g, nodes.len()));
                    let (n1, k1) = choose|n1: nat, k1: nat|
                        n1 < nodes.len() && here[aj].name == #[trigger] var_name(g, n1, k1);
                    if all[i].name == all[j].name {
                        lemma_var_names_differ(g0, n0, k0, g, n1, k1);
                    }
                } else {
                    let ai = i - before.len();
                    assert(all[i] == here[ai]);
                }
            }
        }
    }
}

/// Every comparison of a filter has a variable of its own: no two bindings
/// of a query share a name, so none can stand in for another. And each name
/// begins with the letter `w`.
pub proof fn lemma_bindings_have_their_own_names(filter: Seq<Seq<FilterNodeView>>)
    ensures
        names_differ(filter_bindings(filter)),
        forall|i: int|
            0 <= i < filter_bindings(filter).len() ==> (#[trigger] filter_bindings(
                filter,
            )[i]).name.len() > 0 && filter_bindings(filter)[i].name[0] == 'w',
{
    reveal_strlit("w");
    lemma_filter_names(filter, filter.len());
    let all = filter_bindings(filter);
    assert forall|i: int| 0 <= i < all.len() implies (#[trigger] all[i]).name.len() > 0
        && all[i].name[0] == 'w' by {
        assert(named_in_filter(all[i].name, filter.len()));
        let (g0, n0, k0) = choose|g0: nat, n0: nat, k0: nat|
            g0 < filter.len() && all[i].name == #[trigger] var_name(g0, n0, k0);
        assert(var_name(g0, n0, k0)[0] == "w"@[0]);
    }
}

fn scan_node(node: &FilterNode) -> (found: Option<Operator>)
    ensures
        found == node_unsupported(node@),
        found is None ==> forall|k: int|
            0 <= k < node@.opvals.len() ==> #[trigger] node@.opvals[k].op.spec_is_supported(),
{
    let ghost marks = Seq::new(
        node@.opvals.len(),
        |k: int|
            if node@.opvals[k].op.spec_is_supported() {
                None
            } else {
                Some(node@.opvals[k].op)
            },
    );
    let mut k: usize = 0;
    while k < node.opvals.len()
        invariant
            k <= node.opvals.len(),
            marks.len() == node.opvals.len(),
            marks == Seq::new(
                node@.opvals.len(),
                |k: int|
                    if node@.opvals[k].op.spec_is_supported() {
                        None
                    } else {
                        Some(node@.opvals[k].op)
                    },
            ),
            forall|j: int| 0 <= j < k ==> marks[j] is None,
        decreases node.opvals.len() - k,
    {
        let op = node.opvals[k].op;
        if !op.is_supported() {
            proof {
                lemma_first_some_at(marks, k as int);
            }
            return Some(op);
        }
        k += 1;
    }
    proof {
        lemma_first_some_none(marks);
        assert forall|j: int| 0 <= j < node@.opvals.len() implies #[trigger] node@.opvals[j].op.spec_is_supported() by {
            assert(marks[j] is None);
        }
    }
    None
}

fn scan_group(group: &FilterGroup) -> (found: Option<Operator>)
    ensures
        found == group_unsupported(group@),
        found is None ==> group_supported(group@),
{
    let ghost marks = Seq::new(group@.len(), |n: int| node_unsupported(group@[n]));
    let mut n: usize = 0;
    while n < group.nodes.len()
        invariant
            n <= group.nodes.len(),
            marks == Seq::new(group@.len(), |n: int| node_unsupported(group@[n])),
            forall|j: int| 0 <= j < n ==> marks[j] is None,
            forall|j: int, k: int|
                0 <= j < n && 0 <= k < group@[j].opvals.len()
                    ==> #[trigger] group@[j].opvals[k].op.spec_is_supported(),
        decreases group.nodes.len() - n,
    {
        let node = &group.nodes[n];
        assert(group@[n as int] == node@);
        let found = scan_node(node);
        if found.is_some() {
            proof {
                lemma_first_some_at(marks, n as int);
            }
            return found;
        }
        assert forall|j: int, k: int|
            0 <= j < n + 1 && 0 <= k < group@[j].opvals.len() implies #[trigger] group@[j].opvals[k].op.spec_is_supported() by {
            if j == n {
                assert(node@.opvals[k].op.spec_is_supported());
            }
        }
        n += 1;
    }
    proof {
        lemma_first_some_none(marks);
    }
    None
}

fn scan_filter(filter: &FilterGroups) -> (found: Option<Operator>)
    ensures
        found == first_unsupported(filter@),
        found is None ==> forall|g: int| 0 <= g < filter@.len() ==> group_supported(#[trigger] filter@[g]),
{
    let ghost marks = Seq::new(filter@.len(), |g: int| group_unsupported(filter@[g]));
    let mut g: usize = 0;
    while g < filter.groups.len()
        invariant
            g <= filter.groups.len(),
            marks == Seq::new(filter@.len(), |g: int| group_unsupported(filter@[g])),
            forall|j: int| 0 <= j < g ==> marks[j] is None,
            forall|j: int| 0 <= j < g ==> group_supported(#[trigger] filter@[j]),
        decreases filter.groups.len() - g,
    {
        let group = &filter.groups[g];
        assert(filter@[g as int] == group@);
        let found = scan_group(group);
        if found.is_some() {
            proof {
                lemma_first_some_at(marks, g as int);
            }
            return found;
        }
        g += 1;
    }
    proof {
        lemma_first_some_none(marks);
    }
    None
}

fn make_var_name(g: usize, n: usize, k: usize) -> (name: String)
    ensures
        name@ == var_name(g as nat, n as nat, k as nat),
{
    let mut name = String::new();
    name.append("w");
    push_decimal(&mut name, g as u64);
    name.append("_");
    push_decimal(&mut name, n as u64);
    name.append("_");
    push_decimal(&mut name, k as u64);
    assert(name@ =~= var_name(g as nat, n as nat, k as nat));
    name
}

fn push_group(out: &mut String, vars: &mut Vec<Binding>, group: &FilterGroup, g: usize)
    requires
        group_supported(group@),
    ensures
        final(out)@ == old(out)@ + group_text(group_comparisons(group@, g as nat)),
        bindings_view(final(vars)@) == bindings_view(old(vars)@) + group_bindings(
            group@,
            g as nat,
        ),
{
    out.append("(");
    let ghost start = out@;
    let ghost base = bindings_view(vars@);
    let ghost mut cs: Seq<Comparison> = Seq::empty();
    let ghost mut bs: Seq<BindingView> = Seq::empty();
    let mut any = false;
    let mut n: usize = 0;
    assert(comparison_texts(cs) =~= Seq::<Seq<char>>::empty());
    assert(bindings_view(vars@) =~= base + bs);
    while n < group.nodes.len()
        invariant
            n <= group.nodes.len(),
            group_supported(group@),
            cs == group_comparisons_upto(group@, g as nat, n as nat),
            bs == group_bindings_upto(group@, g as nat, n as nat),
            any == (cs.len() > 0),
            out@ == start + joined(comparison_texts(cs), " AND "@),
            bindings_view(vars@) == base + bs,
        decreases group.nodes.len() - n,
    {
        let node = &group.nodes[n];
        let ghost before_cs = cs;
        let ghost before_bs = bs;
        let mut k: usize = 0;
        assert(node@ == group@[n as int]);
        assert(cs =~= before_cs + node_comparisons(node@, g as nat, n as nat).take(0));
        assert(bs =~= before_bs + node_bindings(node@, g as nat, n as nat).take(0));
        while k < node.opvals.len()
            invariant
                k <= node.opvals.len(),
                n < group.nodes.len(),
                node@ == group@[n as int],
                group_supported(group@),
                cs == before_cs + node_comparisons(node@, g as nat, n as nat).take(k as int),
                bs == before_bs + node_bindings(node@, g as nat, n as nat).take(k as int),
                any == (cs.len() > 0),
                out@ == start + joined(comparison_texts(cs), " AND "@),
                bindings_view(vars@) == base + bs,
            decreases node.opvals.len() - k,
        {
            let opval = &node.opvals[k];
            assert(opval@ == node@.opvals[k as int]);
            assert(group@[n as int].opvals[k as int].op.spec_is_supported());
            let ghost c = Comparison {
                field: node@.name,
                symbol: symbol_text(opval.op),
                var: var_name(g as nat, n as nat, k as nat),
            };
            let ghost b = BindingView {
                name: var_name(g as nat, n as nat, k as nat),
                value: opval@.value,
            };
            if any {
                out.append(" AND ");
            }
            match opval.op.symbol() {
                Some(symbol) => {
                    let ghost line = out@;
                    out.append(node.name.as_str());
                    out.append(" ");
                    out.append(symbol);
                    out.append(" $");
                    let name = make_var_name(g, n, k);
                    out.append(name.as_str());
                    assert(out@ =~= line + comparison_text(c));
                    let ghost vars_before = vars@;
                    vars.push(Binding { name, value: opval.value.duplicate() });
                    assert(bindings_view(vars@) =~= bindings_view(vars_before).push(b));
                },
                None => {
                    assert(false);
                },
            }
            proof {
                lemma_joined_push(comparison_texts(cs), " AND "@, comparison_text(c));
                assert(comparison_texts(cs.push(c)) =~= comparison_texts(cs).push(
                    comparison_text(c),
                ));
                assert(out@ =~= start + joined(comparison_texts(cs.push(c)), " AND "@));
                assert(node_comparisons(node@, g as nat, n as nat).take(k as int + 1)
                    =~= node_comparisons(node@, g as nat, n as nat).take(k as int).push(c));
                assert(node_bindings(node@, g as nat, n as nat).take(k as int + 1)
                    =~= node_bindings(node@, g as nat, n as nat).take(k as int).push(b));
                assert(cs.push(c) =~= before_cs + node_comparisons(
                    node@,
                    g as nat,
                    n as nat,
                ).take(k as int + 1));
                assert(bs.push(b) =~= before_bs + node_bindings(node@, g as nat, n as nat).take(
                    k as int + 1,
                ));
                assert(base + bs.push(b) =~= (base + bs).push(b));
                cs = cs.push(c);
                bs = bs.push(b);
            }
            any = true;
            k += 1;
        }
        proof {
            assert(node_comparisons(node@, g as nat, n as nat).take(k as int)
                =~= node_comparisons(node@, g as nat, n as nat));
            assert(node_bindings(node@, g as nat, n as nat).take(k as int) =~= node_bindings(
                node@,
                g as nat,
                n as nat,
            ));
        }
        n += 1;
    }
    if !any {
        out.append("true");
    }
    out.append(")");
    proof {
        assert(group@.len() == group.nodes.len());
        assert(out@ =~= old(out)@ + group_text(group_comparisons(group@, g as nat)));
    }
}

fn push_order(out: &mut String, order_bys: &Vec<OrderBy>)
    ensures
        final(out)@ == old(out)@ + order_text(order_bys@.map_values(|o: OrderBy| o@)),
{
    let ghost views = order_bys@.map_values(|o: OrderBy| o@);
    if order_bys.len() == 0 {
        assert(out@ =~= old(out)@ + order_text(views));
        return ;
    }
    out.append(" ORDER BY ");
    let ghost start = out@;
    let mut i: usize = 0;
    assert(order_by_texts(views.take(0)) =~= Seq::<Seq<char>>::empty());
    while i < order_bys.len()
        invariant
            i <= order_bys.len(),
            views == order_bys@.map_values(|o: OrderBy| o@),
            out@ == start + joined(order_by_texts(views.take(i as int)), ","@),
        decreases order_bys.len() - i,
    {
        if i > 0 {
            out.append(",");
        }
        let ghost line = out@;
        match &order_bys[i] {
            OrderBy::Asc(name) => {
                out.append(name.as_str());
                out.append(" ASC");
            },
            OrderBy::Desc(name) => {
                out.append(name.as_str());
                out.append(" DESC");
            },
        }
        proof {
            let done = views.take(i as int);
            let part = order_by_text(views[i as int]);
            assert(out@ =~= line + part);
            lemma_joined_push(order_by_texts(done), ","@, part);
            assert(views.take(i as int + 1) =~= done.push(views[i as int]));
            assert(order_by_texts(done.push(views[i as int])) =~= order_by_texts(done).push(part));
        }
        i += 1;
    }
    proof {
        assert(views.take(i as int) =~= views);
        assert(out@ =~= old(out)@ + order_text(views));
    }
}

/// Builds the backend's query for a filter and list options.
///
/// If the filter names an operator that the mapping table lacks, nothing is
/// built and the error names the first such operator in reading order.
/// Otherwise the query's text is [`select_text`] of the two arguments and
/// its bindings are [`filter_bindings`] of the filter: groups, and inside
/// them comparisons, stay in their places.
pub fn build_select_query(filter: &FilterGroups, options: &ListOptions) -> (r: Result<
    BackendQuery,
>)
    ensures
        match first_unsupported(filter@) {
            Some(op) => r matches Err(Error::ModqlOperatorNotSupported(name)) && name@
                == op.spec_name(),
            None => r matches Ok(q) && q@.text == select_text(filter@, options@) && q@.vars
                == filter_bindings(filter@),
        },
{
    match scan_filter(filter) {
        Some(op) => {
            return Err(Error::ModqlOperatorNotSupported(op.name().to_owned()));
        },
        None => {},
    }
    let mut out = String::new();
    let mut vars: Vec<Binding> = Vec::new();
    out.append("SELECT * FROM type::table($tb)");
    let ghost shape = filter_shape(filter@);
    if filter.groups.len() > 0 {
        out.append(" WHERE ");
        let ghost start = out@;
        let mut g: usize = 0;
        assert(group_texts(shape.take(0)) =~= Seq::<Seq<char>>::empty());
        assert(bindings_view(vars@) =~= filter_bindings_upto(filter@, 0));
        while g < filter.groups.len()
            invariant
                g <= filter.groups.len(),
                shape == filter_shape(filter@),
                forall|j: int| 0 <= j < filter@.len() ==> group_supported(#[trigger] filter@[j]),
                out@ == start + joined(group_texts(shape.take(g as int)), " OR "@),
                bindings_view(vars@) == filter_bindings_upto(filter@, g as nat),
            decreases filter.groups.len() - g,
        {
            if g > 0 {
                out.append(" OR ");
            }
            let ghost line = out@;
            let group = &filter.groups[g];
            assert(group@ == filter@[g as int]);
            push_group(&mut out, &mut vars, group, g);
            proof {
                let done = shape.take(g as int);
                let part = group_text(shape[g as int]);
                assert(out@ =~= line + part);
                lemma_joined_push(group_texts(done), " OR "@, part);
                assert(shape.take(g as int + 1) =~= done.push(shape[g as int]));
                assert(group_texts(done.push(shape[g as int])) =~= group_texts(done).push(part));
            }
            g += 1;
        }
        proof {
            assert(shape.take(g as int) =~= shape);
        }
    }
    let ghost after_where = out@;
    assert(after_where =~= select_head() + where_text(shape));
    assert(bindings_view(vars@) =~= filter_bindings(filter@));
    push_order(&mut out, &options.order_bys);
    match options.limit {
        Some(limit) => {
            out.append(" LIMIT ");
            push_signed_decimal(&mut out, limit);
        },
        None => {},
    }
    match options.offset {
        Some(offset) => {
            out.append(" START ");
            push_signed_decimal(&mut out, offset);
        },
        None => {},
    }
    assert(out@ =~= select_text(filter@, options@));
    Ok(BackendQuery { text: out, vars })
}

} // verus!
