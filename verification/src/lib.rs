//! A typed data-store layer: domain entities go in and out as strongly typed
//! values, while the store speaks generic records and query text to the
//! backend and reports every failure through one error type.

pub mod error;
pub mod filter;
pub mod order;
pub mod outside;
pub mod parse;
pub mod query;
pub mod read;
pub mod record;
pub mod store;
pub mod text;
pub mod value;

pub use error::{Error, Result};
pub use filter::{FilterGroup, FilterGroups, FilterNode, ListOptions, OpVal, Operator, OrderBy};
pub use query::{build_select_query, BackendQuery, Binding};
pub use read::{read_groups, ReadComparison};
pub use record::Record;
pub use store::{Bound, Creatable, Outcome, Patchable, Request, Variable};
pub use value::{Field, Thing, Value};
