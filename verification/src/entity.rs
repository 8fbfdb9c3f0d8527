//! Entity model: the shared vocabulary of the storage layer.
//!
//! A `Schema` is an ordered column definition list for one table, a `Row` is a
//! positional value sequence matching a schema's column order, and a `DataKey`
//! is a (table name, id) pair identifying one row.  Each executable type has a
//! ghost counterpart (its view) stated over `Seq<char>` and mathematical
//! sequences, which every contract in the crate speaks of.
use vstd::prelude::*;

verus! {

/// Declared type of a column.
#[derive(Clone, Copy, Debug, PartialEq)]
pub enum DataType {
    Bool,
    Int,
    Text,
}

/// Ghost counterpart of `Value`.
pub enum ValueV {
    Bool(bool),
    I64(i64),
    Str(Seq<char>),
    OptBool(Option<bool>),
    OptI64(Option<i64>),
    OptStr(Option<Seq<char>>),
    Empty,
}

/// A cell of a row: a tagged union over booleans, integers and strings, with
/// nullable variants that collapse to a null when absent, and an explicit
/// null (`Empty`).  The storage layer never looks inside a value; it only
/// moves values around positionally.
#[derive(Debug, PartialEq)]
pub enum Value {
    Bool(bool),
    I64(i64),
    Str(String),
    OptBool(Option<bool>),
    OptI64(Option<i64>),
    OptStr(Option<String>),
    Empty,
}

impl View for Value {
    type V = ValueV;

    open spec fn view(&self) -> ValueV {
        match self {
            Value::Bool(b) => ValueV::Bool(*b),
            Value::I64(n) => ValueV::I64(*n),
            Value::Str(s) => ValueV::Str(s@),
            Value::OptBool(o) => ValueV::OptBool(*o),
            Value::OptI64(o) => ValueV::OptI64(*o),
            Value::OptStr(o) => ValueV::OptStr(
                match o {
                    Some(s) => Some(s@),
                    None => None,
                },
            ),
            Value::Empty => ValueV::Empty,
        }
    }
}

impl Clone for Value {
    fn clone(&self) -> (r: Self)
        ensures
            r@ == self@,
    {
        match self {
            Value::Bool(b) => Value::Bool(*b),
            Value::I64(n) => Value::I64(*n),
            Value::Str(s) => Value::Str(s.clone()),
            Value::OptBool(o) => Value::OptBool(*o),
            Value::OptI64(o) => Value::OptI64(*o),
            Value::OptStr(o) => Value::OptStr(
                match o {
                    Some(s) => Some(s.clone()),
                    None => None,
                },
            ),
            Value::Empty => Value::Empty,
        }
    }
}

/// The null representation of each declared type: the value a nullable
/// column without a default is filled with.
pub open spec fn null_value_of(dt: DataType) -> ValueV {
    match dt {
        DataType::Bool => ValueV::OptBool(None),
        DataType::Int => ValueV::OptI64(None),
        DataType::Text => ValueV::OptStr(None),
    }
}

/// Builds the null value of a declared type.
pub fn null_value(dt: DataType) -> (r: Value)
    ensures
        r@ == null_value_of(dt),
{
    match dt {
        DataType::Bool => Value::OptBool(None),
        DataType::Int => Value::OptI64(None),
        DataType::Text => Value::OptStr(None),
    }
}

/// Ghost counterpart of `ColumnOption`.
pub enum ColumnOptionV {
    Null,
    Default(ValueV),
}

/// A column option: the column is nullable, or carries a default value.
/// Default expressions are evaluated by the calling engine against the
/// column's declared type; the storage layer receives the resulting value.
#[derive(Debug, PartialEq)]
pub enum ColumnOption {
    Null,
    Default(Value),
}

impl View for ColumnOption {
    type V = ColumnOptionV;

    open spec fn view(&self) -> ColumnOptionV {
        match self {
            ColumnOption::Null => ColumnOptionV::Null,
            ColumnOption::Default(v) => ColumnOptionV::Default(v@),
        }
    }
}

impl Clone for ColumnOption {
    fn clone(&self) -> (r: Self)
        ensures
            r@ == self@,
    {
        match self {
            ColumnOption::Null => ColumnOption::Null,
            ColumnOption::Default(v) => ColumnOption::Default(v.clone()),
        }
    }
}

/// Ghost counterpart of `ColumnDef`.
pub struct ColumnDefV {
    pub name: Seq<char>,
    pub data_type: DataType,
    pub options: Seq<ColumnOptionV>,
}

/// One column of a schema: a name, a declared type, and its options.
#[derive(Debug, PartialEq)]
pub struct ColumnDef {
    pub name: String,
    pub data_type: DataType,
    pub options: Vec<ColumnOption>,
}

impl View for ColumnDef {
    type V = ColumnDefV;

    open spec fn view(&self) -> ColumnDefV {
        ColumnDefV {
            name: self.name@,
            data_type: self.data_type,
            options: self.options@.map_values(|o: ColumnOption| o@),
        }
    }
}

impl Clone for ColumnDef {
    fn clone(&self) -> (r: Self)
        ensures
            r@ == self@,
    {
        let options = self.options.clone();
        proof {
            assert forall|i: int| 0 <= i < options@.len() implies options@[i]@
                == self.options@[i]@ by {
                assert(cloned(self.options@[i], options@[i]));
            }
            assert(options@.map_values(|o: ColumnOption| o@) =~= self.options@.map_values(
                |o: ColumnOption| o@,
            ));
        }
        ColumnDef { name: self.name.clone(), data_type: self.data_type, options }
    }
}

/// Ghost counterpart of `Schema`.
pub struct SchemaV {
    pub table_name: Seq<char>,
    pub column_defs: Seq<ColumnDefV>,
}

/// The ordered column definition list of one table.
#[derive(Debug, PartialEq)]
pub struct Schema {
    pub table_name: String,
    pub column_defs: Vec<ColumnDef>,
}

impl View for Schema {
    type V = SchemaV;

    open spec fn view(&self) -> SchemaV {
        SchemaV {
            table_name: self.table_name@,
            column_defs: self.column_defs@.map_values(|c: ColumnDef| c@),
        }
    }
}

impl Clone for Schema {
    fn clone(&self) -> (r: Self)
        ensures
            r@ == self@,
    {
        let column_defs = self.column_defs.clone();
        proof {
            assert forall|i: int| 0 <= i < column_defs@.len() implies column_defs@[i]@
                == self.column_defs@[i]@ by {
                assert(cloned(self.column_defs@[i], column_defs@[i]));
            }
            assert(column_defs@.map_values(|c: ColumnDef| c@) =~= self.column_defs@.map_values(
                |c: ColumnDef| c@,
            ));
        }
        Schema { table_name: self.table_name.clone(), column_defs }
    }
}

/// A row: the value sequence of one stored record, positionally aligned with
/// its table's column definitions.
#[derive(Debug, PartialEq)]
pub struct Row(pub Vec<Value>);

impl View for Row {
    type V = Seq<ValueV>;

    open spec fn view(&self) -> Seq<ValueV> {
        self.0@.map_values(|v: Value| v@)
    }
}

impl Clone for Row {
    fn clone(&self) -> (r: Self)
        ensures
            r@ == self@,
    {
        let values = self.0.clone();
        proof {
            assert forall|i: int| 0 <= i < values@.len() implies values@[i]@ == self.0@[i]@ by {
                assert(cloned(self.0@[i], values@[i]));
            }
            assert(values@.map_values(|v: Value| v@) =~= self.0@.map_values(|v: Value| v@));
        }
        Row(values)
    }
}

/// Ghost counterpart of `DataKey`.
pub struct KeyV {
    pub table_name: Seq<char>,
    pub id: u64,
}

/// Identifies one row within one table.  Ids come from `generate_id` only:
/// a per-storage monotonically increasing counter, so a deleted row's id is
/// never reissued.
#[derive(Debug, PartialEq)]
pub struct DataKey {
    pub table_name: String,
    pub id: u64,
}

impl View for DataKey {
    type V = KeyV;

    open spec fn view(&self) -> KeyV {
        KeyV { table_name: self.table_name@, id: self.id }
    }
}

impl Clone for DataKey {
    fn clone(&self) -> (r: Self)
        ensures
            r@ == self@,
    {
        DataKey { table_name: self.table_name.clone(), id: self.id }
    }
}

/// Compares two string slices by their character sequences.
pub fn str_eq(a: &str, b: &str) -> (r: bool)
    ensures
        r == (a@ == b@),
{
    let la = a.unicode_len();
    let lb = b.unicode_len();
    if la != lb {
        return false;
    }
    let mut i: usize = 0;
    while i < la
        invariant
            la == a@.len(),
            la == b@.len(),
            i <= la,
            forall|j: int| 0 <= j < i ==> a@[j] == b@[j],
        decreases la - i,
    {
        if a.get_char(i) != b.get_char(i) {
            return false;
        }
        i += 1;
    }
    proof {
        assert(a@ =~= b@);
    }
    true
}

} // verus!
