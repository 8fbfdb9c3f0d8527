//! Shared semantics of the alter capability: finding a column by name,
//! computing the fill value of an added column, and the positional rewrite
//! that adding or dropping a column applies to every stored row.  Both
//! backends implement their alter operations against these definitions.
use vstd::prelude::*;

use crate::entity::ColumnDef;
use crate::entity::ColumnDefV;
use crate::entity::ColumnOption;
use crate::entity::ColumnOptionV;
use crate::entity::Value;
use crate::entity::ValueV;
use crate::entity::null_value;
use crate::entity::null_value_of;
use crate::entity::str_eq;
use crate::rows::rows_aligned;

verus! {

/// The position of the first column definition named `name`, if any.
pub open spec fn find_col(cols: Seq<ColumnDefV>, name: Seq<char>) -> Option<int>
    decreases cols.len(),
{
    if cols.len() == 0 {
        None
    } else if cols[0].name == name {
        Some(0int)
    } else {
        match find_col(cols.drop_first(), name) {
            Some(i) => Some(i + 1),
            None => None,
        }
    }
}

/// What `find_col` returns: the first position holding the name, or nothing
/// when no column carries it.
pub proof fn lemma_find_col(cols: Seq<ColumnDefV>, name: Seq<char>)
    ensures
        match find_col(cols, name) {
            Some(i) => 0 <= i < cols.len() && cols[i].name == name && (forall|j: int|
                0 <= j < i ==> cols[j].name != name),
            None => forall|j: int| 0 <= j < cols.len() ==> cols[j].name != name,
        },
    decreases cols.len(),
{
    if cols.len() != 0 && cols[0].name != name {
        let tail = cols.drop_first();
        lemma_find_col(tail, name);
        assert(forall|j: int| 0 <= j < tail.len() ==> #[trigger] tail[j] == cols[j + 1]);
        match find_col(tail, name) {
            Some(i) => {
                assert(cols[i + 1].name == name);
                assert forall|j: int| 0 <= j < i + 1 implies cols[j].name != name by {
                    if j > 0 {
                        assert(tail[j - 1].name != name);
                    }
                }
            },
            None => {
                assert forall|j: int| 0 <= j < cols.len() implies cols[j].name != name by {
                    if j > 0 {
                        assert(tail[j - 1].name != name);
                    }
                }
            },
        }
    }
}

/// `find_col` returns exactly the position that is a first match.
pub proof fn lemma_find_col_at(cols: Seq<ColumnDefV>, name: Seq<char>, i: int)
    requires
        0 <= i < cols.len(),
        cols[i].name == name,
        forall|j: int| 0 <= j < i ==> cols[j].name != name,
    ensures
        find_col(cols, name) == Some(i),
{
    lemma_find_col(cols, name);
    match find_col(cols, name) {
        Some(k) => {
            if k < i {
                assert(cols[k].name != name);
            }
            if i < k {
                assert(cols[i].name != name);
            }
        },
        None => {
            assert(cols[i].name != name);
        },
    }
}

/// When no column carries the name, `find_col` returns nothing.
pub proof fn lemma_find_col_none(cols: Seq<ColumnDefV>, name: Seq<char>)
    requires
        forall|j: int| 0 <= j < cols.len() ==> cols[j].name != name,
    ensures
        find_col(cols, name) is None,
{
    lemma_find_col(cols, name);
    match find_col(cols, name) {
        Some(i) => {
            assert(cols[i].name != name);
        },
        None => {},
    }
}

/// The default value an option carries, if it is a default option.
pub open spec fn option_default_value(o: ColumnOptionV) -> Option<ValueV> {
    match o {
        ColumnOptionV::Default(v) => Some(v),
        ColumnOptionV::Null => None,
    }
}

/// The value of the first default option, if any.
pub open spec fn opts_default(opts: Seq<ColumnOptionV>) -> Option<ValueV>
    decreases opts.len(),
{
    if opts.len() == 0 {
        None
    } else if option_default_value(opts[0]) is Some {
        option_default_value(opts[0])
    } else {
        opts_default(opts.drop_first())
    }
}

/// Whether the options mark the column nullable.
pub open spec fn opts_nullable(opts: Seq<ColumnOptionV>) -> bool {
    exists|i: int| 0 <= i < opts.len() && opts[i] is Null
}

/// The value backfilled into every existing row when this column is added:
/// its default value if it carries one, else the null of its declared type if
/// it is nullable, else nothing (the addition must fail).
pub open spec fn fill_value_of(cd: ColumnDefV) -> Option<ValueV> {
    match opts_default(cd.options) {
        Some(v) => Some(v),
        None => if opts_nullable(cd.options) {
            Some(null_value_of(cd.data_type))
        } else {
            None
        },
    }
}

/// `opts_default` returns the value of the first default option.
pub proof fn lemma_opts_default_at(opts: Seq<ColumnOptionV>, i: int)
    requires
        0 <= i < opts.len(),
        option_default_value(opts[i]) is Some,
        forall|j: int| 0 <= j < i ==> option_default_value(opts[j]) is None,
    ensures
        opts_default(opts) == option_default_value(opts[i]),
    decreases opts.len(),
{
    if i > 0 {
        let tail = opts.drop_first();
        assert(forall|j: int| 0 <= j < tail.len() ==> #[trigger] tail[j] == opts[j + 1]);
        lemma_opts_default_at(tail, i - 1);
    }
}

/// When no option is a default option, `opts_default` returns nothing.
pub proof fn lemma_opts_default_none(opts: Seq<ColumnOptionV>)
    requires
        forall|j: int| 0 <= j < opts.len() ==> option_default_value(opts[j]) is None,
    ensures
        opts_default(opts) is None,
    decreases opts.len(),
{
    if opts.len() > 0 {
        let tail = opts.drop_first();
        assert(forall|j: int| 0 <= j < tail.len() ==> #[trigger] tail[j] == opts[j + 1]);
        lemma_opts_default_none(tail);
    }
}

/// Appends `fill` at the back of every row, as adding a column does.
pub open spec fn add_col_rows(rows: Seq<(u64, Seq<ValueV>)>, fill: ValueV) -> Seq<
    (u64, Seq<ValueV>),
> {
    rows.map_values(|e: (u64, Seq<ValueV>)| (e.0, e.1.push(fill)))
}

/// Removes the value at position `i` from every row, as dropping the column
/// at position `i` does.
pub open spec fn drop_col_rows(rows: Seq<(u64, Seq<ValueV>)>, i: int) -> Seq<(u64, Seq<ValueV>)> {
    rows.map_values(|e: (u64, Seq<ValueV>)| (e.0, e.1.remove(i)))
}

/// Renames the column at position `i`; every other part of the definition
/// list is untouched.
pub open spec fn rename_col_defs(cols: Seq<ColumnDefV>, i: int, name: Seq<char>) -> Seq<
    ColumnDefV,
> {
    cols.update(
        i,
        ColumnDefV { name, data_type: cols[i].data_type, options: cols[i].options },
    )
}

/// Finds the first column named `name` in a definition list, as the alter
/// operations do.
pub fn find_col_exec(cols: &Vec<ColumnDef>, name: &str) -> (r: Option<usize>)
    ensures
        match r {
            Some(i) => find_col(cols@.map_values(|c: ColumnDef| c@), name@) == Some(i as int),
            None => find_col(cols@.map_values(|c: ColumnDef| c@), name@) is None,
        },
{
    let ghost colsv = cols@.map_values(|c: ColumnDef| c@);
    let n = cols.len();
    let mut i: usize = 0;
    while i < n
        invariant
            n == cols@.len(),
            i <= n,
            colsv == cols@.map_values(|c: ColumnDef| c@),
            forall|j: int| 0 <= j < i ==> colsv[j].name != name@,
        decreases n - i,
    {
        if str_eq(cols[i].name.as_str(), name) {
            proof {
                lemma_find_col_at(colsv, name@, i as int);
            }
            return Some(i);
        }
        i += 1;
    }
    proof {
        lemma_find_col_none(colsv, name@);
    }
    None
}

/// Computes the fill value of a column being added, or nothing when the
/// column is not nullable and carries no default.
pub fn column_fill_value(cd: &ColumnDef) -> (r: Option<Value>)
    ensures
        match r {
            Some(v) => fill_value_of(cd@) == Some(v@),
            None => fill_value_of(cd@) is None,
        },
{
    let ghost optsv = cd.options@.map_values(|o: ColumnOption| o@);
    let n = cd.options.len();
    let mut i: usize = 0;
    while i < n
        invariant
            n == cd.options@.len(),
            i <= n,
            optsv == cd.options@.map_values(|o: ColumnOption| o@),
            forall|j: int| 0 <= j < i ==> option_default_value(optsv[j]) is None,
        decreases n - i,
    {
        match &cd.options[i] {
            ColumnOption::Default(v) => {
                proof {
                    lemma_opts_default_at(optsv, i as int);
                }
                return Some(v.clone());
            },
            ColumnOption::Null => {},
        }
        i += 1;
    }
    proof {
        lemma_opts_default_none(optsv);
    }
    let mut k: usize = 0;
    while k < n
        invariant
            n == cd.options@.len(),
            k <= n,
            optsv == cd.options@.map_values(|o: ColumnOption| o@),
            opts_default(optsv) is None,
            forall|j: int| 0 <= j < k ==> !(optsv[j] is Null),
        decreases n - k,
    {
        match &cd.options[k] {
            ColumnOption::Null => {
                proof {
                    assert(opts_nullable(optsv)) by {
                        assert((k as int) < optsv.len() && optsv[k as int] is Null);
                    }
                }
                return Some(null_value(cd.data_type));
            },
            ColumnOption::Default(_) => {},
        }
        k += 1;
    }
    proof {
        assert(!opts_nullable(optsv));
    }
    None
}

/// Adding a column and then dropping it by name undoes itself: the added
/// definition sits at the back, dropping that position restores the original
/// definition list, and restores every row of an aligned collection.
pub proof fn lemma_add_then_drop_column(
    cols: Seq<ColumnDefV>,
    rows: Seq<(u64, Seq<ValueV>)>,
    cd: ColumnDefV,
    fill: ValueV,
)
    requires
        find_col(cols, cd.name) is None,
        rows_aligned(rows, cols.len() as int),
    ensures
        find_col(cols.push(cd), cd.name) == Some(cols.len() as int),
        cols.push(cd).remove(cols.len() as int) == cols,
        drop_col_rows(add_col_rows(rows, fill), cols.len() as int) == rows,
{
    lemma_find_col(cols, cd.name);
    lemma_find_col_at(cols.push(cd), cd.name, cols.len() as int);
    assert(cols.push(cd).remove(cols.len() as int) =~= cols);
    let n = cols.len() as int;
    let out = drop_col_rows(add_col_rows(rows, fill), n);
    assert forall|i: int| 0 <= i < rows.len() implies out[i] == rows[i] by {
        assert(add_col_rows(rows, fill)[i] == (rows[i].0, rows[i].1.push(fill)));
        assert(rows[i].1.len() == n);
        assert(rows[i].1.push(fill).remove(n) =~= rows[i].1);
    }
    assert(out =~= rows);
}

} // verus!
