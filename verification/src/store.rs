use vstd::prelude::*;

verus! {

use vstd::string::StringExecFns;
use crate::chars::{chars_of, char_vecs_eq};

/// One table row: a value or null for each column, in column order.
#[derive(Debug, Clone, PartialEq, Eq)]
pub struct Row {
    pub cells: Vec<Option<String>>,
}

/// One table of the store: its name, its columns in order, and its rows.
#[derive(Debug, Clone, PartialEq, Eq)]
pub struct Table {
    pub name: String,
    pub columns: Vec<String>,
    pub rows: Vec<Row>,
}

/// The relational store: the tables in creation order.
#[derive(Debug, Clone, PartialEq, Eq)]
pub struct Store {
    pub tables: Vec<Table>,
}

/// The abstract value of one table.
#[verifier::ext_equal]
pub struct TableV {
    pub name: Seq<char>,
    pub columns: Seq<Seq<char>>,
    pub rows: Seq<Seq<Option<Seq<char>>>>,
}

/// A table's fixed shape in the schema registry.
#[verifier::ext_equal]
pub struct TableSchema {
    pub name: Seq<char>,
    pub columns: Seq<Seq<char>>,
}

pub open spec fn cell_view(c: Option<String>) -> Option<Seq<char>> {
    match c {
        Some(s) => Some(s@),
        None => None,
    }
}

pub open spec fn cells_view(cs: Seq<Option<String>>) -> Seq<Option<Seq<char>>> {
    cs.map_values(|c: Option<String>| cell_view(c))
}

pub open spec fn row_view(r: Row) -> Seq<Option<Seq<char>>> {
    cells_view(r.cells@)
}

pub open spec fn rows_view(rs: Seq<Row>) -> Seq<Seq<Option<Seq<char>>>> {
    rs.map_values(|r: Row| row_view(r))
}

pub open spec fn columns_view(cs: Seq<String>) -> Seq<Seq<char>> {
    cs.map_values(|c: String| c@)
}

pub open spec fn table_view(t: Table) -> TableV {
    TableV { name: t.name@, columns: columns_view(t.columns@), rows: rows_view(t.rows@) }
}

impl Store {
    /// The abstract value of the whole store.
    pub open spec fn view_tables(self) -> Seq<TableV> {
        self.tables@.map_values(|t: Table| table_view(t))
    }

    /// A store with no tables.
    pub fn new() -> (r: Store)
        ensures
            r.view_tables() =~= Seq::<TableV>::empty(),
    {
        Store { tables: Vec::new() }
    }
}

/// Index of the first table named `name`, or -1.
pub open spec fn find_table_idx(ts: Seq<TableV>, name: Seq<char>) -> int
    decreases ts.len(),
{
    if ts.len() == 0 {
        -1
    } else if ts[0].name == name {
        0
    } else {
        let r = find_table_idx(ts.drop_first(), name);
        if r < 0 {
            -1
        } else {
            r + 1
        }
    }
}

pub proof fn lemma_find_table_idx(ts: Seq<TableV>, name: Seq<char>)
    ensures
        -1 <= find_table_idx(ts, name) < ts.len(),
        find_table_idx(ts, name) >= 0 ==> ts[find_table_idx(ts, name)].name == name,
        forall|k: int|
            0 <= k < find_table_idx(ts, name) ==> ts[k].name != name,
        find_table_idx(ts, name) == -1 ==> forall|k: int|
            0 <= k < ts.len() ==> ts[k].name != name,
    decreases ts.len(),
{
    if ts.len() > 0 && ts[0].name != name {
        lemma_find_table_idx(ts.drop_first(), name);
        assert forall|k: int| 0 <= k < find_table_idx(ts, name) implies ts[k].name != name by {
            if k > 0 {
                assert(ts.drop_first()[k - 1] == ts[k]);
            }
        }
        if find_table_idx(ts, name) == -1 {
            assert forall|k: int| 0 <= k < ts.len() implies ts[k].name != name by {
                if k > 0 {
                    assert(ts.drop_first()[k - 1] == ts[k]);
                }
            }
        }
    }
}

pub proof fn lemma_find_table_idx_unique(ts: Seq<TableV>, name: Seq<char>, j: int)
    requires
        0 <= j <= ts.len(),
        j == ts.len() || ts[j].name == name,
        forall|k: int| 0 <= k < j ==> ts[k].name != name,
    ensures
        find_table_idx(ts, name) == if j == ts.len() {
            -1
        } else {
            j
        },
    decreases j,
{
    if ts.len() > 0 {
        if j > 0 {
            lemma_find_table_idx_unique(ts.drop_first(), name, j - 1);
        }
    }
}

/// Tables with the same names in the same order are searched alike.
pub proof fn lemma_find_table_idx_same_names(ts1: Seq<TableV>, ts2: Seq<TableV>, name: Seq<char>)
    requires
        ts1.len() == ts2.len(),
        forall|k: int| 0 <= k < ts1.len() ==> ts1[k].name == ts2[k].name,
    ensures
        find_table_idx(ts1, name) == find_table_idx(ts2, name),
    decreases ts1.len(),
{
    if ts1.len() > 0 {
        assert(ts1[0].name == ts2[0].name);
        lemma_find_table_idx_same_names(ts1.drop_first(), ts2.drop_first(), name);
    }
}

pub proof fn lemma_find_table_idx_push(ts: Seq<TableV>, t: TableV, name: Seq<char>)
    ensures
        find_table_idx(ts.push(t), name) == if find_table_idx(ts, name) >= 0 {
            find_table_idx(ts, name)
        } else if t.name == name {
            ts.len() as int
        } else {
            -1
        },
{
    lemma_find_table_idx(ts, name);
    if find_table_idx(ts, name) >= 0 {
        lemma_find_table_idx_unique(ts.push(t), name, find_table_idx(ts, name));
    } else if t.name == name {
        lemma_find_table_idx_unique(ts.push(t), name, ts.len() as int);
    } else {
        lemma_find_table_idx_unique(ts.push(t), name, ts.len() + 1 as int);
    }
}

/// Index of the first column named `name`, or -1.
pub open spec fn find_col_idx(cols: Seq<Seq<char>>, name: Seq<char>) -> int
    decreases cols.len(),
{
    if cols.len() == 0 {
        -1
    } else if cols[0] == name {
        0
    } else {
        let r = find_col_idx(cols.drop_first(), name);
        if r < 0 {
            -1
        } else {
            r + 1
        }
    }
}

pub proof fn lemma_find_col_idx(cols: Seq<Seq<char>>, name: Seq<char>)
    ensures
        -1 <= find_col_idx(cols, name) < cols.len(),
        find_col_idx(cols, name) >= 0 ==> cols[find_col_idx(cols, name)] == name,
        forall|k: int| 0 <= k < find_col_idx(cols, name) ==> cols[k] != name,
        find_col_idx(cols, name) == -1 ==> forall|k: int|
            0 <= k < cols.len() ==> cols[k] != name,
    decreases cols.len(),
{
    if cols.len() > 0 && cols[0] != name {
        lemma_find_col_idx(cols.drop_first(), name);
        assert forall|k: int| 0 <= k < find_col_idx(cols, name) implies cols[k] != name by {
            if k > 0 {
                assert(cols.drop_first()[k - 1] == cols[k]);
            }
        }
        if find_col_idx(cols, name) == -1 {
            assert forall|k: int| 0 <= k < cols.len() implies cols[k] != name by {
                if k > 0 {
                    assert(cols.drop_first()[k - 1] == cols[k]);
                }
            }
        }
    }
}

pub proof fn lemma_find_col_idx_unique(cols: Seq<Seq<char>>, name: Seq<char>, j: int)
    requires
        0 <= j <= cols.len(),
        j == cols.len() || cols[j] == name,
        forall|k: int| 0 <= k < j ==> cols[k] != name,
    ensures
        find_col_idx(cols, name) == if j == cols.len() {
            -1
        } else {
            j
        },
    decreases j,
{
    if cols.len() > 0 {
        if j > 0 {
            lemma_find_col_idx_unique(cols.drop_first(), name, j - 1);
        }
    }
}

pub proof fn lemma_find_col_idx_push(cols: Seq<Seq<char>>, c: Seq<char>, name: Seq<char>)
    ensures
        find_col_idx(cols.push(c), name) == if find_col_idx(cols, name) >= 0 {
            find_col_idx(cols, name)
        } else if c == name {
            cols.len() as int
        } else {
            -1
        },
{
    lemma_find_col_idx(cols, name);
    if find_col_idx(cols, name) >= 0 {
        lemma_find_col_idx_unique(cols.push(c), name, find_col_idx(cols, name));
    } else if c == name {
        lemma_find_col_idx_unique(cols.push(c), name, cols.len() as int);
    } else {
        lemma_find_col_idx_unique(cols.push(c), name, cols.len() + 1 as int);
    }
}

/// Creating a table is a no-op when one of that name exists; otherwise an
/// empty table with the schema's columns is appended.
pub open spec fn spec_create_if_absent(ts: Seq<TableV>, sch: TableSchema) -> Seq<TableV> {
    if find_table_idx(ts, sch.name) >= 0 {
        ts
    } else {
        ts.push(TableV { name: sch.name, columns: sch.columns, rows: Seq::empty() })
    }
}

/// The additive migration: when the table exists and lacks the column,
/// the column is appended and every existing row gets the default value;
/// otherwise nothing changes.
pub open spec fn spec_ensure_column(
    ts: Seq<TableV>,
    tname: Seq<char>,
    col: Seq<char>,
    dflt: Seq<char>,
) -> Seq<TableV> {
    let i = find_table_idx(ts, tname);
    if i < 0 {
        ts
    } else {
        let t = ts[i];
        if find_col_idx(t.columns, col) >= 0 {
            ts
        } else {
            ts.update(
                i,
                TableV {
                    name: t.name,
                    columns: t.columns.push(col),
                    rows: t.rows.map_values(
                        |r: Seq<Option<Seq<char>>>| r.push(Some(dflt)),
                    ),
                },
            )
        }
    }
}

/// The fixed, non-domain version table.
pub open spec fn versions_schema() -> TableSchema {
    TableSchema { name: "versions"@, columns: seq!["id"@, "created_at"@] }
}

/// The environments table's shape.
pub open spec fn environments_schema() -> TableSchema {
    TableSchema {
        name: "environments"@,
        columns: seq!["id"@, "collection"@, "name"@, "enabled"@, "created_at"@, "updated_at"@],
    }
}

/// The proxies table's shape.
pub open spec fn proxies_schema() -> TableSchema {
    TableSchema {
        name: "proxies"@,
        columns: seq!["id"@, "proxy"@, "list"@, "mode"@, "enabled"@, "created_at"@, "updated_at"@],
    }
}

/// Schema initialization: every registered table is created when absent,
/// and the one additive migration gives old proxies tables their
/// `enabled` column with its default.
pub open spec fn spec_init_tables(ts: Seq<TableV>) -> Seq<TableV> {
    spec_ensure_column(
        spec_create_if_absent(
            spec_create_if_absent(spec_create_if_absent(ts, versions_schema()), environments_schema()),
            proxies_schema(),
        ),
        "proxies"@,
        "enabled"@,
        "1"@,
    )
}

pub fn versions_table_columns() -> (r: Vec<String>)
    ensures
        columns_view(r@) == versions_schema().columns,
{
    let mut v: Vec<String> = Vec::new();
    v.push(String::from_str("id"));
    v.push(String::from_str("created_at"));
    proof {
        assert(columns_view(v@) =~= versions_schema().columns);
    }
    v
}

pub fn environments_table_columns() -> (r: Vec<String>)
    ensures
        columns_view(r@) == environments_schema().columns,
{
    let mut v: Vec<String> = Vec::new();
    v.push(String::from_str("id"));
    v.push(String::from_str("collection"));
    v.push(String::from_str("name"));
    v.push(String::from_str("enabled"));
    v.push(String::from_str("created_at"));
    v.push(String::from_str("updated_at"));
    proof {
        assert(columns_view(v@) =~= environments_schema().columns);
    }
    v
}

pub fn proxies_table_columns() -> (r: Vec<String>)
    ensures
        columns_view(r@) == proxies_schema().columns,
{
    let mut v: Vec<String> = Vec::new();
    v.push(String::from_str("id"));
    v.push(String::from_str("proxy"));
    v.push(String::from_str("list"));
    v.push(String::from_str("mode"));
    v.push(String::from_str("enabled"));
    v.push(String::from_str("created_at"));
    v.push(String::from_str("updated_at"));
    proof {
        assert(columns_view(v@) =~= proxies_schema().columns);
    }
    v
}

impl Store {
    /// Position of the first table named `name`, if any.
    pub fn find_table(&self, name: &str) -> (r: Option<usize>)
        ensures
            match r {
                Some(i) => i < self.tables@.len() && find_table_idx(self.view_tables(), name@)
                    == i,
                None => find_table_idx(self.view_tables(), name@) == -1,
            },
    {
        let nc = chars_of(name);
        let n = self.tables.len();
        let mut i: usize = 0;
        while i < n
            invariant
                n == self.tables@.len(),
                i <= n,
                nc@ == name@,
                forall|k: int| 0 <= k < i ==> self.tables@[k].name@ != name@,
            decreases n - i,
        {
            let tn = chars_of(self.tables[i].name.as_str());
            if char_vecs_eq(&tn, &nc) {
                proof {
                    lemma_find_table_idx_unique(self.view_tables(), name@, i as int);
                }
                return Some(i);
            }
            i = i + 1;
        }
        proof {
            lemma_find_table_idx_unique(self.view_tables(), name@, n as int);
        }
        None
    }
}

/// Whether `column` occurs in a list of column names, as a table
/// description query reports them.
pub fn column_exists(names: &Vec<String>, column: &str) -> (r: bool)
    ensures
        r == (find_col_idx(columns_view(names@), column@) >= 0),
{
    let cc = chars_of(column);
    let n = names.len();
    let mut i: usize = 0;
    while i < n
        invariant
            n == names@.len(),
            i <= n,
            cc@ == column@,
            forall|k: int| 0 <= k < i ==> names@[k]@ != column@,
        decreases n - i,
    {
        let nc = chars_of(names[i].as_str());
        if char_vecs_eq(&nc, &cc) {
            proof {
                lemma_find_col_idx_unique(columns_view(names@), column@, i as int);
            }
            return true;
        }
        i = i + 1;
    }
    proof {
        lemma_find_col_idx_unique(columns_view(names@), column@, n as int);
    }
    false
}

/// Creates the table when no table of that name exists yet.
pub fn create_table_if_absent(store: &mut Store, name: &str, columns: Vec<String>)
    ensures
        final(store).view_tables() == spec_create_if_absent(
            old(store).view_tables(),
            TableSchema { name: name@, columns: columns_view(columns@) },
        ),
{
    let found = store.find_table(name);
    match found {
        Some(_) => {},
        None => {
            let t = Table { name: String::from_str(name), columns, rows: Vec::new() };
            store.tables.push(t);
            proof {
                assert(rows_view(Seq::<Row>::empty()) =~= Seq::<Seq<Option<Seq<char>>>>::empty());
                assert(store.tables@.drop_last() =~= old(store).tables@);
                assert(store.view_tables() =~~= spec_create_if_absent(
                    old(store).view_tables(),
                    TableSchema { name: name@, columns: columns_view(columns@) },
                ));
            }
        },
    }
}

fn clone_cells(v: &Vec<Option<String>>) -> (r: Vec<Option<String>>)
    ensures
        r@.len() == v@.len(),
        forall|k: int| 0 <= k < v@.len() ==> cell_view(r@[k]) == cell_view(v@[k]),
{
    let n = v.len();
    let mut r: Vec<Option<String>> = Vec::new();
    let mut i: usize = 0;
    while i < n
        invariant
            n == v@.len(),
            i <= n,
            r@.len() == i,
            forall|k: int| 0 <= k < i ==> cell_view(r@[k]) == cell_view(v@[k]),
        decreases n - i,
    {
        let c = match &v[i] {
            Some(x) => Some(x.clone()),
            None => None,
        };
        r.push(c);
        i = i + 1;
    }
    r
}

/// Adds `col` with `dflt` to the named table when it is missing; a table
/// that already has the column, or is absent, is left alone.
pub fn ensure_column(store: &mut Store, tname: &str, col: &str, dflt: &str)
    ensures
        final(store).view_tables() == spec_ensure_column(
            old(store).view_tables(),
            tname@,
            col@,
            dflt@,
        ),
{
    let found = store.find_table(tname);
    match found {
        None => {},
        Some(i) => {
            if column_exists(&store.tables[i].columns, col) {
            } else {
                let ghost ts0 = store.view_tables();
                let mut t = store.tables.remove(i);
                let ghost t0 = t;
                t.columns.push(String::from_str(col));
                let nrows = t.rows.len();
                let mut new_rows: Vec<Row> = Vec::new();
                let mut j: usize = 0;
                while j < nrows
                    invariant
                        nrows == t.rows@.len(),
                        j <= nrows,
                        new_rows@.len() == j,
                        forall|k: int|
                            0 <= k < j ==> row_view(new_rows@[k]) == row_view(t.rows@[k]).push(
                                Some(dflt@),
                            ),
                    decreases nrows - j,
                {
                    let mut cells = clone_cells(&t.rows[j].cells);
                    cells.push(Some(String::from_str(dflt)));
                    let nr = Row { cells };
                    proof {
                        assert(row_view(nr) =~= row_view(t.rows@[j as int]).push(Some(dflt@)));
                    }
                    new_rows.push(nr);
                    j = j + 1;
                }
                t.rows = new_rows;
                store.tables.insert(i, t);
                proof {
                    let iv = i as int;
                    assert(store.tables@ =~= old(store).tables@.update(iv, store.tables@[iv]));
                    let tv = table_view(store.tables@[iv]);
                    assert(tv.columns =~= ts0[iv].columns.push(col@));
                    assert(tv.rows =~= ts0[iv].rows.map_values(
                        |r: Seq<Option<Seq<char>>>| r.push(Some(dflt@)),
                    ));
                    assert(store.view_tables() =~~= spec_ensure_column(ts0, tname@, col@, dflt@));
                }
            }
        },
    }
}

/// Runs the whole schema initialization: every registered table is
/// created when absent, then the additive migrations are applied. The
/// statements are idempotent, so repeated initialization changes nothing
/// further.
pub fn init_tables(store: &mut Store)
    ensures
        final(store).view_tables() == spec_init_tables(old(store).view_tables()),
{
    let vc = versions_table_columns();
    create_table_if_absent(store, "versions", vc);
    let ec = environments_table_columns();
    create_table_if_absent(store, "environments", ec);
    let pc = proxies_table_columns();
    create_table_if_absent(store, "proxies", pc);
    ensure_column(store, "proxies", "enabled", "1");
}

/// After initialization every registered table exists and the proxies
/// table has its `enabled` column.
pub proof fn lemma_init_tables_complete(ts: Seq<TableV>)
    ensures
        ({
            let ts1 = spec_init_tables(ts);
            &&& find_table_idx(ts1, "versions"@) >= 0
            &&& find_table_idx(ts1, "environments"@) >= 0
            &&& find_table_idx(ts1, "proxies"@) >= 0
            &&& find_col_idx(ts1[find_table_idx(ts1, "proxies"@)].columns, "enabled"@) >= 0
        }),
{
    let a1 = spec_create_if_absent(ts, versions_schema());
    let a2 = spec_create_if_absent(a1, environments_schema());
    let a3 = spec_create_if_absent(a2, proxies_schema());
    lemma_find_table_idx(ts, "versions"@);
    lemma_find_table_idx_push(ts, TableV { name: "versions"@, columns: versions_schema().columns, rows: Seq::empty() }, "versions"@);
    assert(find_table_idx(a1, "versions"@) >= 0);
    lemma_find_table_idx(a1, "environments"@);
    lemma_find_table_idx_push(a1, TableV { name: "environments"@, columns: environments_schema().columns, rows: Seq::empty() }, "environments"@);
    assert(find_table_idx(a2, "environments"@) >= 0);
    lemma_find_table_idx(a2, "proxies"@);
    lemma_find_table_idx_push(a2, TableV { name: "proxies"@, columns: proxies_schema().columns, rows: Seq::empty() }, "proxies"@);
    assert(find_table_idx(a3, "proxies"@) >= 0);
    lemma_find_table_idx_push(a1, TableV { name: "environments"@, columns: environments_schema().columns, rows: Seq::empty() }, "versions"@);
    assert(find_table_idx(a2, "versions"@) >= 0);
    lemma_find_table_idx_push(a2, TableV { name: "proxies"@, columns: proxies_schema().columns, rows: Seq::empty() }, "versions"@);
    lemma_find_table_idx_push(a2, TableV { name: "proxies"@, columns: proxies_schema().columns, rows: Seq::empty() }, "environments"@);
    assert(find_table_idx(a3, "versions"@) >= 0);
    assert(find_table_idx(a3, "environments"@) >= 0);

    let ip = find_table_idx(a3, "proxies"@);
    lemma_find_table_idx(a3, "proxies"@);
    let ts1 = spec_init_tables(ts);
    if find_col_idx(a3[ip].columns, "enabled"@) >= 0 {
        assert(ts1 == a3);
        lemma_find_col_idx(a3[ip].columns, "enabled"@);
    } else {
        let t = a3[ip];
        let t2 = TableV {
            name: t.name,
            columns: t.columns.push("enabled"@),
            rows: t.rows.map_values(|r: Seq<Option<Seq<char>>>| r.push(Some("1"@))),
        };
        assert(ts1 == a3.update(ip, t2));
        assert forall|k: int| 0 <= k < a3.len() implies a3[k].name == ts1[k].name by {}
        lemma_find_table_idx_same_names(ts1, a3, "versions"@);
        lemma_find_table_idx_same_names(ts1, a3, "environments"@);
        lemma_find_table_idx_same_names(ts1, a3, "proxies"@);
        lemma_find_col_idx_push(t.columns, "enabled"@, "enabled"@);
        lemma_find_col_idx(t.columns, "enabled"@);
        assert(find_col_idx(ts1[find_table_idx(ts1, "proxies"@)].columns, "enabled"@) >= 0);
    }
}

/// Initialization is additive-idempotent: running it a second time
/// changes nothing.
pub proof fn lemma_init_tables_idempotent(ts: Seq<TableV>)
    ensures
        spec_init_tables(spec_init_tables(ts)) == spec_init_tables(ts),
{
    lemma_init_tables_complete(ts);
    let ts1 = spec_init_tables(ts);
    let b1 = spec_create_if_absent(ts1, versions_schema());
    assert(b1 == ts1);
    let b2 = spec_create_if_absent(b1, environments_schema());
    assert(b2 == ts1);
    let b3 = spec_create_if_absent(b2, proxies_schema());
    assert(b3 == ts1);
    let ip = find_table_idx(ts1, "proxies"@);
    assert(find_col_idx(ts1[ip].columns, "enabled"@) >= 0);
    assert(spec_ensure_column(ts1, "proxies"@, "enabled"@, "1"@) == ts1);
}

/// One initialization run adds the missing `enabled` column to an old
/// proxies table, filling every existing row with the declared default
/// and changing nothing else about the table's rows.
pub proof fn lemma_init_tables_fills_missing_column(ts: Seq<TableV>, ip: int)
    requires
        0 <= ip < ts.len(),
        ts[ip].name == "proxies"@,
        forall|k: int| 0 <= k < ip ==> ts[k].name != "proxies"@,
        find_col_idx(ts[ip].columns, "enabled"@) == -1,
    ensures
        ({
            let ts1 = spec_init_tables(ts);
            &&& ts1.len() >= ts.len()
            &&& ts1[ip].name == "proxies"@
            &&& ts1[ip].columns == ts[ip].columns.push("enabled"@)
            &&& ts1[ip].rows.len() == ts[ip].rows.len()
            &&& forall|j: int|
                0 <= j < ts[ip].rows.len() ==> ts1[ip].rows[j] == ts[ip].rows[j].push(
                    Some("1"@),
                )
        }),
{
    let a1 = spec_create_if_absent(ts, versions_schema());
    let a2 = spec_create_if_absent(a1, environments_schema());
    let a3 = spec_create_if_absent(a2, proxies_schema());
    assert(a1[ip] == ts[ip]);
    assert(a2[ip] == ts[ip]);
    assert(a3[ip] == ts[ip]);
    assert(forall|k: int| 0 <= k < ts.len() ==> a3[k] == ts[k]);
    assert(find_table_idx(a2, "proxies"@) >= 0 ==> a3 == a2);
    assert forall|k: int| 0 <= k < ip implies a3[k].name != "proxies"@ by {}
    lemma_find_table_idx_unique(a3, "proxies"@, ip);
    let t = a3[ip];
    let ts1 = spec_init_tables(ts);
    assert(ts1 == a3.update(
        ip,
        TableV {
            name: t.name,
            columns: t.columns.push("enabled"@),
            rows: t.rows.map_values(|r: Seq<Option<Seq<char>>>| r.push(Some("1"@))),
        },
    ));
}

/// The statement that adds a column to a table.
pub fn alter_add_column_sql(table: &str, column_def: &str) -> (r: String)
    ensures
        r@ == "ALTER TABLE "@ + table@ + " ADD COLUMN "@ + column_def@,
{
    let s = String::from_str("ALTER TABLE ");
    let s = s.concat(table);
    let s = s.concat(" ADD COLUMN ");
    let s = s.concat(column_def);
    proof {
        assert(s@ =~= "ALTER TABLE "@ + table@ + " ADD COLUMN "@ + column_def@);
    }
    s
}

/// The query that lists a table's columns.
pub fn pragma_table_info_sql(table: &str) -> (r: String)
    ensures
        r@ == "PRAGMA table_info("@ + table@ + ")"@,
{
    let s = String::from_str("PRAGMA table_info(");
    let s = s.concat(table);
    let s = s.concat(")");
    proof {
        assert(s@ =~= "PRAGMA table_info("@ + table@ + ")"@);
    }
    s
}

/// The connection string for the database file at `path`.
pub fn connection_uri(path: &str) -> (r: String)
    ensures
        r@ == "sqlite://"@ + path@,
{
    let s = String::from_str("sqlite://");
    let s = s.concat(path);
    proof {
        assert(s@ =~= "sqlite://"@ + path@);
    }
    s
}

/// A copy of a column-name list.
pub fn clone_columns(cols: &Vec<String>) -> (r: Vec<String>)
    ensures
        columns_view(r@) == columns_view(cols@),
{
    let n = cols.len();
    let mut r: Vec<String> = Vec::new();
    let mut i: usize = 0;
    while i < n
        invariant
            n == cols@.len(),
            i <= n,
            r@.len() == i,
            forall|k: int| 0 <= k < i ==> r@[k]@ == cols@[k]@,
        decreases n - i,
    {
        r.push(cols[i].clone());
        i = i + 1;
    }
    proof {
        assert(columns_view(r@) =~= columns_view(cols@));
    }
    r
}

} // verus!
