use vstd::prelude::*;

verus! {

use vstd::string::StringExecFns;
use crate::store::{Row, cell_view, row_view};
use crate::clock::now_rfc3339;

/// One environment record, as the environments table stores it.
#[derive(Debug, Clone, PartialEq, Eq)]
pub struct Environment {
    pub id: String,
    pub collection: String,
    pub name: Option<String>,
    pub enabled: Option<String>,
    pub created_at: Option<String>,
    pub updated_at: Option<String>,
}

/// One proxy record, as the proxies table stores it.
#[derive(Debug, Clone, PartialEq, Eq)]
pub struct Proxy {
    pub id: String,
    pub proxy: Option<String>,
    pub list: Option<String>,
    pub mode: Option<String>,
    pub enabled: Option<String>,
    pub created_at: Option<String>,
    pub updated_at: Option<String>,
}

/// The environments table's idempotent creation statement.
pub open spec fn spec_environments_create_sql() -> Seq<char> {
    ("CREATE TABLE IF NOT EXISTS environments (
            id TEXT PRIMARY KEY NOT NULL check (id != ''),
            collection TEXT NOT NULL check (collection != ''),
            name TEXT DEFAULT '',
            enabled TEXT DEFAULT '',
            created_at TEXT DEFAULT '',
            updated_at TEXT DEFAULT ''
        )")@
}

pub fn get_environments_create_sql() -> (r: String)
    ensures
        r@ == spec_environments_create_sql(),
{
    String::from_str(
        "CREATE TABLE IF NOT EXISTS environments (
            id TEXT PRIMARY KEY NOT NULL check (id != ''),
            collection TEXT NOT NULL check (collection != ''),
            name TEXT DEFAULT '',
            enabled TEXT DEFAULT '',
            created_at TEXT DEFAULT '',
            updated_at TEXT DEFAULT ''
        )",
    )
}

/// The proxies table's idempotent creation statement.
pub open spec fn spec_proxies_create_sql() -> Seq<char> {
    ("CREATE TABLE IF NOT EXISTS proxies (
        id TEXT PRIMARY KEY NOT NULL check (id != ''),
        proxy TEXT DEFAULT '',
        list TEXT DEFAULT '',
        mode TEXT DEFAULT '',
        enabled TEXT DEFAULT '1',
        created_at TEXT DEFAULT '',
        updated_at TEXT DEFAULT ''
    )")@
}

pub fn get_proxies_create_sql() -> (r: String)
    ensures
        r@ == spec_proxies_create_sql(),
{
    String::from_str(
        "CREATE TABLE IF NOT EXISTS proxies (
        id TEXT PRIMARY KEY NOT NULL check (id != ''),
        proxy TEXT DEFAULT '',
        list TEXT DEFAULT '',
        mode TEXT DEFAULT '',
        enabled TEXT DEFAULT '1',
        created_at TEXT DEFAULT '',
        updated_at TEXT DEFAULT ''
    )",
    )
}

/// The version table's idempotent creation statement.
pub open spec fn spec_versions_create_sql() -> Seq<char> {
    ("CREATE TABLE IF NOT EXISTS versions (
        id TEXT PRIMARY KEY NOT NULL check (id != ''),
        created_at TEXT DEFAULT ''
    )")@
}

pub fn get_versions_table_create_sql() -> (r: String)
    ensures
        r@ == spec_versions_create_sql(),
{
    String::from_str(
        "CREATE TABLE IF NOT EXISTS versions (
        id TEXT PRIMARY KEY NOT NULL check (id != ''),
        created_at TEXT DEFAULT ''
    )",
    )
}

pub fn get_table_name_environment() -> (r: String)
    ensures
        r@ == "environments"@,
{
    String::from_str("environments")
}

pub fn get_table_name_proxy() -> (r: String)
    ensures
        r@ == "proxies"@,
{
    String::from_str("proxies")
}

fn clone_cell(c: &Option<String>) -> (r: Option<String>)
    ensures
        cell_view(r) == cell_view(*c),
{
    match c {
        Some(s) => Some(s.clone()),
        None => None,
    }
}

impl Environment {
    /// The record as a row of the environments table, cells in column
    /// order.
    pub fn to_row(&self) -> (r: Row)
        ensures
            row_view(r) == seq![
                Some(self.id@),
                Some(self.collection@),
                cell_view(self.name),
                cell_view(self.enabled),
                cell_view(self.created_at),
                cell_view(self.updated_at),
            ],
    {
        let mut cells: Vec<Option<String>> = Vec::new();
        cells.push(Some(self.id.clone()));
        cells.push(Some(self.collection.clone()));
        cells.push(clone_cell(&self.name));
        cells.push(clone_cell(&self.enabled));
        cells.push(clone_cell(&self.created_at));
        cells.push(clone_cell(&self.updated_at));
        let r = Row { cells };
        proof {
            assert(row_view(r) =~= seq![
                Some(self.id@),
                Some(self.collection@),
                cell_view(self.name),
                cell_view(self.enabled),
                cell_view(self.created_at),
                cell_view(self.updated_at),
            ]);
        }
        r
    }

    /// The record read back from a row of the environments table; absent
    /// exactly when the row has the wrong width or lacks one of the two
    /// required columns.
    pub fn from_row(row: &Row) -> (res: Option<Environment>)
        ensures
            match res {
                Some(e) => row_view(*row) == seq![
                    Some(e.id@),
                    Some(e.collection@),
                    cell_view(e.name),
                    cell_view(e.enabled),
                    cell_view(e.created_at),
                    cell_view(e.updated_at),
                ],
                None => row_view(*row).len() != 6 || row_view(*row)[0] is None || row_view(
                    *row,
                )[1] is None,
            },
    {
        if row.cells.len() != 6 {
            return None;
        }
        let id = match &row.cells[0] {
            Some(s) => s.clone(),
            None => {
                return None;
            },
        };
        let collection = match &row.cells[1] {
            Some(s) => s.clone(),
            None => {
                return None;
            },
        };
        let e = Environment {
            id,
            collection,
            name: clone_cell(&row.cells[2]),
            enabled: clone_cell(&row.cells[3]),
            created_at: clone_cell(&row.cells[4]),
            updated_at: clone_cell(&row.cells[5]),
        };
        proof {
            assert(row_view(*row) =~= seq![
                Some(e.id@),
                Some(e.collection@),
                cell_view(e.name),
                cell_view(e.enabled),
                cell_view(e.created_at),
                cell_view(e.updated_at),
            ]);
        }
        Some(e)
    }

    /// The record with empty timestamps replaced by `now`, as a record is
    /// completed before its first insertion.
    pub fn with_default_timestamps(self, now: &str) -> (r: Environment)
        ensures
            r.id@ == self.id@,
            r.collection@ == self.collection@,
            cell_view(r.name) == cell_view(self.name),
            cell_view(r.enabled) == cell_view(self.enabled),
            cell_view(r.created_at) == match self.created_at {
                Some(c) => Some(c@),
                None => Some(now@),
            },
            cell_view(r.updated_at) == match self.updated_at {
                Some(u) => Some(u@),
                None => Some(now@),
            },
    {
        let created_at = match self.created_at {
            Some(c) => Some(c),
            None => Some(String::from_str(now)),
        };
        let updated_at = match self.updated_at {
            Some(u) => Some(u),
            None => Some(String::from_str(now)),
        };
        Environment {
            id: self.id,
            collection: self.collection,
            name: self.name,
            enabled: self.enabled,
            created_at,
            updated_at,
        }
    }

    /// The record completed with the current time where timestamps are
    /// missing; what the clock read stays otherwise unspecified.
    pub fn prepared_for_insert(self) -> (r: Environment)
        ensures
            r.id@ == self.id@,
            r.collection@ == self.collection@,
            cell_view(r.name) == cell_view(self.name),
            cell_view(r.enabled) == cell_view(self.enabled),
            r.created_at is Some,
            r.updated_at is Some,
            self.created_at is Some ==> cell_view(r.created_at) == cell_view(self.created_at),
            self.updated_at is Some ==> cell_view(r.updated_at) == cell_view(self.updated_at),
    {
        let now = now_rfc3339();
        self.with_default_timestamps(now.as_str())
    }
}

impl Proxy {
    /// The record as a row of the proxies table, cells in column order.
    pub fn to_row(&self) -> (r: Row)
        ensures
            row_view(r) == seq![
                Some(self.id@),
                cell_view(self.proxy),
                cell_view(self.list),
                cell_view(self.mode),
                cell_view(self.enabled),
                cell_view(self.created_at),
                cell_view(self.updated_at),
            ],
    {
        let mut cells: Vec<Option<String>> = Vec::new();
        cells.push(Some(self.id.clone()));
        cells.push(clone_cell(&self.proxy));
        cells.push(clone_cell(&self.list));
        cells.push(clone_cell(&self.mode));
        cells.push(clone_cell(&self.enabled));
        cells.push(clone_cell(&self.created_at));
        cells.push(clone_cell(&self.updated_at));
        let r = Row { cells };
        proof {
            assert(row_view(r) =~= seq![
                Some(self.id@),
                cell_view(self.proxy),
                cell_view(self.list),
                cell_view(self.mode),
                cell_view(self.enabled),
                cell_view(self.created_at),
                cell_view(self.updated_at),
            ]);
        }
        r
    }

    /// The record read back from a row of the proxies table; absent
    /// exactly when the row has the wrong width or no id.
    pub fn from_row(row: &Row) -> (res: Option<Proxy>)
        ensures
            match res {
                Some(p) => row_view(*row) == seq![
                    Some(p.id@),
                    cell_view(p.proxy),
                    cell_view(p.list),
                    cell_view(p.mode),
                    cell_view(p.enabled),
                    cell_view(p.created_at),
                    cell_view(p.updated_at),
                ],
                None => row_view(*row).len() != 7 || row_view(*row)[0] is None,
            },
    {
        if row.cells.len() != 7 {
            return None;
        }
        let id = match &row.cells[0] {
            Some(s) => s.clone(),
            None => {
                return None;
            },
        };
        let p = Proxy {
            id,
            proxy: clone_cell(&row.cells[1]),
            list: clone_cell(&row.cells[2]),
            mode: clone_cell(&row.cells[3]),
            enabled: clone_cell(&row.cells[4]),
            created_at: clone_cell(&row.cells[5]),
            updated_at: clone_cell(&row.cells[6]),
        };
        proof {
            assert(row_view(*row) =~= seq![
                Some(p.id@),
                cell_view(p.proxy),
                cell_view(p.list),
                cell_view(p.mode),
                cell_view(p.enabled),
                cell_view(p.created_at),
                cell_view(p.updated_at),
            ]);
        }
        Some(p)
    }

    /// The record with empty timestamps replaced by `now`.
    pub fn with_default_timestamps(self, now: &str) -> (r: Proxy)
        ensures
            r.id@ == self.id@,
            cell_view(r.proxy) == cell_view(self.proxy),
            cell_view(r.list) == cell_view(self.list),
            cell_view(r.mode) == cell_view(self.mode),
            cell_view(r.enabled) == cell_view(self.enabled),
            cell_view(r.created_at) == match self.created_at {
                Some(c) => Some(c@),
                None => Some(now@),
            },
            cell_view(r.updated_at) == match self.updated_at {
                Some(u) => Some(u@),
                None => Some(now@),
            },
    {
        let created_at = match self.created_at {
            Some(c) => Some(c),
            None => Some(String::from_str(now)),
        };
        let updated_at = match self.updated_at {
            Some(u) => Some(u),
            None => Some(String::from_str(now)),
        };
        Proxy {
            id: self.id,
            proxy: self.proxy,
            list: self.list,
            mode: self.mode,
            enabled: self.enabled,
            created_at,
            updated_at,
        }
    }

    /// The record completed with the current time where timestamps are
    /// missing; what the clock read stays otherwise unspecified.
    pub fn prepared_for_insert(self) -> (r: Proxy)
        ensures
            r.id@ == self.id@,
            cell_view(r.proxy) == cell_view(self.proxy),
            cell_view(r.list) == cell_view(self.list),
            cell_view(r.mode) == cell_view(self.mode),
            cell_view(r.enabled) == cell_view(self.enabled),
            r.created_at is Some,
            r.updated_at is Some,
            self.created_at is Some ==> cell_view(r.created_at) == cell_view(self.created_at),
            self.updated_at is Some ==> cell_view(r.updated_at) == cell_view(self.updated_at),
    {
        let now = now_rfc3339();
        self.with_default_timestamps(now.as_str())
    }
}

} // verus!
