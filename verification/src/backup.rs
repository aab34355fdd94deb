use vstd::prelude::*;

verus! {

use vstd::string::StringExecFns;
use crate::chars::{chars_of, char_vecs_eq};
use crate::codec::{enc_table, spec_parse_table, encode_table, decode_table};
use crate::store::{
    Store, Table, TableV, TableSchema, Row, rows_view, columns_view, find_table_idx,
    lemma_find_table_idx, lemma_find_table_idx_same_names, environments_schema, proxies_schema,
};
use crate::StoreError;

/// One archive member: the entry's name and the JSON document it holds.
pub struct ArchiveEntry {
    pub name: String,
    pub text: String,
}

pub open spec fn entry_view(e: ArchiveEntry) -> (Seq<char>, Seq<char>) {
    (e.name@, e.text@)
}

pub open spec fn entries_view(es: Seq<ArchiveEntry>) -> Seq<(Seq<char>, Seq<char>)> {
    es.map_values(|e: ArchiveEntry| entry_view(e))
}

/// The archive entry name for a table.
pub open spec fn json_entry_name(table: Seq<char>) -> Seq<char> {
    table + seq!['.', 'j', 's', 'o', 'n']
}

pub fn make_entry_name(table: &str) -> (r: String)
    ensures
        r@ == json_entry_name(table@),
{
    let s = String::from_str(table);
    let s = s.concat(".json");
    proof {
        reveal_strlit(".json");
        assert(s@ =~= json_entry_name(table@));
    }
    s
}

/// The table of the store that carries the schema's name, or an empty
/// table of the schema's shape when the store has none.
pub open spec fn spec_table_or_schema(ts: Seq<TableV>, sch: TableSchema) -> TableV {
    let i = find_table_idx(ts, sch.name);
    if i >= 0 {
        ts[i]
    } else {
        TableV { name: sch.name, columns: sch.columns, rows: Seq::empty() }
    }
}

/// Every row of the table has one cell per column.
pub open spec fn table_wf(t: TableV) -> bool {
    forall|j: int| 0 <= j < t.rows.len() ==> t.rows[j].len() == t.columns.len()
}

/// What export asks of the store: the two managed tables are well-formed.
pub open spec fn managed_wf(ts: Seq<TableV>) -> bool {
    table_wf(spec_table_or_schema(ts, environments_schema())) && table_wf(
        spec_table_or_schema(ts, proxies_schema()),
    )
}

/// One exported entry: the table's name with the archive suffix, and its
/// rows as one JSON document.
pub open spec fn spec_export_entry(t: TableV) -> (Seq<char>, Seq<char>) {
    (json_entry_name(t.name), enc_table(t.columns, t.rows))
}

/// The whole export: one entry per managed table, a table with no rows
/// giving an empty-array document.
pub open spec fn spec_export_entries(ts: Seq<TableV>) -> Seq<(Seq<char>, Seq<char>)> {
    seq![
        spec_export_entry(spec_table_or_schema(ts, environments_schema())),
        spec_export_entry(spec_table_or_schema(ts, proxies_schema())),
    ]
}

fn export_one(store: &Store, name: &str, columns: Vec<String>) -> (r: ArchiveEntry)
    requires
        table_wf(
            spec_table_or_schema(
                store.view_tables(),
                TableSchema { name: name@, columns: columns_view(columns@) },
            ),
        ),
    ensures
        entry_view(r) == spec_export_entry(
            spec_table_or_schema(
                store.view_tables(),
                TableSchema { name: name@, columns: columns_view(columns@) },
            ),
        ),
{
    let found = store.find_table(name);
    match found {
        Some(i) => {
            let t = &store.tables[i];
            proof {
                let tv = store.view_tables()[i as int];
                assert(spec_table_or_schema(
                    store.view_tables(),
                    TableSchema { name: name@, columns: columns_view(columns@) },
                ) == tv);
                assert(tv == crate::store::table_view(store.tables@[i as int]));
                assert forall|k: int|
                    0 <= k < t.rows@.len() implies t.rows@[k].cells@.len()
                    == t.columns@.len() by {
                    assert(tv.rows[k].len() == tv.columns.len());
                    assert(tv.rows[k] == crate::store::row_view(t.rows@[k]));
                }
            }
            let text = encode_table(&t.columns, &t.rows);
            proof {
                assert(store.view_tables()[i as int].name == t.name@);
            }
            ArchiveEntry { name: make_entry_name_of(t), text }
        },
        None => {
            let empty_rows: Vec<Row> = Vec::new();
            let text = encode_table(&columns, &empty_rows);
            proof {
                assert(rows_view(Seq::<Row>::empty()) =~= Seq::<Seq<Option<Seq<char>>>>::empty());
            }
            ArchiveEntry { name: make_entry_name(name), text }
        },
    }
}

fn make_entry_name_of(t: &Table) -> (r: String)
    ensures
        r@ == json_entry_name(t.name@),
{
    make_entry_name(t.name.as_str())
}

/// Serializes every managed table: one named JSON document per table, in
/// the registry's order.
pub fn export_entries(store: &Store) -> (r: Vec<ArchiveEntry>)
    requires
        managed_wf(store.view_tables()),
    ensures
        entries_view(r@) == spec_export_entries(store.view_tables()),
{
    let mut r: Vec<ArchiveEntry> = Vec::new();
    let ec = crate::store::environments_table_columns();
    let e1 = export_one(store, "environments", ec);
    r.push(e1);
    let pc = crate::store::proxies_table_columns();
    let e2 = export_one(store, "proxies", pc);
    r.push(e2);
    proof {
        assert(entries_view(r@) =~= spec_export_entries(store.view_tables()));
    }
    r
}

/// Index of the first entry with the given name, or -1.
pub open spec fn find_entry_idx(es: Seq<(Seq<char>, Seq<char>)>, name: Seq<char>) -> int
    decreases es.len(),
{
    if es.len() == 0 {
        -1
    } else if es[0].0 == name {
        0
    } else {
        let r = find_entry_idx(es.drop_first(), name);
        if r < 0 {
            -1
        } else {
            r + 1
        }
    }
}

pub proof fn lemma_find_entry_idx_unique(es: Seq<(Seq<char>, Seq<char>)>, name: Seq<char>, j: int)
    requires
        0 <= j <= es.len(),
        j == es.len() || es[j].0 == name,
        forall|k: int| 0 <= k < j ==> es[k].0 != name,
    ensures
        find_entry_idx(es, name) == if j == es.len() {
            -1
        } else {
            j
        },
    decreases j,
{
    if es.len() > 0 {
        if j > 0 {
            lemma_find_entry_idx_unique(es.drop_first(), name, j - 1);
        }
    }
}

fn find_entry(es: &Vec<ArchiveEntry>, name: &str) -> (r: Option<usize>)
    ensures
        match r {
            Some(i) => i < es@.len() && find_entry_idx(entries_view(es@), name@) == i,
            None => find_entry_idx(entries_view(es@), name@) == -1,
        },
{
    let nc = chars_of(name);
    let n = es.len();
    let mut i: usize = 0;
    while i < n
        invariant
            n == es@.len(),
            i <= n,
            nc@ == name@,
            forall|k: int| 0 <= k < i ==> es@[k].name@ != name@,
        decreases n - i,
    {
        let ec = chars_of(es[i].name.as_str());
        if char_vecs_eq(&ec, &nc) {
            proof {
                lemma_find_entry_idx_unique(entries_view(es@), name@, i as int);
            }
            return Some(i);
        }
        i = i + 1;
    }
    proof {
        lemma_find_entry_idx_unique(entries_view(es@), name@, n as int);
    }
    None
}

/// The store with the named table's rows replaced; a store without the
/// table is unchanged.
pub open spec fn spec_replace_rows(
    ts: Seq<TableV>,
    name: Seq<char>,
    rows: Seq<Seq<Option<Seq<char>>>>,
) -> Seq<TableV> {
    let i = find_table_idx(ts, name);
    if i < 0 {
        ts
    } else {
        ts.update(i, TableV { name: ts[i].name, columns: ts[i].columns, rows })
    }
}

/// Replaces the named table's rows.
pub fn replace_table_rows(store: &mut Store, name: &str, rows: Vec<Row>)
    ensures
        final(store).view_tables() == spec_replace_rows(
            old(store).view_tables(),
            name@,
            rows_view(rows@),
        ),
{
    let found = store.find_table(name);
    match found {
        None => {},
        Some(i) => {
            let ghost ts0 = store.view_tables();
            let mut t = store.tables.remove(i);
            t.rows = rows;
            store.tables.insert(i, t);
            proof {
                let iv = i as int;
                assert(store.tables@ =~= old(store).tables@.update(iv, store.tables@[iv]));
                assert(store.view_tables() =~~= spec_replace_rows(ts0, name@, rows_view(
                    store.tables@[iv].rows@,
                )));
            }
        },
    }
}

/// Replacement changes only the named table's rows: every table keeps
/// its name and columns, other tables keep their rows, and lookups are
/// undisturbed.
pub proof fn lemma_replace_rows_frame(
    ts: Seq<TableV>,
    name: Seq<char>,
    rows: Seq<Seq<Option<Seq<char>>>>,
)
    ensures
        ({
            let ts2 = spec_replace_rows(ts, name, rows);
            &&& ts2.len() == ts.len()
            &&& forall|k: int| 0 <= k < ts.len() ==> ts2[k].name == ts[k].name
            &&& forall|k: int| 0 <= k < ts.len() ==> ts2[k].columns == ts[k].columns
            &&& forall|n2: Seq<char>| find_table_idx(ts2, n2) == find_table_idx(ts, n2)
            &&& forall|k: int|
                0 <= k < ts.len() && k != find_table_idx(ts, name) ==> ts2[k].rows == ts[k].rows
            &&& find_table_idx(ts, name) >= 0 ==> ts2[find_table_idx(ts, name)].rows == rows
        }),
{
    let ts2 = spec_replace_rows(ts, name, rows);
    lemma_find_table_idx(ts, name);
    assert forall|n2: Seq<char>| find_table_idx(ts2, n2) == find_table_idx(ts, n2) by {
        lemma_find_table_idx_same_names(ts2, ts, n2);
    }
}

/// One table's import: when the archive holds an entry for the table,
/// its document must decode against the live table's columns, and the
/// decoded rows replace the table's contents; a missing entry leaves the
/// table as it stands (empty, after the clearing step).
pub open spec fn spec_import_one(
    ts: Seq<TableV>,
    sch: TableSchema,
    es: Seq<(Seq<char>, Seq<char>)>,
) -> Option<Seq<TableV>> {
    let i = find_entry_idx(es, json_entry_name(sch.name));
    if i < 0 {
        Some(ts)
    } else {
        match spec_parse_table(spec_table_or_schema(ts, sch).columns, es[i].1) {
            Some(rows) => Some(spec_replace_rows(ts, sch.name, rows)),
            None => None,
        }
    }
}

/// The whole import: every managed table is cleared first, then each
/// managed table is loaded from its entry, in the registry's order. A
/// document that does not decode aborts the import; tables already
/// processed keep what they received, later ones stay empty.
pub open spec fn spec_import_entries(ts: Seq<TableV>, es: Seq<(Seq<char>, Seq<char>)>) -> (Result<
    (),
    StoreError,
>, Seq<TableV>) {
    let ts0 = spec_replace_rows(
        spec_replace_rows(ts, environments_schema().name, Seq::empty()),
        proxies_schema().name,
        Seq::empty(),
    );
    match spec_import_one(ts0, environments_schema(), es) {
        None => (Err(StoreError::Codec), ts0),
        Some(ts1) => match spec_import_one(ts1, proxies_schema(), es) {
            None => (Err(StoreError::Codec), ts1),
            Some(ts2) => (Ok(()), ts2),
        },
    }
}

fn import_one(store: &mut Store, name: &str, columns: Vec<String>, es: &Vec<ArchiveEntry>) -> (r:
    Result<(), StoreError>)
    ensures
        ({
            let sch = TableSchema { name: name@, columns: columns_view(columns@) };
            match spec_import_one(old(store).view_tables(), sch, entries_view(es@)) {
                Some(ts2) => r is Ok && final(store).view_tables() == ts2,
                None => r == Err::<(), StoreError>(StoreError::Codec) && *final(store) == *old(
                    store,
                ),
            }
        }),
{
    let entry_name = make_entry_name(name);
    let found = find_entry(es, entry_name.as_str());
    match found {
        None => Ok(()),
        Some(i) => {
            let live_cols = match store.find_table(name) {
                Some(t) => crate::store::clone_columns(&store.tables[t].columns),
                None => columns,
            };
            match decode_table(&live_cols, es[i].text.as_str()) {
                Ok(rows) => {
                    replace_table_rows(store, name, rows);
                    Ok(())
                },
                Err(e) => Err(e),
            }
        },
    }
}

/// Clears every managed table and repopulates each from its archive
/// entry, as `spec_import_entries` says.
pub fn import_entries(store: &mut Store, es: &Vec<ArchiveEntry>) -> (r: Result<(), StoreError>)
    ensures
        ({
            let (res, ts2) = spec_import_entries(old(store).view_tables(), entries_view(es@));
            r == res && final(store).view_tables() == ts2
        }),
{
    let empty1: Vec<Row> = Vec::new();
    replace_table_rows(store, "environments", empty1);
    let empty2: Vec<Row> = Vec::new();
    replace_table_rows(store, "proxies", empty2);
    proof {
        assert(rows_view(Seq::<Row>::empty()) =~= Seq::<Seq<Option<Seq<char>>>>::empty());
    }
    let ec = crate::store::environments_table_columns();
    match import_one(store, "environments", ec, es) {
        Ok(()) => {},
        Err(e) => {
            return Err(e);
        },
    }
    let pc = crate::store::proxies_table_columns();
    match import_one(store, "proxies", pc, es) {
        Ok(()) => {},
        Err(e) => {
            return Err(e);
        },
    }
    Ok(())
}
/// The export/import round trip: importing what export produced into a
/// second store whose managed tables have the same columns reproduces,
/// for each managed table, exactly the exported rows.
pub proof fn lemma_export_import_round_trip(ts: Seq<TableV>, ts2: Seq<TableV>)
    requires
        managed_wf(ts),
        crate::codec::cols_distinct(spec_table_or_schema(ts, environments_schema()).columns),
        crate::codec::cols_distinct(spec_table_or_schema(ts, proxies_schema()).columns),
        spec_table_or_schema(ts2, environments_schema()).columns == spec_table_or_schema(
            ts,
            environments_schema(),
        ).columns,
        spec_table_or_schema(ts2, proxies_schema()).columns == spec_table_or_schema(
            ts,
            proxies_schema(),
        ).columns,
        find_table_idx(ts2, environments_schema().name) >= 0,
        find_table_idx(ts2, proxies_schema().name) >= 0,
    ensures
        ({
            let (res, ts3) = spec_import_entries(ts2, spec_export_entries(ts));
            &&& res is Ok
            &&& spec_table_or_schema(ts3, environments_schema()).rows == spec_table_or_schema(
                ts,
                environments_schema(),
            ).rows
            &&& spec_table_or_schema(ts3, proxies_schema()).rows == spec_table_or_schema(
                ts,
                proxies_schema(),
            ).rows
        }),
{
    let es = spec_export_entries(ts);
    let te = spec_table_or_schema(ts, environments_schema());
    let tp = spec_table_or_schema(ts, proxies_schema());
    let en = environments_schema().name;
    let pn = proxies_schema().name;
    reveal_strlit("environments");
    reveal_strlit("proxies");
    lemma_find_table_idx(ts, en);
    lemma_find_table_idx(ts, pn);
    assert(te.name == en && tp.name == pn);
    assert(en != pn) by {
        assert(en.len() == 12 && pn.len() == 7);
    }
    assert(json_entry_name(en) != json_entry_name(pn)) by {
        assert(json_entry_name(en).len() == 17 && json_entry_name(pn).len() == 12);
    }
    assert(es[0] == spec_export_entry(te) && es[1] == spec_export_entry(tp));
    lemma_find_entry_idx_unique(es, json_entry_name(en), 0);
    lemma_find_entry_idx_unique(es, json_entry_name(pn), 1);

    let ts0 = spec_replace_rows(spec_replace_rows(ts2, en, Seq::empty()), pn, Seq::empty());
    lemma_replace_rows_frame(ts2, en, Seq::empty());
    lemma_replace_rows_frame(spec_replace_rows(ts2, en, Seq::empty()), pn, Seq::empty());
    lemma_find_table_idx(ts2, en);
    lemma_find_table_idx(ts2, pn);
    assert(spec_table_or_schema(ts0, environments_schema()).columns == te.columns);
    crate::codec::lemma_parse_of_enc_table(te.columns, te.rows);
    let ts1 = spec_replace_rows(ts0, en, te.rows);
    assert(spec_import_one(ts0, environments_schema(), es) == Some(ts1));
    lemma_replace_rows_frame(ts0, en, te.rows);
    assert(spec_table_or_schema(ts1, proxies_schema()).columns == tp.columns);
    crate::codec::lemma_parse_of_enc_table(tp.columns, tp.rows);
    let ts3 = spec_replace_rows(ts1, pn, tp.rows);
    assert(spec_import_one(ts1, proxies_schema(), es) == Some(ts3));
    lemma_replace_rows_frame(ts1, pn, tp.rows);
    assert(spec_import_entries(ts2, es) == (Ok::<(), StoreError>(()), ts3));
    let ie = find_table_idx(ts2, en);
    let ip = find_table_idx(ts2, pn);
    assert(ts2[ie].name == en && ts2[ip].name == pn);
    assert(ie != ip);
    assert(find_table_idx(ts0, en) == ie && find_table_idx(ts0, pn) == ip);
    assert(find_table_idx(ts1, en) == ie && find_table_idx(ts1, pn) == ip);
    assert(find_table_idx(ts3, en) == ie && find_table_idx(ts3, pn) == ip);
    assert(ts1[ie].rows == te.rows);
    assert(ts3[ie].rows == te.rows);
    assert(ts3[ip].rows == tp.rows);
    assert(spec_table_or_schema(ts3, environments_schema()).rows == te.rows);
    assert(spec_table_or_schema(ts3, proxies_schema()).rows == tp.rows);
}

/// An archive with no entry for one managed table still imports: the
/// table without an entry is left empty, and the other table's rows are
/// loaded as usual.
pub proof fn lemma_import_missing_entry_leaves_empty(ts: Seq<TableV>, ts2: Seq<TableV>)
    requires
        managed_wf(ts),
        crate::codec::cols_distinct(spec_table_or_schema(ts, proxies_schema()).columns),
        spec_table_or_schema(ts2, proxies_schema()).columns == spec_table_or_schema(
            ts,
            proxies_schema(),
        ).columns,
        find_table_idx(ts2, environments_schema().name) >= 0,
        find_table_idx(ts2, proxies_schema().name) >= 0,
    ensures
        ({
            let es = seq![spec_export_entry(spec_table_or_schema(ts, proxies_schema()))];
            let (res, ts3) = spec_import_entries(ts2, es);
            &&& res is Ok
            &&& spec_table_or_schema(ts3, environments_schema()).rows == Seq::<
                Seq<Option<Seq<char>>>,
            >::empty()
            &&& spec_table_or_schema(ts3, proxies_schema()).rows == spec_table_or_schema(
                ts,
                proxies_schema(),
            ).rows
        }),
{
    let tp = spec_table_or_schema(ts, proxies_schema());
    let en = environments_schema().name;
    let pn = proxies_schema().name;
    let es = seq![spec_export_entry(tp)];
    reveal_strlit("environments");
    reveal_strlit("proxies");
    lemma_find_table_idx(ts, pn);
    assert(tp.name == pn);
    assert(json_entry_name(en) != json_entry_name(pn)) by {
        assert(json_entry_name(en).len() == 17 && json_entry_name(pn).len() == 12);
    }
    assert(es[0].0 == json_entry_name(pn));
    lemma_find_entry_idx_unique(es, json_entry_name(en), 1);
    lemma_find_entry_idx_unique(es, json_entry_name(pn), 0);

    let ts0 = spec_replace_rows(spec_replace_rows(ts2, en, Seq::empty()), pn, Seq::empty());
    lemma_replace_rows_frame(ts2, en, Seq::empty());
    lemma_replace_rows_frame(spec_replace_rows(ts2, en, Seq::empty()), pn, Seq::empty());
    lemma_find_table_idx(ts2, en);
    lemma_find_table_idx(ts2, pn);
    assert(spec_import_one(ts0, environments_schema(), es) == Some(ts0));
    assert(spec_table_or_schema(ts0, proxies_schema()).columns == tp.columns);
    crate::codec::lemma_parse_of_enc_table(tp.columns, tp.rows);
    let ts3 = spec_replace_rows(ts0, pn, tp.rows);
    assert(spec_import_one(ts0, proxies_schema(), es) == Some(ts3));
    lemma_replace_rows_frame(ts0, pn, tp.rows);
    assert(spec_import_entries(ts2, es) == (Ok::<(), StoreError>(()), ts3));
    let ie = find_table_idx(ts2, en);
    let ip = find_table_idx(ts2, pn);
    assert(ts2[ie].name == en && ts2[ip].name == pn);
    assert(ie != ip);
    assert(find_table_idx(ts0, en) == ie && find_table_idx(ts0, pn) == ip);
    assert(find_table_idx(ts3, en) == ie && find_table_idx(ts3, pn) == ip);
    assert(ts0[ie].rows =~= Seq::<Seq<Option<Seq<char>>>>::empty());
    assert(ts3[ie].rows =~= Seq::<Seq<Option<Seq<char>>>>::empty());
    assert(ts3[ip].rows == tp.rows);
    assert(spec_table_or_schema(ts3, environments_schema()).rows == Seq::<
        Seq<Option<Seq<char>>>,
    >::empty());
    assert(spec_table_or_schema(ts3, proxies_schema()).rows == tp.rows);
}
/// The bytes of the archive holding the given named documents, with the
/// fixed writer options (deflate, standard permissions, fixed timestamp
/// and system marker), so the bytes depend on the entries alone.
pub uninterp spec fn zip_of(entries: Seq<(Seq<char>, Seq<char>)>) -> Seq<u8>;

/// Whether the archive writer accepts the given entries; packing is pure
/// in-memory work, so acceptance too depends on the entries alone.
pub uninterp spec fn zip_pack_ok(entries: Seq<(Seq<char>, Seq<char>)>) -> bool;

/// The named documents that the given archive bytes hold, when they are a
/// readable archive of text members; reading from a byte buffer depends
/// on the bytes alone.
pub uninterp spec fn unzip_of(data: Seq<u8>) -> Option<Seq<(Seq<char>, Seq<char>)>>;

/// Relies on `zip::ZipWriter`: `start_file` then a full write for each
/// entry in order, and `finish` to close the archive. The options are
/// fixed, so success and the produced bytes are functions of the entries
/// alone, named `zip_pack_ok` and `zip_of`; and reading an archive this
/// writer produced yields the written entries back, which is the crate's
/// round trip.
#[verifier::external_body]
fn zip_pack(entries: &Vec<ArchiveEntry>) -> (r: Result<Vec<u8>, StoreError>)
    ensures
        (r is Ok) == zip_pack_ok(entries_view(entries@)),
        r matches Ok(b) ==> b@ == zip_of(entries_view(entries@)),
        r matches Ok(b) ==> unzip_of(b@) == Some(entries_view(entries@)),
{
    let mut w = zip::ZipWriter::new(std::io::Cursor::new(Vec::new()));
    let opts = zip::write::SimpleFileOptions::default().compression_method(
        zip::CompressionMethod::Deflated,
    ).unix_permissions(0o755).last_modified_time(zip::DateTime::default()).system(
        zip::System::Unix,
    );
    for e in entries.iter() {
        w.start_file(e.name.as_str(), opts).map_err(|_| StoreError::Archive)?;
        std::io::Write::write_all(&mut w, e.text.as_bytes()).map_err(|_| StoreError::Archive)?;
    }
    Ok(w.finish().map_err(|_| StoreError::Archive)?.into_inner())
}

/// Relies on `zip::ZipArchive`: `new` on the bytes, then `by_index` and a
/// full read for each member in order. What comes back is a function of
/// the bytes alone, named `unzip_of`: the members with their text on
/// success, nothing when the archive or a member cannot be read.
#[verifier::external_body]
fn zip_unpack(data: &Vec<u8>) -> (r: Result<Vec<ArchiveEntry>, StoreError>)
    ensures
        r matches Ok(es) ==> unzip_of(data@) == Some(entries_view(es@)),
        r is Err ==> unzip_of(data@) is None,
{
    let mut a = zip::ZipArchive::new(std::io::Cursor::new(data.as_slice())).map_err(
        |_| StoreError::Archive,
    )?;
    let mut out = Vec::new();
    for i in 0..a.len() {
        let mut f = a.by_index(i).map_err(|_| StoreError::Archive)?;
        let name = f.name().to_string();
        let mut text = String::new();
        std::io::Read::read_to_string(&mut f, &mut text).map_err(|_| StoreError::Codec)?;
        out.push(ArchiveEntry { name, text });
    }
    Ok(out)
}

/// The name of a backup archive made on the day `stamp`.
pub open spec fn spec_backup_filename(stamp: Seq<char>) -> Seq<char> {
    ("cyberapi-backup-")@ + stamp + (".zip")@
}

pub fn backup_filename(stamp: &str) -> (r: String)
    ensures
        r@ == spec_backup_filename(stamp@),
{
    let s = String::from_str("cyberapi-backup-");
    let s = s.concat(stamp);
    let s = s.concat(".zip");
    proof {
        assert(s@ =~= spec_backup_filename(stamp@));
    }
    s
}

/// Writes the whole store's backup archive, named for the given day,
/// into the directory of the resolved database file. Success is owed
/// whenever that directory exists, the writer accepts the entries and
/// nothing refuses the write; on any failure no archive file is left
/// behind, and the only filesystem change besides the archive is what
/// resolution itself may migrate.
pub fn export_tables_on(
    store: &Store,
    cfg: &crate::locator::AppConfig,
    env: &crate::envvars::EnvVars,
    fs: &mut crate::fsmodel::FileSystem,
    stamp: &str,
) -> (r: Result<String, StoreError>)
    requires
        cfg.app_dir_view() is Some,
        managed_wf(store.view_tables()),
    ensures
        ({
            let (dbpath, f1) = crate::locator::spec_resolve_db(
                cfg.app_dir_view().unwrap(),
                cfg.legacy_dir_view(),
                cfg.db_path_view(),
                *env,
                old(fs).fsv(),
            );
            &&& (r is Ok <==> (crate::paths::spec_parent_of(dbpath) is Some && zip_pack_ok(
                spec_export_entries(store.view_tables()),
            ) && !f1.denied.contains(
                crate::paths::spec_path_join(
                    crate::paths::spec_parent_of(dbpath).unwrap(),
                    spec_backup_filename(stamp@),
                ),
            )))
            &&& match r {
                Ok(fname) => {
                    &&& fname@ == spec_backup_filename(stamp@)
                    &&& final(fs).fsv().files == f1.files.insert(
                        crate::paths::spec_path_join(
                            crate::paths::spec_parent_of(dbpath).unwrap(),
                            spec_backup_filename(stamp@),
                        ),
                        zip_of(spec_export_entries(store.view_tables())),
                    )
                    &&& final(fs).fsv().denied == f1.denied
                    &&& unzip_of(zip_of(spec_export_entries(store.view_tables()))) == Some(
                        spec_export_entries(store.view_tables()),
                    )
                },
                Err(_) => final(fs).fsv() == f1,
            }
        }),
{
    let dbpath = crate::locator::resolve_db_file(cfg, env, fs);
    let dir = match crate::paths::parent_of(dbpath.as_str()) {
        Some(d) => d,
        None => {
            return Err(StoreError::Path);
        },
    };
    let entries = export_entries(store);
    let bytes = match zip_pack(&entries) {
        Ok(b) => b,
        Err(e) => {
            return Err(e);
        },
    };
    let fname = backup_filename(stamp);
    let target = crate::paths::path_join(dir.as_str(), fname.as_str());
    match fs.write_file(target.as_str(), bytes) {
        Ok(()) => Ok(fname),
        Err(e) => Err(e),
    }
}

/// Writes the whole store's backup archive, named for today. The day
/// comes from the clock, so the name is only known to be of the backup
/// form for some day stamp.
pub fn export_tables(
    store: &Store,
    cfg: &crate::locator::AppConfig,
    env: &crate::envvars::EnvVars,
    fs: &mut crate::fsmodel::FileSystem,
) -> (r: Result<String, StoreError>)
    requires
        cfg.app_dir_view() is Some,
        managed_wf(store.view_tables()),
    ensures
        ({
            let (dbpath, f1) = crate::locator::spec_resolve_db(
                cfg.app_dir_view().unwrap(),
                cfg.legacy_dir_view(),
                cfg.db_path_view(),
                *env,
                old(fs).fsv(),
            );
            &&& ((crate::paths::spec_parent_of(dbpath) is Some && zip_pack_ok(
                spec_export_entries(store.view_tables()),
            ) && f1.denied =~= Set::<Seq<char>>::empty()) ==> r is Ok)
            &&& match r {
                Ok(fname) => exists|stamp: Seq<char>|
                    {
                        &&& fname@ == spec_backup_filename(stamp)
                        &&& crate::paths::spec_parent_of(dbpath) is Some
                        &&& final(fs).fsv().files == f1.files.insert(
                            crate::paths::spec_path_join(
                                crate::paths::spec_parent_of(dbpath).unwrap(),
                                spec_backup_filename(stamp),
                            ),
                            zip_of(spec_export_entries(store.view_tables())),
                        )
                        &&& final(fs).fsv().denied == f1.denied
                        &&& unzip_of(zip_of(spec_export_entries(store.view_tables()))) == Some(
                            spec_export_entries(store.view_tables()),
                        )
                    },
                Err(_) => final(fs).fsv() == f1,
            }
        }),
{
    let stamp = crate::clock::today_stamp();
    export_tables_on(store, cfg, env, fs, stamp.as_str())
}

/// Restores the whole store from the archive at `path`: a missing or
/// unreadable archive fails before anything is touched; a readable
/// archive has its managed tables cleared and loaded from the archive's
/// entries, exactly as `spec_import_entries` says.
pub fn import_tables(
    store: &mut Store,
    fs: &crate::fsmodel::FileSystem,
    path: &str,
) -> (r: Result<(), StoreError>)
    ensures
        !fs.fsv().files.contains_key(path@) ==> r == Err::<(), StoreError>(StoreError::Archive)
            && *final(store) == *old(store),
        fs.fsv().files.contains_key(path@) && unzip_of(fs.fsv().files[path@]) is None ==> r is Err
            && *final(store) == *old(store),
        fs.fsv().files.contains_key(path@) ==> (unzip_of(fs.fsv().files[path@]) matches Some(es)
            ==> ({
            let (res, ts2) = spec_import_entries(old(store).view_tables(), es);
            r == res && final(store).view_tables() == ts2
        })),
{
    let bytes = match fs.read_file(path) {
        Some(b) => b,
        None => {
            return Err(StoreError::Archive);
        },
    };
    let entries = match zip_unpack(&bytes) {
        Ok(es) => es,
        Err(e) => {
            return Err(e);
        },
    };
    import_entries(store, &entries)
}
/// The round trip at the archive-byte level: when the packed archive's
/// bytes read back as the exported entries — which the packer's contract
/// hands every caller of the export — importing what those bytes hold
/// reproduces, for each managed table, exactly the exported rows.
pub proof fn lemma_archive_bytes_round_trip(ts: Seq<TableV>, ts2: Seq<TableV>)
    requires
        managed_wf(ts),
        crate::codec::cols_distinct(spec_table_or_schema(ts, environments_schema()).columns),
        crate::codec::cols_distinct(spec_table_or_schema(ts, proxies_schema()).columns),
        spec_table_or_schema(ts2, environments_schema()).columns == spec_table_or_schema(
            ts,
            environments_schema(),
        ).columns,
        spec_table_or_schema(ts2, proxies_schema()).columns == spec_table_or_schema(
            ts,
            proxies_schema(),
        ).columns,
        find_table_idx(ts2, environments_schema().name) >= 0,
        find_table_idx(ts2, proxies_schema().name) >= 0,
        unzip_of(zip_of(spec_export_entries(ts))) == Some(spec_export_entries(ts)),
    ensures
        ({
            let es = unzip_of(zip_of(spec_export_entries(ts))).unwrap();
            let (res, ts3) = spec_import_entries(ts2, es);
            &&& res is Ok
            &&& spec_table_or_schema(ts3, environments_schema()).rows == spec_table_or_schema(
                ts,
                environments_schema(),
            ).rows
            &&& spec_table_or_schema(ts3, proxies_schema()).rows == spec_table_or_schema(
                ts,
                proxies_schema(),
            ).rows
        }),
{
    lemma_export_import_round_trip(ts, ts2);
}

} // verus!
