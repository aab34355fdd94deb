use vstd::prelude::*;

verus! {

use vstd::string::StringExecFns;
use crate::chars::chars_of;
use crate::envvars::{EnvVars, expand_spec, expand_env_vars};
use crate::fsmodel::{FileSystem, FsView};
use crate::paths::{
    spec_path_join, path_join, spec_parent_of, parent_of, spec_is_db_file, is_db_file,
};
use crate::StoreError;

/// The fixed name of the database file inside a data directory.
pub open spec fn spec_db_filename() -> Seq<char> {
    seq!['d', 'b', '.', 'd', 'b']
}

/// The fixed name of the settings file inside a data directory.
pub open spec fn spec_settings_filename() -> Seq<char> {
    seq!['s', 'e', 't', 't', 'i', 'n', 'g', 's', '.', 'j', 's', 'o', 'n']
}

pub fn db_filename() -> (r: String)
    ensures
        r@ == spec_db_filename(),
{
    let s = String::from_str("db.db");
    proof {
        reveal_strlit("db.db");
        assert(s@ =~= spec_db_filename());
    }
    s
}

pub fn settings_filename() -> (r: String)
    ensures
        r@ == spec_settings_filename(),
{
    let s = String::from_str("settings.json");
    proof {
        reveal_strlit("settings.json");
        assert(s@ =~= spec_settings_filename());
    }
    s
}

/// The characters stripped from the ends of an override path.
pub open spec fn is_space_char(c: char) -> bool {
    c == ' ' || c == '\t' || c == '\n' || c == '\r' || c as u32 == 11 || c as u32 == 12
}

fn check_space_char(c: char) -> (r: bool)
    ensures
        r == is_space_char(c),
{
    let u = c as u32;
    c == ' ' || c == '\t' || c == '\n' || c == '\r' || u == 11 || u == 12
}

pub open spec fn trim_start_idx(s: Seq<char>, i: int) -> int
    decreases s.len() - i,
    when 0 <= i <= s.len()
{
    if i >= s.len() {
        i
    } else if is_space_char(s[i]) {
        trim_start_idx(s, i + 1)
    } else {
        i
    }
}

pub open spec fn trim_end_idx(s: Seq<char>, i: int) -> int
    decreases i,
    when 0 <= i <= s.len()
{
    if i <= 0 {
        0
    } else if is_space_char(s[i - 1]) {
        trim_end_idx(s, i - 1)
    } else {
        i
    }
}

/// `s` without leading or trailing whitespace.
pub open spec fn spec_trim(s: Seq<char>) -> Seq<char> {
    let a = trim_start_idx(s, 0);
    let b = trim_end_idx(s, s.len() as int);
    if a <= b {
        s.subrange(a, b)
    } else {
        Seq::empty()
    }
}

proof fn lemma_trim_start_unique(s: Seq<char>, i: int, j: int)
    requires
        0 <= i <= j <= s.len(),
        forall|k: int| i <= k < j ==> is_space_char(s[k]),
        j == s.len() || !is_space_char(s[j]),
    ensures
        trim_start_idx(s, i) == j,
    decreases j - i,
{
    if i < j {
        lemma_trim_start_unique(s, i + 1, j);
    }
}

proof fn lemma_trim_end_props(s: Seq<char>, i: int)
    requires
        0 <= i <= s.len(),
    ensures
        0 <= trim_end_idx(s, i) <= i,
        forall|k: int| trim_end_idx(s, i) <= k < i ==> is_space_char(s[k]),
        trim_end_idx(s, i) > 0 ==> !is_space_char(s[trim_end_idx(s, i) - 1]),
    decreases i,
{
    if i > 0 && is_space_char(s[i - 1]) {
        lemma_trim_end_props(s, i - 1);
    }
}

proof fn lemma_trim_end_unique(s: Seq<char>, i: int, j: int)
    requires
        0 <= j <= i <= s.len(),
        forall|k: int| j <= k < i ==> is_space_char(s[k]),
        j == 0 || !is_space_char(s[j - 1]),
    ensures
        trim_end_idx(s, i) == j,
    decreases i - j,
{
    if i > j {
        lemma_trim_end_unique(s, i - 1, j);
    }
}

/// Strips leading and trailing whitespace.
pub fn trim_str(s: &str) -> (r: String)
    ensures
        r@ == spec_trim(s@),
{
    let v = chars_of(s);
    let n = v.len();
    let mut a: usize = 0;
    while a < n && check_space_char(v[a])
        invariant
            n == v@.len(),
            a <= n,
            forall|k: int| 0 <= k < a ==> is_space_char(v@[k]),
        decreases n - a,
    {
        a = a + 1;
    }
    proof {
        lemma_trim_start_unique(v@, 0, a as int);
    }
    if a == n {
        let empty: Vec<char> = Vec::new();
        let r = crate::chars::string_from_chars(&empty);
        proof {
            lemma_trim_end_props(v@, n as int);
            let b0 = trim_end_idx(v@, n as int);
            if trim_start_idx(v@, 0) <= b0 {
                assert(b0 == n as int);
                assert(n == 0);
                assert(v@.subrange(0, 0) =~= Seq::<char>::empty());
            }
            assert(r@ =~= spec_trim(s@));
        }
        return r;
    }
    let mut b: usize = n;
    while b > a && check_space_char(v[b - 1])
        invariant
            n == v@.len(),
            a <= b <= n,
            a < n,
            forall|k: int| b <= k < n ==> is_space_char(v@[k]),
        decreases b,
    {
        b = b - 1;
    }
    proof {
        assert(!is_space_char(v@[a as int]));
        if b as int == a as int {
            assert(false);
        }
        assert(b > a);
        assert(!is_space_char(v@[b - 1]));
        lemma_trim_end_unique(v@, n as int, b as int);
    }
    let mid = crate::chars::copy_range(&v, a, b);
    let r = crate::chars::string_from_chars(&mid);
    r
}

/// The paths the surrounding application supplies once at startup: the
/// current data directory, the historical per-user data directory if any,
/// and the user's override for the database path.
pub struct AppConfig {
    app_dir: Option<String>,
    legacy_dir: Option<String>,
    db_path: Option<String>,
}

impl AppConfig {
    pub closed spec fn app_dir_view(self) -> Option<Seq<char>> {
        match self.app_dir {
            Some(s) => Some(s@),
            None => None,
        }
    }

    pub closed spec fn legacy_dir_view(self) -> Option<Seq<char>> {
        match self.legacy_dir {
            Some(s) => Some(s@),
            None => None,
        }
    }

    pub closed spec fn db_path_view(self) -> Option<Seq<char>> {
        match self.db_path {
            Some(s) => Some(s@),
            None => None,
        }
    }

    /// A configuration with nothing supplied yet.
    pub fn new() -> (r: AppConfig)
        ensures
            r.app_dir_view() is None,
            r.legacy_dir_view() is None,
            r.db_path_view() is None,
    {
        AppConfig { app_dir: None, legacy_dir: None, db_path: None }
    }

    /// Records the application's data directory; supplied exactly once.
    pub fn set_app_dir(&mut self, dir: String)
        requires
            old(self).app_dir_view() is None,
        ensures
            final(self).app_dir_view() == Some(dir@),
            final(self).legacy_dir_view() == old(self).legacy_dir_view(),
            final(self).db_path_view() == old(self).db_path_view(),
    {
        self.app_dir = Some(dir);
    }

    /// The application's data directory; must have been supplied.
    pub fn get_app_dir(&self) -> (r: &String)
        requires
            self.app_dir_view() is Some,
        ensures
            self.app_dir_view() == Some(r@),
    {
        match &self.app_dir {
            Some(d) => d,
            None => unreached(),
        }
    }

    /// Records the historical per-user data directory. Only the first
    /// supplied directory is kept; later calls and absent values change
    /// nothing.
    pub fn set_legacy_app_dir(&mut self, dir: Option<String>)
        ensures
            final(self).app_dir_view() == old(self).app_dir_view(),
            final(self).db_path_view() == old(self).db_path_view(),
            final(self).legacy_dir_view() == match dir {
                Some(d) => if old(self).legacy_dir_view() is None {
                    Some(d@)
                } else {
                    old(self).legacy_dir_view()
                },
                None => old(self).legacy_dir_view(),
            },
    {
        match dir {
            Some(d) => {
                if self.legacy_dir.is_none() {
                    self.legacy_dir = Some(d);
                }
            },
            None => {},
        }
    }

    /// The historical per-user data directory, if one was supplied.
    pub fn legacy_app_dir(&self) -> (r: Option<&String>)
        ensures
            match r {
                Some(d) => self.legacy_dir_view() == Some(d@),
                None => self.legacy_dir_view() is None,
            },
    {
        match &self.legacy_dir {
            Some(d) => Some(d),
            None => None,
        }
    }

    /// `filename` inside the historical data directory, if one was
    /// supplied.
    pub fn legacy_app_file(&self, filename: &str) -> (r: Option<String>)
        ensures
            match r {
                Some(p) => self.legacy_dir_view() is Some && p@ == spec_path_join(
                    self.legacy_dir_view().unwrap(),
                    filename@,
                ),
                None => self.legacy_dir_view() is None,
            },
    {
        match &self.legacy_dir {
            Some(d) => Some(path_join(d.as_str(), filename)),
            None => None,
        }
    }

    /// Records the user's override for the database path. A blank value
    /// clears the override.
    pub fn set_db_path(&mut self, path: String)
        ensures
            final(self).app_dir_view() == old(self).app_dir_view(),
            final(self).legacy_dir_view() == old(self).legacy_dir_view(),
            final(self).db_path_view() == if spec_trim(path@).len() == 0 {
                None::<Seq<char>>
            } else {
                Some(path@)
            },
    {
        let t = trim_str(path.as_str());
        if t.as_str().is_empty() {
            self.db_path = None;
        } else {
            self.db_path = Some(path);
        }
    }

    /// The recorded override for the database path, if any.
    pub fn get_db_path(&self) -> (r: Option<String>)
        ensures
            match r {
                Some(p) => self.db_path_view() == Some(p@),
                None => self.db_path_view() is None,
            },
    {
        match &self.db_path {
            Some(p) => Some(p.clone()),
            None => None,
        }
    }
}

/// Where a store file named `name` is found, and what the migration
/// attempt changes: the primary location wins if the file is already
/// there; otherwise a file in the legacy directory is copied next to the
/// executable when the two directories differ, and the copy's failure
/// falls back to the legacy path without changing anything.
pub open spec fn spec_resolve_existing(
    app_dir: Seq<char>,
    legacy_dir: Option<Seq<char>>,
    name: Seq<char>,
    fs: FsView,
) -> (Seq<char>, FsView) {
    let primary = spec_path_join(app_dir, name);
    if fs.files.contains_key(primary) {
        (primary, fs)
    } else {
        match legacy_dir {
            Some(ld) => {
                let legacy = spec_path_join(ld, name);
                if fs.files.contains_key(legacy) {
                    match spec_parent_of(primary) {
                        Some(pp) => {
                            let lp = match spec_parent_of(legacy) {
                                Some(x) => x,
                                None => pp,
                            };
                            if pp != lp {
                                if fs.denied.contains(pp) || fs.denied.contains(primary) {
                                    (legacy, fs)
                                } else {
                                    (
                                        primary,
                                        FsView {
                                            files: fs.files.insert(primary, fs.files[legacy]),
                                            denied: fs.denied,
                                        },
                                    )
                                }
                            } else {
                                (legacy, fs)
                            }
                        },
                        None => (legacy, fs),
                    }
                } else {
                    (primary, fs)
                }
            },
            None => (primary, fs),
        }
    }
}

/// Where the database file is found. A non-blank override path is
/// expanded and used as-is when it carries a database extension, or as a
/// directory otherwise; without an override the primary/legacy search of
/// `spec_resolve_existing` applies.
pub open spec fn spec_resolve_db(
    app_dir: Seq<char>,
    legacy_dir: Option<Seq<char>>,
    db_path: Option<Seq<char>>,
    env: EnvVars,
    fs: FsView,
) -> (Seq<char>, FsView) {
    match db_path {
        Some(p) => {
            if spec_trim(p).len() > 0 {
                let e = expand_spec(env, spec_trim(p));
                if spec_is_db_file(e) {
                    (e, fs)
                } else {
                    (spec_path_join(e, spec_db_filename()), fs)
                }
            } else {
                spec_resolve_existing(app_dir, legacy_dir, spec_db_filename(), fs)
            }
        },
        None => spec_resolve_existing(app_dir, legacy_dir, spec_db_filename(), fs),
    }
}

/// Looks `name` up under the primary and legacy directories, migrating
/// the legacy file to the primary location when that is needed and
/// possible.
pub fn resolve_existing_file(cfg: &AppConfig, fs: &mut FileSystem, name: &str) -> (r: String)
    requires
        cfg.app_dir_view() is Some,
    ensures
        ({
            let (p, f) = spec_resolve_existing(
                cfg.app_dir_view().unwrap(),
                cfg.legacy_dir_view(),
                name@,
                old(fs).fsv(),
            );
            r@ == p && final(fs).fsv() == f
        }),
{
    let primary = path_join(cfg.get_app_dir().as_str(), name);
    if fs.is_file(primary.as_str()) {
        return primary;
    }
    match cfg.legacy_app_file(name) {
        Some(legacy) => {
            if fs.is_file(legacy.as_str()) {
                match parent_of(primary.as_str()) {
                    Some(pp) => {
                        let differs: bool = match parent_of(legacy.as_str()) {
                            Some(lp) => !(pp == lp),
                            None => false,
                        };
                        if differs {
                            match fs.create_dir_all(pp.as_str()) {
                                Ok(()) => {
                                    match fs.copy_file(legacy.as_str(), primary.as_str()) {
                                        Ok(()) => primary,
                                        Err(_) => legacy,
                                    }
                                },
                                Err(_) => legacy,
                            }
                        } else {
                            legacy
                        }
                    },
                    None => legacy,
                }
            } else {
                primary
            }
        },
        None => primary,
    }
}

/// Resolves the single authoritative path of the database file.
pub fn resolve_db_file(cfg: &AppConfig, env: &EnvVars, fs: &mut FileSystem) -> (r: String)
    requires
        cfg.app_dir_view() is Some,
    ensures
        ({
            let (p, f) = spec_resolve_db(
                cfg.app_dir_view().unwrap(),
                cfg.legacy_dir_view(),
                cfg.db_path_view(),
                *env,
                old(fs).fsv(),
            );
            r@ == p && final(fs).fsv() == f
        }),
{
    match cfg.get_db_path() {
        Some(path) => {
            let trimmed = trim_str(path.as_str());
            if !trimmed.as_str().is_empty() {
                let expanded = expand_env_vars(env, trimmed.as_str());
                if is_db_file(expanded.as_str()) {
                    return expanded;
                }
                let dbn = db_filename();
                return path_join(expanded.as_str(), dbn.as_str());
            }
            let dbn = db_filename();
            resolve_existing_file(cfg, fs, dbn.as_str())
        },
        None => {
            let dbn = db_filename();
            resolve_existing_file(cfg, fs, dbn.as_str())
        },
    }
}

/// The settings file's fixed location under the data directory.
pub fn resolve_settings_file(cfg: &AppConfig) -> (r: String)
    requires
        cfg.app_dir_view() is Some,
    ensures
        r@ == spec_path_join(cfg.app_dir_view().unwrap(), spec_settings_filename()),
{
    let sn = settings_filename();
    path_join(cfg.get_app_dir().as_str(), sn.as_str())
}

/// The settings file to read: the primary one when present, otherwise the
/// legacy one, migrated to the primary location when possible.
pub fn resolve_settings_file_for_read(cfg: &AppConfig, fs: &mut FileSystem) -> (r: String)
    requires
        cfg.app_dir_view() is Some,
    ensures
        ({
            let (p, f) = spec_resolve_existing(
                cfg.app_dir_view().unwrap(),
                cfg.legacy_dir_view(),
                spec_settings_filename(),
                old(fs).fsv(),
            );
            r@ == p && final(fs).fsv() == f
        }),
{
    let sn = settings_filename();
    resolve_existing_file(cfg, fs, sn.as_str())
}

/// What copying one file from the old per-user data directory to the
/// portable directory does: nothing when the target already exists or the
/// source is missing; otherwise the parent directory is made and the file
/// copied, and either step's failure reports an error with nothing
/// changed.
pub open spec fn spec_migrate_file(source: Seq<char>, target: Seq<char>, fs: FsView) -> (Result<
    (),
    StoreError,
>, FsView) {
    if fs.files.contains_key(target) || !fs.files.contains_key(source) {
        (Ok(()), fs)
    } else if (match spec_parent_of(target) {
        Some(pp) => fs.denied.contains(pp),
        None => false,
    }) {
        (Err(StoreError::Path), fs)
    } else if fs.denied.contains(target) {
        (Err(StoreError::Path), fs)
    } else {
        (
            Ok(()),
            FsView { files: fs.files.insert(target, fs.files[source]), denied: fs.denied },
        )
    }
}

/// Copies one file for the first portable run, as `spec_migrate_file`
/// says.
pub fn migrate_file(source_dir: &str, target_dir: &str, name: &str, fs: &mut FileSystem) -> (r:
    Result<(), StoreError>)
    ensures
        ({
            let (res, f) = spec_migrate_file(
                spec_path_join(source_dir@, name@),
                spec_path_join(target_dir@, name@),
                old(fs).fsv(),
            );
            r == res && final(fs).fsv() == f
        }),
{
    let source = path_join(source_dir, name);
    let target = path_join(target_dir, name);
    if fs.is_file(target.as_str()) || !fs.is_file(source.as_str()) {
        return Ok(());
    }
    match parent_of(target.as_str()) {
        Some(pp) => {
            match fs.create_dir_all(pp.as_str()) {
                Ok(()) => {},
                Err(e) => {
                    return Err(e);
                },
            }
        },
        None => {},
    }
    match fs.copy_file(source.as_str(), target.as_str()) {
        Ok(()) => Ok(()),
        Err(e) => Err(e),
    }
}

/// Copies the settings file and then the database file from the old
/// per-user data directory to the portable directory, once, on the first
/// portable run.
pub fn migrate_from_appdata_to_portable(
    app_data_dir: &str,
    portable_dir: &str,
    fs: &mut FileSystem,
) -> (r: Result<(), StoreError>)
    ensures
        ({
            let (r1, f1) = spec_migrate_file(
                spec_path_join(app_data_dir@, spec_settings_filename()),
                spec_path_join(portable_dir@, spec_settings_filename()),
                old(fs).fsv(),
            );
            if r1 is Err {
                r == r1 && final(fs).fsv() == f1
            } else {
                ({
                    let (r2, f2) = spec_migrate_file(
                        spec_path_join(app_data_dir@, spec_db_filename()),
                        spec_path_join(portable_dir@, spec_db_filename()),
                        f1,
                    );
                    r == r2 && final(fs).fsv() == f2
                })
            }
        }),
{
    let sn = settings_filename();
    match migrate_file(app_data_dir, portable_dir, sn.as_str(), fs) {
        Ok(()) => {},
        Err(e) => {
            return Err(e);
        },
    }
    let dbn = db_filename();
    migrate_file(app_data_dir, portable_dir, dbn.as_str(), fs)
}

/// Resolution is idempotent: with no outside change to the filesystem in
/// between, a second search for `name` returns the same path and changes
/// nothing further.
pub proof fn lemma_resolve_existing_idempotent(
    app_dir: Seq<char>,
    legacy_dir: Option<Seq<char>>,
    name: Seq<char>,
    fs: FsView,
)
    ensures
        ({
            let (p1, f1) = spec_resolve_existing(app_dir, legacy_dir, name, fs);
            let (p2, f2) = spec_resolve_existing(app_dir, legacy_dir, name, f1);
            p2 == p1 && f2 == f1
        }),
{
    let primary = spec_path_join(app_dir, name);
    let (p1, f1) = spec_resolve_existing(app_dir, legacy_dir, name, fs);
    if !fs.files.contains_key(primary) && legacy_dir is Some {
        let legacy = spec_path_join(legacy_dir.unwrap(), name);
        if fs.files.contains_key(legacy) && f1 != fs {
            assert(f1.files.contains_key(primary));
        }
    }
}

/// Database resolution is idempotent: a second call with no outside
/// change in between returns the same path and changes nothing further.
pub proof fn lemma_resolve_db_idempotent(
    app_dir: Seq<char>,
    legacy_dir: Option<Seq<char>>,
    db_path: Option<Seq<char>>,
    env: EnvVars,
    fs: FsView,
)
    ensures
        ({
            let (p1, f1) = spec_resolve_db(app_dir, legacy_dir, db_path, env, fs);
            let (p2, f2) = spec_resolve_db(app_dir, legacy_dir, db_path, env, f1);
            p2 == p1 && f2 == f1
        }),
{
    lemma_resolve_existing_idempotent(app_dir, legacy_dir, spec_db_filename(), fs);
}

/// Whether, on `fs`, the search for `name` migrates the legacy file: the
/// primary file is absent, the legacy file exists in a directory other
/// than the primary one, and nothing refuses the copy.
pub open spec fn migration_happens(
    app_dir: Seq<char>,
    legacy_dir: Option<Seq<char>>,
    name: Seq<char>,
    fs: FsView,
) -> bool {
    let primary = spec_path_join(app_dir, name);
    &&& !fs.files.contains_key(primary)
    &&& legacy_dir is Some
    &&& fs.files.contains_key(spec_path_join(legacy_dir.unwrap(), name))
    &&& spec_parent_of(primary) is Some
    &&& (match spec_parent_of(spec_path_join(legacy_dir.unwrap(), name)) {
        Some(lp) => lp != spec_parent_of(primary).unwrap(),
        None => false,
    })
    &&& !fs.denied.contains(spec_parent_of(primary).unwrap())
    &&& !fs.denied.contains(primary)
}

/// Migration copies and never moves: after a successful migration the
/// legacy file still exists, unchanged, and the primary file holds
/// exactly its contents.
pub proof fn lemma_migration_copies_not_moves(
    app_dir: Seq<char>,
    legacy_dir: Option<Seq<char>>,
    name: Seq<char>,
    fs: FsView,
)
    requires
        migration_happens(app_dir, legacy_dir, name, fs),
    ensures
        ({
            let primary = spec_path_join(app_dir, name);
            let legacy = spec_path_join(legacy_dir.unwrap(), name);
            let (p1, f1) = spec_resolve_existing(app_dir, legacy_dir, name, fs);
            p1 == primary && f1.files.contains_key(legacy) && f1.files[legacy] == fs.files[legacy]
                && f1.files.contains_key(primary) && f1.files[primary] == fs.files[legacy]
        }),
{
    let primary = spec_path_join(app_dir, name);
    let legacy = spec_path_join(legacy_dir.unwrap(), name);
    assert(primary != legacy);
}

/// Migration happens at most once: once the primary file exists, a later
/// resolution returns it untouched, whatever it now holds, and in
/// particular never copies the legacy contents over it again.
pub proof fn lemma_migration_at_most_once(
    app_dir: Seq<char>,
    legacy_dir: Option<Seq<char>>,
    name: Seq<char>,
    fs: FsView,
    newdata: Seq<u8>,
)
    requires
        migration_happens(app_dir, legacy_dir, name, fs),
    ensures
        ({
            let primary = spec_path_join(app_dir, name);
            let (p1, f1) = spec_resolve_existing(app_dir, legacy_dir, name, fs);
            let mutated = FsView { files: f1.files.insert(primary, newdata), denied: f1.denied };
            let (p2, f2) = spec_resolve_existing(app_dir, legacy_dir, name, mutated);
            p2 == primary && f2 == mutated && f2.files[primary] == newdata
        }),
{
}

} // verus!
