use vstd::prelude::*;

verus! {

use crate::chars::{chars_of, push_all, string_from_chars, copy_range};

// Paths are modelled as plain strings whose components are separated by
// `/`. A trailing separator on a directory is tolerated when joining.

/// `dir` with `name` appended as one more component.
pub open spec fn spec_path_join(dir: Seq<char>, name: Seq<char>) -> Seq<char> {
    if dir.len() > 0 && dir[dir.len() - 1] == '/' {
        dir + name
    } else {
        dir + seq!['/'] + name
    }
}

pub fn path_join(dir: &str, name: &str) -> (r: String)
    ensures
        r@ == spec_path_join(dir@, name@),
{
    let d = chars_of(dir);
    let n = chars_of(name);
    let mut out = d;
    if out.len() == 0 || out[out.len() - 1] != '/' {
        out.push('/');
        proof {
            assert(out@ =~= dir@ + seq!['/']);
        }
    }
    push_all(&mut out, &n);
    proof {
        if dir@.len() > 0 && dir@[dir@.len() - 1] == '/' {
            assert(out@ =~= spec_path_join(dir@, name@));
        } else {
            assert(out@ =~= dir@ + seq!['/'] + name@);
        }
    }
    string_from_chars(&out)
}

/// Index of the last occurrence of `c` strictly before `upto`, or -1.
pub open spec fn last_index_of(s: Seq<char>, upto: int, c: char) -> int
    decreases upto,
    when 0 <= upto <= s.len()
{
    if upto <= 0 {
        -1
    } else if s[upto - 1] == c {
        upto - 1
    } else {
        last_index_of(s, upto - 1, c)
    }
}

pub proof fn lemma_last_index_of(s: Seq<char>, upto: int, c: char)
    requires
        0 <= upto <= s.len(),
    ensures
        -1 <= last_index_of(s, upto, c) < upto,
        last_index_of(s, upto, c) >= 0 ==> s[last_index_of(s, upto, c)] == c,
        forall|k: int| last_index_of(s, upto, c) < k < upto ==> s[k] != c,
    decreases upto,
{
    if upto > 0 && s[upto - 1] != c {
        lemma_last_index_of(s, upto - 1, c);
    }
}

pub proof fn lemma_last_index_of_unique(s: Seq<char>, upto: int, c: char, j: int)
    requires
        0 <= upto <= s.len(),
        -1 <= j < upto,
        j >= 0 ==> s[j] == c,
        forall|k: int| j < k < upto ==> s[k] != c,
    ensures
        last_index_of(s, upto, c) == j,
    decreases upto - j,
{
    if upto - 1 > j {
        lemma_last_index_of_unique(s, upto - 1, c, j);
    }
}

/// The path without its final component, when it has more than one.
pub open spec fn spec_parent_of(p: Seq<char>) -> Option<Seq<char>> {
    let j = last_index_of(p, p.len() as int, '/');
    if j < 0 {
        None
    } else {
        Some(p.subrange(0, j))
    }
}

pub fn parent_of(path: &str) -> (r: Option<String>)
    ensures
        match r {
            Some(d) => spec_parent_of(path@) == Some(d@),
            None => spec_parent_of(path@) is None,
        },
{
    let p = chars_of(path);
    match rscan(&p, '/') {
        Some(j) => {
            let d = copy_range(&p, 0, j);
            Some(string_from_chars(&d))
        },
        None => None,
    }
}

/// Finds the last occurrence of `c` in `p`.
fn rscan(p: &Vec<char>, c: char) -> (r: Option<usize>)
    ensures
        match r {
            Some(j) => j < p@.len() && last_index_of(p@, p@.len() as int, c) == j,
            None => last_index_of(p@, p@.len() as int, c) == -1,
        },
{
    let n = p.len();
    let mut i: usize = 0;
    let mut found: Option<usize> = None;
    while i < n
        invariant
            n == p@.len(),
            i <= n,
            match found {
                Some(j) => j < i && p@[j as int] == c && forall|k: int| j < k < i ==> p@[k] != c,
                None => forall|k: int| 0 <= k < i ==> p@[k] != c,
            },
        decreases n - i,
    {
        if p[i] == c {
            found = Some(i);
        }
        i = i + 1;
    }
    proof {
        match found {
            Some(j) => lemma_last_index_of_unique(p@, n as int, c, j as int),
            None => lemma_last_index_of_unique(p@, n as int, c, -1),
        }
    }
    found
}

/// The extension of the final component: the run after its last `.`,
/// absent when there is no `.` or when the component starts with the
/// only `.` it has.
pub open spec fn spec_extension_of(p: Seq<char>) -> Option<Seq<char>> {
    let start = last_index_of(p, p.len() as int, '/') + 1;
    let dot = last_index_of(p, p.len() as int, '.');
    if dot <= start {
        None
    } else {
        Some(p.subrange(dot + 1, p.len() as int))
    }
}

pub fn extension_of(path: &str) -> (r: Option<String>)
    ensures
        match r {
            Some(e) => spec_extension_of(path@) == Some(e@),
            None => spec_extension_of(path@) is None,
        },
{
    let p = chars_of(path);
    let n = p.len();
    let start: usize = match rscan(&p, '/') {
        Some(j) => j + 1,
        None => 0,
    };
    match rscan(&p, '.') {
        Some(dot) => {
            if dot <= start {
                None
            } else {
                let e = copy_range(&p, dot + 1, n);
                Some(string_from_chars(&e))
            }
        },
        None => None,
    }
}

/// ASCII-case-insensitive sameness of two characters.
pub open spec fn char_ieq(x: char, y: char) -> bool {
    lower32(x) == lower32(y)
}

/// The code of `c`, with ASCII capitals folded to small letters.
pub open spec fn lower32(c: char) -> u32 {
    if 65 <= c as u32 <= 90 {
        (c as u32 + 32) as u32
    } else {
        c as u32
    }
}

/// ASCII-case-insensitive sameness of two strings.
pub open spec fn str_ieq(a: Seq<char>, b: Seq<char>) -> bool {
    a.len() == b.len() && forall|k: int| 0 <= k < a.len() ==> char_ieq(a[k], b[k])
}

fn chars_ieq(a: &Vec<char>, b: &Vec<char>) -> (r: bool)
    ensures
        r == str_ieq(a@, b@),
{
    if a.len() != b.len() {
        return false;
    }
    let n = a.len();
    let mut i: usize = 0;
    while i < n
        invariant
            n == a@.len() == b@.len(),
            i <= n,
            forall|k: int| 0 <= k < i ==> char_ieq(a@[k], b@[k]),
        decreases n - i,
    {
        let x = a[i] as u32;
        let y = b[i] as u32;
        let xl = if 65 <= x && x <= 90 {
            x + 32
        } else {
            x
        };
        let yl = if 65 <= y && y <= 90 {
            y + 32
        } else {
            y
        };
        if xl != yl {
            return false;
        }
        i = i + 1;
    }
    true
}

/// Whether the path's extension marks it as a database file: `db` or
/// `sqlite`, compared without regard to ASCII case.
pub open spec fn spec_is_db_file(p: Seq<char>) -> bool {
    match spec_extension_of(p) {
        Some(e) => str_ieq(e, seq!['d', 'b']) || str_ieq(e, seq!['s', 'q', 'l', 'i', 't', 'e']),
        None => false,
    }
}

pub fn is_db_file(path: &str) -> (r: bool)
    ensures
        r == spec_is_db_file(path@),
{
    match extension_of(path) {
        Some(e) => {
            let ec = chars_of(e.as_str());
            let db: Vec<char> = vec!['d', 'b'];
            let sqlite: Vec<char> = vec!['s', 'q', 'l', 'i', 't', 'e'];
            proof {
                assert(db@ =~= seq!['d', 'b']);
                assert(sqlite@ =~= seq!['s', 'q', 'l', 'i', 't', 'e']);
            }
            chars_ieq(&ec, &db) || chars_ieq(&ec, &sqlite)
        },
        None => false,
    }
}

} // verus!
