use vstd::prelude::*;

verus! {

use crate::chars::{chars_of, char_vecs_eq, copy_range, push_all, string_from_chars};

/// A snapshot of the process environment: variable names with their values.
/// The expander consults this table instead of reading the ambient
/// environment, so resolution is a function of its inputs.
pub struct EnvVars {
    pairs: Vec<(String, String)>,
}

/// First entry whose name matches, if any.
spec fn lookup_pairs(pairs: Seq<(String, String)>, name: Seq<char>) -> Option<Seq<char>>
    decreases pairs.len(),
{
    if pairs.len() == 0 {
        None
    } else if pairs[0].0@ == name {
        Some(pairs[0].1@)
    } else {
        lookup_pairs(pairs.drop_first(), name)
    }
}

impl EnvVars {
    /// The value this environment gives to `name`, if any.
    pub closed spec fn env_val(self, name: Seq<char>) -> Option<Seq<char>> {
        lookup_pairs(self.pairs@, name)
    }

    /// An environment with no variables set.
    pub fn new() -> (r: EnvVars)
        ensures
            forall|n: Seq<char>| r.env_val(n) is None,
    {
        EnvVars { pairs: Vec::new() }
    }

    /// Sets `name` to `value`, shadowing any earlier entry of that name.
    pub fn set_var(&mut self, name: String, value: String)
        ensures
            final(self).env_val(name@) == Some(value@),
            forall|n: Seq<char>| n != name@ ==> final(self).env_val(n) == old(self).env_val(n),
    {
        self.pairs.insert(0, (name, value));
        proof {
            assert(self.pairs@.drop_first() =~= old(self).pairs@);
        }
    }

    /// Looks `name` up in the table.
    pub fn lookup(&self, name: &Vec<char>) -> (r: Option<String>)
        ensures
            match r {
                Some(v) => self.env_val(name@) == Some(v@),
                None => self.env_val(name@) is None,
            },
    {
        let n = self.pairs.len();
        let mut i: usize = 0;
        while i < n
            invariant
                n == self.pairs@.len(),
                i <= n,
                forall|k: int| 0 <= k < i ==> self.pairs@[k].0@ != name@,
            decreases n - i,
        {
            let key = chars_of(self.pairs[i].0.as_str());
            if char_vecs_eq(&key, name) {
                proof {
                    lemma_lookup_skip(self.pairs@, name@, i as int);
                }
                return Some(self.pairs[i].1.clone());
            }
            i = i + 1;
        }
        proof {
            lemma_lookup_skip(self.pairs@, name@, n as int);
        }
        None
    }
}

/// Skipping entries whose names all differ from `name` leaves the lookup
/// result unchanged.
proof fn lemma_lookup_skip(pairs: Seq<(String, String)>, name: Seq<char>, i: int)
    requires
        0 <= i <= pairs.len(),
        forall|k: int| 0 <= k < i ==> pairs[k].0@ != name,
    ensures
        lookup_pairs(pairs, name) == lookup_pairs(pairs.skip(i), name),
    decreases i,
{
    if i > 0 {
        assert(pairs[0].0@ != name);
        lemma_lookup_skip(pairs.drop_first(), name, i - 1);
        assert(pairs.skip(i) =~= pairs.drop_first().skip(i - 1));
    } else {
        assert(pairs.skip(0) =~= pairs);
    }
}

/// Index of the first occurrence of `c` in `s` at or after `from`;
/// the length of `s` if there is none.
pub open spec fn scan_to(s: Seq<char>, from: int, c: char) -> int
    decreases s.len() - from,
    when 0 <= from <= s.len()
{
    if from >= s.len() {
        s.len() as int
    } else if s[from] == c {
        from
    } else {
        scan_to(s, from + 1, c)
    }
}

pub proof fn lemma_scan_to(s: Seq<char>, from: int, c: char)
    requires
        0 <= from <= s.len(),
    ensures
        from <= scan_to(s, from, c) <= s.len(),
        scan_to(s, from, c) < s.len() ==> s[scan_to(s, from, c)] == c,
        forall|k: int| from <= k < scan_to(s, from, c) ==> s[k] != c,
    decreases s.len() - from,
{
    if from < s.len() && s[from] != c {
        lemma_scan_to(s, from + 1, c);
    }
}

pub proof fn lemma_scan_to_unique(s: Seq<char>, from: int, c: char, j: int)
    requires
        0 <= from <= j <= s.len(),
        j == s.len() || s[j] == c,
        forall|k: int| from <= k < j ==> s[k] != c,
    ensures
        scan_to(s, from, c) == j,
    decreases j - from,
{
    if from < j {
        lemma_scan_to_unique(s, from + 1, c, j);
    }
}

/// The characters allowed in a bare dollar-form variable name:
/// ASCII letters, digits and the underscore.
pub open spec fn is_word_char(c: char) -> bool {
    ('a' as u32 <= c as u32 && c as u32 <= 'z' as u32) || ('A' as u32 <= c as u32 && c as u32
        <= 'Z' as u32) || ('0' as u32 <= c as u32 && c as u32 <= '9' as u32) || c == '_'
}

/// Checks whether `c` may appear in a bare dollar-form variable name.
pub fn check_word_char(c: char) -> (r: bool)
    ensures
        r == is_word_char(c),
{
    let u = c as u32;
    ('a' as u32 <= u && u <= 'z' as u32) || ('A' as u32 <= u && u <= 'Z' as u32) || ('0' as u32 <= u
        && u <= '9' as u32) || c == '_'
}

/// End of the run of word characters starting at `from`.
pub open spec fn word_end(s: Seq<char>, from: int) -> int
    decreases s.len() - from,
    when 0 <= from <= s.len()
{
    if from >= s.len() {
        from
    } else if !is_word_char(s[from]) {
        from
    } else {
        word_end(s, from + 1)
    }
}

pub proof fn lemma_word_end(s: Seq<char>, from: int)
    requires
        0 <= from <= s.len(),
    ensures
        from <= word_end(s, from) <= s.len(),
        forall|k: int| from <= k < word_end(s, from) ==> is_word_char(s[k]),
        word_end(s, from) < s.len() ==> !is_word_char(s[word_end(s, from)]),
    decreases s.len() - from,
{
    if from < s.len() && is_word_char(s[from]) {
        lemma_word_end(s, from + 1);
    }
}

pub proof fn lemma_word_end_unique(s: Seq<char>, from: int, j: int)
    requires
        0 <= from <= j <= s.len(),
        forall|k: int| from <= k < j ==> is_word_char(s[k]),
        j == s.len() || !is_word_char(s[j]),
    ensures
        word_end(s, from) == j,
    decreases j - from,
{
    if from < j {
        lemma_word_end_unique(s, from + 1, j);
    }
}

/// Delimited-percent expansion of the suffix of `s` that starts at `i`.
/// A complete `%NAME%` token is replaced by the variable's value when set
/// and kept verbatim when unset; `%%` collapses to one literal `%`; a `%`
/// with no closing `%` leaves the rest of the string untouched.
pub open spec fn win_expand_from(env: EnvVars, s: Seq<char>, i: int) -> Seq<char>
    decreases s.len() - i,
    when 0 <= i <= s.len()
{
    if i >= s.len() {
        Seq::empty()
    } else if s[i] == '%' {
        let j = scan_to(s, i + 1, '%');
        proof {
            lemma_scan_to(s, i + 1, '%');
        }
        if j >= s.len() {
            s.subrange(i, s.len() as int)
        } else if j == i + 1 {
            seq!['%'] + win_expand_from(env, s, i + 2)
        } else {
            match env.env_val(s.subrange(i + 1, j)) {
                Some(v) => v + win_expand_from(env, s, j + 1),
                None => s.subrange(i, j + 1) + win_expand_from(env, s, j + 1),
            }
        }
    } else {
        seq![s[i]] + win_expand_from(env, s, i + 1)
    }
}

/// Delimited-percent expansion of a whole string.
pub open spec fn win_expand(env: EnvVars, s: Seq<char>) -> Seq<char> {
    win_expand_from(env, s, 0)
}

/// Dollar expansion of the suffix of `s` that starts at `i`: `${NAME}`
/// (any non-`}` name; kept verbatim when unset or empty, since a
/// reference that names nothing is no recognized reference) and bare
/// `$NAME` (maximal word-character run; kept verbatim when unset). A `$`
/// that starts neither form stays literal.
pub open spec fn unix_expand_from(env: EnvVars, s: Seq<char>, i: int) -> Seq<char>
    decreases s.len() - i,
    when 0 <= i <= s.len()
{
    if i >= s.len() {
        Seq::empty()
    } else if s[i] == '$' {
        if i + 1 < s.len() && s[i + 1] == '{' {
            let j = scan_to(s, i + 2, '}');
            proof {
                lemma_scan_to(s, i + 2, '}');
            }
            if j >= s.len() {
                seq!['$'] + unix_expand_from(env, s, i + 1)
            } else if j == i + 2 {
                s.subrange(i, j + 1) + unix_expand_from(env, s, j + 1)
            } else {
                match env.env_val(s.subrange(i + 2, j)) {
                    Some(v) => v + unix_expand_from(env, s, j + 1),
                    None => s.subrange(i, j + 1) + unix_expand_from(env, s, j + 1),
                }
            }
        } else {
            let j = word_end(s, i + 1);
            proof {
                lemma_word_end(s, i + 1);
            }
            if j > i + 1 {
                match env.env_val(s.subrange(i + 1, j)) {
                    Some(v) => v + unix_expand_from(env, s, j),
                    None => s.subrange(i, j) + unix_expand_from(env, s, j),
                }
            } else {
                seq!['$'] + unix_expand_from(env, s, i + 1)
            }
        }
    } else {
        seq![s[i]] + unix_expand_from(env, s, i + 1)
    }
}

/// Dollar expansion of a whole string.
pub open spec fn unix_expand(env: EnvVars, s: Seq<char>) -> Seq<char> {
    unix_expand_from(env, s, 0)
}

/// Full expansion: the delimited-percent pass feeds the dollar pass.
pub open spec fn expand_spec(env: EnvVars, s: Seq<char>) -> Seq<char> {
    unix_expand(env, win_expand(env, s))
}


/// Expands every complete `%NAME%` reference in `input` against `env`.
pub fn expand_windows_env(env: &EnvVars, input: &str) -> (r: String)
    ensures
        r@ == win_expand(*env, input@),
{
    let s = chars_of(input);
    let o = win_expand_exec(env, &s);
    string_from_chars(&o)
}

fn win_expand_exec(env: &EnvVars, s: &Vec<char>) -> (r: Vec<char>)
    ensures
        r@ == win_expand(*env, s@),
{
    let n = s.len();
    let mut out: Vec<char> = Vec::new();
    let mut i: usize = 0;
    while i < n
        invariant
            n == s@.len(),
            i <= n,
            win_expand(*env, s@) == out@ + win_expand_from(*env, s@, i as int),
        decreases n - i,
    {
        let ghost i0 = i as int;
        let ghost out0 = out@;
        let ghost rest0 = win_expand_from(*env, s@, i0);
        if s[i] == '%' {
            let mut j = i + 1;
            while j < n && s[j] != '%'
                invariant
                    n == s@.len(),
                    i + 1 <= j <= n,
                    forall|k: int| i + 1 <= k < j ==> s@[k] != '%',
                decreases n - j,
            {
                j = j + 1;
            }
            proof {
                lemma_scan_to_unique(s@, i0 + 1, '%', j as int);
            }
            if j < n {
                if j == i + 1 {
                    out.push('%');
                    proof {
                        assert(rest0 == seq!['%'] + win_expand_from(*env, s@, i0 + 2));
                        assert(out@ + win_expand_from(*env, s@, i0 + 2) =~= out0 + rest0);
                    }
                } else {
                    let name = copy_range(s, i + 1, j);
                    let looked = env.lookup(&name);
                    match looked {
                        Some(v) => {
                            let vc = chars_of(v.as_str());
                            push_all(&mut out, &vc);
                            proof {
                                assert(rest0 == vc@ + win_expand_from(*env, s@, j + 1));
                                assert(out@ + win_expand_from(*env, s@, j + 1) =~= out0 + rest0);
                            }
                        },
                        None => {
                            out.push('%');
                            push_all(&mut out, &name);
                            out.push('%');
                            proof {
                                assert(s@.subrange(i0, j + 1) =~= seq!['%'] + s@.subrange(
                                    i0 + 1,
                                    j as int,
                                ) + seq!['%']);
                                assert(rest0 == s@.subrange(i0, j + 1) + win_expand_from(
                                    *env,
                                    s@,
                                    j + 1,
                                ));
                                assert(out@ + win_expand_from(*env, s@, j + 1) =~= out0 + rest0);
                            }
                        },
                    }
                }
                i = j + 1;
            } else {
                let rest = copy_range(s, i, n);
                push_all(&mut out, &rest);
                i = n;
                proof {
                    assert(rest0 == s@.subrange(i0, n as int));
                    assert(win_expand_from(*env, s@, n as int) == Seq::<char>::empty());
                    assert(out@ + win_expand_from(*env, s@, n as int) =~= out0 + rest0);
                }
            }
        } else {
            out.push(s[i]);
            i = i + 1;
            proof {
                assert(rest0 == seq![s@[i0]] + win_expand_from(*env, s@, i0 + 1));
                assert(out@ + win_expand_from(*env, s@, i0 + 1) =~= out0 + rest0);
            }
        }
    }
    proof {
        assert(win_expand_from(*env, s@, n as int) == Seq::<char>::empty());
        assert(out@ + Seq::<char>::empty() =~= out@);
    }
    out
}

/// Expands every `${NAME}` and bare `$NAME` reference in `input` against
/// `env`.
pub fn expand_unix_env(env: &EnvVars, input: &str) -> (r: String)
    ensures
        r@ == unix_expand(*env, input@),
{
    let s = chars_of(input);
    let o = unix_expand_exec(env, &s);
    string_from_chars(&o)
}

fn unix_expand_exec(env: &EnvVars, s: &Vec<char>) -> (r: Vec<char>)
    ensures
        r@ == unix_expand(*env, s@),
{
    let n = s.len();
    let mut out: Vec<char> = Vec::new();
    let mut i: usize = 0;
    while i < n
        invariant
            n == s@.len(),
            i <= n,
            unix_expand(*env, s@) == out@ + unix_expand_from(*env, s@, i as int),
        decreases n - i,
    {
        let ghost i0 = i as int;
        let ghost out0 = out@;
        let ghost rest0 = unix_expand_from(*env, s@, i0);
        if s[i] == '$' {
            if i + 1 < n && s[i + 1] == '{' {
                let mut j = i + 2;
                while j < n && s[j] != '}'
                    invariant
                        n == s@.len(),
                        i + 2 <= j <= n,
                        forall|k: int| i + 2 <= k < j ==> s@[k] != '}',
                    decreases n - j,
                {
                    j = j + 1;
                }
                proof {
                    lemma_scan_to_unique(s@, i0 + 2, '}', j as int);
                }
                if j < n {
                    if j > i + 2 {
                        let name = copy_range(s, i + 2, j);
                        let looked = env.lookup(&name);
                        match looked {
                            Some(v) => {
                                let vc = chars_of(v.as_str());
                                push_all(&mut out, &vc);
                                proof {
                                    assert(rest0 == vc@ + unix_expand_from(*env, s@, j + 1));
                                    assert(out@ + unix_expand_from(*env, s@, j + 1) =~= out0
                                        + rest0);
                                }
                            },
                            None => {
                                out.push('$');
                                out.push('{');
                                push_all(&mut out, &name);
                                out.push('}');
                                proof {
                                    assert(s@.subrange(i0, j + 1) =~= seq!['$', '{'] + s@.subrange(
                                        i0 + 2,
                                        j as int,
                                    ) + seq!['}']);
                                    assert(rest0 == s@.subrange(i0, j + 1) + unix_expand_from(
                                        *env,
                                        s@,
                                        j + 1,
                                    ));
                                    assert(out@ + unix_expand_from(*env, s@, j + 1) =~= out0
                                        + rest0);
                                }
                            },
                        }
                    } else {
                        out.push('$');
                        out.push('{');
                        out.push('}');
                        proof {
                            assert(s@.subrange(i0, j + 1) =~= seq!['$', '{', '}']);
                            assert(rest0 == s@.subrange(i0, j + 1) + unix_expand_from(
                                *env,
                                s@,
                                j + 1,
                            ));
                            assert(out@ + unix_expand_from(*env, s@, j + 1) =~= out0 + rest0);
                        }
                    }
                    i = j + 1;
                } else {
                    out.push('$');
                    i = i + 1;
                    proof {
                        assert(rest0 == seq!['$'] + unix_expand_from(*env, s@, i0 + 1));
                        assert(out@ + unix_expand_from(*env, s@, i0 + 1) =~= out0 + rest0);
                    }
                }
            } else {
                let mut j = i + 1;
                while j < n && check_word_char(s[j])
                    invariant
                        n == s@.len(),
                        i + 1 <= j <= n,
                        forall|k: int| i + 1 <= k < j ==> is_word_char(s@[k]),
                    decreases n - j,
                {
                    j = j + 1;
                }
                proof {
                    lemma_word_end_unique(s@, i0 + 1, j as int);
                }
                if j > i + 1 {
                    let name = copy_range(s, i + 1, j);
                    let looked = env.lookup(&name);
                    match looked {
                        Some(v) => {
                            let vc = chars_of(v.as_str());
                            push_all(&mut out, &vc);
                            proof {
                                assert(rest0 == vc@ + unix_expand_from(*env, s@, j as int));
                                assert(out@ + unix_expand_from(*env, s@, j as int) =~= out0
                                    + rest0);
                            }
                        },
                        None => {
                            out.push('$');
                            push_all(&mut out, &name);
                            proof {
                                assert(s@.subrange(i0, j as int) =~= seq!['$'] + s@.subrange(
                                    i0 + 1,
                                    j as int,
                                ));
                                assert(rest0 == s@.subrange(i0, j as int) + unix_expand_from(
                                    *env,
                                    s@,
                                    j as int,
                                ));
                                assert(out@ + unix_expand_from(*env, s@, j as int) =~= out0
                                    + rest0);
                            }
                        },
                    }
                    i = j;
                } else {
                    out.push('$');
                    i = i + 1;
                    proof {
                        assert(rest0 == seq!['$'] + unix_expand_from(*env, s@, i0 + 1));
                        assert(out@ + unix_expand_from(*env, s@, i0 + 1) =~= out0 + rest0);
                    }
                }
            }
        } else {
            out.push(s[i]);
            i = i + 1;
            proof {
                assert(rest0 == seq![s@[i0]] + unix_expand_from(*env, s@, i0 + 1));
                assert(out@ + unix_expand_from(*env, s@, i0 + 1) =~= out0 + rest0);
            }
        }
    }
    proof {
        assert(unix_expand_from(*env, s@, n as int) == Seq::<char>::empty());
        assert(out@ + Seq::<char>::empty() =~= out@);
    }
    out
}

/// Expands `input` against `env`: the delimited-percent pass first, whose
/// output is fed to the dollar pass, as the override path syntax allows
/// either style.
pub fn expand_env_vars(env: &EnvVars, input: &str) -> (r: String)
    ensures
        r@ == expand_spec(*env, input@),
{
    let first = expand_windows_env(env, input);
    expand_unix_env(env, first.as_str())
}

/// A string without `%` passes the delimited-percent pass unchanged.
pub proof fn lemma_win_identity(env: EnvVars, s: Seq<char>)
    requires
        forall|k: int| 0 <= k < s.len() ==> s[k] != '%',
    ensures
        win_expand(env, s) == s,
{
    lemma_win_identity_from(env, s, 0);
    assert(s.subrange(0, s.len() as int) =~= s);
}

proof fn lemma_win_identity_from(env: EnvVars, s: Seq<char>, i: int)
    requires
        0 <= i <= s.len(),
        forall|k: int| 0 <= k < s.len() ==> s[k] != '%',
    ensures
        win_expand_from(env, s, i) == s.subrange(i, s.len() as int),
    decreases s.len() - i,
{
    if i >= s.len() {
        assert(s.subrange(i, s.len() as int) =~= Seq::<char>::empty());
    } else {
        lemma_win_identity_from(env, s, i + 1);
        assert(seq![s[i]] + s.subrange(i + 1, s.len() as int) =~= s.subrange(i, s.len() as int));
    }
}

/// A string without `$` passes the dollar pass unchanged.
pub proof fn lemma_unix_identity(env: EnvVars, s: Seq<char>)
    requires
        forall|k: int| 0 <= k < s.len() ==> s[k] != '$',
    ensures
        unix_expand(env, s) == s,
{
    lemma_unix_identity_from(env, s, 0);
    assert(s.subrange(0, s.len() as int) =~= s);
}

proof fn lemma_unix_identity_from(env: EnvVars, s: Seq<char>, i: int)
    requires
        0 <= i <= s.len(),
        forall|k: int| 0 <= k < s.len() ==> s[k] != '$',
    ensures
        unix_expand_from(env, s, i) == s.subrange(i, s.len() as int),
    decreases s.len() - i,
{
    if i >= s.len() {
        assert(s.subrange(i, s.len() as int) =~= Seq::<char>::empty());
    } else {
        lemma_unix_identity_from(env, s, i + 1);
        assert(seq![s[i]] + s.subrange(i + 1, s.len() as int) =~= s.subrange(i, s.len() as int));
    }
}

/// The three spellings of a reference to the variable `name`.
pub open spec fn percent_token(name: Seq<char>) -> Seq<char> {
    seq!['%'] + name + seq!['%']
}

pub open spec fn dollar_token(name: Seq<char>) -> Seq<char> {
    seq!['$'] + name
}

pub open spec fn brace_token(name: Seq<char>) -> Seq<char> {
    seq!['$', '{'] + name + seq!['}']
}

/// A non-empty name made only of word characters, which every reference
/// form accepts.
pub open spec fn word_name(name: Seq<char>) -> bool {
    name.len() > 0 && forall|k: int| 0 <= k < name.len() ==> is_word_char(name[k])
}

proof fn lemma_word_char_not_special(c: char)
    requires
        is_word_char(c),
    ensures
        c != '%' && c != '$' && c != '{' && c != '}',
{
    assert('%' as u32 == 37 && '$' as u32 == 36 && '{' as u32 == 123 && '}' as u32 == 125);
}

/// A reference to an unset variable comes back unchanged, in all three
/// reference forms.
pub proof fn lemma_unset_reference_unchanged(env: EnvVars, name: Seq<char>)
    requires
        word_name(name),
        env.env_val(name) is None,
    ensures
        expand_spec(env, percent_token(name)) == percent_token(name),
        expand_spec(env, dollar_token(name)) == dollar_token(name),
        expand_spec(env, brace_token(name)) == brace_token(name),
{
    assert forall|k: int| 0 <= k < name.len() implies name[k] != '%' && name[k] != '$' && name[k]
        != '{' && name[k] != '}' by {
        lemma_word_char_not_special(name[k]);
    }
    let tp = percent_token(name);
    let np = name.len() + 1 as int;
    assert(tp[0] == '%' && tp[np] == '%');
    lemma_scan_to_unique(tp, 1, '%', np);
    assert(tp.subrange(1, np) =~= name);
    assert(win_expand_from(env, tp, np + 1) == Seq::<char>::empty());
    assert(tp.subrange(0, np + 1) =~= tp);
    assert(win_expand(env, tp) == tp.subrange(0, np + 1) + win_expand_from(env, tp, np + 1));
    assert(win_expand(env, tp) =~= tp);
    lemma_unix_identity(env, tp);
    assert(expand_spec(env, tp) == tp);

    let td = dollar_token(name);
    let nd = td.len() as int;
    lemma_win_identity(env, td);
    assert(td[1] == name[0] && td[1] != '{');
    lemma_word_end_unique(td, 1, nd);
    assert(td.subrange(1, nd) =~= name);
    assert(unix_expand_from(env, td, nd) == Seq::<char>::empty());
    assert(td.subrange(0, nd) =~= td);
    assert(unix_expand(env, td) == td.subrange(0, nd) + unix_expand_from(env, td, nd));
    assert(unix_expand(env, td) =~= td);
    assert(expand_spec(env, td) == td);

    let tb = brace_token(name);
    let nb = name.len() + 2 as int;
    lemma_win_identity(env, tb);
    assert(tb[0] == '$' && tb[1] == '{' && tb[nb] == '}');
    lemma_scan_to_unique(tb, 2, '}', nb);
    assert(tb.subrange(2, nb) =~= name);
    assert(unix_expand_from(env, tb, nb + 1) == Seq::<char>::empty());
    assert(tb.subrange(0, nb + 1) =~= tb);
    assert(unix_expand(env, tb) == tb.subrange(0, nb + 1) + unix_expand_from(env, tb, nb + 1));
    assert(unix_expand(env, tb) =~= tb);
    assert(expand_spec(env, tb) == tb);
}

/// A reference to a set variable expands to that variable's value, in all
/// three reference forms. For the delimited-percent form the value must
/// itself be free of `$`, since that form's output still passes through
/// the dollar pass.
pub proof fn lemma_set_reference_expands(env: EnvVars, name: Seq<char>, val: Seq<char>)
    requires
        word_name(name),
        env.env_val(name) == Some(val),
    ensures
        (forall|k: int| 0 <= k < val.len() ==> val[k] != '$') ==> expand_spec(
            env,
            percent_token(name),
        ) == val,
        expand_spec(env, dollar_token(name)) == val,
        expand_spec(env, brace_token(name)) == val,
{
    assert forall|k: int| 0 <= k < name.len() implies name[k] != '%' && name[k] != '$' && name[k]
        != '{' && name[k] != '}' by {
        lemma_word_char_not_special(name[k]);
    }
    let tp = percent_token(name);
    let np = name.len() + 1 as int;
    assert(tp[0] == '%' && tp[np] == '%');
    lemma_scan_to_unique(tp, 1, '%', np);
    assert(tp.subrange(1, np) =~= name);
    assert(win_expand_from(env, tp, np + 1) == Seq::<char>::empty());
    assert(win_expand(env, tp) == val + win_expand_from(env, tp, np + 1));
    assert(win_expand(env, tp) =~= val);
    if forall|k: int| 0 <= k < val.len() ==> val[k] != '$' {
        lemma_unix_identity(env, val);
        assert(expand_spec(env, tp) == val);
    }

    let td = dollar_token(name);
    let nd = td.len() as int;
    lemma_win_identity(env, td);
    assert(td[1] == name[0] && td[1] != '{');
    lemma_word_end_unique(td, 1, nd);
    assert(td.subrange(1, nd) =~= name);
    assert(unix_expand_from(env, td, nd) == Seq::<char>::empty());
    assert(unix_expand(env, td) == val + unix_expand_from(env, td, nd));
    assert(unix_expand(env, td) =~= val);
    assert(expand_spec(env, td) == val);

    let tb = brace_token(name);
    let nb = name.len() + 2 as int;
    lemma_win_identity(env, tb);
    assert(tb[0] == '$' && tb[1] == '{' && tb[nb] == '}');
    lemma_scan_to_unique(tb, 2, '}', nb);
    assert(tb.subrange(2, nb) =~= name);
    assert(unix_expand_from(env, tb, nb + 1) == Seq::<char>::empty());
    assert(unix_expand(env, tb) == val + unix_expand_from(env, tb, nb + 1));
    assert(unix_expand(env, tb) =~= val);
    assert(expand_spec(env, tb) == val);
}

/// Expansion is idempotent on a reference to an unset variable: a second
/// expansion returns the first expansion's output unchanged.
pub proof fn lemma_unset_expansion_idempotent(env: EnvVars, name: Seq<char>)
    requires
        word_name(name),
        env.env_val(name) is None,
    ensures
        expand_spec(env, expand_spec(env, percent_token(name))) == expand_spec(
            env,
            percent_token(name),
        ),
        expand_spec(env, expand_spec(env, dollar_token(name))) == expand_spec(
            env,
            dollar_token(name),
        ),
        expand_spec(env, expand_spec(env, brace_token(name))) == expand_spec(
            env,
            brace_token(name),
        ),
{
    lemma_unset_reference_unchanged(env, name);
}

/// A run without `%` passes the delimited-percent pass through
/// literally, and expansion continues after it.
proof fn lemma_win_literal_prefix(env: EnvVars, s: Seq<char>, i: int, m: int)
    requires
        0 <= i <= m <= s.len(),
        forall|k: int| i <= k < m ==> s[k] != '%',
    ensures
        win_expand_from(env, s, i) == s.subrange(i, m) + win_expand_from(env, s, m),
    decreases m - i,
{
    if i == m {
        assert(s.subrange(i, m) =~= Seq::<char>::empty());
        assert(s.subrange(i, m) + win_expand_from(env, s, m) =~= win_expand_from(env, s, m));
    } else {
        lemma_win_literal_prefix(env, s, i + 1, m);
        assert(win_expand_from(env, s, i) == seq![s[i]] + win_expand_from(env, s, i + 1));
        assert(seq![s[i]] + (s.subrange(i + 1, m) + win_expand_from(env, s, m)) =~= s.subrange(
            i,
            m,
        ) + win_expand_from(env, s, m));
    }
}

/// A run without `$` passes the dollar pass through literally, and
/// expansion continues after it.
proof fn lemma_unix_literal_prefix(env: EnvVars, s: Seq<char>, i: int, m: int)
    requires
        0 <= i <= m <= s.len(),
        forall|k: int| i <= k < m ==> s[k] != '$',
    ensures
        unix_expand_from(env, s, i) == s.subrange(i, m) + unix_expand_from(env, s, m),
    decreases m - i,
{
    if i == m {
        assert(s.subrange(i, m) =~= Seq::<char>::empty());
        assert(s.subrange(i, m) + unix_expand_from(env, s, m) =~= unix_expand_from(env, s, m));
    } else {
        lemma_unix_literal_prefix(env, s, i + 1, m);
        assert(unix_expand_from(env, s, i) == seq![s[i]] + unix_expand_from(env, s, i + 1));
        assert(seq![s[i]] + (s.subrange(i + 1, m) + unix_expand_from(env, s, m)) =~= s.subrange(
            i,
            m,
        ) + unix_expand_from(env, s, m));
    }
}

proof fn lemma_unset_percent_in_context(env: EnvVars, name: Seq<char>, p: Seq<char>, q: Seq<char>)
    requires
        word_name(name),
        env.env_val(name) is None,
        forall|k: int| 0 <= k < p.len() ==> p[k] != '%' && p[k] != '$',
        forall|k: int| 0 <= k < q.len() ==> q[k] != '%' && q[k] != '$',
    ensures
        expand_spec(env, p + percent_token(name) + q) == p + percent_token(name) + q,
{
    assert forall|k: int| 0 <= k < name.len() implies name[k] != '%' && name[k] != '$' by {
        lemma_word_char_not_special(name[k]);
    }
    let t = percent_token(name);
    let s = p + t + q;
    let pl = p.len() as int;
    let n = name.len() as int;
    let sl = s.len() as int;
    assert forall|k: int| pl <= k < pl + n + 2 implies s[k] == t[k - pl] by {}
    assert(t[0] == '%' && t[n + 1] == '%');
    assert(s[pl] == '%' && s[pl + n + 1] == '%');
    assert forall|k: int| pl + 1 <= k < pl + n + 1 implies s[k] != '%' by {
        assert(t[k - pl] == name[k - pl - 1]);
    }
    lemma_win_literal_prefix(env, s, 0, pl);
    lemma_scan_to_unique(s, pl + 1, '%', pl + n + 1);
    assert(s.subrange(pl + 1, pl + n + 1) =~= name);
    lemma_win_literal_prefix(env, s, pl + n + 2, sl);
    assert(win_expand_from(env, s, sl) == Seq::<char>::empty());
    assert(win_expand_from(env, s, pl) == s.subrange(pl, pl + n + 2) + win_expand_from(
        env,
        s,
        pl + n + 2,
    ));
    assert(win_expand(env, s) =~= s);
    assert forall|k: int| 0 <= k < sl implies s[k] != '$' by {
        if pl <= k < pl + n + 2 {
            assert(s[k] == t[k - pl]);
        }
    }
    lemma_unix_identity(env, s);
}

proof fn lemma_unset_dollar_in_context(env: EnvVars, name: Seq<char>, p: Seq<char>, q: Seq<char>)
    requires
        word_name(name),
        env.env_val(name) is None,
        forall|k: int| 0 <= k < p.len() ==> p[k] != '%' && p[k] != '$',
        forall|k: int| 0 <= k < q.len() ==> q[k] != '%' && q[k] != '$',
        q.len() == 0 || !is_word_char(q[0]),
    ensures
        expand_spec(env, p + dollar_token(name) + q) == p + dollar_token(name) + q,
{
    assert forall|k: int| 0 <= k < name.len() implies name[k] != '%' && name[k] != '$' && name[k]
        != '{' by {
        lemma_word_char_not_special(name[k]);
    }
    let t = dollar_token(name);
    let s = p + t + q;
    let pl = p.len() as int;
    let n = name.len() as int;
    let sl = s.len() as int;
    assert forall|k: int| pl <= k < pl + 1 + n implies s[k] == t[k - pl] by {}
    assert(t[0] == '$');
    assert(s[pl] == '$');
    assert forall|k: int| 0 <= k < sl implies s[k] != '%' by {
        if pl <= k < pl + 1 + n {
            assert(s[k] == t[k - pl]);
        }
    }
    lemma_win_identity(env, s);
    lemma_unix_literal_prefix(env, s, 0, pl);
    assert(t[1] == name[0]);
    assert(s[pl + 1] == name[0]);
    assert(s[pl + 1] != '{');
    assert forall|k: int| pl + 1 <= k < pl + 1 + n implies is_word_char(s[k]) by {
        assert(t[k - pl] == name[k - pl - 1]);
    }
    if q.len() > 0 {
        assert(s[pl + 1 + n] == q[0]);
    }
    lemma_word_end_unique(s, pl + 1, pl + 1 + n);
    assert(s.subrange(pl + 1, pl + 1 + n) =~= name);
    lemma_unix_literal_prefix(env, s, pl + 1 + n, sl);
    assert(unix_expand_from(env, s, sl) == Seq::<char>::empty());
    assert(unix_expand_from(env, s, pl) == s.subrange(pl, pl + 1 + n) + unix_expand_from(
        env,
        s,
        pl + 1 + n,
    ));
    assert(unix_expand(env, s) =~= s);
}

proof fn lemma_unset_brace_in_context(env: EnvVars, name: Seq<char>, p: Seq<char>, q: Seq<char>)
    requires
        word_name(name),
        env.env_val(name) is None,
        forall|k: int| 0 <= k < p.len() ==> p[k] != '%' && p[k] != '$',
        forall|k: int| 0 <= k < q.len() ==> q[k] != '%' && q[k] != '$',
    ensures
        expand_spec(env, p + brace_token(name) + q) == p + brace_token(name) + q,
{
    assert forall|k: int| 0 <= k < name.len() implies name[k] != '%' && name[k] != '}' by {
        lemma_word_char_not_special(name[k]);
    }
    let t = brace_token(name);
    let s = p + t + q;
    let pl = p.len() as int;
    let n = name.len() as int;
    let sl = s.len() as int;
    assert forall|k: int| pl <= k < pl + n + 3 implies s[k] == t[k - pl] by {}
    assert(t[0] == '$' && t[1] == '{' && t[n + 2] == '}');
    assert(s[pl] == '$' && s[pl + 1] == '{' && s[pl + n + 2] == '}');
    assert forall|k: int| 0 <= k < sl implies s[k] != '%' by {
        if pl <= k < pl + n + 3 {
            assert(s[k] == t[k - pl]);
        }
    }
    lemma_win_identity(env, s);
    lemma_unix_literal_prefix(env, s, 0, pl);
    assert forall|k: int| pl + 2 <= k < pl + n + 2 implies s[k] != '}' by {
        assert(t[k - pl] == name[k - pl - 2]);
    }
    lemma_scan_to_unique(s, pl + 2, '}', pl + n + 2);
    assert(s.subrange(pl + 2, pl + n + 2) =~= name);
    lemma_unix_literal_prefix(env, s, pl + n + 3, sl);
    assert(unix_expand_from(env, s, sl) == Seq::<char>::empty());
    assert(unix_expand_from(env, s, pl) == s.subrange(pl, pl + n + 3) + unix_expand_from(
        env,
        s,
        pl + n + 3,
    ));
    assert(unix_expand(env, s) =~= s);
}

/// An unset variable's reference surrounded by literal text comes back
/// unchanged: the text may hold no `%` or `$` of its own, and for the
/// bare dollar form the following text must not begin with a word
/// character, which would extend the name.
pub proof fn lemma_unset_reference_in_context_unchanged(
    env: EnvVars,
    name: Seq<char>,
    p: Seq<char>,
    q: Seq<char>,
)
    requires
        word_name(name),
        env.env_val(name) is None,
        forall|k: int| 0 <= k < p.len() ==> p[k] != '%' && p[k] != '$',
        forall|k: int| 0 <= k < q.len() ==> q[k] != '%' && q[k] != '$',
    ensures
        expand_spec(env, p + percent_token(name) + q) == p + percent_token(name) + q,
        (q.len() == 0 || !is_word_char(q[0])) ==> expand_spec(env, p + dollar_token(name) + q)
            == p + dollar_token(name) + q,
        expand_spec(env, p + brace_token(name) + q) == p + brace_token(name) + q,
{
    lemma_unset_percent_in_context(env, name, p, q);
    if q.len() == 0 || !is_word_char(q[0]) {
        lemma_unset_dollar_in_context(env, name, p, q);
    }
    lemma_unset_brace_in_context(env, name, p, q);
}

/// Expansion is idempotent on a reference to an unset variable standing
/// in literal text: the second expansion returns the first one's output
/// unchanged. This is as far as the claim goes: on input where percent
/// signs interact across token boundaries, expansion itself rewrites the
/// text and a second pass can differ.
pub proof fn lemma_unset_expansion_idempotent_in_context(
    env: EnvVars,
    name: Seq<char>,
    p: Seq<char>,
    q: Seq<char>,
)
    requires
        word_name(name),
        env.env_val(name) is None,
        forall|k: int| 0 <= k < p.len() ==> p[k] != '%' && p[k] != '$',
        forall|k: int| 0 <= k < q.len() ==> q[k] != '%' && q[k] != '$',
    ensures
        expand_spec(env, expand_spec(env, p + percent_token(name) + q)) == expand_spec(
            env,
            p + percent_token(name) + q,
        ),
        (q.len() == 0 || !is_word_char(q[0])) ==> expand_spec(
            env,
            expand_spec(env, p + dollar_token(name) + q),
        ) == expand_spec(env, p + dollar_token(name) + q),
        expand_spec(env, expand_spec(env, p + brace_token(name) + q)) == expand_spec(
            env,
            p + brace_token(name) + q,
        ),
{
    lemma_unset_reference_in_context_unchanged(env, name, p, q);
}

} // verus!\n