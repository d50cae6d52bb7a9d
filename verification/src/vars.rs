//! Variables: scopes of named string values, `KEY=VALUE` arguments, and the
//! substitution of `{{.NAME}}` references.
use vstd::prelude::*;

use crate::ordered_map::{entry_insert, entry_lookup, lemma_key_index, lemma_key_index_first};
use crate::text::str_eq;

verus! {

/// A scope of variables: names bound to string values.  Binding a name that
/// is already bound replaces its value.
pub struct Vars {
    entries: Vec<(String, String)>,
}

pub open spec fn pair_view(e: (String, String)) -> (Seq<char>, Seq<char>) {
    (e.0@, e.1@)
}

impl View for Vars {
    type V = Seq<(Seq<char>, Seq<char>)>;

    /// The bindings in the order in which their names were first bound.
    closed spec fn view(&self) -> Seq<(Seq<char>, Seq<char>)> {
        self.entries@.map_values(|e: (String, String)| pair_view(e))
    }
}

impl Vars {
    /// An empty scope.
    pub fn new() -> (r: Vars)
        ensures
            r@ == Seq::<(Seq<char>, Seq<char>)>::empty(),
    {
        let r = Vars { entries: Vec::new() };
        assert(r@ =~= Seq::<(Seq<char>, Seq<char>)>::empty());
        r
    }

    /// The number of bound names.
    pub fn len(&self) -> (n: usize)
        ensures
            n == self@.len(),
    {
        self.entries.len()
    }

    /// The binding at position `i`.
    pub fn entry(&self, i: usize) -> (r: (&String, &String))
        requires
            i < self@.len(),
        ensures
            r.0@ == self@[i as int].0,
            r.1@ == self@[i as int].1,
    {
        let e = &self.entries[i];
        (&e.0, &e.1)
    }

    /// Binds `k` to `v`.
    pub fn insert(&mut self, k: String, v: String)
        ensures
            final(self)@ == entry_insert(old(self)@, k@, v@),
    {
        let ghost s = self@;
        let mut i: usize = 0;
        while i < self.entries.len()
            invariant
                i <= self.entries.len(),
                s == self@,
                s == old(self)@,
                forall|j: int| 0 <= j < i ==> s[j].0 != k@,
            decreases self.entries.len() - i,
        {
            if str_eq(self.entries[i].0.as_str(), k.as_str()) {
                assert(s[i as int].0 == k@);
                proof {
                    lemma_key_index_first(s, k@, i as int);
                }
                self.entries.set(i, (k, v));
                assert(self@ =~= s.update(i as int, (k@, v@)));
                return;
            }
            assert(s[i as int].0 != k@);
            i = i + 1;
        }
        proof {
            lemma_key_index(s, k@);
        }
        self.entries.push((k, v));
        assert(self@ =~= s.push((k@, v@)));
    }

    /// The value bound to `k`, if any.
    pub fn get(&self, k: &str) -> (r: Option<&String>)
        ensures
            match r {
                Some(v) => entry_lookup(self@, k@) == Some(v@),
                None => entry_lookup(self@, k@) is None,
            },
    {
        let ghost s = self@;
        let mut i: usize = 0;
        while i < self.entries.len()
            invariant
                i <= self.entries.len(),
                s == self@,
                forall|j: int| 0 <= j < i ==> s[j].0 != k@,
            decreases self.entries.len() - i,
        {
            if str_eq(self.entries[i].0.as_str(), k) {
                assert(s[i as int].0 == k@);
                proof {
                    lemma_key_index_first(s, k@, i as int);
                }
                return Some(&self.entries[i].1);
            }
            assert(s[i as int].0 != k@);
            i = i + 1;
        }
        proof {
            lemma_key_index(s, k@);
        }
        None
    }

    /// A copy of the scope.
    pub fn duplicate(&self) -> (r: Vars)
        ensures
            r@ == self@,
    {
        let mut entries: Vec<(String, String)> = Vec::new();
        let mut i: usize = 0;
        while i < self.entries.len()
            invariant
                i <= self.entries.len(),
                entries@.len() == i,
                forall|j: int| 0 <= j < i ==> #[trigger] pair_view(entries@[j]) == pair_view(self.entries@[j]),
            decreases self.entries.len() - i,
        {
            let e = &self.entries[i];
            entries.push((e.0.clone(), e.1.clone()));
            i = i + 1;
        }
        let r = Vars { entries };
        assert(r@ =~= self@);
        r
    }
}

// ---------------------------------------------------------------------------
// KEY=VALUE arguments
// ---------------------------------------------------------------------------

/// Position of the first `c` in `s`, or -1.
pub open spec fn char_index(s: Seq<char>, c: char) -> int
    decreases s.len(),
{
    if s.len() == 0 {
        -1
    } else {
        let i = char_index(s.drop_last(), c);
        if i >= 0 {
            i
        } else if s.last() == c {
            s.len() - 1
        } else {
            -1
        }
    }
}

proof fn lemma_char_index(s: Seq<char>, c: char)
    ensures
        -1 <= char_index(s, c) < s.len(),
        char_index(s, c) >= 0 ==> s[char_index(s, c)] == c,
        char_index(s, c) >= 0 ==> forall|j: int| 0 <= j < char_index(s, c) ==> s[j] != c,
        char_index(s, c) < 0 ==> forall|j: int| 0 <= j < s.len() ==> s[j] != c,
    decreases s.len(),
{
    if s.len() > 0 {
        let t = s.drop_last();
        lemma_char_index(t, c);
        assert forall|j: int| 0 <= j < t.len() implies t[j] == s[j] by {}
    }
}

proof fn lemma_char_index_first(s: Seq<char>, c: char, i: int)
    requires
        0 <= i < s.len(),
        s[i] == c,
        forall|j: int| 0 <= j < i ==> s[j] != c,
    ensures
        char_index(s, c) == i,
    decreases s.len(),
{
    if i < s.len() - 1 {
        lemma_char_index_first(s.drop_last(), c, i);
    } else {
        lemma_char_index(s.drop_last(), c);
    }
}

/// `KEY=VALUE` split at its first `=`; `None` without one.
pub open spec fn split_assignment(s: Seq<char>) -> Option<(Seq<char>, Seq<char>)> {
    let i = char_index(s, '=');
    if i >= 0 {
        Some((s.take(i), s.skip(i + 1)))
    } else {
        None
    }
}

/// The bindings of a list of `KEY=VALUE` arguments: arguments without `=` are
/// ignored, a later binding of a name replaces an earlier one.
pub open spec fn spec_parse_vars(args: Seq<Seq<char>>) -> Seq<(Seq<char>, Seq<char>)>
    decreases args.len(),
{
    if args.len() == 0 {
        Seq::empty()
    } else {
        let acc = spec_parse_vars(args.drop_last());
        match split_assignment(args.last()) {
            Some(kv) => entry_insert(acc, kv.0, kv.1),
            None => acc,
        }
    }
}

/// The value of the last argument `k=VALUE` among `args`, if any.
pub open spec fn last_assignment(args: Seq<Seq<char>>, k: Seq<char>) -> Option<Seq<char>>
    decreases args.len(),
{
    if args.len() == 0 {
        None
    } else {
        match split_assignment(args.last()) {
            Some(kv) => if kv.0 == k {
                Some(kv.1)
            } else {
                last_assignment(args.drop_last(), k)
            },
            None => last_assignment(args.drop_last(), k),
        }
    }
}

/// A variable given several times on the command line takes its last value;
/// a name given no value is not bound.
pub proof fn lemma_parse_vars_last_wins(args: Seq<Seq<char>>, k: Seq<char>)
    ensures
        entry_lookup(spec_parse_vars(args), k) == last_assignment(args, k),
    decreases args.len(),
{
    if args.len() == 0 {
        lemma_key_index(Seq::<(Seq<char>, Seq<char>)>::empty(), k);
    } else {
        lemma_parse_vars_last_wins(args.drop_last(), k);
        let acc = spec_parse_vars(args.drop_last());
        match split_assignment(args.last()) {
            Some(kv) => {
                crate::ordered_map::lemma_insert_keys(acc, kv.0, kv.1);
                if kv.0 != k {
                    crate::ordered_map::lemma_lookup_insert_other(acc, kv.0, kv.1, k);
                }
            },
            None => {},
        }
    }
}

/// `s` split at its first `=`.
pub fn split_once_eq(s: &str) -> (r: Option<(String, String)>)
    ensures
        match r {
            Some(kv) => split_assignment(s@) == Some((kv.0@, kv.1@)),
            None => split_assignment(s@) is None,
        },
{
    let n = s.unicode_len();
    let mut i: usize = 0;
    while i < n
        invariant
            n == s@.len(),
            i <= n,
            forall|j: int| 0 <= j < i ==> s@[j] != '=',
        decreases n - i,
    {
        if s.get_char(i) == '=' {
            proof {
                lemma_char_index_first(s@, '=', i as int);
            }
            let k = s.substring_char(0, i);
            let v = s.substring_char(i + 1, n);
            assert(k@ =~= s@.take(i as int));
            assert(v@ =~= s@.skip(i + 1));
            return Some((String::from_str(k), String::from_str(v)));
        }
        i = i + 1;
    }
    proof {
        lemma_char_index(s@, '=');
    }
    None
}

/// The variables given on the command line as `KEY=VALUE` arguments.
pub fn parse_vars(args: &Vec<String>) -> (r: Vars)
    ensures
        r@ == spec_parse_vars(args@.map_values(|a: String| a@)),
{
    let ghost av = args@.map_values(|a: String| a@);
    let mut map = Vars::new();
    let mut i: usize = 0;
    assert(av.take(0) =~= Seq::<Seq<char>>::empty());
    while i < args.len()
        invariant
            i <= args.len(),
            av == args@.map_values(|a: String| a@),
            map@ == spec_parse_vars(av.take(i as int)),
        decreases args.len() - i,
    {
        assert(av.take(i + 1).drop_last() =~= av.take(i as int));
        assert(av.take(i + 1).last() == args@[i as int]@);
        if let Some((k, v)) = split_once_eq(args[i].as_str()) {
            map.insert(k, v);
        }
        i = i + 1;
    }
    assert(av.take(args.len() as int) =~= av);
    map
}

// ---------------------------------------------------------------------------
// Lookup and substitution
// ---------------------------------------------------------------------------

/// The value of a variable: its binding in the scope, else its binding in the
/// environment, else the empty string.
pub open spec fn lookup_value(scope: Seq<(Seq<char>, Seq<char>)>, env: Seq<(Seq<char>, Seq<char>)>, name: Seq<char>) -> Seq<char> {
    match entry_lookup(scope, name) {
        Some(v) => v,
        None => match entry_lookup(env, name) {
            Some(v) => v,
            None => Seq::empty(),
        },
    }
}

/// The value of the variable `name`.
pub fn lookup_var(scope: &Vars, env: &Vars, name: &str) -> (r: String)
    ensures
        r@ == lookup_value(scope@, env@, name@),
{
    match scope.get(name) {
        Some(v) => v.clone(),
        None => match env.get(name) {
            Some(v) => v.clone(),
            None => String::new(),
        },
    }
}

/// The text of `s` around its `{{.NAME}}` references (pattern
/// `\{\{\s*\.([A-Za-z_][A-Za-z0-9_]*)\s*\}\}`, matches taken from left to
/// right without overlap): the pieces of text between the references, and
/// the names that the references capture.
pub uninterp spec fn var_template(s: Seq<char>) -> (Seq<Seq<char>>, Seq<Seq<char>>);

/// The pieces of text with the values in between: `lits[0] + vals[0] +
/// lits[1] + ... + vals[n - 1] + lits[n]`.
pub open spec fn interleave(lits: Seq<Seq<char>>, vals: Seq<Seq<char>>) -> Seq<char>
    decreases vals.len(),
{
    if vals.len() == 0 {
        if lits.len() > 0 {
            lits[0]
        } else {
            Seq::empty()
        }
    } else {
        interleave(lits.drop_last(), vals.drop_last()) + vals.last() + lits.last()
    }
}

/// `s` with every `{{.NAME}}` reference replaced by the value of `NAME`.
pub open spec fn substitute(s: Seq<char>, scope: Seq<(Seq<char>, Seq<char>)>, env: Seq<(Seq<char>, Seq<char>)>) -> Seq<char> {
    interleave(
        var_template(s).0,
        var_template(s).1.map_values(|n: Seq<char>| lookup_value(scope, env, n)),
    )
}

/// `regex::Regex::replace_all` with the reference pattern and a replacement
/// closure that looks the captured name up: every match is replaced by the
/// value of its name, the text between matches is kept.
#[verifier::external_body]
fn replace_var_refs(s: &str, scope: &Vars, env: &Vars) -> (r: String)
    ensures
        r@ == interleave(
            var_template(s@).0,
            var_template(s@).1.map_values(|n: Seq<char>| lookup_value(scope@, env@, n)),
        ),
{
    let re = regex::Regex::new(r"\{\{\s*\.([A-Za-z_][A-Za-z0-9_]*)\s*\}\}").unwrap();
    re.replace_all(s, |caps: &regex::Captures| lookup_var(scope, env, &caps[1])).into_owned()
}

/// `s` with every `{{.NAME}}` reference replaced by the value of `NAME` in
/// the scope, else in the environment, else by nothing.
pub fn substitute_vars(s: &str, scope: &Vars, env: &Vars) -> (r: String)
    ensures
        r@ == substitute(s@, scope@, env@),
{
    replace_var_refs(s, scope, env)
}

// ---------------------------------------------------------------------------
// Words and Python commands
// ---------------------------------------------------------------------------

/// The characters with the Unicode `White_Space` property.
pub open spec fn is_white_space(c: char) -> bool {
    ||| ('\u{9}' <= c && c <= '\u{d}')
    ||| c == ' '
    ||| c == '\u{85}'
    ||| c == '\u{a0}'
    ||| c == '\u{1680}'
    ||| ('\u{2000}' <= c && c <= '\u{200a}')
    ||| c == '\u{2028}'
    ||| c == '\u{2029}'
    ||| c == '\u{202f}'
    ||| c == '\u{205f}'
    ||| c == '\u{3000}'
}

pub fn white_space(c: char) -> (r: bool)
    ensures
        r == is_white_space(c),
{
    ('\u{9}' <= c && c <= '\u{d}') || c == ' ' || c == '\u{85}' || c == '\u{a0}' || c == '\u{1680}'
        || ('\u{2000}' <= c && c <= '\u{200a}') || c == '\u{2028}' || c == '\u{2029}'
        || c == '\u{202f}' || c == '\u{205f}' || c == '\u{3000}'
}

/// The maximal runs of non-white-space characters of `s`, in order.
pub open spec fn words(s: Seq<char>) -> Seq<Seq<char>>
    decreases s.len(),
{
    if s.len() == 0 {
        Seq::empty()
    } else {
        let w = words(s.drop_last());
        let c = s.last();
        if is_white_space(c) {
            w
        } else if s.len() >= 2 && !is_white_space(s[s.len() - 2]) {
            w.update(w.len() - 1, w.last().push(c))
        } else {
            w.push(seq![c])
        }
    }
}

pub open spec fn strings_view(v: Seq<String>) -> Seq<Seq<char>> {
    v.map_values(|s: String| s@)
}

/// The words of `s`, separated by white space.
pub fn split_whitespace(s: &str) -> (r: Vec<String>)
    ensures
        strings_view(r@) == words(s@),
{
    let n = s.unicode_len();
    let mut out: Vec<String> = Vec::new();
    let mut start: usize = 0;
    let mut in_word = false;
    let mut i: usize = 0;
    assert(s@.take(0) =~= Seq::<char>::empty());
    assert(strings_view(out@) =~= Seq::<Seq<char>>::empty());
    while i < n
        invariant
            n == s@.len(),
            i <= n,
            in_word ==> start < i,
            in_word <==> (i > 0 && !is_white_space(s@[i - 1])),
            in_word ==> (start == 0 || is_white_space(s@[start - 1])),
            in_word ==> forall|j: int| start <= j < i ==> !is_white_space(#[trigger] s@[j]),
            words(s@.take(i as int)) == (if in_word {
                strings_view(out@).push(s@.subrange(start as int, i as int))
            } else {
                strings_view(out@)
            }),
        decreases n - i,
    {
        let c = s.get_char(i);
        let ghost t = s@.take(i + 1);
        assert(t.drop_last() =~= s@.take(i as int));
        assert(t.last() == c);
        if white_space(c) {
            if in_word {
                let w = String::from_str(s.substring_char(start, i));
                let ghost before = strings_view(out@);
                out.push(w);
                assert(strings_view(out@) =~= before.push(s@.subrange(start as int, i as int)));
                in_word = false;
            }
        } else {
            if in_word {
                assert(t.len() >= 2 && t[t.len() - 2] == s@[i - 1]);
                assert(s@.subrange(start as int, i as int).push(c) =~= s@.subrange(start as int, i + 1));
                let ghost w = words(s@.take(i as int));
                assert(w.update(w.len() - 1, w.last().push(c)) =~= strings_view(out@).push(s@.subrange(start as int, i + 1)));
            } else {
                if i > 0 {
                    assert(t[t.len() - 2] == s@[i - 1]);
                }
                assert(s@.subrange(i as int, i + 1) =~= seq![c]);
                start = i;
                in_word = true;
            }
        }
        i = i + 1;
    }
    assert(s@.take(n as int) =~= s@);
    if in_word {
        let w = String::from_str(s.substring_char(start, n));
        let ghost before = strings_view(out@);
        out.push(w);
        assert(strings_view(out@) =~= before.push(s@.subrange(start as int, n as int)));
    }
    out
}

/// Whether `s` begins with `p`.
pub open spec fn has_prefix(s: Seq<char>, p: Seq<char>) -> bool {
    s.len() >= p.len() && s.take(p.len() as int) == p
}

pub fn starts_with(s: &str, p: &str) -> (r: bool)
    ensures
        r == has_prefix(s@, p@),
{
    let n = s.unicode_len();
    let m = p.unicode_len();
    if n < m {
        return false;
    }
    let mut i: usize = 0;
    while i < m
        invariant
            n == s@.len(),
            m == p@.len(),
            m <= n,
            i <= m,
            forall|j: int| 0 <= j < i ==> s@[j] == p@[j],
        decreases m - i,
    {
        if s.get_char(i) != p.get_char(i) {
            assert(s@.take(m as int)[i as int] != p@[i as int]);
            return false;
        }
        i = i + 1;
    }
    assert(s@.take(m as int) =~= p@);
    true
}

/// A command that the Python interpreter runs: `python3` or `python`, alone
/// or followed by a space.
pub open spec fn is_python_line(s: Seq<char>) -> bool {
    has_prefix(s, "python3 "@) || has_prefix(s, "python "@) || s == "python3"@ || s == "python"@
}

pub fn is_python_cmd(s: &str) -> (r: bool)
    ensures
        r == is_python_line(s@),
{
    starts_with(s, "python3 ") || starts_with(s, "python ") || crate::text::str_eq(s, "python3")
        || crate::text::str_eq(s, "python")
}

/// What follows the interpreter name of a Python command line.
pub open spec fn python_rest(s: Seq<char>) -> Seq<char> {
    if has_prefix(s, "python3 "@) {
        s.skip(8)
    } else if has_prefix(s, "python "@) {
        s.skip(7)
    } else {
        Seq::empty()
    }
}

/// The script of a Python command line: its first word, or nothing.
pub open spec fn python_script(s: Seq<char>) -> Seq<char> {
    let w = words(python_rest(s));
    if w.len() > 0 {
        w[0]
    } else {
        Seq::empty()
    }
}

/// The arguments of a Python command line: the words after the script.
pub open spec fn python_args(s: Seq<char>) -> Seq<Seq<char>> {
    let w = words(python_rest(s));
    if w.len() > 0 {
        w.skip(1)
    } else {
        Seq::empty()
    }
}

/// The script and the arguments of a Python command line.
pub fn split_python_args(cmd: &str) -> (r: (String, Vec<String>))
    ensures
        r.0@ == python_script(cmd@),
        strings_view(r.1@) == python_args(cmd@),
{
    proof {
        reveal_strlit("python3 ");
        reveal_strlit("python ");
    }
    let n = cmd.unicode_len();
    let rest: &str = if starts_with(cmd, "python3 ") {
        cmd.substring_char(8, n)
    } else if starts_with(cmd, "python ") {
        cmd.substring_char(7, n)
    } else {
        ""
    };
    proof {
        reveal_strlit("");
        assert(rest@ =~= python_rest(cmd@));
    }
    let mut parts = split_whitespace(rest);
    if parts.len() == 0 {
        assert(python_args(cmd@) =~= Seq::<Seq<char>>::empty());
        return (String::new(), Vec::new());
    }
    let ghost all = strings_view(parts@);
    let script = parts.remove(0);
    assert(strings_view(parts@) =~= all.skip(1));
    (script, parts)
}

// ---------------------------------------------------------------------------
// Output of shell variables
// ---------------------------------------------------------------------------

/// `s` without its trailing newlines.
pub open spec fn trim_newlines(s: Seq<char>) -> Seq<char>
    decreases s.len(),
{
    if s.len() > 0 && s.last() == '\n' {
        trim_newlines(s.drop_last())
    } else {
        s
    }
}

/// The text of some bytes decoded as UTF-8, with invalid sequences replaced by
/// U+FFFD.
pub uninterp spec fn lossy_utf8(b: Seq<u8>) -> Seq<char>;

/// `String::from_utf8_lossy`.
#[verifier::external_body]
fn decode_lossy(b: &[u8]) -> (r: String)
    ensures
        r@ == lossy_utf8(b@),
{
    String::from_utf8_lossy(b).into_owned()
}

/// `s` without its trailing newlines.
pub fn trim_end_newlines(s: &str) -> (r: String)
    ensures
        r@ == trim_newlines(s@),
{
    let n = s.unicode_len();
    let mut end: usize = n;
    assert(s@.take(n as int) =~= s@);
    while end > 0 && s.get_char(end - 1) == '\n'
        invariant
            n == s@.len(),
            end <= n,
            trim_newlines(s@.take(end as int)) == trim_newlines(s@),
        decreases end,
    {
        assert(s@.take(end as int).drop_last() =~= s@.take(end - 1));
        end = end - 1;
    }
    let r = s.substring_char(0, end);
    assert(r@ =~= s@.take(end as int));
    String::from_str(r)
}

/// The value of a shell variable: the standard output of its command,
/// decoded, without trailing newlines.
pub open spec fn shell_output_value(out: Seq<u8>) -> Seq<char> {
    trim_newlines(lossy_utf8(out))
}

pub fn shell_output(out: &[u8]) -> (r: String)
    ensures
        r@ == shell_output_value(out@),
{
    let s = decode_lossy(out);
    trim_end_newlines(s.as_str())
}

} // verus!
