//! Template strings and placeholder substitution.
//!
//! A template is a string holding zero or more `{name}` placeholders. The
//! functions here substitute placeholders with variable values (rendering),
//! and compile a template into the pattern pair used for tag scanning: a
//! glob that pre-filters tag names and a regular expression that extracts
//! an embedded semantic version.
//!
//! Executable code works on `Vec<char>` so that every step is plain
//! character logic; the specifications speak of `Seq<char>`.

use vstd::prelude::*;
use vstd::string::StrSliceExecFns;

verus! {

/// Copy of a string's characters, for in-place scanning.
pub fn to_chars(s: &str) -> (r: Vec<char>)
    ensures
        r@ == s@,
{
    let len = s.unicode_len();
    let mut r: Vec<char> = Vec::new();
    let mut i: usize = 0;
    while i < len
        invariant
            i <= len,
            len == s@.len(),
            r@ == s@.take(i as int),
        decreases len - i,
    {
        r.push(s.get_char(i));
        proof {
            assert(s@.take(i + 1 as int) == s@.take(i as int).push(s@[i as int]));
        }
        i = i + 1;
    }
    proof {
        assert(s@.take(len as int) == s@);
    }
    r
}

/// Relies on `String::from_iter` over `char`: the resulting string holds
/// exactly the characters of the vector, in order.
#[verifier::external_body]
pub fn chars_to_string(v: &Vec<char>) -> (r: String)
    ensures
        r@ == v@,
{
    v.iter().collect()
}

/// Every occurrence of `from` in `s` replaced by `to`, scanning left to
/// right and never rescanning replaced text. Requires a non-empty `from`.
pub open spec fn spec_replace(s: Seq<char>, from: Seq<char>, to: Seq<char>) -> Seq<char>
    recommends
        from.len() > 0,
    decreases s.len(),
    when from.len() > 0
{
    if s.len() == 0 {
        s
    } else if from.len() <= s.len() && s.take(from.len() as int) == from {
        to + spec_replace(s.skip(from.len() as int), from, to)
    } else {
        seq![s[0]] + spec_replace(s.skip(1), from, to)
    }
}

/// Whether `from` occurs at position `i` of `s`.
fn matches_at(s: &Vec<char>, i: usize, from: &Vec<char>) -> (r: bool)
    requires
        i <= s@.len(),
    ensures
        r == (from@.len() <= s@.len() - i && s@.skip(i as int).take(from@.len() as int)
            == from@),
{
    let slen = s.len();
    if from.len() > slen - i {
        proof {
            assert(s@.skip(i as int).len() == s@.len() - i);
        }
        return false;
    }
    let mut j: usize = 0;
    while j < from.len()
        invariant
            j <= from@.len(),
            i + from@.len() <= s@.len(),
            slen == s@.len(),
            forall|k: int| 0 <= k < j ==> s@[i + k] == from@[k],
        decreases from@.len() - j,
    {
        proof {
            assert(i + j < s@.len());
        }
        if s[i + j] != from[j] {
            proof {
                assert(s@.skip(i as int).take(from@.len() as int)[j as int] == s@[i + j]);
            }
            return false;
        }
        j = j + 1;
    }
    proof {
        assert(s@.skip(i as int).take(from@.len() as int) =~= from@);
    }
    true
}

/// Replace every occurrence of `from` in `s` by `to`, left to right.
pub fn replace_chars(s: &Vec<char>, from: &Vec<char>, to: &Vec<char>) -> (r: Vec<char>)
    requires
        from@.len() > 0,
    ensures
        r@ == spec_replace(s@, from@, to@),
{
    let mut out: Vec<char> = Vec::new();
    let mut i: usize = 0;
    proof {
        assert(s@.skip(0) =~= s@);
        assert(out@ + spec_replace(s@, from@, to@) =~= spec_replace(s@, from@, to@));
    }
    while i < s.len()
        invariant
            i <= s@.len(),
            from@.len() > 0,
            spec_replace(s@, from@, to@) == out@ + spec_replace(s@.skip(i as int), from@, to@),
        decreases s@.len() - i,
    {
        let ghost pre = out@;
        if matches_at(s, i, from) {
            let mut j: usize = 0;
            while j < to.len()
                invariant
                    j <= to@.len(),
                    out@ == pre + to@.take(j as int),
                decreases to@.len() - j,
            {
                out.push(to[j]);
                proof {
                    assert(to@.take(j + 1 as int) == to@.take(j as int).push(to@[j as int]));
                }
                j = j + 1;
            }
            proof {
                assert(to@.take(to@.len() as int) == to@);
                assert(s@.skip(i as int).skip(from@.len() as int) =~= s@.skip(
                    i + from@.len() as int,
                ));
                assert(spec_replace(s@.skip(i as int), from@, to@) == to@ + spec_replace(
                    s@.skip(i + from@.len() as int),
                    from@,
                    to@,
                ));
                assert((pre + to@) + spec_replace(s@.skip(i + from@.len() as int), from@, to@)
                    =~= pre + spec_replace(s@.skip(i as int), from@, to@));
            }
            i = i + from.len();
        } else {
            out.push(s[i]);
            proof {
                assert(s@.skip(i as int)[0] == s@[i as int]);
                assert(s@.skip(i as int).skip(1) =~= s@.skip(i + 1 as int));
                assert(spec_replace(s@.skip(i as int), from@, to@) == seq![s@[i as int]]
                    + spec_replace(s@.skip(i + 1 as int), from@, to@));
                assert((pre + seq![s@[i as int]]) + spec_replace(s@.skip(i + 1 as int), from@, to@)
                    =~= pre + spec_replace(s@.skip(i as int), from@, to@));
                assert(out@ == pre + seq![s@[i as int]]);
            }
            i = i + 1;
        }
    }
    proof {
        assert(s@.skip(s@.len() as int) =~= Seq::<char>::empty());
        assert(out@ + Seq::<char>::empty() =~= out@);
    }
    out
}

/// Append all characters of `xs` to `out`.
pub fn push_all(out: &mut Vec<char>, xs: &Vec<char>)
    ensures
        final(out)@ == old(out)@ + xs@,
{
    let mut j: usize = 0;
    proof {
        assert(out@ =~= old(out)@ + xs@.take(0));
    }
    while j < xs.len()
        invariant
            j <= xs@.len(),
            out@ == old(out)@ + xs@.take(j as int),
        decreases xs@.len() - j,
    {
        out.push(xs[j]);
        proof {
            assert(xs@.take(j + 1 as int) == xs@.take(j as int).push(xs@[j as int]));
        }
        j = j + 1;
    }
    proof {
        assert(xs@.take(xs@.len() as int) == xs@);
    }
}

/// Index of the first `}` in `s`, unless the end of `s` or a newline comes
/// first: the span a placeholder wildcard may cover never crosses a line.
pub open spec fn spec_close_idx(s: Seq<char>) -> Option<int>
    decreases s.len(),
{
    if s.len() == 0 {
        None
    } else if s[0] == '}' {
        Some(0int)
    } else if s[0] == '\n' {
        None
    } else {
        match spec_close_idx(s.skip(1)) {
            Some(j) => Some(j + 1),
            None => None,
        }
    }
}

pub proof fn lemma_close_idx_bounds(s: Seq<char>)
    ensures
        spec_close_idx(s) matches Some(j) ==> 0 <= j < s.len() && s[j] == '}',
    decreases s.len(),
{
    if s.len() > 0 && s[0] != '}' && s[0] != '\n' {
        lemma_close_idx_bounds(s.skip(1));
    }
}

/// `spec_close_idx` finds exactly the first `}` not preceded by a newline.
pub proof fn lemma_close_idx_at(s: Seq<char>, j: int)
    requires
        0 <= j < s.len(),
        s[j] == '}',
        forall|k: int| 0 <= k < j ==> s[k] != '}' && s[k] != '\n',
    ensures
        spec_close_idx(s) == Some(j),
    decreases j,
{
    if j > 0 {
        lemma_close_idx_at(s.skip(1), j - 1);
    }
}

/// If `s` holds no `}` before its end or before a newline, there is no
/// placeholder close.
pub proof fn lemma_close_idx_none(s: Seq<char>, j: int)
    requires
        0 <= j <= s.len(),
        forall|k: int| 0 <= k < j ==> s[k] != '}' && s[k] != '\n',
        j == s.len() || s[j] == '\n',
    ensures
        spec_close_idx(s) is None,
    decreases j,
{
    if j > 0 {
        lemma_close_idx_none(s.skip(1), j - 1);
    }
}

/// `s` with every placeholder span replaced by `repl`. A span runs from a
/// `{` to the first following `}` on the same line; spans are found left
/// to right and scanning resumes after each replaced span.
pub open spec fn spec_wild(s: Seq<char>, repl: Seq<char>) -> Seq<char>
    decreases s.len(),
    via spec_wild_decreases
{
    if s.len() == 0 {
        Seq::<char>::empty()
    } else if s[0] == '{' {
        match spec_close_idx(s.skip(1)) {
            Some(j) => repl + spec_wild(s.skip(j + 2), repl),
            None => seq![s[0]] + spec_wild(s.skip(1), repl),
        }
    } else {
        seq![s[0]] + spec_wild(s.skip(1), repl)
    }
}

#[via_fn]
proof fn spec_wild_decreases(s: Seq<char>, repl: Seq<char>) {
    if s.len() > 0 && s[0] == '{' {
        lemma_close_idx_bounds(s.skip(1));
    }
}

/// Replace every placeholder span of `s` by `repl`.
pub fn wildcard_placeholders(s: &Vec<char>, repl: &Vec<char>) -> (r: Vec<char>)
    ensures
        r@ == spec_wild(s@, repl@),
{
    let mut out: Vec<char> = Vec::new();
    let mut i: usize = 0;
    proof {
        assert(s@.skip(0) =~= s@);
        assert(out@ + spec_wild(s@, repl@) =~= spec_wild(s@, repl@));
    }
    while i < s.len()
        invariant
            i <= s@.len(),
            spec_wild(s@, repl@) == out@ + spec_wild(s@.skip(i as int), repl@),
        decreases s@.len() - i,
    {
        let ghost pre = out@;
        let ghost rest = s@.skip(i as int);
        proof {
            assert(rest[0] == s@[i as int]);
        }
        if s[i] == '{' {
            // Scan for the closing brace on the same line.
            let mut j: usize = i + 1;
            while j < s.len() && s[j] != '}' && s[j] != '\n'
                invariant
                    i + 1 <= j <= s@.len(),
                    forall|k: int| i + 1 <= k < j ==> s@[k] != '}' && s@[k] != '\n',
                decreases s@.len() - j,
            {
                j = j + 1;
            }
            let ghost inner = s@.skip(i + 1 as int);
            proof {
                assert(forall|k: int|
                    0 <= k < j - (i + 1) ==> inner[k] == s@[i + 1 + k] && inner[k] != '}'
                        && inner[k] != '\n');
            }
            if j < s.len() && s[j] == '}' {
                proof {
                    assert(inner[j - (i + 1)] == s@[j as int]);
                    lemma_close_idx_at(inner, j - (i + 1));
                    assert(rest.skip(1) =~= inner);
                    assert(spec_wild(rest, repl@) == repl@ + spec_wild(
                        rest.skip(j - (i + 1) + 2),
                        repl@,
                    ));
                    assert(rest.skip(j - (i + 1) + 2) =~= s@.skip(j + 1 as int));
                }
                push_all(&mut out, repl);
                proof {
                    assert((pre + repl@) + spec_wild(s@.skip(j + 1 as int), repl@) =~= pre
                        + spec_wild(rest, repl@));
                }
                i = j + 1;
            } else {
                proof {
                    if j < s@.len() {
                        assert(inner[j - (i + 1)] == s@[j as int]);
                    }
                    assert(inner.len() == s@.len() - (i + 1));
                    lemma_close_idx_none(inner, j - (i + 1));
                    assert(rest.skip(1) =~= inner);
                    assert(spec_wild(rest, repl@) == seq![rest[0]] + spec_wild(
                        rest.skip(1),
                        repl@,
                    ));
                    assert(rest.skip(1) =~= s@.skip(i + 1 as int));
                }
                out.push(s[i]);
                proof {
                    assert(out@ == pre + seq![s@[i as int]]);
                    assert((pre + seq![s@[i as int]]) + spec_wild(s@.skip(i + 1 as int), repl@)
                        =~= pre + spec_wild(rest, repl@));
                }
                i = i + 1;
            }
        } else {
            proof {
                assert(spec_wild(rest, repl@) == seq![rest[0]] + spec_wild(rest.skip(1), repl@));
                assert(rest.skip(1) =~= s@.skip(i + 1 as int));
            }
            out.push(s[i]);
            proof {
                assert(out@ == pre + seq![s@[i as int]]);
                assert((pre + seq![s@[i as int]]) + spec_wild(s@.skip(i + 1 as int), repl@) =~= pre
                    + spec_wild(rest, repl@));
            }
            i = i + 1;
        }
    }
    proof {
        assert(s@.skip(s@.len() as int) =~= Seq::<char>::empty());
        assert(out@ + spec_wild(Seq::<char>::empty(), repl@) =~= out@);
    }
    out
}

/// The variable map: placeholder names with their substitution values.
///
/// Entries keep their insertion order, which makes rendering
/// deterministic; the order carries no further meaning. An insert
/// overwrites the first binding of its name, so a map built here holds
/// each name once.
pub struct Vars {
    entries: Vec<(String, String)>,
}

impl View for Vars {
    type V = Seq<(Seq<char>, Seq<char>)>;

    closed spec fn view(&self) -> Seq<(Seq<char>, Seq<char>)> {
        Seq::new(self.entries@.len(), |i: int| (self.entries@[i].0@, self.entries@[i].1@))
    }
}

/// Entries of `s` with the binding for `k` set to `v`: the first entry
/// keyed `k` is overwritten in place, or the binding is appended.
pub open spec fn spec_insert(
    s: Seq<(Seq<char>, Seq<char>)>,
    k: Seq<char>,
    v: Seq<char>,
) -> Seq<(Seq<char>, Seq<char>)>
    decreases s.len(),
{
    if s.len() == 0 {
        seq![(k, v)]
    } else if s[0].0 == k {
        seq![(k, v)] + s.skip(1)
    } else {
        seq![s[0]] + spec_insert(s.skip(1), k, v)
    }
}

/// Entries of `s` with a binding for `k` added only where none exists.
pub open spec fn spec_insert_absent(
    s: Seq<(Seq<char>, Seq<char>)>,
    k: Seq<char>,
    v: Seq<char>,
) -> Seq<(Seq<char>, Seq<char>)>
    decreases s.len(),
{
    if s.len() == 0 {
        seq![(k, v)]
    } else if s[0].0 == k {
        s
    } else {
        seq![s[0]] + spec_insert_absent(s.skip(1), k, v)
    }
}

impl Vars {
    pub fn new() -> (r: Vars)
        ensures
            r@ == Seq::<(Seq<char>, Seq<char>)>::empty(),
    {
        let r = Vars { entries: Vec::new() };
        proof {
            assert(r@ =~= Seq::<(Seq<char>, Seq<char>)>::empty());
        }
        r
    }

    pub open spec fn spec_len(&self) -> nat {
        self@.len()
    }

    pub fn len(&self) -> (n: usize)
        ensures
            n == self.spec_len(),
    {
        self.entries.len()
    }

    /// The entry at position `i`, in insertion order.
    pub fn entry(&self, i: usize) -> (r: (&String, &String))
        requires
            i < self@.len(),
        ensures
            r.0@ == self@[i as int].0,
            r.1@ == self@[i as int].1,
    {
        (&self.entries[i].0, &self.entries[i].1)
    }

    /// Bind `name` to `value`, overwriting any existing binding.
    pub fn insert(&mut self, name: &str, value: &str)
        ensures
            final(self)@ == spec_insert(old(self)@, name@, value@),
    {
        let ghost orig = self@;
        let ghost oe = self.entries@;
        let n = self.entries.len();
        let mut i: usize = 0;
        while i < n
            invariant
                i <= n,
                n == self.entries@.len(),
                self@ == orig,
                orig == old(self)@,
                self.entries@ == oe,
                forall|q: int| 0 <= q < i ==> orig[q].0 != name@,
            decreases n - i,
        {
            if eq_str(self.entries[i].0.as_str(), name) {
                self.entries.remove(i);
                self.entries.insert(i, (name.to_owned(), value.to_owned()));
                proof {
                    assert(self.entries@ =~= oe.update(
                        i as int,
                        (self.entries@[i as int].0, self.entries@[i as int].1),
                    ));
                    assert(self@ =~= orig.update(i as int, (name@, value@)));
                    lemma_insert_found(orig, name@, value@, i as int);
                }
                return;
            }
            i = i + 1;
        }
        self.entries.push((name.to_owned(), value.to_owned()));
        proof {
            assert(self@ =~= orig + seq![(name@, value@)]);
            lemma_insert_missing(orig, name@, value@);
        }
    }

    /// Bind `name` to `value` only where no binding for `name` exists:
    /// derived variables never override user-supplied ones.
    pub fn insert_if_absent(&mut self, name: &str, value: &str)
        ensures
            final(self)@ == spec_insert_absent(old(self)@, name@, value@),
    {
        let ghost orig = self@;
        let n = self.entries.len();
        let mut i: usize = 0;
        while i < n
            invariant
                i <= n,
                n == self.entries@.len(),
                self@ == orig,
                orig == old(self)@,
                forall|q: int| 0 <= q < i ==> orig[q].0 != name@,
            decreases n - i,
        {
            if eq_str(self.entries[i].0.as_str(), name) {
                proof {
                    lemma_insert_absent_found(orig, name@, value@, i as int);
                }
                return;
            }
            i = i + 1;
        }
        self.entries.push((name.to_owned(), value.to_owned()));
        proof {
            assert(self@ =~= orig + seq![(name@, value@)]);
            lemma_insert_absent_missing(orig, name@, value@);
        }
    }
}

/// Character-wise string equality.
pub fn eq_str(a: &str, b: &str) -> (r: bool)
    ensures
        r == (a@ == b@),
{
    let la = a.unicode_len();
    let lb = b.unicode_len();
    if la != lb {
        return false;
    }
    let mut i: usize = 0;
    while i < la
        invariant
            i <= la,
            la == a@.len(),
            la == b@.len(),
            forall|k: int| 0 <= k < i ==> a@[k] == b@[k],
        decreases la - i,
    {
        if a.get_char(i) != b.get_char(i) {
            return false;
        }
        i = i + 1;
    }
    proof {
        assert(a@ =~= b@);
    }
    true
}

/// Overwriting the binding at position `i` is what `spec_insert` does when
/// the key first occurs there.
proof fn lemma_insert_found(s: Seq<(Seq<char>, Seq<char>)>, k: Seq<char>, v: Seq<char>, i: int)
    requires
        0 <= i < s.len(),
        s[i].0 == k,
        forall|q: int| 0 <= q < i ==> s[q].0 != k,
    ensures
        spec_insert(s, k, v) == s.update(i, (k, v)),
    decreases i,
{
    if i == 0 {
        assert(seq![(k, v)] + s.skip(1) =~= s.update(0, (k, v)));
    } else {
        assert(s.skip(1)[i - 1].0 == k);
        assert(forall|q: int| 0 <= q < i - 1 ==> s.skip(1)[q].0 != k);
        lemma_insert_found(s.skip(1), k, v, i - 1);
        assert(seq![s[0]] + s.skip(1).update(i - 1, (k, v)) =~= s.update(i, (k, v)));
    }
}

/// Appending is what `spec_insert` does when the key is absent.
proof fn lemma_insert_missing(s: Seq<(Seq<char>, Seq<char>)>, k: Seq<char>, v: Seq<char>)
    requires
        forall|q: int| 0 <= q < s.len() ==> s[q].0 != k,
    ensures
        spec_insert(s, k, v) == s + seq![(k, v)],
    decreases s.len(),
{
    if s.len() == 0 {
        assert(seq![(k, v)] =~= s + seq![(k, v)]);
    } else {
        assert(forall|q: int| 0 <= q < s.skip(1).len() ==> s.skip(1)[q].0 != k);
        lemma_insert_missing(s.skip(1), k, v);
        assert(seq![s[0]] + (s.skip(1) + seq![(k, v)]) =~= s + seq![(k, v)]);
    }
}

/// A present key leaves `spec_insert_absent` without effect.
proof fn lemma_insert_absent_found(
    s: Seq<(Seq<char>, Seq<char>)>,
    k: Seq<char>,
    v: Seq<char>,
    i: int,
)
    requires
        0 <= i < s.len(),
        s[i].0 == k,
        forall|q: int| 0 <= q < i ==> s[q].0 != k,
    ensures
        spec_insert_absent(s, k, v) == s,
    decreases i,
{
    if i == 0 {
    } else {
        assert(s.skip(1)[i - 1].0 == k);
        assert(forall|q: int| 0 <= q < i - 1 ==> s.skip(1)[q].0 != k);
        lemma_insert_absent_found(s.skip(1), k, v, i - 1);
        assert(seq![s[0]] + s.skip(1) =~= s);
    }
}

/// An absent key makes `spec_insert_absent` append.
proof fn lemma_insert_absent_missing(s: Seq<(Seq<char>, Seq<char>)>, k: Seq<char>, v: Seq<char>)
    requires
        forall|q: int| 0 <= q < s.len() ==> s[q].0 != k,
    ensures
        spec_insert_absent(s, k, v) == s + seq![(k, v)],
    decreases s.len(),
{
    if s.len() == 0 {
        assert(seq![(k, v)] =~= s + seq![(k, v)]);
    } else {
        assert(forall|q: int| 0 <= q < s.skip(1).len() ==> s.skip(1)[q].0 != k);
        lemma_insert_absent_missing(s.skip(1), k, v);
        assert(seq![s[0]] + (s.skip(1) + seq![(k, v)]) =~= s + seq![(k, v)]);
    }
}


/// The search string for a variable `k`: its name in braces.
pub open spec fn spec_brace(k: Seq<char>) -> Seq<char> {
    seq!['{'] + k + seq!['}']
}

/// `t` with each variable substituted in turn, in entry order: for every
/// entry, each occurrence of `{name}` is replaced by the entry's value.
/// Placeholders naming no variable are left verbatim.
pub open spec fn spec_render(t: Seq<char>, vs: Seq<(Seq<char>, Seq<char>)>) -> Seq<char>
    decreases vs.len(),
{
    if vs.len() == 0 {
        t
    } else {
        spec_render(spec_replace(t, spec_brace(vs[0].0), vs[0].1), vs.skip(1))
    }
}

/// Substitute every variable of `vars` into `t`, character-wise.
pub fn render_chars(t: Vec<char>, vars: &Vars) -> (r: Vec<char>)
    ensures
        r@ == spec_render(t@, vars@),
{
    let mut cur = t;
    let n = vars.len();
    let mut i: usize = 0;
    proof {
        assert(vars@.skip(0) =~= vars@);
    }
    while i < n
        invariant
            i <= n,
            n == vars@.len(),
            spec_render(cur@, vars@.skip(i as int)) == spec_render(t@, vars@),
        decreases n - i,
    {
        let ghost prev = cur@;
        let (k, v) = vars.entry(i);
        let mut from: Vec<char> = Vec::new();
        from.push('{');
        let kc = to_chars(k.as_str());
        push_all(&mut from, &kc);
        from.push('}');
        proof {
            assert(from@ =~= spec_brace(vars@[i as int].0));
        }
        let to = to_chars(v.as_str());
        cur = replace_chars(&cur, &from, &to);
        proof {
            assert(vars@.skip(i as int)[0] == vars@[i as int]);
            assert(vars@.skip(i as int).skip(1) =~= vars@.skip(i + 1 as int));
            assert(spec_render(prev, vars@.skip(i as int)) == spec_render(
                cur@,
                vars@.skip(i + 1 as int),
            ));
        }
        i = i + 1;
    }
    proof {
        assert(vars@.skip(n as int) =~= Seq::<(Seq<char>, Seq<char>)>::empty());
    }
    cur
}

/// Fill every `{name}` placeholder of `template` with the value that
/// `vars` binds to `name`; placeholders with no binding stay verbatim.
pub fn render_template(template: &str, vars: &Vars) -> (out: String)
    ensures
        out@ == spec_render(template@, vars@),
{
    let cur = to_chars(template);
    let rendered = render_chars(cur, vars);
    chars_to_string(&rendered)
}

/// Replacing a needle that opens with `{` leaves a brace-free string alone.
proof fn lemma_replace_no_brace(t: Seq<char>, from: Seq<char>, to: Seq<char>)
    requires
        from.len() > 0,
        from[0] == '{',
        forall|k: int| 0 <= k < t.len() ==> t[k] != '{',
    ensures
        spec_replace(t, from, to) == t,
    decreases t.len(),
{
    if t.len() > 0 {
        if from.len() <= t.len() && t.take(from.len() as int) == from {
            assert(t.take(from.len() as int)[0] == t[0]);
            assert(false);
        }
        assert(forall|k: int| 0 <= k < t.skip(1).len() ==> t.skip(1)[k] != '{');
        lemma_replace_no_brace(t.skip(1), from, to);
        assert(seq![t[0]] + t.skip(1) =~= t);
    }
}

/// Rendering leaves a template without placeholders unchanged: a string
/// holding no `{` comes back verbatim, whatever the variable map holds.
pub proof fn lemma_render_no_placeholder(t: Seq<char>, vs: Seq<(Seq<char>, Seq<char>)>)
    requires
        forall|k: int| 0 <= k < t.len() ==> t[k] != '{',
    ensures
        spec_render(t, vs) == t,
    decreases vs.len(),
{
    if vs.len() > 0 {
        assert(spec_brace(vs[0].0)[0] == '{');
        lemma_replace_no_brace(t, spec_brace(vs[0].0), vs[0].1);
        lemma_render_no_placeholder(t, vs.skip(1));
    }
}

/// The capturing sub-pattern standing for `{version}` in the extraction
/// regex: three dot-separated decimal groups without leading zeros.
pub open spec fn spec_semver_res() -> Seq<char> {
    r"((0|[1-9]\d*)\.(0|[1-9]\d*)\.(0|[1-9]\d*))"@
}

/// The extraction pattern of a template: `{version}` becomes the semantic
/// version capture, known variables are substituted, and any remaining
/// placeholder becomes a non-greedy wildcard.
pub open spec fn spec_extraction_pattern(t: Seq<char>, vs: Seq<(Seq<char>, Seq<char>)>) -> Seq<
    char,
> {
    spec_wild(spec_render(spec_replace(t, "{version}"@, spec_semver_res()), vs), ".*?"@)
}

/// The tag glob of a template: every placeholder, `{version}` included,
/// becomes a single `*` wildcard. It cheaply pre-filters candidate tags.
pub open spec fn spec_tag_glob(t: Seq<char>) -> Seq<char> {
    spec_wild(t, "*"@)
}

/// Compile a template into the regex pattern that extracts an embedded
/// version from a tag name. Compilation is total: a template without a
/// `{version}` placeholder still compiles, to a pattern that simply never
/// captures a version.
///
/// Variable values are spliced into the pattern verbatim, without
/// escaping: a value holding pattern metacharacters changes what the
/// pattern matches, so values are expected to be literal text.
pub fn compile_extraction_pattern(template: &str, vars: &Vars) -> (r: String)
    ensures
        r@ == spec_extraction_pattern(template@, vars@),
{
    let tc = to_chars(template);
    let from = to_chars("{version}");
    let to = to_chars(r"((0|[1-9]\d*)\.(0|[1-9]\d*)\.(0|[1-9]\d*))");
    proof {
        reveal_strlit("{version}");
    }
    let substituted = replace_chars(&tc, &from, &to);
    let rendered = render_chars(substituted, vars);
    let wild = to_chars(".*?");
    let pattern = wildcard_placeholders(&rendered, &wild);
    chars_to_string(&pattern)
}

/// Compile a template into the glob that pre-filters tag names.
pub fn compile_tag_glob(template: &str) -> (r: String)
    ensures
        r@ == spec_tag_glob(template@),
{
    let tc = to_chars(template);
    let star = to_chars("*");
    let glob = wildcard_placeholders(&tc, &star);
    chars_to_string(&glob)
}


/// Index of the first occurrence of `c` in `s`.
pub open spec fn spec_find_char(s: Seq<char>, c: char) -> Option<int>
    decreases s.len(),
{
    if s.len() == 0 {
        None
    } else if s[0] == c {
        Some(0int)
    } else {
        match spec_find_char(s.skip(1), c) {
            Some(j) => Some(j + 1),
            None => None,
        }
    }
}

pub proof fn lemma_find_char_bounds(s: Seq<char>, c: char)
    ensures
        spec_find_char(s, c) matches Some(j) ==> 0 <= j < s.len() && s[j] == c,
    decreases s.len(),
{
    if s.len() > 0 && s[0] != c {
        lemma_find_char_bounds(s.skip(1), c);
    }
}

/// `spec_find_char` finds exactly the first occurrence.
pub proof fn lemma_find_char_at(s: Seq<char>, c: char, j: int)
    requires
        0 <= j < s.len(),
        s[j] == c,
        forall|k: int| 0 <= k < j ==> s[k] != c,
    ensures
        spec_find_char(s, c) == Some(j),
    decreases j,
{
    if j > 0 {
        lemma_find_char_at(s.skip(1), c, j - 1);
    }
}

/// A string without the character has no first occurrence.
pub proof fn lemma_find_char_none(s: Seq<char>, c: char)
    requires
        forall|k: int| 0 <= k < s.len() ==> s[k] != c,
    ensures
        spec_find_char(s, c) is None,
    decreases s.len(),
{
    if s.len() > 0 {
        lemma_find_char_none(s.skip(1), c);
    }
}

/// First position of `c` in `v` at or after `start`.
pub fn find_char_from(v: &Vec<char>, c: char, start: usize) -> (r: Option<usize>)
    requires
        start <= v@.len(),
    ensures
        match r {
            Some(j) => start <= j < v@.len() && spec_find_char(v@.skip(start as int), c) == Some(
                j - start,
            ),
            None => spec_find_char(v@.skip(start as int), c) is None,
        },
{
    let n = v.len();
    let mut j: usize = start;
    while j < n
        invariant
            start <= j <= n,
            n == v@.len(),
            forall|k: int| start <= k < j ==> v@[k] != c,
        decreases n - j,
    {
        if v[j] == c {
            proof {
                let sub = v@.skip(start as int);
                assert(sub[j - start] == v@[j as int]);
                assert(forall|k: int| 0 <= k < j - start ==> sub[k] == v@[start + k]);
                lemma_find_char_at(sub, c, j - start);
            }
            return Some(j);
        }
        j = j + 1;
    }
    proof {
        let sub = v@.skip(start as int);
        assert(forall|k: int| 0 <= k < sub.len() ==> sub[k] == v@[start + k]);
        lemma_find_char_none(sub, c);
    }
    None
}

} // verus!
