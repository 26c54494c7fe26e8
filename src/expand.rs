//! Import expansion: a shader text is flattened by replacing each import
//! directive line with the expanded text of the fragments it names.
use vstd::prelude::*;
use crate::scan::{
    strip_cr,
    before_comment, clean_name, clean_name_of, find_comment, has_comment,
    lines_of, raw_lines, slice_of, split_all, split_on, starts_with_chars,
    views, chars_eq, lemma_views_push,
};

verus! {

broadcast use vstd::seq_lib::seq_to_set_is_finite;

/// Named text fragments: (relative path, text) pairs. A lookup finds the
/// first entry of a name.
pub type Fragments = Seq<(Seq<char>, Seq<char>)>;

/// The outcome of an expansion: the flattened text and the names of the
/// imports that no fragment answered, or the name that closed an import cycle.
pub type Expansion = Result<(Seq<char>, Seq<Seq<char>>), Seq<char>>;

/// The keyword that opens an import directive line, with its blank.
pub open spec fn directive() -> Seq<char> {
    seq!['#', 'i', 'n', 'c', 'l', 'u', 'd', 'e', ' ']
}

/// Whether line `l` is an import directive.
pub open spec fn is_directive(l: Seq<char>) -> bool {
    directive().len() <= l.len() && l.subrange(0, directive().len() as int) == directive()
}

/// The import names of a directive line: the text after the keyword, cut
/// at a comment marker, split at commas, each piece cleaned of quotes and blanks.
pub open spec fn import_names(l: Seq<char>) -> Seq<Seq<char>> {
    split_all(before_comment(l.subrange(directive().len() as int, l.len() as int)), ',').map_values(
        |t: Seq<char>| clean_name(t),
    )
}

/// The text of the first fragment named `name` at or after index `i`.
pub open spec fn lookup_from(lib: Fragments, name: Seq<char>, i: int) -> Option<Seq<char>>
    decreases lib.len() - i,
{
    if i < 0 || i >= lib.len() {
        None
    } else if lib[i].0 == name {
        Some(lib[i].1)
    } else {
        lookup_from(lib, name, i + 1)
    }
}

/// The text of the first fragment named `name`.
pub open spec fn lookup(lib: Fragments, name: Seq<char>) -> Option<Seq<char>> {
    lookup_from(lib, name, 0)
}

/// The names that the fragments carry.
pub open spec fn names_of(lib: Fragments) -> Set<Seq<char>> {
    lib.map_values(|p: (Seq<char>, Seq<char>)| p.0).to_set()
}

/// How many fragment names are not yet on the expansion stack.
pub open spec fn unvisited(lib: Fragments, stack: Seq<Seq<char>>) -> nat {
    names_of(lib).difference(stack.to_set()).len()
}

/// An expansion with no text and no missing import.
pub open spec fn ok_empty() -> Expansion {
    Ok((Seq::empty(), Seq::empty()))
}

/// The expansion of `a` followed by that of `b`; the first cycle stops it.
pub open spec fn followed_by(a: Expansion, b: Expansion) -> Expansion {
    match a {
        Err(n) => Err(n),
        Ok((t1, m1)) => match b {
            Err(n) => Err(n),
            Ok((t2, m2)) => Ok((t1 + t2, m1 + m2)),
        },
    }
}

/// The expansion of lines `ls[j..]`, below the fragments on `stack`.
pub open spec fn expand_lines(lib: Fragments, stack: Seq<Seq<char>>, ls: Seq<Seq<char>>, j: int) -> Expansion
    decreases unvisited(lib, stack), 2int, ls.len() - j,
{
    if j < 0 || j >= ls.len() {
        ok_empty()
    } else {
        followed_by(expand_line(lib, stack, ls[j]), expand_lines(lib, stack, ls, j + 1))
    }
}

/// The expansion of one line: a directive expands its imports in order, a
/// line with a comment marker is dropped, any other line is kept as it is.
pub open spec fn expand_line(lib: Fragments, stack: Seq<Seq<char>>, l: Seq<char>) -> Expansion
    decreases unvisited(lib, stack), 1int, 0int,
{
    if is_directive(l) {
        expand_imports(lib, stack, import_names(l), 0)
    } else if has_comment(l) {
        ok_empty()
    } else {
        Ok((l, Seq::empty()))
    }
}

/// The expansions of `names[k..]`, one after the other.
pub open spec fn expand_imports(lib: Fragments, stack: Seq<Seq<char>>, names: Seq<Seq<char>>, k: int) -> Expansion
    decreases unvisited(lib, stack), 0int, names.len() - k + 1,
{
    if k < 0 || k >= names.len() {
        ok_empty()
    } else {
        followed_by(expand_import(lib, stack, names[k]), expand_imports(lib, stack, names, k + 1))
    }
}

/// The expansion of the fragment `name`: a cycle if it is already being
/// expanded, a missing import if no fragment has that name, else its lines.
pub open spec fn expand_import(lib: Fragments, stack: Seq<Seq<char>>, name: Seq<char>) -> Expansion
    decreases unvisited(lib, stack), 0int, 0int via expand_import_decreases
{
    if stack.contains(name) {
        Err(name)
    } else {
        match lookup(lib, name) {
            None => Ok((Seq::empty(), seq![name])),
            Some(t) => expand_lines(lib, stack.push(name), raw_lines(t), 0),
        }
    }
}

#[via_fn]
proof fn expand_import_decreases(lib: Fragments, stack: Seq<Seq<char>>, name: Seq<char>) {
    if !stack.contains(name) {
        if lookup(lib, name) is Some {
            lemma_unvisited_push(lib, stack, name);
        }
    }
}

proof fn lemma_lookup_from_named(lib: Fragments, name: Seq<char>, i: int)
    requires
        lookup_from(lib, name, i) is Some,
    ensures
        names_of(lib).contains(name),
    decreases lib.len() - i,
{
    if lib[i].0 == name {
        let ks = lib.map_values(|p: (Seq<char>, Seq<char>)| p.0);
        assert(ks[i] == name);
        assert(ks.contains(name));
    } else {
        lemma_lookup_from_named(lib, name, i + 1);
    }
}

/// Pushing a named fragment that is not on the stack leaves fewer unvisited names.
proof fn lemma_unvisited_push(lib: Fragments, stack: Seq<Seq<char>>, name: Seq<char>)
    requires
        lookup(lib, name) is Some,
        !stack.contains(name),
    ensures
        unvisited(lib, stack.push(name)) < unvisited(lib, stack),
{
    lemma_lookup_from_named(lib, name, 0);
    let d = names_of(lib).difference(stack.to_set());
    stack.lemma_push_to_set_commute(name);
    assert(names_of(lib).difference(stack.push(name).to_set()) =~= d.remove(name));
    assert(d.contains(name));
}

/// Sequencing after a known expansion is associative.
proof fn lemma_then_ok_assoc(t: Seq<char>, m: Seq<Seq<char>>, a: Expansion, b: Expansion)
    ensures
        followed_by(Ok((t, m)), followed_by(a, b)) == followed_by(followed_by(Ok((t, m)), a), b),
{
    match a {
        Err(_) => {},
        Ok((t1, m1)) => match b {
            Err(_) => {},
            Ok((t2, m2)) => {
                assert(t + (t1 + t2) =~= (t + t1) + t2);
                assert(m + (m1 + m2) =~= (m + m1) + m2);
            },
        },
    }
}

proof fn lemma_then_ok_empty(e: Expansion)
    ensures
        followed_by(ok_empty(), e) == e,
{
    match e {
        Err(_) => {},
        Ok((t, m)) => {
            assert(Seq::<char>::empty() + t =~= t);
            assert(Seq::<Seq<char>>::empty() + m =~= m);
        },
    }
}

/// A set of named shader text fragments, looked up by relative path.
pub struct ShaderLibrary {
    entries: Vec<(Vec<char>, Vec<char>)>,
}

impl View for ShaderLibrary {
    type V = Fragments;

    closed spec fn view(&self) -> Fragments {
        self.entries@.map_values(|p: (Vec<char>, Vec<char>)| (p.0@, p.1@))
    }
}

impl ShaderLibrary {
    /// A library without fragments.
    pub fn new() -> (r: Self)
        ensures
            r@ == Seq::<(Seq<char>, Seq<char>)>::empty(),
    {
        let r = ShaderLibrary { entries: Vec::new() };
        assert(r@ =~= Seq::<(Seq<char>, Seq<char>)>::empty());
        r
    }

    /// Adds the fragment `text` under the relative path `path`. A fragment
    /// added earlier under the same path is still the one found.
    pub fn add(&mut self, path: &str, text: &str)
        ensures
            final(self)@ == old(self)@.push((path@, text@)),
    {
        let p = crate::text::chars_of(path);
        let t = crate::text::chars_of(text);
        self.entries.push((p, t));
        assert(final(self)@ =~= old(self)@.push((path@, text@)));
    }

    /// The index of the first fragment named `name`.
    pub(crate) fn find(&self, name: &Vec<char>) -> (r: Option<usize>)
        ensures
            match r {
                Some(i) => i < self@.len() && lookup(self@, name@) == Some(self@[i as int].1),
                None => lookup(self@, name@) is None,
            },
    {
        let mut i: usize = 0;
        while i < self.entries.len()
            invariant
                i <= self@.len(),
                self@.len() == self.entries@.len(),
                lookup(self@, name@) == lookup_from(self@, name@, i as int),
            decreases self@.len() - i,
        {
            if chars_eq(&self.entries[i].0, name) {
                return Some(i);
            }
            i = i + 1;
        }
        None
    }
}


impl ShaderLibrary {
    /// Appends the expansion of the fragment `name` to `out`, and the
    /// imports that were not found to `missing`.
    pub(crate) fn expand_import_into(
        &self,
        stack: &mut Vec<Vec<char>>,
        name: Vec<char>,
        out: &mut Vec<char>,
        missing: &mut Vec<Vec<char>>,
    ) -> (r: Result<(), Vec<char>>)
        ensures
            final(stack)@ == old(stack)@,
            match expand_import(self@, views(old(stack)@), name@) {
                Ok((t, m)) => r is Ok && final(out)@ == old(out)@ + t && views(final(missing)@)
                    == views(old(missing)@) + m,
                Err(n) => r is Err && r->Err_0@ == n,
            },
        decreases unvisited(self@, views(stack@)), 0int,
    {
        if on_stack(stack, &name) {
            return Err(name);
        }
        match self.find(&name) {
            None => {
                proof {
                    lemma_views_push(missing@, name);
                    assert(out@ + Seq::<char>::empty() =~= out@);
                }
                missing.push(name);
                Ok(())
            },
            Some(i) => {
                let lines = lines_of(&self.entries[i].1);
                proof {
                    assert(self@[i as int].1 == self.entries@[i as int].1@);
                    lemma_unvisited_push(self@, views(stack@), name@);
                    lemma_views_push(stack@, name);
                }
                stack.push(name);
                let r = self.expand_lines_into(stack, &lines, out, missing);
                stack.pop();
                proof {
                    assert(stack@ =~= old(stack)@);
                }
                r
            },
        }
    }

    /// Appends the expansion of all of `lines` to `out`.
    fn expand_lines_into(
        &self,
        stack: &mut Vec<Vec<char>>,
        lines: &Vec<Vec<char>>,
        out: &mut Vec<char>,
        missing: &mut Vec<Vec<char>>,
    ) -> (r: Result<(), Vec<char>>)
        ensures
            final(stack)@ == old(stack)@,
            match expand_lines(self@, views(old(stack)@), views(lines@), 0) {
                Ok((t, m)) => r is Ok && final(out)@ == old(out)@ + t && views(final(missing)@)
                    == views(old(missing)@) + m,
                Err(n) => r is Err && r->Err_0@ == n,
            },
        decreases unvisited(self@, views(stack@)), 2int,
    {
        let ghost st = views(stack@);
        let ghost ls = views(lines@);
        let ghost out0 = out@;
        let ghost miss0 = views(missing@);
        let ghost mut t_acc: Seq<char> = Seq::empty();
        let ghost mut m_acc: Seq<Seq<char>> = Seq::empty();
        proof {
            lemma_then_ok_empty(expand_lines(self@, st, ls, 0));
            assert(out0 + t_acc =~= out0);
            assert(miss0 + m_acc =~= miss0);
        }
        let mut j: usize = 0;
        while j < lines.len()
            invariant
                j <= lines@.len(),
                ls.len() == lines@.len(),
                ls == views(lines@),
                stack@ == old(stack)@,
                st == views(stack@),
                out@ == out0 + t_acc,
                views(missing@) == miss0 + m_acc,
                expand_lines(self@, st, ls, 0) == followed_by(Ok((t_acc, m_acc)), expand_lines(self@, st, ls, j as int)),
            decreases lines@.len() - j,
        {
            let line = &lines[j];
            proof {
                assert(ls[j as int] == lines@[j as int]@);
                lemma_then_ok_assoc(t_acc, m_acc, expand_line(self@, st, line@), expand_lines(self@, st, ls, j + 1));
            }
            let r = self.expand_line_into(stack, line, out, missing);
            match r {
                Err(n) => {
                    return Err(n);
                },
                Ok(()) => {
                    proof {
                        let (t, m) = expand_line(self@, st, line@)->Ok_0;
                        assert(out@ =~= out0 + (t_acc + t));
                        assert(views(missing@) =~= miss0 + (m_acc + m));
                        t_acc = t_acc + t;
                        m_acc = m_acc + m;
                    }
                },
            }
            j = j + 1;
        }
        proof {
            assert(t_acc + Seq::<char>::empty() =~= t_acc);
            assert(m_acc + Seq::<Seq<char>>::empty() =~= m_acc);
        }
        Ok(())
    }

    /// Appends the expansion of one line to `out`.
    fn expand_line_into(
        &self,
        stack: &mut Vec<Vec<char>>,
        line: &Vec<char>,
        out: &mut Vec<char>,
        missing: &mut Vec<Vec<char>>,
    ) -> (r: Result<(), Vec<char>>)
        ensures
            final(stack)@ == old(stack)@,
            match expand_line(self@, views(old(stack)@), line@) {
                Ok((t, m)) => r is Ok && final(out)@ == old(out)@ + t && views(final(missing)@)
                    == views(old(missing)@) + m,
                Err(n) => r is Err && r->Err_0@ == n,
            },
        decreases unvisited(self@, views(stack@)), 1int,
    {
        let kw = directive_chars();
        if starts_with_chars(line, &kw) {
            let rest = slice_of(line, kw.len(), line.len());
            let c = find_comment(&rest);
            let body = slice_of(&rest, 0, c);
            let toks = split_on(&body, ',');
            let ghost st = views(stack@);
            let ghost names = import_names(line@);
            let ghost out0 = out@;
            let ghost miss0 = views(missing@);
            let ghost mut t_acc: Seq<char> = Seq::empty();
            let ghost mut m_acc: Seq<Seq<char>> = Seq::empty();
            proof {
                assert(names.len() == toks@.len());
                lemma_then_ok_empty(expand_imports(self@, st, names, 0));
                assert(out0 + t_acc =~= out0);
                assert(miss0 + m_acc =~= miss0);
            }
            let mut k: usize = 0;
            while k < toks.len()
                invariant
                    k <= toks@.len(),
                    names.len() == toks@.len(),
                    names == import_names(line@),
                    is_directive(line@),
                    views(toks@) == split_all(body@, ','),
                    body@ == before_comment(line@.subrange(directive().len() as int, line@.len() as int)),
                    stack@ == old(stack)@,
                    st == views(stack@),
                    out@ == out0 + t_acc,
                    views(missing@) == miss0 + m_acc,
                    expand_imports(self@, st, names, 0) == followed_by(Ok((t_acc, m_acc)), expand_imports(self@, st, names, k as int)),
                decreases toks@.len() - k,
            {
                let name = clean_name_of(&toks[k]);
                proof {
                    assert(views(toks@)[k as int] == toks@[k as int]@);
                    assert(names[k as int] == name@);
                    lemma_then_ok_assoc(t_acc, m_acc, expand_import(self@, st, name@), expand_imports(self@, st, names, k + 1));
                }
                let r = self.expand_import_into(stack, name, out, missing);
                match r {
                    Err(n) => {
                        proof {
                            assert(expand_imports(self@, st, names, 0) == Err::<(Seq<char>, Seq<Seq<char>>), Seq<char>>(n@));
                            assert(expand_line(self@, st, line@) == Err::<(Seq<char>, Seq<Seq<char>>), Seq<char>>(n@));
                        }
                        return Err(n);
                    },
                    Ok(()) => {
                        proof {
                            let (t, m) = expand_import(self@, st, names[k as int])->Ok_0;
                            assert(out@ =~= out0 + (t_acc + t));
                            assert(views(missing@) =~= miss0 + (m_acc + m));
                            t_acc = t_acc + t;
                            m_acc = m_acc + m;
                        }
                    },
                }
                k = k + 1;
            }
            proof {
                assert(t_acc + Seq::<char>::empty() =~= t_acc);
                assert(m_acc + Seq::<Seq<char>>::empty() =~= m_acc);
            }
            Ok(())
        } else if find_comment(line) < line.len() {
            assert(out@ + Seq::<char>::empty() =~= out@);
            assert(views(missing@) + Seq::<Seq<char>>::empty() =~= views(missing@));
            Ok(())
        } else {
            append_chars(out, line);
            assert(views(missing@) + Seq::<Seq<char>>::empty() =~= views(missing@));
            Ok(())
        }
    }
}

/// The directive keyword as characters.
fn directive_chars() -> (r: Vec<char>)
    ensures
        r@ == directive(),
{
    let r = vec!['#', 'i', 'n', 'c', 'l', 'u', 'd', 'e', ' '];
    assert(r@ =~= directive());
    r
}

/// Appends the characters of `l` to `out`.
fn append_chars(out: &mut Vec<char>, l: &Vec<char>)
    ensures
        final(out)@ == old(out)@ + l@,
{
    let mut i: usize = 0;
    while i < l.len()
        invariant
            i <= l@.len(),
            out@ == old(out)@ + l@.subrange(0, i as int),
        decreases l@.len() - i,
    {
        out.push(l[i]);
        i = i + 1;
        assert(out@ =~= old(out)@ + l@.subrange(0, i as int));
    }
    assert(l@.subrange(0, i as int) =~= l@);
}

/// Whether `name` is on the expansion stack.
fn on_stack(stack: &Vec<Vec<char>>, name: &Vec<char>) -> (r: bool)
    ensures
        r == views(stack@).contains(name@),
{
    let mut i: usize = 0;
    while i < stack.len()
        invariant
            i <= stack@.len(),
            forall|k: int| 0 <= k < i ==> stack@[k]@ != name@,
        decreases stack@.len() - i,
    {
        if chars_eq(&stack[i], name) {
            assert(views(stack@)[i as int] == name@);
            return true;
        }
        i = i + 1;
    }
    assert forall|k: int| 0 <= k < views(stack@).len() implies views(stack@)[k] != name@ by {
        assert(views(stack@)[k] == stack@[k]@);
    }
    false
}

} // verus!

verus! {

/// Sequencing expansions is associative.
pub proof fn lemma_then_assoc(a: Expansion, b: Expansion, c: Expansion)
    ensures
        followed_by(a, followed_by(b, c)) == followed_by(followed_by(a, b), c),
{
    match a {
        Err(_) => {},
        Ok((t, m)) => lemma_then_ok_assoc(t, m, b, c),
    }
}

proof fn lemma_imports_suffix(lib: Fragments, stack: Seq<Seq<char>>, n1: Seq<Seq<char>>, n2: Seq<Seq<char>>, k: int)
    requires
        0 <= k <= n2.len(),
    ensures
        expand_imports(lib, stack, n1 + n2, n1.len() + k) == expand_imports(lib, stack, n2, k),
    decreases n2.len() - k,
{
    if k < n2.len() {
        lemma_imports_suffix(lib, stack, n1, n2, k + 1);
        assert((n1 + n2)[n1.len() + k] == n2[k]);
    }
}

proof fn lemma_imports_split_from(lib: Fragments, stack: Seq<Seq<char>>, n1: Seq<Seq<char>>, n2: Seq<Seq<char>>, k: int)
    requires
        0 <= k <= n1.len(),
    ensures
        expand_imports(lib, stack, n1 + n2, k) == followed_by(
            expand_imports(lib, stack, n1, k),
            expand_imports(lib, stack, n2, 0),
        ),
    decreases n1.len() - k,
{
    if k == n1.len() {
        lemma_imports_suffix(lib, stack, n1, n2, 0);
        lemma_then_ok_empty(expand_imports(lib, stack, n2, 0));
    } else {
        lemma_imports_split_from(lib, stack, n1, n2, k + 1);
        assert((n1 + n2)[k] == n1[k]);
        lemma_then_assoc(
            expand_import(lib, stack, n1[k]),
            expand_imports(lib, stack, n1, k + 1),
            expand_imports(lib, stack, n2, 0),
        );
    }
}

/// The imports of one list expand as those of its first part followed by
/// those of its second: order among the imports is kept, and each one expands
/// on its own, with nothing carried over from its siblings.
pub proof fn lemma_imports_concatenate(lib: Fragments, stack: Seq<Seq<char>>, n1: Seq<Seq<char>>, n2: Seq<Seq<char>>)
    ensures
        expand_imports(lib, stack, n1 + n2, 0) == followed_by(
            expand_imports(lib, stack, n1, 0),
            expand_imports(lib, stack, n2, 0),
        ),
{
    lemma_imports_split_from(lib, stack, n1, n2, 0);
}

/// The lines `ls[j..]` that are kept as they are: those without a comment
/// marker, joined in order.
pub open spec fn kept_from(ls: Seq<Seq<char>>, j: int) -> Seq<char>
    decreases ls.len() - j,
{
    if j < 0 || j >= ls.len() {
        Seq::empty()
    } else if has_comment(ls[j]) {
        kept_from(ls, j + 1)
    } else {
        ls[j] + kept_from(ls, j + 1)
    }
}

/// Lines without import directives expand to their comment-free lines,
/// joined in order, with no import missing.
pub proof fn lemma_plain_lines(lib: Fragments, stack: Seq<Seq<char>>, ls: Seq<Seq<char>>, j: int)
    requires
        0 <= j,
        forall|i: int| 0 <= i < ls.len() ==> !is_directive(#[trigger] ls[i]),
    ensures
        expand_lines(lib, stack, ls, j) == Ok::<(Seq<char>, Seq<Seq<char>>), Seq<char>>(
            (kept_from(ls, j), Seq::empty()),
        ),
    decreases ls.len() - j,
{
    if j < ls.len() {
        lemma_plain_lines(lib, stack, ls, j + 1);
        let l = ls[j];
        assert(!is_directive(l));
        if has_comment(l) {
            assert(Seq::<char>::empty() + kept_from(ls, j + 1) =~= kept_from(ls, j + 1));
            assert(Seq::<Seq<char>>::empty() + Seq::<Seq<char>>::empty() =~= Seq::<Seq<char>>::empty());
            assert(expand_line(lib, stack, l) == ok_empty());
        } else {
            assert(Seq::<Seq<char>>::empty() + Seq::<Seq<char>>::empty() =~= Seq::<Seq<char>>::empty());
            assert(expand_line(lib, stack, l) == Ok::<(Seq<char>, Seq<Seq<char>>), Seq<char>>((l, Seq::empty())));
        }
        assert(expand_lines(lib, stack, ls, j) == followed_by(expand_line(lib, stack, l), expand_lines(lib, stack, ls, j + 1)));
    }
}

} // verus!

verus! {

/// The keyword that opens an import directive line, with its blank.
pub fn import_keyword() -> (r: String)
    ensures
        r@ == directive(),
{
    crate::text::string_of(&directive_chars())
}

} // verus!

verus! {

proof fn lemma_lines_suffix(lib: Fragments, stack: Seq<Seq<char>>, l1: Seq<Seq<char>>, l2: Seq<Seq<char>>, k: int)
    requires
        0 <= k <= l2.len(),
    ensures
        expand_lines(lib, stack, l1 + l2, l1.len() + k) == expand_lines(lib, stack, l2, k),
    decreases l2.len() - k,
{
    if k < l2.len() {
        lemma_lines_suffix(lib, stack, l1, l2, k + 1);
        assert((l1 + l2)[l1.len() + k] == l2[k]);
    }
}

proof fn lemma_lines_split_from(lib: Fragments, stack: Seq<Seq<char>>, l1: Seq<Seq<char>>, l2: Seq<Seq<char>>, k: int)
    requires
        0 <= k <= l1.len(),
    ensures
        expand_lines(lib, stack, l1 + l2, k) == followed_by(
            expand_lines(lib, stack, l1, k),
            expand_lines(lib, stack, l2, 0),
        ),
    decreases l1.len() - k,
{
    if k == l1.len() {
        lemma_lines_suffix(lib, stack, l1, l2, 0);
        lemma_then_ok_empty(expand_lines(lib, stack, l2, 0));
    } else {
        lemma_lines_split_from(lib, stack, l1, l2, k + 1);
        assert((l1 + l2)[k] == l1[k]);
        lemma_then_assoc(
            expand_line(lib, stack, l1[k]),
            expand_lines(lib, stack, l1, k + 1),
            expand_lines(lib, stack, l2, 0),
        );
    }
}

/// A text made of two runs of lines expands as the first run followed by the
/// second: each line expands on its own, in order.
pub proof fn lemma_lines_concatenate(lib: Fragments, stack: Seq<Seq<char>>, l1: Seq<Seq<char>>, l2: Seq<Seq<char>>)
    ensures
        expand_lines(lib, stack, l1 + l2, 0) == followed_by(
            expand_lines(lib, stack, l1, 0),
            expand_lines(lib, stack, l2, 0),
        ),
{
    lemma_lines_split_from(lib, stack, l1, l2, 0);
}

} // verus!

verus! {

/// A text made of a part that ends a line and a second part expands as the
/// first part followed by the second: the expansion of each import in a text
/// stands as one block where its directive stood, with the text around it in order.
pub proof fn lemma_text_concatenate(lib: Fragments, stack: Seq<Seq<char>>, a: Seq<char>, b: Seq<char>)
    requires
        crate::scan::ends_a_line(a),
    ensures
        expand_lines(lib, stack, raw_lines(a + b), 0) == followed_by(
            expand_lines(lib, stack, raw_lines(a), 0),
            expand_lines(lib, stack, raw_lines(b), 0),
        ),
{
    crate::scan::lemma_lines_of_concat(a, b);
    lemma_lines_concatenate(lib, stack, raw_lines(a), raw_lines(b));
}

} // verus!

verus! {

/// Expanded text read again as a source is unchanged: a text without line
/// breaks, comment markers or a leading directive expands to itself, with no
/// import missing, carriage returns included.
pub proof fn lemma_resolved_text_is_fixed(lib: Fragments, stack: Seq<Seq<char>>, r: Seq<char>)
    requires
        forall|i: int| 0 <= i < r.len() ==> r[i] != '\n',
        !has_comment(r),
        !is_directive(r),
    ensures
        expand_lines(lib, stack, raw_lines(r), 0) == Ok::<(Seq<char>, Seq<Seq<char>>), Seq<char>>(
            (r, Seq::empty()),
        ),
{
    crate::scan::lemma_split_state_no_break(r);
    let f = |l: Seq<char>| strip_cr(l);
    assert(Seq::<Seq<char>>::empty().map_values(f) =~= Seq::<Seq<char>>::empty());
    if r.len() > 0 {
        assert(raw_lines(r) =~= seq![r]);
        lemma_plain_lines(lib, stack, raw_lines(r), 0);
        reveal_with_fuel(kept_from, 2);
        assert(r + Seq::<char>::empty() =~= r);
    } else {
        assert(raw_lines(r) =~= Seq::<Seq<char>>::empty());
        assert(r =~= Seq::<char>::empty());
    }
}

} // verus!

verus! {

/// Whether every name on `s1` is on `s2`.
pub open spec fn within(s1: Seq<Seq<char>>, s2: Seq<Seq<char>>) -> bool {
    forall|n: Seq<char>| s1.contains(n) ==> s2.contains(n)
}

proof fn lemma_within_push(s1: Seq<Seq<char>>, s2: Seq<Seq<char>>, name: Seq<char>)
    requires
        within(s1, s2),
    ensures
        within(s1.push(name), s2.push(name)),
{
    assert forall|n: Seq<char>| s1.push(name).contains(n) implies s2.push(name).contains(n) by {
        let i = choose|i: int| 0 <= i < s1.push(name).len() && s1.push(name)[i] == n;
        if i < s1.len() {
            assert(s1[i] == n);
            assert(s1.contains(n));
            let j = choose|j: int| 0 <= j < s2.len() && s2[j] == n;
            assert(s2.push(name)[j] == n);
        } else {
            assert(s2.push(name)[s2.len() as int] == n);
        }
    }
}

proof fn lemma_lines_smaller_stack(lib: Fragments, s1: Seq<Seq<char>>, s2: Seq<Seq<char>>, ls: Seq<Seq<char>>, j: int)
    requires
        within(s1, s2),
        expand_lines(lib, s2, ls, j) is Ok,
    ensures
        expand_lines(lib, s1, ls, j) == expand_lines(lib, s2, ls, j),
    decreases unvisited(lib, s2), 2int, ls.len() - j,
{
    if 0 <= j < ls.len() {
        lemma_line_smaller_stack(lib, s1, s2, ls[j]);
        lemma_lines_smaller_stack(lib, s1, s2, ls, j + 1);
    }
}

proof fn lemma_line_smaller_stack(lib: Fragments, s1: Seq<Seq<char>>, s2: Seq<Seq<char>>, l: Seq<char>)
    requires
        within(s1, s2),
    ensures
        expand_line(lib, s2, l) is Ok ==> expand_line(lib, s1, l) == expand_line(lib, s2, l),
    decreases unvisited(lib, s2), 1int, 0int,
{
    if is_directive(l) {
        lemma_imports_smaller_stack(lib, s1, s2, import_names(l), 0);
    }
}

proof fn lemma_imports_smaller_stack(lib: Fragments, s1: Seq<Seq<char>>, s2: Seq<Seq<char>>, names: Seq<Seq<char>>, k: int)
    requires
        within(s1, s2),
    ensures
        expand_imports(lib, s2, names, k) is Ok ==> expand_imports(lib, s1, names, k) == expand_imports(lib, s2, names, k),
    decreases unvisited(lib, s2), 0int, names.len() - k + 1,
{
    if 0 <= k < names.len() {
        lemma_import_smaller_stack(lib, s1, s2, names[k]);
        lemma_imports_smaller_stack(lib, s1, s2, names, k + 1);
    }
}

proof fn lemma_import_smaller_stack(lib: Fragments, s1: Seq<Seq<char>>, s2: Seq<Seq<char>>, name: Seq<char>)
    requires
        within(s1, s2),
    ensures
        expand_import(lib, s2, name) is Ok ==> expand_import(lib, s1, name) == expand_import(lib, s2, name),
    decreases unvisited(lib, s2), 0int, 0int,
{
    if !s2.contains(name) {
        if lookup(lib, name) is Some {
            lemma_unvisited_push(lib, s2, name);
            lemma_within_push(s1, s2, name);
            let t = lookup(lib, name)->Some_0;
            if expand_lines(lib, s2.push(name), raw_lines(t), 0) is Ok {
                lemma_lines_smaller_stack(lib, s1.push(name), s2.push(name), raw_lines(t), 0);
            }
        }
    }
}

/// Importing a fragment gives exactly the expansion of its own lines
/// wherever that import succeeds: putting the fragment on the stack changes
/// nothing, so writing its text in place of the directive line gives the same
/// result.
pub proof fn lemma_import_is_inlining(lib: Fragments, stack: Seq<Seq<char>>, name: Seq<char>, t: Seq<char>)
    requires
        lookup(lib, name) == Some(t),
        expand_import(lib, stack, name) is Ok,
    ensures
        expand_import(lib, stack, name) == expand_lines(lib, stack, raw_lines(t), 0),
{
    assert(!stack.contains(name));
    assert forall|n: Seq<char>| stack.contains(n) implies stack.push(name).contains(n) by {
        let i = choose|i: int| 0 <= i < stack.len() && stack[i] == n;
        assert(stack.push(name)[i] == n);
    }
    lemma_lines_smaller_stack(lib, stack, stack.push(name), raw_lines(t), 0);
}

} // verus!
