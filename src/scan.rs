//! Character-level scanning of shader text: splitting at a separator,
//! finding a line comment, and cleaning an import token.
use vstd::prelude::*;

verus! {

/// The pieces of `s` split at `sep`: the finished pieces, and the piece
/// still open at the end of `s`.
pub open spec fn split_state(s: Seq<char>, sep: char) -> (Seq<Seq<char>>, Seq<char>)
    decreases s.len(),
{
    if s.len() == 0 {
        (Seq::empty(), Seq::empty())
    } else {
        let (done, cur) = split_state(s.drop_last(), sep);
        if s.last() == sep {
            (done.push(cur), Seq::empty())
        } else {
            (done, cur.push(s.last()))
        }
    }
}

/// Every piece of `s` split at `sep`; there is always at least one.
pub open spec fn split_all(s: Seq<char>, sep: char) -> Seq<Seq<char>> {
    split_state(s, sep).0.push(split_state(s, sep).1)
}

/// The lines of `s`: its pieces at `'\n'`, each piece that a `'\n'` ended
/// without the carriage return before that break, and no empty piece after a
/// final line break (so an empty text has no lines). A carriage return that
/// no line break follows stays in the last line.
pub open spec fn raw_lines(s: Seq<char>) -> Seq<Seq<char>> {
    let ended = split_state(s, '\n').0.map_values(|l: Seq<char>| strip_cr(l));
    if split_state(s, '\n').1.len() == 0 {
        ended
    } else {
        ended.push(split_state(s, '\n').1)
    }
}

/// A line without the carriage return that may end it.
pub open spec fn strip_cr(l: Seq<char>) -> Seq<char> {
    if l.len() > 0 && l.last() == '\r' {
        l.drop_last()
    } else {
        l
    }
}

/// The index of the first `//` in `l` at or after `i`, or `l.len()` if none.
pub open spec fn comment_from(l: Seq<char>, i: int) -> int
    decreases l.len() - i,
{
    if i < 0 || i + 1 >= l.len() {
        l.len() as int
    } else if l[i] == '/' && l[i + 1] == '/' {
        i
    } else {
        comment_from(l, i + 1)
    }
}

/// Whether `l` holds a line comment marker.
pub open spec fn has_comment(l: Seq<char>) -> bool {
    comment_from(l, 0) < l.len()
}

/// `l` up to its first comment marker.
pub open spec fn before_comment(l: Seq<char>) -> Seq<char> {
    l.subrange(0, comment_from(l, 0))
}

/// Whether `c` is a blank: a space or a tab.
pub open spec fn is_blank(c: char) -> bool {
    c == ' ' || c == '\t'
}

/// `t` without its quote characters.
pub open spec fn without_quotes(t: Seq<char>) -> Seq<char>
    decreases t.len(),
{
    if t.len() == 0 {
        Seq::empty()
    } else if t.last() == '"' {
        without_quotes(t.drop_last())
    } else {
        without_quotes(t.drop_last()).push(t.last())
    }
}

/// The index of the first character of `t` at or after `i` that is not a
/// blank, or `t.len()` if none.
pub open spec fn first_kept(t: Seq<char>, i: int) -> int
    decreases t.len() - i,
{
    if i < 0 || i >= t.len() {
        t.len() as int
    } else if is_blank(t[i]) {
        first_kept(t, i + 1)
    } else {
        i
    }
}

/// One past the last character of `t` before index `j` that is not a blank,
/// or 0 if none.
pub open spec fn end_kept(t: Seq<char>, j: int) -> int
    decreases j,
{
    if j <= 0 || j > t.len() {
        0
    } else if is_blank(t[j - 1]) {
        end_kept(t, j - 1)
    } else {
        j
    }
}

/// `t` without the blanks at its two ends.
pub open spec fn trim_blanks(t: Seq<char>) -> Seq<char> {
    if first_kept(t, 0) < end_kept(t, t.len() as int) {
        t.subrange(first_kept(t, 0), end_kept(t, t.len() as int))
    } else {
        Seq::empty()
    }
}

/// An import token made a relative path: its quotes taken out, then the
/// blanks at its ends.
pub open spec fn clean_name(t: Seq<char>) -> Seq<char> {
    trim_blanks(without_quotes(t))
}

/// The views of a sequence of character vectors.
pub open spec fn views(v: Seq<Vec<char>>) -> Seq<Seq<char>> {
    v.map_values(|x: Vec<char>| x@)
}

pub proof fn lemma_views_push(v: Seq<Vec<char>>, x: Vec<char>)
    ensures
        views(v.push(x)) == views(v).push(x@),
{
    assert(views(v.push(x)) =~= views(v).push(x@));
}

/// Splits `s` at every `sep`.
pub fn split_on(s: &Vec<char>, sep: char) -> (r: Vec<Vec<char>>)
    ensures
        views(r@) == split_all(s@, sep),
{
    let mut done: Vec<Vec<char>> = Vec::new();
    let mut cur: Vec<char> = Vec::new();
    let mut i: usize = 0;
    while i < s.len()
        invariant
            i <= s@.len(),
            (views(done@), cur@) == split_state(s@.subrange(0, i as int), sep),
        decreases s@.len() - i,
    {
        let c = s[i];
        proof {
            assert(s@.subrange(0, i + 1).drop_last() =~= s@.subrange(0, i as int));
        }
        if c == sep {
            let piece = cur;
            proof {
                lemma_views_push(done@, piece);
            }
            done.push(piece);
            cur = Vec::new();
        } else {
            cur.push(c);
        }
        i = i + 1;
    }
    proof {
        assert(s@.subrange(0, s@.len() as int) =~= s@);
        lemma_views_push(done@, cur);
    }
    done.push(cur);
    done
}

/// Splits `s` into its lines.
pub fn lines_of(s: &Vec<char>) -> (r: Vec<Vec<char>>)
    ensures
        views(r@) == raw_lines(s@),
{
    let pieces = split_on(s, '\n');
    let ghost all = views(pieces@);
    let ghost ended = split_state(s@, '\n').0;
    assert(all.len() == pieces@.len());
    let last = pieces.len() - 1;
    let mut r: Vec<Vec<char>> = Vec::new();
    let mut i: usize = 0;
    while i < last
        invariant
            last == pieces@.len() - 1,
            all == views(pieces@),
            all == split_all(s@, '\n'),
            ended == split_state(s@, '\n').0,
            all == ended.push(split_state(s@, '\n').1),
            pieces@.len() == ended.len() + 1,
            i <= last,
            views(r@) == ended.map_values(|l: Seq<char>| strip_cr(l)).subrange(0, i as int),
        decreases last - i,
    {
        let l = strip_cr_of(&pieces[i]);
        proof {
            assert(all[i as int] == pieces@[i as int]@);
            assert(all[i as int] == ended[i as int]);
            assert(ended.map_values(|l: Seq<char>| strip_cr(l))[i as int] == strip_cr(ended[i as int]));
            lemma_views_push(r@, l);
        }
        r.push(l);
        i = i + 1;
        assert(views(r@) =~= ended.map_values(|l: Seq<char>| strip_cr(l)).subrange(0, i as int));
    }
    assert(ended.map_values(|l: Seq<char>| strip_cr(l)).subrange(0, i as int) =~= ended.map_values(
        |l: Seq<char>| strip_cr(l),
    ));
    assert(all[last as int] == pieces@[last as int]@);
    if pieces[last].len() > 0 {
        let l = pieces[last].clone();
        proof {
            lemma_views_push(r@, l);
        }
        r.push(l);
    }
    r
}

/// `l` without a final carriage return.
pub fn strip_cr_of(l: &Vec<char>) -> (r: Vec<char>)
    ensures
        r@ == strip_cr(l@),
{
    let mut r = l.clone();
    if r.len() > 0 && r[r.len() - 1] == '\r' {
        r.pop();
    }
    assert(r@ =~= strip_cr(l@));
    r
}

/// The index of the first `//` in `l`, or `l.len()` if none.
pub fn find_comment(l: &Vec<char>) -> (r: usize)
    ensures
        r as int == comment_from(l@, 0),
        r <= l@.len(),
{
    let mut i: usize = 0;
    while l.len() > 1 && i < l.len() - 1
        invariant
            comment_from(l@, 0) == comment_from(l@, i as int),
        decreases l@.len() - i,
    {
        if l[i] == '/' && l[i + 1] == '/' {
            return i;
        }
        i = i + 1;
    }
    l.len()
}

/// The characters of `l` from `from` up to `to`.
pub fn slice_of(l: &Vec<char>, from: usize, to: usize) -> (r: Vec<char>)
    requires
        from <= to <= l@.len(),
    ensures
        r@ == l@.subrange(from as int, to as int),
{
    let mut r: Vec<char> = Vec::new();
    let mut i: usize = from;
    while i < to
        invariant
            from <= i <= to <= l@.len(),
            r@ == l@.subrange(from as int, i as int),
        decreases to - i,
    {
        r.push(l[i]);
        i = i + 1;
        assert(r@ =~= l@.subrange(from as int, i as int));
    }
    r
}

/// `t` without its quote characters.
fn without_quotes_of(t: &Vec<char>) -> (r: Vec<char>)
    ensures
        r@ == without_quotes(t@),
{
    let mut r: Vec<char> = Vec::new();
    let mut i: usize = 0;
    while i < t.len()
        invariant
            i <= t@.len(),
            r@ == without_quotes(t@.subrange(0, i as int)),
        decreases t@.len() - i,
    {
        let c = t[i];
        proof {
            assert(t@.subrange(0, i + 1).drop_last() =~= t@.subrange(0, i as int));
        }
        if c != '"' {
            r.push(c);
        }
        i = i + 1;
    }
    assert(t@.subrange(0, t@.len() as int) =~= t@);
    r
}

/// An import token made a relative path: quotes out, end blanks trimmed.
pub fn clean_name_of(t: &Vec<char>) -> (r: Vec<char>)
    ensures
        r@ == clean_name(t@),
{
    let u = without_quotes_of(t);
    let mut start: usize = 0;
    while start < u.len() && (u[start] == ' ' || u[start] == '\t')
        invariant
            start <= u@.len(),
            first_kept(u@, 0) == first_kept(u@, start as int),
        decreases u@.len() - start,
    {
        start = start + 1;
    }
    let mut end: usize = u.len();
    while end > 0 && (u[end - 1] == ' ' || u[end - 1] == '\t')
        invariant
            end <= u@.len(),
            end_kept(u@, u@.len() as int) == end_kept(u@, end as int),
        decreases end,
    {
        end = end - 1;
    }
    if start < end {
        slice_of(&u, start, end)
    } else {
        Vec::new()
    }
}

/// Whether `l` begins with `p`.
pub fn starts_with_chars(l: &Vec<char>, p: &Vec<char>) -> (r: bool)
    ensures
        r == (p@.len() <= l@.len() && l@.subrange(0, p@.len() as int) == p@),
{
    if p.len() > l.len() {
        return false;
    }
    let mut i: usize = 0;
    while i < p.len()
        invariant
            p@.len() <= l@.len(),
            i <= p@.len(),
            l@.subrange(0, i as int) == p@.subrange(0, i as int),
        decreases p@.len() - i,
    {
        if l[i] != p[i] {
            assert(l@.subrange(0, p@.len() as int)[i as int] != p@[i as int]);
            return false;
        }
        i = i + 1;
        assert(l@.subrange(0, i as int) =~= p@.subrange(0, i as int));
    }
    assert(p@.subrange(0, i as int) =~= p@);
    true
}

/// Whether the two character vectors are equal.
pub fn chars_eq(a: &Vec<char>, b: &Vec<char>) -> (r: bool)
    ensures
        r == (a@ == b@),
{
    if a.len() != b.len() {
        return false;
    }
    let mut i: usize = 0;
    while i < a.len()
        invariant
            a@.len() == b@.len(),
            i <= a@.len(),
            a@.subrange(0, i as int) == b@.subrange(0, i as int),
        decreases a@.len() - i,
    {
        if a[i] != b[i] {
            return false;
        }
        i = i + 1;
        assert(a@.subrange(0, i as int) =~= b@.subrange(0, i as int));
    }
    assert(a@ =~= a@.subrange(0, i as int));
    assert(b@ =~= b@.subrange(0, i as int));
    true
}

} // verus!

verus! {

/// Whether `a` is empty or ends with a line break.
pub open spec fn ends_a_line(a: Seq<char>) -> bool {
    a.len() == 0 || a.last() == '\n'
}

proof fn lemma_split_state_concat(a: Seq<char>, b: Seq<char>)
    requires
        ends_a_line(a),
    ensures
        split_state(a, '\n').1 == Seq::<char>::empty(),
        split_state(a + b, '\n') == (split_state(a, '\n').0 + split_state(b, '\n').0, split_state(b, '\n').1),
    decreases b.len(),
{
    if b.len() == 0 {
        assert(a + b =~= a);
        assert(split_state(a, '\n').0 + Seq::<Seq<char>>::empty() =~= split_state(a, '\n').0);
    } else {
        lemma_split_state_concat(a, b.drop_last());
        assert((a + b).drop_last() =~= a + b.drop_last());
        assert((a + b).last() == b.last());
        let da = split_state(a, '\n').0;
        let (db, cb) = split_state(b.drop_last(), '\n');
        assert((da + db).push(cb) =~= da + db.push(cb));
    }
}

/// The lines of a text that ends a line, followed by another text, are the
/// lines of the first followed by those of the second.
pub proof fn lemma_lines_of_concat(a: Seq<char>, b: Seq<char>)
    requires
        ends_a_line(a),
    ensures
        raw_lines(a + b) == raw_lines(a) + raw_lines(b),
{
    lemma_split_state_concat(a, b);
    let da = split_state(a, '\n').0;
    let (db, cb) = split_state(b, '\n');
    let f = |l: Seq<char>| strip_cr(l);
    assert((da + db).map_values(f) =~= da.map_values(f) + db.map_values(f));
    assert(raw_lines(a) =~= da.map_values(f));
    if cb.len() > 0 {
        assert((da.map_values(f) + db.map_values(f)).push(cb) =~= da.map_values(f) + db.map_values(f).push(cb));
    }
}

} // verus!

verus! {

/// A text without line breaks is one open piece.
pub proof fn lemma_split_state_no_break(r: Seq<char>)
    requires
        forall|i: int| 0 <= i < r.len() ==> r[i] != '\n',
    ensures
        split_state(r, '\n') == (Seq::<Seq<char>>::empty(), r),
    decreases r.len(),
{
    if r.len() > 0 {
        lemma_split_state_no_break(r.drop_last());
        assert(r.drop_last().push(r.last()) =~= r);
    }
}

} // verus!
