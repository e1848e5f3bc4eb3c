//! Character-level helpers for program lines: whitespace trimming,
//! splitting on single spaces, joining with spaces, and string equality.
use vstd::prelude::*;

verus! {

/// The Unicode `White_Space` property, as `char::is_whitespace` documents it.
pub open spec fn is_ws(c: char) -> bool {
    let u = c as u32;
    ||| (0x09 <= u && u <= 0x0d)
    ||| u == 0x20
    ||| u == 0x85
    ||| u == 0xa0
    ||| u == 0x1680
    ||| (0x2000 <= u && u <= 0x200a)
    ||| u == 0x2028
    ||| u == 0x2029
    ||| u == 0x202f
    ||| u == 0x205f
    ||| u == 0x3000
}

/// `s` with its leading whitespace removed.
pub open spec fn trim_start_spec(s: Seq<char>) -> Seq<char>
    decreases s.len(),
{
    if s.len() > 0 && is_ws(s[0]) {
        trim_start_spec(s.drop_first())
    } else {
        s
    }
}

/// The pieces of `s` between single spaces, as `str::split(' ')` yields them:
/// one more piece than there are spaces, empty pieces included.
pub open spec fn split_spaces(s: Seq<char>) -> Seq<Seq<char>>
    decreases s.len(),
{
    if s.len() == 0 {
        seq![Seq::<char>::empty()]
    } else {
        let p = split_spaces(s.drop_last());
        if s.last() == ' ' {
            p.push(Seq::<char>::empty())
        } else {
            p.update(p.len() - 1, p.last().push(s.last()))
        }
    }
}

/// The pieces joined with a single space between neighbours.
pub open spec fn join_spaces(parts: Seq<Seq<char>>) -> Seq<char>
    decreases parts.len(),
{
    if parts.len() == 0 {
        Seq::<char>::empty()
    } else if parts.len() == 1 {
        parts[0]
    } else {
        join_spaces(parts.drop_last()) + seq![' '] + parts.last()
    }
}

/// The character sequences of a sequence of string slices.
pub open spec fn str_views(v: Seq<&str>) -> Seq<Seq<char>> {
    Seq::new(v.len(), |i: int| v[i]@)
}

/// The character sequences of a sequence of strings.
pub open spec fn string_views(v: Seq<String>) -> Seq<Seq<char>> {
    Seq::new(v.len(), |i: int| v[i]@)
}

/// The tokens of a program line: leading whitespace removed, then split on spaces.
pub open spec fn line_tokens(s: Seq<char>) -> Seq<Seq<char>> {
    split_spaces(trim_start_spec(s))
}

/// Whether `c` is whitespace in the sense of `char::is_whitespace`.
pub fn is_whitespace(c: char) -> (r: bool)
    ensures
        r == is_ws(c),
{
    let u = c as u32;
    (0x09 <= u && u <= 0x0d) || u == 0x20 || u == 0x85 || u == 0xa0 || u == 0x1680 || (0x2000
        <= u && u <= 0x200a) || u == 0x2028 || u == 0x2029 || u == 0x202f || u == 0x205f || u
        == 0x3000
}

proof fn lemma_trim_skip(s: Seq<char>, k: int)
    requires
        0 <= k < s.len(),
        is_ws(s[k]),
    ensures
        trim_start_spec(s.skip(k)) == trim_start_spec(s.skip(k + 1)),
{
    assert(s.skip(k).drop_first() =~= s.skip(k + 1));
}

/// Whether two string slices hold the same characters.
pub fn str_eq(a: &str, b: &str) -> (r: bool)
    ensures
        r == (a@ == b@),
{
    let n = a.unicode_len();
    if n != b.unicode_len() {
        return false;
    }
    let mut i: usize = 0;
    while i < n
        invariant
            n == a@.len(),
            n == b@.len(),
            i <= n,
            forall|j: int| 0 <= j < i ==> a@[j] == b@[j],
        decreases n - i,
    {
        if a.get_char(i) != b.get_char(i) {
            return false;
        }
        i = i + 1;
    }
    assert(a@ =~= b@);
    true
}

/// `s` with its leading whitespace removed (`str::trim_start`).
pub fn trim_start(s: &str) -> (r: &str)
    ensures
        r@ == trim_start_spec(s@),
{
    let n = s.unicode_len();
    let mut k: usize = 0;
    assert(s@.skip(0) =~= s@);
    while k < n && is_whitespace(s.get_char(k))
        invariant
            n == s@.len(),
            k <= n,
            trim_start_spec(s@) == trim_start_spec(s@.skip(k as int)),
        decreases n - k,
    {
        proof {
            lemma_trim_skip(s@, k as int);
        }
        k = k + 1;
    }
    let r = s.substring_char(k, n);
    assert(r@ =~= s@.skip(k as int));
    r
}

/// The pieces of `s` between single spaces (`str::split(' ')`).
pub fn split_spaces_of<'a>(s: &'a str) -> (r: Vec<&'a str>)
    ensures
        str_views(r@) == split_spaces(s@),
{
    let n = s.unicode_len();
    let mut pieces: Vec<&'a str> = Vec::new();
    let mut start: usize = 0;
    let mut k: usize = 0;
    assert(s@.take(0) =~= Seq::<char>::empty());
    assert(split_spaces(s@.take(0)) =~= str_views(pieces@).push(s@.subrange(0, 0)));
    while k < n
        invariant
            n == s@.len(),
            start <= k <= n,
            split_spaces(s@.take(k as int)) == str_views(pieces@).push(
                s@.subrange(start as int, k as int),
            ),
        decreases n - k,
    {
        let c = s.get_char(k);
        let ghost pre = str_views(pieces@);
        assert(s@.take(k + 1).drop_last() =~= s@.take(k as int));
        assert(s@.take(k + 1).last() == c);
        if c == ' ' {
            let piece = s.substring_char(start, k);
            pieces.push(piece);
            assert(str_views(pieces@) =~= pre.push(s@.subrange(start as int, k as int)));
            start = k + 1;
            assert(s@.subrange(start as int, k + 1) =~= Seq::<char>::empty());
        } else {
            assert(s@.subrange(start as int, k as int).push(c) =~= s@.subrange(
                start as int,
                k + 1,
            ));
        }
        k = k + 1;
        assert(split_spaces(s@.take(k as int)) =~= str_views(pieces@).push(
            s@.subrange(start as int, k as int),
        ));
    }
    let last = s.substring_char(start, n);
    let ghost pre = str_views(pieces@);
    pieces.push(last);
    assert(s@.take(n as int) =~= s@);
    assert(str_views(pieces@) =~= pre.push(s@.subrange(start as int, n as int)));
    pieces
}

/// The tokens of a program line: `line.trim_start().split(' ')`.
pub fn tokenize<'a>(line: &'a str) -> (r: Vec<&'a str>)
    ensures
        str_views(r@) == line_tokens(line@),
        r@.len() >= 1,
{
    let t = trim_start(line);
    let r = split_spaces_of(t);
    proof {
        lemma_split_nonempty(t@);
    }
    r
}


/// The pieces `v[from..]` joined with single spaces (`v[from..].join(" ")`).
pub fn join_from(v: &Vec<&str>, from: usize) -> (r: String)
    requires
        from <= v.len(),
    ensures
        r@ == join_spaces(str_views(v@).skip(from as int)),
{
    let mut r = String::new();
    let mut k: usize = from;
    assert(str_views(v@).skip(from as int).take(0) =~= Seq::<Seq<char>>::empty());
    while k < v.len()
        invariant
            from <= k <= v.len(),
            r@ == join_spaces(str_views(v@).skip(from as int).take(k - from)),
        decreases v.len() - k,
    {
        let ghost parts = str_views(v@).skip(from as int);
        assert(parts.take(k + 1 - from).drop_last() =~= parts.take(k - from));
        assert(parts.take(k + 1 - from).last() == v@[k as int]@);
        if k > from {
            r.append(" ");
            proof {
                reveal_strlit(" ");
            }
        } else {
            assert(parts.take(1) =~= seq![v@[k as int]@]);
        }
        r.append(v[k]);
        k = k + 1;
    }
    assert(str_views(v@).skip(from as int).take(v.len() - from) =~= str_views(v@).skip(
        from as int,
    ));
    r
}

/// Whether `w` holds no space character.
pub open spec fn no_space(w: Seq<char>) -> bool {
    forall|i: int| 0 <= i < w.len() ==> w[i] != ' '
}

pub proof fn lemma_split_nonempty(s: Seq<char>)
    ensures
        split_spaces(s).len() >= 1,
    decreases s.len(),
{
    if s.len() > 0 {
        lemma_split_nonempty(s.drop_last());
    }
}

proof fn lemma_join_push(p: Seq<Seq<char>>, x: Seq<char>)
    requires
        p.len() >= 1,
    ensures
        join_spaces(p.push(x)) == join_spaces(p) + seq![' '] + x,
{
    assert(p.push(x).drop_last() =~= p);
}

/// Joining the pieces of a split with single spaces gives back the
/// text that was split: `join(" ")` undoes `split(' ')`.
pub proof fn law_join_undoes_split(s: Seq<char>)
    ensures
        join_spaces(split_spaces(s)) == s,
    decreases s.len(),
{
    if s.len() > 0 {
        let a = s.drop_last();
        let c = s.last();
        let p = split_spaces(a);
        law_join_undoes_split(a);
        lemma_split_nonempty(a);
        if c == ' ' {
            lemma_join_push(p, Seq::<char>::empty());
            assert(s =~= a + seq![' '] + Seq::<char>::empty());
        } else {
            let q = p.update(p.len() - 1, p.last().push(c));
            if p.len() == 1 {
                assert(q =~= seq![p[0].push(c)]);
                assert(s =~= p[0].push(c));
            } else {
                assert(q =~= p.drop_last().push(p.last().push(c)));
                assert(p =~= p.drop_last().push(p.last()));
                lemma_join_push(p.drop_last(), p.last().push(c));
                lemma_join_push(p.drop_last(), p.last());
                assert(join_spaces(q) =~= join_spaces(p).push(c));
                assert(s =~= a.push(c));
            }
        }
    }
}

proof fn lemma_split_after_space(a: Seq<char>, w: Seq<char>)
    requires
        no_space(w),
    ensures
        split_spaces(a + seq![' '] + w) == split_spaces(a).push(w),
    decreases w.len(),
{
    if w.len() == 0 {
        assert((a + seq![' '] + w).drop_last() =~= a);
        assert(a + seq![' '] + w =~= a.push(' '));
        assert(w =~= Seq::<char>::empty());
    } else {
        let w2 = w.drop_last();
        lemma_split_after_space(a, w2);
        assert((a + seq![' '] + w).drop_last() =~= a + seq![' '] + w2);
        assert((a + seq![' '] + w).last() == w.last());
        let q = split_spaces(a).push(w2);
        assert(w2.push(w.last()) =~= w);
        assert(w[w.len() - 1] != ' ');
        assert(q.update(q.len() - 1, q.last().push(w.last())) =~= split_spaces(a).push(w));
    }
}

proof fn lemma_split_word(w: Seq<char>)
    requires
        no_space(w),
    ensures
        split_spaces(w) == seq![w],
    decreases w.len(),
{
    if w.len() > 0 {
        lemma_split_word(w.drop_last());
        let q = seq![w.drop_last()];
        assert(w.drop_last().push(w.last()) =~= w);
        assert(w[w.len() - 1] != ' ');
        assert(q.update(0, q.last().push(w.last())) =~= seq![w]);
    } else {
        assert(w =~= Seq::<char>::empty());
    }
}

/// Splitting on spaces gives back pieces that were joined with spaces,
/// provided there is at least one piece and no piece holds a space.
pub proof fn law_split_undoes_join(parts: Seq<Seq<char>>)
    requires
        parts.len() >= 1,
        forall|i: int| 0 <= i < parts.len() ==> no_space(#[trigger] parts[i]),
    ensures
        split_spaces(join_spaces(parts)) == parts,
    decreases parts.len(),
{
    if parts.len() == 1 {
        lemma_split_word(parts[0]);
        assert(seq![parts[0]] =~= parts);
    } else {
        let p = parts.drop_last();
        assert forall|i: int| 0 <= i < p.len() implies no_space(#[trigger] p[i]) by {
            assert(p[i] == parts[i]);
        }
        law_split_undoes_join(p);
        assert(no_space(parts[parts.len() - 1]));
        lemma_split_after_space(join_spaces(p), parts.last());
        assert(p.push(parts.last()) =~= parts);
    }
}


/// No piece of a split on spaces holds a space.
pub proof fn lemma_split_pieces_no_space(s: Seq<char>)
    ensures
        forall|i: int|
            0 <= i < split_spaces(s).len() ==> no_space(#[trigger] split_spaces(s)[i]),
    decreases s.len(),
{
    if s.len() > 0 {
        let a = s.drop_last();
        let p = split_spaces(a);
        lemma_split_pieces_no_space(a);
        lemma_split_nonempty(a);
        if s.last() != ' ' {
            let q = p.update(p.len() - 1, p.last().push(s.last()));
            assert forall|i: int| 0 <= i < q.len() implies no_space(#[trigger] q[i]) by {
                if i == p.len() - 1 {
                    assert(no_space(p[i]));
                    assert forall|j: int| 0 <= j < q[i].len() implies q[i][j] != ' ' by {
                        if j < p[i].len() {
                            assert(q[i][j] == p[i][j]);
                        }
                    }
                } else {
                    assert(q[i] == p[i]);
                }
            }
        } else {
            let q = p.push(Seq::<char>::empty());
            assert forall|i: int| 0 <= i < q.len() implies no_space(#[trigger] q[i]) by {
                if i < p.len() {
                    assert(q[i] == p[i]);
                }
            }
        }
    }
}

} // verus!
