//! Text handling for context windows: trimming surrounding whitespace,
//! collapsing doubled newlines, and joining or splitting on separators.

use vstd::prelude::*;

verus! {

/// The Unicode `White_Space` code points: the characters that trimming
/// removes from the ends of a window text.
pub open spec fn is_space_char(c: char) -> bool {
    let u = c as u32;
    u == 0x20 || (0x09 <= u && u <= 0x0D) || u == 0x85 || u == 0xA0 || u == 0x1680 || (0x2000
        <= u && u <= 0x200A) || u == 0x2028 || u == 0x2029 || u == 0x202F || u == 0x205F || u
        == 0x3000
}

/// Decides whitespace exactly as `is_space_char` states it.
pub fn is_space(c: char) -> (r: bool)
    ensures
        r == is_space_char(c),
{
    let u = c as u32;
    u == 0x20 || (0x09 <= u && u <= 0x0D) || u == 0x85 || u == 0xA0 || u == 0x1680 || (0x2000
        <= u && u <= 0x200A) || u == 0x2028 || u == 0x2029 || u == 0x202F || u == 0x205F || u
        == 0x3000
}

/// `s` with its leading whitespace removed.
pub open spec fn trim_start_spec(s: Seq<char>) -> Seq<char>
    decreases s.len(),
{
    if s.len() > 0 && is_space_char(s[0]) {
        trim_start_spec(s.drop_first())
    } else {
        s
    }
}

/// `s` with its trailing whitespace removed.
pub open spec fn trim_end_spec(s: Seq<char>) -> Seq<char>
    decreases s.len(),
{
    if s.len() > 0 && is_space_char(s.last()) {
        trim_end_spec(s.drop_last())
    } else {
        s
    }
}

/// `s` with leading and trailing whitespace removed.
pub open spec fn trim_spec(s: Seq<char>) -> Seq<char> {
    trim_end_spec(trim_start_spec(s))
}

proof fn lemma_trim_start_skip(s: Seq<char>, k: int)
    requires
        0 <= k <= s.len(),
        forall|i: int| 0 <= i < k ==> is_space_char(s[i]),
        k == s.len() || !is_space_char(s[k]),
    ensures
        trim_start_spec(s) == s.skip(k),
    decreases k,
{
    if k == 0 {
        assert(s.skip(0) =~= s);
    } else {
        let t = s.drop_first();
        assert(t =~= s.skip(1));
        lemma_trim_start_skip(t, k - 1);
        assert(t.skip(k - 1) =~= s.skip(k));
    }
}

proof fn lemma_trim_end_take(s: Seq<char>, j: int)
    requires
        0 <= j <= s.len(),
        forall|i: int| j <= i < s.len() ==> is_space_char(s[i]),
        j == 0 || !is_space_char(s[j - 1]),
    ensures
        trim_end_spec(s) == s.take(j),
    decreases s.len() - j,
{
    if j == s.len() {
        assert(s.take(j) =~= s);
    } else {
        let t = s.drop_last();
        assert(t =~= s.take(s.len() - 1));
        lemma_trim_end_take(t, j);
        assert(t.take(j) =~= s.take(j));
    }
}

/// Removes leading and trailing whitespace, as `trim_spec` states.
pub fn trim<'a>(s: &'a str) -> (r: &'a str)
    ensures
        r@ == trim_spec(s@),
{
    let n: usize = s.unicode_len();
    let mut from: usize = 0;
    while from < n && is_space(s.get_char(from))
        invariant
            0 <= from <= n,
            n == s@.len(),
            forall|i: int| 0 <= i < from ==> is_space_char(s@[i]),
        decreases n - from,
    {
        from = from + 1;
    }
    proof {
        lemma_trim_start_skip(s@, from as int);
    }
    let mut to: usize = n;
    while to > from && is_space(s.get_char(to - 1))
        invariant
            from <= to <= n,
            n == s@.len(),
            forall|i: int| to <= i < n ==> is_space_char(s@[i]),
        decreases to,
    {
        to = to - 1;
    }
    let r = s.substring_char(from, to);
    proof {
        let t = s@.skip(from as int);
        lemma_trim_end_take(t, to - from as int);
        assert(t.take(to - from as int) =~= s@.subrange(from as int, to as int));
    }
    r
}

/// `s` with each doubled newline collapsed to a single newline, scanning
/// left to right and never revisiting replaced text.
pub open spec fn collapse_spec(s: Seq<char>) -> Seq<char>
    decreases s.len(),
{
    if s.len() >= 2 && s[0] == '\n' && s[1] == '\n' {
        seq!['\n'] + collapse_spec(s.skip(2))
    } else if s.len() >= 1 {
        seq![s[0]] + collapse_spec(s.skip(1))
    } else {
        Seq::empty()
    }
}

/// Collapses each doubled newline to a single newline, as `collapse_spec`
/// states.
pub fn collapse_newlines(s: &str) -> (r: String)
    ensures
        r@ == collapse_spec(s@),
{
    let n: usize = s.unicode_len();
    let mut r = String::new();
    let mut i: usize = 0;
    proof {
        assert(s@.skip(0) =~= s@);
        assert(r@ + collapse_spec(s@.skip(0)) =~= collapse_spec(s@));
    }
    while i < n
        invariant
            0 <= i <= n,
            n == s@.len(),
            r@ + collapse_spec(s@.skip(i as int)) == collapse_spec(s@),
        decreases n - i,
    {
        let c = s.get_char(i);
        if c == '\n' && i + 1 < n && s.get_char(i + 1) == '\n' {
            r.append("\n");
            proof {
                reveal_strlit("\n");
                assert("\n"@ =~= seq!['\n']);
                assert(s@.skip(i as int).skip(2) =~= s@.skip(i as int + 2));
                assert(r@ + collapse_spec(s@.skip(i as int + 2)) =~= collapse_spec(s@));
            }
            i = i + 2;
        } else {
            let piece = s.substring_char(i, i + 1);
            r.append(piece);
            proof {
                assert(s@.subrange(i as int, i as int + 1) =~= seq![s@[i as int]]);
                assert(s@.skip(i as int).skip(1) =~= s@.skip(i as int + 1));
                assert(r@ + collapse_spec(s@.skip(i as int + 1)) =~= collapse_spec(s@));
            }
            i = i + 1;
        }
    }
    proof {
        assert(s@.skip(n as int) =~= Seq::<char>::empty());
        assert(r@ =~= r@ + collapse_spec(s@.skip(n as int)));
    }
    r
}

/// The light normalization applied to each context window: trim surrounding
/// whitespace, then collapse doubled newlines.
pub open spec fn normalize_spec(s: Seq<char>) -> Seq<char> {
    collapse_spec(trim_spec(s))
}

/// Normalizes one window text, as `normalize_spec` states.
pub fn normalize(s: &str) -> (r: String)
    ensures
        r@ == normalize_spec(s@),
{
    let t = trim(s);
    collapse_newlines(t)
}

/// Whether `s` holds two consecutive newlines anywhere.
pub open spec fn has_double_newline(s: Seq<char>) -> bool {
    exists|i: int| 0 <= i && i + 1 < s.len() && (#[trigger] s[i]) == '\n' && s[i + 1] == '\n'
}

/// Whether `s` holds three consecutive newlines anywhere.
pub open spec fn has_triple_newline(s: Seq<char>) -> bool {
    exists|i: int|
        0 <= i && i + 2 < s.len() && (#[trigger] s[i]) == '\n' && s[i + 1] == '\n' && s[i + 2]
            == '\n'
}

proof fn lemma_collapse_head(s: Seq<char>)
    requires
        s.len() > 0,
    ensures
        collapse_spec(s).len() > 0,
        collapse_spec(s)[0] == s[0],
{
}

proof fn lemma_collapse_last(s: Seq<char>)
    requires
        s.len() > 0,
        !is_space_char(s.last()),
    ensures
        collapse_spec(s).len() > 0,
        collapse_spec(s).last() == s.last(),
    decreases s.len(),
{
    if s.len() >= 2 && s[0] == '\n' && s[1] == '\n' {
        let t = s.skip(2);
        assert(t.len() > 0) by {
            assert(s.last() != '\n');
        }
        assert(t.last() == s.last());
        lemma_collapse_last(t);
        assert((seq!['\n'] + collapse_spec(t)).last() == collapse_spec(t).last());
    } else if s.len() >= 2 {
        let t = s.skip(1);
        assert(t.last() == s.last());
        lemma_collapse_last(t);
        assert((seq![s[0]] + collapse_spec(t)).last() == collapse_spec(t).last());
    } else {
        assert(collapse_spec(s.skip(1)) =~= Seq::<char>::empty());
        assert(collapse_spec(s) =~= seq![s[0]]);
    }
}

proof fn lemma_collapse_no_double(s: Seq<char>)
    requires
        !has_triple_newline(s),
    ensures
        !has_double_newline(collapse_spec(s)),
    decreases s.len(),
{
    if s.len() >= 2 && s[0] == '\n' && s[1] == '\n' {
        let t = s.skip(2);
        let c = collapse_spec(t);
        assert(!has_triple_newline(t)) by {
            assert(forall|i: int|
                0 <= i && i + 2 < t.len() ==> (#[trigger] t[i]) == s[i + 2] && t[i + 1] == s[i
                    + 3] && t[i + 2] == s[i + 4]);
        }
        lemma_collapse_no_double(t);
        if t.len() > 0 {
            lemma_collapse_head(t);
            assert(t[0] == s[2]);
            assert(s[2] != '\n');
        }
        assert forall|i: int|
            0 <= i && i + 1 < collapse_spec(s).len() implies !((#[trigger] collapse_spec(s)[i])
            == '\n' && collapse_spec(s)[i + 1] == '\n') by {
            if i == 0 {
                assert(collapse_spec(s)[1] == c[0]);
            } else {
                assert(collapse_spec(s)[i] == c[i - 1]);
                assert(collapse_spec(s)[i + 1] == c[i]);
                assert(!(c[i - 1] == '\n' && c[i] == '\n'));
            }
        }
    } else if s.len() >= 1 {
        let t = s.skip(1);
        let c = collapse_spec(t);
        assert(!has_triple_newline(t)) by {
            assert(forall|i: int|
                0 <= i && i + 2 < t.len() ==> (#[trigger] t[i]) == s[i + 1] && t[i + 1] == s[i
                    + 2] && t[i + 2] == s[i + 3]);
        }
        lemma_collapse_no_double(t);
        if t.len() > 0 {
            lemma_collapse_head(t);
            assert(t[0] == s[1]);
        }
        assert forall|i: int|
            0 <= i && i + 1 < collapse_spec(s).len() implies !((#[trigger] collapse_spec(s)[i])
            == '\n' && collapse_spec(s)[i + 1] == '\n') by {
            if i == 0 {
                assert(collapse_spec(s)[0] == s[0]);
                assert(collapse_spec(s)[1] == c[0]);
                if s[0] == '\n' {
                    assert(!(s.len() >= 2 && s[1] == '\n'));
                }
            } else {
                assert(collapse_spec(s)[i] == c[i - 1]);
                assert(collapse_spec(s)[i + 1] == c[i]);
                assert(!(c[i - 1] == '\n' && c[i] == '\n'));
            }
        }
    }
}

proof fn lemma_collapse_fixed_point(s: Seq<char>)
    requires
        !has_double_newline(s),
    ensures
        collapse_spec(s) == s,
    decreases s.len(),
{
    if s.len() >= 2 && s[0] == '\n' && s[1] == '\n' {
        assert(has_double_newline(s));
    } else if s.len() >= 1 {
        let t = s.skip(1);
        assert(!has_double_newline(t)) by {
            assert(forall|i: int|
                0 <= i && i + 1 < t.len() ==> (#[trigger] t[i]) == s[i + 1] && t[i + 1] == s[i
                    + 2]);
        }
        lemma_collapse_fixed_point(t);
        assert(seq![s[0]] + t =~= s);
    } else {
        assert(collapse_spec(s) =~= s);
    }
}

proof fn lemma_trim_start_head(s: Seq<char>)
    ensures
        trim_start_spec(s).len() > 0 ==> !is_space_char(trim_start_spec(s)[0]),
    decreases s.len(),
{
    if s.len() > 0 && is_space_char(s[0]) {
        lemma_trim_start_head(s.drop_first());
    }
}

proof fn lemma_trim_end_last(s: Seq<char>)
    ensures
        trim_end_spec(s).len() > 0 ==> !is_space_char(trim_end_spec(s).last()),
    decreases s.len(),
{
    if s.len() > 0 && is_space_char(s.last()) {
        lemma_trim_end_last(s.drop_last());
    }
}

proof fn lemma_trim_end_head(s: Seq<char>)
    ensures
        trim_end_spec(s).len() > 0 ==> s.len() > 0 && trim_end_spec(s)[0] == s[0],
    decreases s.len(),
{
    if s.len() > 0 && is_space_char(s.last()) {
        lemma_trim_end_head(s.drop_last());
    }
}

/// The trimmed form of `s` is either empty or free of whitespace at both
/// ends.
proof fn lemma_trim_props(s: Seq<char>)
    ensures
        trim_spec(s).len() > 0 ==> !is_space_char(trim_spec(s)[0]) && !is_space_char(
            trim_spec(s).last(),
        ),
{
    lemma_trim_start_head(s);
    lemma_trim_end_head(trim_start_spec(s));
    lemma_trim_end_last(trim_start_spec(s));
}

proof fn lemma_trim_noop(s: Seq<char>)
    requires
        s.len() == 0 || (!is_space_char(s[0]) && !is_space_char(s.last())),
    ensures
        trim_spec(s) == s,
{
    assert(trim_start_spec(s) == s);
    assert(trim_end_spec(s) == s);
}

/// Law: normalization is idempotent.  Normalizing a window text twice gives
/// the same result as normalizing it once, on every text whose trimmed form
/// has no run of three or more consecutive newlines (a longer run leaves a
/// doubled newline behind that a second pass would collapse further).
pub proof fn lemma_normalize_idempotent(s: Seq<char>)
    requires
        !has_triple_newline(trim_spec(s)),
    ensures
        normalize_spec(normalize_spec(s)) == normalize_spec(s),
{
    let t = trim_spec(s);
    let u = collapse_spec(t);
    lemma_collapse_no_double(t);
    if u.len() > 0 {
        assert(t.len() > 0);
        lemma_trim_props(s);
        lemma_collapse_head(t);
        lemma_collapse_last(t);
        lemma_trim_noop(u);
    } else {
        assert(trim_spec(u) =~= u);
    }
    lemma_collapse_fixed_point(u);
}

/// The parts joined in order, with `sep` between consecutive parts.
pub open spec fn join_with(sep: Seq<char>, parts: Seq<Seq<char>>) -> Seq<char>
    decreases parts.len(),
{
    if parts.len() == 0 {
        Seq::empty()
    } else if parts.len() == 1 {
        parts[0]
    } else {
        parts[0] + sep + join_with(sep, parts.drop_first())
    }
}

proof fn lemma_join_with_push(sep: Seq<char>, parts: Seq<Seq<char>>, x: Seq<char>)
    ensures
        parts.len() == 0 ==> join_with(sep, parts.push(x)) == x,
        parts.len() > 0 ==> join_with(sep, parts.push(x)) == join_with(sep, parts) + sep + x,
    decreases parts.len(),
{
    if parts.len() == 0 {
        assert(parts.push(x)[0] == x);
    } else if parts.len() == 1 {
        assert(parts.push(x).drop_first() =~= seq![x]);
        assert(join_with(sep, seq![x]) == x);
        assert(join_with(sep, parts.push(x)) == parts[0] + sep + x);
    } else {
        assert(parts.push(x).drop_first() =~= parts.drop_first().push(x));
        lemma_join_with_push(sep, parts.drop_first(), x);
        assert((parts[0] + sep + (join_with(sep, parts.drop_first()) + sep + x)) =~= ((parts[0]
            + sep + join_with(sep, parts.drop_first())) + sep + x));
    }
}

/// Joins the parts with `sep`, in order, as `join_with` states.
pub fn join_parts(parts: &Vec<String>, sep: &str) -> (r: String)
    ensures
        r@ == join_with(sep@, parts@.map_values(|p: String| p@)),
{
    let ghost views = parts@.map_values(|p: String| p@);
    let mut r = String::new();
    let mut i: usize = 0;
    while i < parts.len()
        invariant
            0 <= i <= parts@.len(),
            views == parts@.map_values(|p: String| p@),
            r@ == join_with(sep@, views.take(i as int)),
        decreases parts@.len() - i,
    {
        if i > 0 {
            r.append(sep);
        }
        r.append(parts[i].as_str());
        proof {
            lemma_join_with_push(sep@, views.take(i as int), views[i as int]);
            assert(views.take(i as int).push(views[i as int]) =~= views.take(i as int + 1));
        }
        i = i + 1;
    }
    proof {
        assert(views.take(parts@.len() as int) =~= views);
    }
    r
}

/// `s` split on each doubled newline, scanning left to right; the separators
/// belong to no piece, and an empty input yields one empty piece.
pub open spec fn split_spec(s: Seq<char>) -> Seq<Seq<char>>
    decreases s.len(),
{
    if s.len() >= 2 && s[0] == '\n' && s[1] == '\n' {
        seq![Seq::<char>::empty()] + split_spec(s.skip(2))
    } else if s.len() >= 1 {
        let rest = split_spec(s.skip(1));
        seq![seq![s[0]] + rest[0]] + rest.drop_first()
    } else {
        seq![Seq::<char>::empty()]
    }
}

proof fn lemma_split_nonempty(s: Seq<char>)
    ensures
        split_spec(s).len() >= 1,
    decreases s.len(),
{
    if s.len() >= 2 && s[0] == '\n' && s[1] == '\n' {
        lemma_split_nonempty(s.skip(2));
    } else if s.len() >= 1 {
        lemma_split_nonempty(s.skip(1));
    }
}

/// Splits `s` into the pieces separated by doubled newlines, as `split_spec`
/// states.
pub fn split_paragraphs(s: &str) -> (r: Vec<String>)
    ensures
        r@.map_values(|p: String| p@) == split_spec(s@),
{
    let n: usize = s.unicode_len();
    let mut done: Vec<String> = Vec::new();
    let mut cur = String::new();
    let mut i: usize = 0;
    proof {
        assert(s@.skip(0) =~= s@);
        lemma_split_nonempty(s@);
        assert(done@.map_values(|p: String| p@) + seq![cur@ + split_spec(s@)[0]] + split_spec(
            s@,
        ).drop_first() =~= split_spec(s@));
    }
    while i < n
        invariant
            0 <= i <= n,
            n == s@.len(),
            split_spec(s@.skip(i as int)).len() >= 1,
            done@.map_values(|p: String| p@) + seq![cur@ + split_spec(s@.skip(i as int))[0]]
                + split_spec(s@.skip(i as int)).drop_first() == split_spec(s@),
        decreases n - i,
    {
        let ghost rem = split_spec(s@.skip(i as int));
        let ghost done0 = done@;
        let ghost cur0 = cur@;
        let c = s.get_char(i);
        if c == '\n' && i + 1 < n && s.get_char(i + 1) == '\n' {
            done.push(cur);
            cur = String::new();
            proof {
                assert(s@.skip(i as int).skip(2) =~= s@.skip(i as int + 2));
                let rem2 = split_spec(s@.skip(i as int + 2));
                lemma_split_nonempty(s@.skip(i as int + 2));
                assert(rem == seq![Seq::<char>::empty()] + rem2);
                assert(cur0 + rem[0] =~= cur0);
                assert(rem.drop_first() =~= rem2);
                assert(done@.map_values(|p: String| p@) =~= done0.map_values(
                    |p: String| p@,
                ).push(cur0));
                assert(cur@ + rem2[0] =~= rem2[0]);
                assert(rem2 =~= seq![rem2[0]] + rem2.drop_first());
                assert(done@.map_values(|p: String| p@) + seq![cur@ + rem2[0]]
                    + rem2.drop_first() =~= done0.map_values(|p: String| p@) + seq![cur0 + rem[0]]
                    + rem.drop_first());
            }
            i = i + 2;
        } else {
            let piece = s.substring_char(i, i + 1);
            cur.append(piece);
            proof {
                assert(s@.subrange(i as int, i as int + 1) =~= seq![s@[i as int]]);
                assert(s@.skip(i as int).skip(1) =~= s@.skip(i as int + 1));
                let rem2 = split_spec(s@.skip(i as int + 1));
                lemma_split_nonempty(s@.skip(i as int + 1));
                assert(rem == seq![seq![s@[i as int]] + rem2[0]] + rem2.drop_first());
                assert(rem[0] == seq![s@[i as int]] + rem2[0]);
                assert(rem.drop_first() =~= rem2.drop_first());
                assert(cur@ + rem2[0] =~= cur0 + rem[0]);
                assert(done@.map_values(|p: String| p@) + seq![cur@ + rem2[0]]
                    + rem2.drop_first() =~= done0.map_values(|p: String| p@) + seq![cur0 + rem[0]]
                    + rem.drop_first());
            }
            i = i + 1;
        }
    }
    proof {
        assert(s@.skip(n as int) =~= Seq::<char>::empty());
        let rem = split_spec(s@.skip(n as int));
        assert(rem =~= seq![Seq::<char>::empty()]);
        assert(rem[0] =~= Seq::<char>::empty());
        assert(cur@ + rem[0] =~= cur@);
        assert(rem.drop_first() =~= Seq::<Seq<char>>::empty());
        assert(done@.map_values(|p: String| p@).push(cur@) =~= split_spec(s@));
        assert(done@.push(cur).map_values(|p: String| p@) =~= done@.map_values(
            |p: String| p@,
        ).push(cur@));
    }
    done.push(cur);
    done
}

} // verus!
