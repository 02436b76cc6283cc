use vstd::prelude::*;

verus! {

/// The characters that carry the Unicode `White_Space` property: what
/// `char::is_whitespace`, and so `str::trim`, strips.
pub open spec fn is_white_space(c: char) -> bool {
    let u = c as u32;
    ||| 0x09 <= u <= 0x0D
    ||| u == 0x20
    ||| u == 0x85
    ||| u == 0xA0
    ||| u == 0x1680
    ||| 0x2000 <= u <= 0x200A
    ||| u == 0x2028
    ||| u == 0x2029
    ||| u == 0x202F
    ||| u == 0x205F
    ||| u == 0x3000
}

/// The pieces of `s` between line feeds, from left to right.
pub open spec fn split_lines(s: Seq<char>) -> Seq<Seq<char>>
    decreases s.len(),
{
    if s.len() == 0 {
        seq![Seq::empty()]
    } else {
        let prev = split_lines(s.drop_last());
        if s.last() == '\n' {
            prev.push(Seq::empty())
        } else {
            prev.update(prev.len() - 1, prev.last().push(s.last()))
        }
    }
}

pub open spec fn trim_start(l: Seq<char>) -> Seq<char>
    decreases l.len(),
{
    if l.len() > 0 && is_white_space(l[0]) {
        trim_start(l.drop_first())
    } else {
        l
    }
}

pub open spec fn trim_end(l: Seq<char>) -> Seq<char>
    decreases l.len(),
{
    if l.len() > 0 && is_white_space(l.last()) {
        trim_end(l.drop_last())
    } else {
        l
    }
}

/// `l` without its leading and trailing white space.
pub open spec fn trim(l: Seq<char>) -> Seq<char> {
    trim_end(trim_start(l))
}

/// The non-empty lines of `ls`, joined by one space each.
pub open spec fn join_lines(ls: Seq<Seq<char>>) -> Seq<char>
    decreases ls.len(),
{
    if ls.len() == 0 {
        Seq::empty()
    } else {
        let acc = join_lines(ls.drop_last());
        let l = ls.last();
        if l.len() == 0 {
            acc
        } else if acc.len() == 0 {
            l
        } else {
            acc + seq![' '] + l
        }
    }
}

pub open spec fn trimmed_lines(s: Seq<char>) -> Seq<Seq<char>> {
    split_lines(s).map_values(|l: Seq<char>| trim(l))
}

/// A quote made comparable: each line trimmed, blank lines dropped, the rest
/// joined by single spaces.
pub open spec fn normalized(s: Seq<char>) -> Seq<char> {
    join_lines(trimmed_lines(s))
}

/// A single line that starts and ends with a character other than white space.
pub open spec fn is_clean(t: Seq<char>) -> bool {
    &&& forall|i: int| 0 <= i < t.len() ==> t[i] != '\n'
    &&& t.len() > 0 ==> !is_white_space(t[0]) && !is_white_space(t.last())
}

/// Relies on `str::chars`: the characters of `s`, in order.
#[verifier::external_body]
fn chars_of(s: &str) -> (r: Vec<char>)
    ensures
        r@ == s@,
{
    s.chars().collect()
}

/// Relies on `String::push`: appends one character.
#[verifier::external_body]
fn push_char(s: &mut String, c: char)
    ensures
        final(s)@ == old(s)@.push(c),
{
    s.push(c)
}

fn is_whitespace(c: char) -> (r: bool)
    ensures
        r == is_white_space(c),
{
    let u = c as u32;
    (0x09 <= u && u <= 0x0D) || u == 0x20 || u == 0x85 || u == 0xA0 || u == 0x1680 || (0x2000
        <= u && u <= 0x200A) || u == 0x2028 || u == 0x2029 || u == 0x202F || u == 0x205F || u
        == 0x3000
}

proof fn lemma_split_extend(s: Seq<char>, ls: int, e: int)
    requires
        0 <= ls <= e <= s.len(),
        ls == 0 || s[ls - 1] == '\n',
        forall|k: int| ls <= k < e ==> s[k] != '\n',
    ensures
        split_lines(s.take(ls)).len() > 0,
        split_lines(s.take(ls)).last() == Seq::<char>::empty(),
        split_lines(s.take(e)) == split_lines(s.take(ls)).drop_last().push(s.subrange(ls, e)),
    decreases e - ls,
{
    if ls > 0 {
        lemma_split_len(s.take(ls - 1));
        assert(s.take(ls).drop_last() =~= s.take(ls - 1));
        assert(s.take(ls).last() == '\n');
    } else {
        assert(s.take(0) =~= Seq::<char>::empty());
    }
    if e == ls {
        let p = split_lines(s.take(ls));
        assert(s.subrange(ls, e) =~= Seq::<char>::empty());
        assert(p.drop_last().push(s.subrange(ls, e)) =~= p);
    } else {
        lemma_split_extend(s, ls, e - 1);
        assert(s.take(e).drop_last() =~= s.take(e - 1));
        assert(s.subrange(ls, e - 1).push(s[e - 1]) =~= s.subrange(ls, e));
        lemma_split_len(s.take(e - 1));
        assert(split_lines(s.take(e)) =~= split_lines(s.take(ls)).drop_last().push(
            s.subrange(ls, e),
        ));
    }
}

proof fn lemma_split_len(s: Seq<char>)
    ensures
        split_lines(s).len() > 0,
    decreases s.len(),
{
    if s.len() > 0 {
        lemma_split_len(s.drop_last());
    }
}

proof fn lemma_split_no_newline(s: Seq<char>)
    ensures
        forall|k: int, i: int|
            0 <= k < split_lines(s).len() && 0 <= i < split_lines(s)[k].len()
                ==> #[trigger] split_lines(s)[k][i] != '\n',
    decreases s.len(),
{
    if s.len() > 0 {
        lemma_split_no_newline(s.drop_last());
        lemma_split_len(s.drop_last());
        let prev = split_lines(s.drop_last());
        if s.last() != '\n' {
            assert forall|k: int, i: int|
                0 <= k < split_lines(s).len() && 0 <= i < split_lines(s)[k].len()
                    implies #[trigger] split_lines(s)[k][i] != '\n' by {
                if k == prev.len() - 1 {
                    if i < prev.last().len() {
                        assert(prev[k][i] != '\n');
                    }
                } else {
                    assert(prev[k][i] != '\n');
                }
            }
        } else {
            assert forall|k: int, i: int|
                0 <= k < split_lines(s).len() && 0 <= i < split_lines(s)[k].len()
                    implies #[trigger] split_lines(s)[k][i] != '\n' by {
                assert(prev[k][i] != '\n');
            }
        }
    }
}

proof fn lemma_split_single(s: Seq<char>)
    requires
        forall|i: int| 0 <= i < s.len() ==> s[i] != '\n',
    ensures
        split_lines(s) == seq![s],
    decreases s.len(),
{
    if s.len() > 0 {
        lemma_split_single(s.drop_last());
        assert(s.drop_last().push(s.last()) =~= s);
        assert(split_lines(s) =~= seq![s]);
    } else {
        assert(s =~= Seq::<char>::empty());
    }
}

proof fn lemma_trim_start_suffix(l: Seq<char>)
    ensures
        trim_start(l).len() <= l.len(),
        trim_start(l) == l.skip(l.len() - trim_start(l).len()),
        trim_start(l).len() > 0 ==> !is_white_space(trim_start(l)[0]),
    decreases l.len(),
{
    if l.len() > 0 && is_white_space(l[0]) {
        lemma_trim_start_suffix(l.drop_first());
        assert(l.drop_first().skip(l.len() - 1 - trim_start(l).len()) =~= l.skip(
            l.len() - trim_start(l).len(),
        ));
    } else {
        assert(l.skip(0) =~= l);
    }
}

proof fn lemma_trim_end_prefix(l: Seq<char>)
    ensures
        trim_end(l).len() <= l.len(),
        trim_end(l) == l.take(trim_end(l).len() as int),
        trim_end(l).len() > 0 ==> !is_white_space(trim_end(l).last()),
    decreases l.len(),
{
    if l.len() > 0 && is_white_space(l.last()) {
        lemma_trim_end_prefix(l.drop_last());
        assert(l.drop_last().take(trim_end(l).len() as int) =~= l.take(trim_end(l).len() as int));
    } else {
        assert(l.take(l.len() as int) =~= l);
    }
}

proof fn lemma_trim_clean(l: Seq<char>)
    requires
        forall|i: int| 0 <= i < l.len() ==> l[i] != '\n',
    ensures
        is_clean(trim(l)),
{
    lemma_trim_start_suffix(l);
    let a = trim_start(l);
    lemma_trim_end_prefix(a);
    let b = trim_end(a);
    assert forall|i: int| 0 <= i < b.len() implies b[i] != '\n' by {
        assert(b[i] == a[i]);
        assert(a[i] == l[l.len() - a.len() + i]);
    }
    if b.len() > 0 {
        assert(b[0] == a[0]);
    }
}

proof fn lemma_join_clean(ls: Seq<Seq<char>>)
    requires
        forall|k: int| 0 <= k < ls.len() ==> is_clean(#[trigger] ls[k]),
    ensures
        is_clean(join_lines(ls)),
    decreases ls.len(),
{
    if ls.len() > 0 {
        lemma_join_clean(ls.drop_last());
        assert(is_clean(ls[ls.len() - 1]));
        let acc = join_lines(ls.drop_last());
        let l = ls.last();
        if l.len() > 0 && acc.len() > 0 {
            let r = acc + seq![' '] + l;
            assert forall|i: int| 0 <= i < r.len() implies r[i] != '\n' by {
                if i < acc.len() {
                    assert(r[i] == acc[i]);
                } else if i > acc.len() {
                    assert(r[i] == l[i - acc.len() - 1]);
                }
            }
            assert(r[0] == acc[0]);
            assert(r.last() == l.last());
        }
    }
}

proof fn lemma_normalized_clean(s: Seq<char>)
    ensures
        is_clean(normalized(s)),
{
    lemma_split_no_newline(s);
    let ts = trimmed_lines(s);
    assert forall|k: int| 0 <= k < ts.len() implies is_clean(#[trigger] ts[k]) by {
        let l = split_lines(s)[k];
        assert forall|i: int| 0 <= i < l.len() implies l[i] != '\n' by {
            assert(split_lines(s)[k][i] != '\n');
        }
        lemma_trim_clean(l);
    }
    lemma_join_clean(ts);
}

/// Normalizing a quote twice gives what normalizing it once gave.
pub proof fn lemma_normalize_idempotent(s: Seq<char>)
    ensures
        normalized(normalized(s)) == normalized(s),
{
    let r = normalized(s);
    lemma_normalized_clean(s);
    lemma_split_single(r);
    assert(trim_start(r) == r);
    assert(trim_end(r) == r);
    let ts = trimmed_lines(r);
    assert(ts =~= seq![r]);
    assert(ts.drop_last() =~= Seq::<Seq<char>>::empty());
    assert(join_lines(ts.drop_last()) == Seq::<char>::empty());
    assert(ts.last() == r);
    assert(join_lines(ts) == r);
}

/// Turns a raw, possibly multi-line quote into one line: each line is
/// trimmed, blank lines are dropped, and the remaining lines are joined by a
/// single space.
pub fn normalize_quote(s: &str) -> (r: String)
    ensures
        r@ == normalized(s@),
{
    let cs = chars_of(s);
    let n = cs.len();
    let mut out = String::new();
    let mut any = false;
    let mut ls: usize = 0;
    loop
        invariant
            cs@ == s@,
            n == cs.len(),
            ls <= n,
            ls == 0 || cs@[ls - 1] == '\n',
            any == (out@.len() > 0),
            out@ == join_lines(
                split_lines(s@.take(ls as int)).drop_last().map_values(|l: Seq<char>| trim(l)),
            ),
        decreases n - ls,
    {
        let ghost sq = s@;
        let mut e: usize = ls;
        while e < n && cs[e] != '\n'
            invariant
                cs@ == s@,
                sq == s@,
                n == cs.len(),
                ls <= e <= n,
                forall|k: int| ls <= k < e ==> cs@[k] != '\n',
            decreases n - e,
        {
            e = e + 1;
        }
        proof {
            lemma_split_extend(sq, ls as int, e as int);
        }
        let mut a: usize = ls;
        while a < e && is_whitespace(cs[a])
            invariant
                cs@ == s@,
                sq == s@,
                n == cs.len(),
                ls <= a <= e <= n,
                trim_start(sq.subrange(ls as int, e as int)) == trim_start(
                    sq.subrange(a as int, e as int),
                ),
            decreases e - a,
        {
            assert(sq.subrange(a as int, e as int).drop_first() =~= sq.subrange(
                a + 1,
                e as int,
            ));
            a = a + 1;
        }
        let mut b: usize = e;
        while b > a && is_whitespace(cs[b - 1])
            invariant
                cs@ == s@,
                sq == s@,
                n == cs.len(),
                ls <= a <= b <= e <= n,
                trim(sq.subrange(ls as int, e as int)) == trim_end(sq.subrange(a as int, b as int)),
            decreases b - a,
        {
            assert(sq.subrange(a as int, b as int).drop_last() =~= sq.subrange(
                a as int,
                b - 1,
            ));
            b = b - 1;
        }
        let ghost line = sq.subrange(ls as int, e as int);
        let ghost t = sq.subrange(a as int, b as int);
        assert(trim(line) == t);
        let ghost before = out@;
        if a < b {
            if any {
                push_char(&mut out, ' ');
            }
            let ghost base = out@;
            let mut j: usize = a;
            while j < b
                invariant
                    cs@ == s@,
                    sq == s@,
                    n == cs.len(),
                    a <= j <= b <= n,
                    out@ == base + sq.subrange(a as int, j as int),
                decreases b - j,
            {
                push_char(&mut out, cs[j]);
                assert(sq.subrange(a as int, j + 1) =~= sq.subrange(a as int, j as int).push(
                    cs@[j as int],
                ));
                j = j + 1;
            }
            any = true;
        }
        let ghost prev = split_lines(sq.take(ls as int)).drop_last();
        let ghost q = prev.map_values(|l: Seq<char>| trim(l));
        proof {
            assert(prev.push(line).map_values(|l: Seq<char>| trim(l)) =~= q.push(t));
            assert(q.push(t).drop_last() =~= q);
            if a < b && before.len() > 0 {
                assert(out@ =~= before + seq![' '] + t);
            }
            assert(out@ == join_lines(q.push(t)));
        }
        if e == n {
            proof {
                assert(sq.take(n as int) =~= sq);
            }
            return out;
        }
        proof {
            let full = split_lines(sq.take(e as int));
            assert(sq.take(e + 1).drop_last() =~= sq.take(e as int));
            assert(split_lines(sq.take(e + 1)).drop_last() =~= full);
            assert(full == prev.push(line));
        }
        ls = e + 1;
    }
}

} // verus!
