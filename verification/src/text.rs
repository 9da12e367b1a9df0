//! Text as character sequences: splitting on a separator, splitting into
//! lines the way the document is read, and rejoining lines with newline
//! separators.
//!
//! Lines are what splitting the document on `'\n'` produces, with a carriage
//! return stripped from the end of every piece that was followed by a
//! newline, and with no empty final line when the document ends in a newline.
//! Joining puts a single `'\n'` between lines and adds no trailing newline,
//! so joining the lines of a document reproduces the document exactly when
//! the document neither ends in a newline nor uses carriage returns before
//! its newlines.

use vstd::prelude::*;

verus! {

/// The character sequences of a sequence of character vectors.
pub open spec fn char_views(s: Seq<Vec<char>>) -> Seq<Seq<char>> {
    s.map_values(|p: Vec<char>| p@)
}

/// The pieces of `s` delimited by `sep`: one more piece than there are
/// separators, in order, each piece free of `sep`.
pub open spec fn spec_split(s: Seq<char>, sep: char) -> Seq<Seq<char>>
    decreases s.len(),
{
    if s.len() == 0 {
        seq![Seq::<char>::empty()]
    } else if s[0] == sep {
        seq![Seq::<char>::empty()] + spec_split(s.subrange(1, s.len() as int), sep)
    } else {
        let rest = spec_split(s.subrange(1, s.len() as int), sep);
        seq![seq![s[0]] + rest[0]] + rest.subrange(1, rest.len() as int)
    }
}

pub proof fn lemma_split_nonempty(s: Seq<char>, sep: char)
    ensures
        spec_split(s, sep).len() >= 1,
    decreases s.len(),
{
    if s.len() == 0 {
    } else {
        lemma_split_nonempty(s.subrange(1, s.len() as int), sep);
    }
}

/// The pieces of `s`, with `pre` prepended to the first piece.
pub open spec fn prefix_first(pre: Seq<char>, pieces: Seq<Seq<char>>) -> Seq<Seq<char>>
    recommends
        pieces.len() >= 1,
{
    pieces.update(0, pre + pieces[0])
}

pub fn split_char(s: &Vec<char>, sep: char) -> (r: Vec<Vec<char>>)
    ensures
        char_views(r@) == spec_split(s@, sep),
        r@.len() >= 1,
{
    let mut out: Vec<Vec<char>> = Vec::new();
    let mut cur: Vec<char> = Vec::new();
    let mut i: usize = 0;
    proof {
        lemma_split_nonempty(s@, sep);
        assert(s@.subrange(0, s@.len() as int) =~= s@);
        assert(char_views(out@) + prefix_first(cur@, spec_split(s@, sep)) =~~= spec_split(
            s@,
            sep,
        ));
    }
    while i < s.len()
        invariant
            i <= s@.len(),
            spec_split(s@, sep) == char_views(out@) + prefix_first(
                cur@,
                spec_split(s@.subrange(i as int, s@.len() as int), sep),
            ),
        decreases s@.len() - i,
    {
        let c = s[i];
        let ghost rest = s@.subrange(i as int, s@.len() as int);
        let ghost rest2 = s@.subrange(i as int + 1, s@.len() as int);
        proof {
            assert(rest.len() > 0);
            assert(rest[0] == c);
            assert(rest.subrange(1, rest.len() as int) =~= rest2);
            lemma_split_nonempty(rest2, sep);
        }
        if c == sep {
            proof {
                assert(spec_split(rest, sep) == seq![Seq::<char>::empty()] + spec_split(
                    rest2,
                    sep,
                ));
                assert(prefix_first(cur@, spec_split(rest, sep)) =~~= seq![cur@] + spec_split(
                    rest2,
                    sep,
                ));
                assert(char_views(out@.push(cur)) =~~= char_views(out@).push(cur@));
                assert(char_views(out@).push(cur@) + prefix_first(
                    Seq::<char>::empty(),
                    spec_split(rest2, sep),
                ) =~~= char_views(out@) + (seq![cur@] + spec_split(rest2, sep)));
            }
            out.push(cur);
            cur = Vec::new();
        } else {
            let ghost x = spec_split(rest2, sep);
            proof {
                assert(spec_split(rest, sep) == seq![seq![c] + x[0]] + x.subrange(
                    1,
                    x.len() as int,
                ));
                assert(spec_split(rest, sep) =~~= prefix_first(seq![c], x));
                assert(prefix_first(cur@, prefix_first(seq![c], x)) =~~= prefix_first(
                    cur@.push(c),
                    x,
                ));
            }
            cur.push(c);
        }
        i += 1;
    }
    proof {
        let ghost rest = s@.subrange(i as int, s@.len() as int);
        assert(rest =~= Seq::<char>::empty());
        assert(spec_split(rest, sep) == seq![Seq::<char>::empty()]);
        assert(prefix_first(cur@, spec_split(rest, sep)) =~~= seq![cur@]);
        assert(char_views(out@.push(cur)) =~~= char_views(out@) + seq![cur@]);
    }
    out.push(cur);
    out
}

/// The lines rejoined: a single `'\n'` between consecutive lines, no
/// trailing newline.
pub open spec fn spec_join(lines: Seq<Seq<char>>) -> Seq<char>
    decreases lines.len(),
{
    if lines.len() == 0 {
        Seq::empty()
    } else if lines.len() == 1 {
        lines[0]
    } else {
        lines[0] + seq!['\n'] + spec_join(lines.subrange(1, lines.len() as int))
    }
}

/// Joining the pieces that splitting on `'\n'` produced restores the text.
pub proof fn lemma_join_split(s: Seq<char>)
    ensures
        spec_join(spec_split(s, '\n')) == s,
    decreases s.len(),
{
    if s.len() == 0 {
        assert(spec_join(spec_split(s, '\n')) =~= s);
    } else {
        let tail = s.subrange(1, s.len() as int);
        lemma_join_split(tail);
        lemma_split_nonempty(tail, '\n');
        let rest = spec_split(tail, '\n');
        if s[0] == '\n' {
            assert(spec_split(s, '\n') == seq![Seq::<char>::empty()] + rest);
            assert((seq![Seq::<char>::empty()] + rest).len() >= 2);
            assert((seq![Seq::<char>::empty()] + rest).subrange(
                1,
                (seq![Seq::<char>::empty()] + rest).len() as int,
            ) =~~= rest);
            assert(spec_join(spec_split(s, '\n')) =~= s);
        } else {
            assert(spec_split(s, '\n') == seq![seq![s[0]] + rest[0]] + rest.subrange(
                1,
                rest.len() as int,
            ));
            let sp = spec_split(s, '\n');
            if rest.len() == 1 {
                assert(sp =~~= seq![seq![s[0]] + rest[0]]);
                assert(spec_join(rest) == rest[0]);
                assert(spec_join(sp) == seq![s[0]] + rest[0]);
                assert(seq![s[0]] + tail =~= s);
            } else {
                assert(sp.len() >= 2);
                assert(sp[0] == seq![s[0]] + rest[0]);
                assert(sp.subrange(1, sp.len() as int) =~~= rest.subrange(1, rest.len() as int));
                assert(spec_join(sp) == (seq![s[0]] + rest[0]) + seq!['\n'] + spec_join(
                    rest.subrange(1, rest.len() as int),
                ));
                assert(spec_join(rest) == rest[0] + seq!['\n'] + spec_join(
                    rest.subrange(1, rest.len() as int),
                ));
                assert(spec_join(sp) =~= seq![s[0]] + spec_join(rest));
                assert(seq![s[0]] + tail =~= s);
            }
        }
    }
}

/// No piece of a split contains the separator.
pub proof fn lemma_split_pieces_free(s: Seq<char>, sep: char)
    ensures
        forall|i: int|
            0 <= i < spec_split(s, sep).len() ==> !(#[trigger] spec_split(s, sep)[i]).contains(
                sep,
            ),
    decreases s.len(),
{
    if s.len() == 0 {
    } else {
        let tail = s.subrange(1, s.len() as int);
        lemma_split_pieces_free(tail, sep);
        lemma_split_nonempty(tail, sep);
        let rest = spec_split(tail, sep);
        if s[0] == sep {
            assert(spec_split(s, sep) == seq![Seq::<char>::empty()] + rest);
            assert forall|i: int|
                0 <= i < spec_split(s, sep).len() implies !(#[trigger] spec_split(s, sep)[i])
                .contains(sep) by {
                if i == 0 {
                    assert(!Seq::<char>::empty().contains(sep));
                } else {
                    assert(spec_split(s, sep)[i] == rest[i - 1]);
                }
            }
        } else {
            assert(spec_split(s, sep) == seq![seq![s[0]] + rest[0]] + rest.subrange(
                1,
                rest.len() as int,
            ));
            assert forall|i: int|
                0 <= i < spec_split(s, sep).len() implies !(#[trigger] spec_split(s, sep)[i])
                .contains(sep) by {
                if i == 0 {
                    let head = seq![s[0]] + rest[0];
                    assert(!rest[0].contains(sep));
                    assert forall|k: int| 0 <= k < head.len() implies head[k] != sep by {
                        if k == 0 {
                        } else {
                            assert(head[k] == rest[0][k - 1]);
                        }
                    }
                } else {
                    assert(spec_split(s, sep)[i] == rest[i]);
                }
            }
        }
    }
}

/// Joining with newlines distinguishes distinct line sequences of equal
/// length whenever no line contains a newline itself.
pub proof fn lemma_join_injective(l1: Seq<Seq<char>>, l2: Seq<Seq<char>>)
    requires
        l1.len() == l2.len(),
        forall|i: int| 0 <= i < l1.len() ==> !(#[trigger] l1[i]).contains('\n'),
        forall|i: int| 0 <= i < l2.len() ==> !(#[trigger] l2[i]).contains('\n'),
        spec_join(l1) == spec_join(l2),
    ensures
        l1 == l2,
    decreases l1.len(),
{
    if l1.len() == 0 {
        assert(l1 =~~= l2);
    } else if l1.len() == 1 {
        assert(spec_join(l1) == l1[0]);
        assert(spec_join(l2) == l2[0]);
        assert(l1 =~~= l2);
    } else {
        let a = l1[0];
        let b = l2[0];
        let r1 = l1.subrange(1, l1.len() as int);
        let r2 = l2.subrange(1, l2.len() as int);
        let j1 = spec_join(l1);
        let j2 = spec_join(l2);
        assert(j1 == a + seq!['\n'] + spec_join(r1));
        assert(j2 == b + seq!['\n'] + spec_join(r2));
        assert(j1[a.len() as int] == '\n');
        assert(j2[b.len() as int] == '\n');
        if a.len() < b.len() {
            assert(j2[a.len() as int] == b[a.len() as int]);
            assert(b.contains('\n'));
            assert(false);
        }
        if b.len() < a.len() {
            assert(j1[b.len() as int] == a[b.len() as int]);
            assert(a.contains('\n'));
            assert(false);
        }
        assert(a.len() == b.len());
        assert forall|k: int| 0 <= k < a.len() implies a[k] == b[k] by {
            assert(j1[k] == a[k]);
            assert(j2[k] == b[k]);
        }
        assert(a =~= b);
        assert(spec_join(r1) =~= j1.subrange(a.len() as int + 1, j1.len() as int));
        assert(spec_join(r2) =~= j2.subrange(b.len() as int + 1, j2.len() as int));
        assert forall|i: int| 0 <= i < r1.len() implies !(#[trigger] r1[i]).contains('\n') by {
            assert(r1[i] == l1[i + 1]);
        }
        assert forall|i: int| 0 <= i < r2.len() implies !(#[trigger] r2[i]).contains('\n') by {
            assert(r2[i] == l2[i + 1]);
        }
        lemma_join_injective(r1, r2);
        assert forall|i: int| 0 <= i < l1.len() implies l1[i] == l2[i] by {
            if i > 0 {
                assert(l1[i] == r1[i - 1]);
                assert(l2[i] == r2[i - 1]);
            }
        }
        assert(l1 =~~= l2);
    }
}

proof fn lemma_join_take_succ(l: Seq<Seq<char>>, i: int)
    requires
        0 <= i < l.len(),
    ensures
        spec_join(l.take(i + 1)) == if i == 0 {
            l[0]
        } else {
            spec_join(l.take(i)) + seq!['\n'] + l[i]
        },
    decreases i,
{
    if i == 0 {
        assert(l.take(1) =~~= seq![l[0]]);
    } else {
        let tail = l.subrange(1, l.len() as int);
        if i == 1 {
            let t = l.take(2);
            assert(t.len() == 2);
            assert(t.subrange(1, 2) =~~= seq![l[1]]);
            assert(spec_join(seq![l[1]]) == l[1]);
            assert(spec_join(t) == t[0] + seq!['\n'] + spec_join(t.subrange(1, 2)));
            assert(spec_join(t) == l[0] + seq!['\n'] + l[1]);
            assert(l.take(1) =~~= seq![l[0]]);
        } else {
            lemma_join_take_succ(tail, i - 1);
            let t1 = l.take(i + 1);
            let t0 = l.take(i);
            assert(t1.len() == i + 1 >= 3);
            assert(t0.len() == i >= 2);
            assert(t1.subrange(1, t1.len() as int) =~~= tail.take(i));
            assert(t0.subrange(1, t0.len() as int) =~~= tail.take(i - 1));
            assert(spec_join(t1) == l[0] + seq!['\n'] + spec_join(tail.take(i)));
            assert(spec_join(t0) == l[0] + seq!['\n'] + spec_join(tail.take(i - 1)));
            assert(spec_join(tail.take(i)) == spec_join(tail.take(i - 1)) + seq!['\n'] + tail[i
                - 1]);
            assert(tail[i - 1] == l[i]);
            assert(l[0] + seq!['\n'] + (spec_join(tail.take(i - 1)) + seq!['\n'] + l[i]) =~= (l[0]
                + seq!['\n'] + spec_join(tail.take(i - 1))) + seq!['\n'] + l[i]);
        }
    }
}

pub fn join_lines(lines: &Vec<Vec<char>>) -> (r: Vec<char>)
    ensures
        r@ == spec_join(char_views(lines@)),
{
    let ghost cv = char_views(lines@);
    let mut out: Vec<char> = Vec::new();
    let mut i: usize = 0;
    proof {
        assert(cv.take(0) =~~= Seq::<Seq<char>>::empty());
    }
    while i < lines.len()
        invariant
            i <= lines@.len(),
            cv == char_views(lines@),
            out@ == spec_join(cv.take(i as int)),
        decreases lines@.len() - i,
    {
        proof {
            lemma_join_take_succ(cv, i as int);
        }
        if i > 0 {
            out.push('\n');
        }
        let line = &lines[i];
        proof {
            assert(cv[i as int] == line@);
        }
        let ghost pre = out@;
        let mut j: usize = 0;
        while j < line.len()
            invariant
                j <= line@.len(),
                out@ == pre + line@.take(j as int),
            decreases line@.len() - j,
        {
            let c = line[j];
            out.push(c);
            proof {
                assert(pre + line@.take(j as int + 1) =~= (pre + line@.take(j as int)).push(c));
            }
            j += 1;
        }
        proof {
            assert(line@.take(line@.len() as int) =~= line@);
            if i == 0 {
                assert(pre =~= Seq::<char>::empty());
                assert(out@ =~= cv[0]);
            } else {
                assert(out@ =~= spec_join(cv.take(i as int)) + seq!['\n'] + cv[i as int]);
            }
        }
        i += 1;
    }
    proof {
        assert(cv.take(lines@.len() as int) =~~= cv);
    }
    out
}

/// A carriage return at the very end of a piece is dropped.
pub open spec fn strip_cr(p: Seq<char>) -> Seq<char> {
    if p.len() > 0 && p[p.len() - 1] == '\r' {
        p.drop_last()
    } else {
        p
    }
}

proof fn lemma_strip_cr_free(p: Seq<char>, c: char)
    requires
        !p.contains(c),
    ensures
        !strip_cr(p).contains(c),
{
    if strip_cr(p).contains(c) {
        let k = choose|k: int| 0 <= k < strip_cr(p).len() && strip_cr(p)[k] == c;
        assert(p[k] == c);
        assert(p.contains(c));
    }
}

/// No line of a document contains a newline.
pub proof fn lemma_lines_newline_free(d: Seq<char>)
    ensures
        forall|j: int|
            0 <= j < spec_lines(d).len() ==> !(#[trigger] spec_lines(d)[j]).contains('\n'),
{
    lemma_split_pieces_free(d, '\n');
    let ps = spec_split(d, '\n');
    assert forall|j: int|
        0 <= j < spec_lines(d).len() implies !(#[trigger] spec_lines(d)[j]).contains('\n') by {
        assert(!ps[j].contains('\n'));
        lemma_strip_cr_free(ps[j], '\n');
    }
}

/// The lines of a document: the pieces of splitting on `'\n'`, each piece
/// that a newline followed stripped of a final carriage return, and the
/// empty piece after a final newline dropped.
pub open spec fn spec_lines(s: Seq<char>) -> Seq<Seq<char>> {
    let ps = spec_split(s, '\n');
    let n = ps.len() as int;
    if ps[n - 1].len() == 0 {
        Seq::new((n - 1) as nat, |i: int| strip_cr(ps[i]))
    } else {
        Seq::new(n as nat, |i: int| if i < n - 1 { strip_cr(ps[i]) } else { ps[i] })
    }
}

pub(crate) fn copy_chars(v: &Vec<char>) -> (r: Vec<char>)
    ensures
        r@ == v@,
{
    let mut out: Vec<char> = Vec::new();
    let mut i: usize = 0;
    while i < v.len()
        invariant
            i <= v@.len(),
            out@ == v@.take(i as int),
        decreases v@.len() - i,
    {
        out.push(v[i]);
        proof {
            assert(v@.take(i as int + 1) =~= v@.take(i as int).push(v@[i as int]));
        }
        i += 1;
    }
    proof {
        assert(v@.take(v@.len() as int) =~= v@);
    }
    out
}

pub fn split_lines(s: &Vec<char>) -> (r: Vec<Vec<char>>)
    ensures
        char_views(r@) == spec_lines(s@),
{
    let pieces = split_char(s, '\n');
    let ghost ps = spec_split(s@, '\n');
    let n = pieces.len();
    proof {
        assert(ps[n - 1] == pieces@[n - 1]@);
    }
    let keep: usize = if pieces[n - 1].len() == 0 {
        n - 1
    } else {
        n
    };
    proof {
        assert(spec_lines(s@).len() == keep as int);
    }
    let mut out: Vec<Vec<char>> = Vec::new();
    let mut i: usize = 0;
    while i < keep
        invariant
            i <= keep,
            keep <= n,
            n == pieces@.len(),
            char_views(pieces@) == ps,
            ps == spec_split(s@, '\n'),
            spec_lines(s@).len() == keep as int,
            keep as int == if ps[n - 1].len() == 0 {
                n - 1
            } else {
                n as int
            },
            char_views(out@) == spec_lines(s@).take(i as int),
        decreases keep - i,
    {
        let mut piece = copy_chars(&pieces[i]);
        if i + 1 < n {
            if piece.len() > 0 && piece[piece.len() - 1] == '\r' {
                let _ = piece.pop();
            }
            proof {
                assert(piece@ == strip_cr(ps[i as int]));
            }
        } else {
            proof {
                assert(piece@ == ps[i as int]);
            }
        }
        proof {
            assert(spec_lines(s@)[i as int] == piece@);
            assert(char_views(out@.push(piece)) =~~= char_views(out@).push(piece@));
            assert(spec_lines(s@).take(i as int + 1) =~~= spec_lines(s@).take(i as int).push(
                spec_lines(s@)[i as int],
            ));
        }
        out.push(piece);
        i += 1;
    }
    proof {
        assert(spec_lines(s@).take(keep as int) =~~= spec_lines(s@));
    }
    out
}

/// Relies on String's FromIterator over characters: the same characters, in
/// order.
#[verifier::external_body]
pub fn chars_to_string(v: &Vec<char>) -> (r: String)
    ensures
        r@ == v@,
{
    v.iter().collect()
}

} // verus!
