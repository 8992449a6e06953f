//! Splitting raw input bytes into lines, and lines into
//! whitespace-separated tokens.

use vstd::prelude::*;

verus! {

/// An ASCII whitespace byte: space, tab, line feed, vertical tab, form feed
/// or carriage return.
pub open spec fn is_ws(b: u8) -> bool {
    b == 32 || (9 <= b && b <= 13)
}

/// The views of a sequence of byte vectors.
pub open spec fn byte_views(ls: Seq<Vec<u8>>) -> Seq<Seq<u8>> {
    ls.map_values(|l: Vec<u8>| l@)
}

proof fn lemma_byte_views_push(ls: Seq<Vec<u8>>, l: Vec<u8>)
    ensures
        byte_views(ls.push(l)) == byte_views(ls).push(l@),
{
    assert(byte_views(ls.push(l)) =~= byte_views(ls).push(l@));
}

/// Index of the first line feed in `s`, or `s.len()` if there is none.
pub open spec fn first_nl(s: Seq<u8>) -> nat
    decreases s.len(),
{
    if s.len() == 0 {
        0
    } else if s[0] == 10 {
        0
    } else {
        1 + first_nl(s.skip(1))
    }
}

proof fn lemma_first_nl_at(s: Seq<u8>, i: int)
    requires
        0 <= i <= s.len(),
        forall|k: int| 0 <= k < i ==> s[k] != 10,
        i < s.len() ==> s[i] == 10,
    ensures
        first_nl(s) == i,
    decreases i,
{
    if i == 0 {
    } else {
        assert(s[0] != 10);
        assert forall|k: int| 0 <= k < i - 1 implies s.skip(1)[k] != 10 by {
            assert(s.skip(1)[k] == s[k + 1]);
        }
        assert(i - 1 < s.skip(1).len() ==> s.skip(1)[i - 1] == s[i]);
        lemma_first_nl_at(s.skip(1), i - 1);
    }
}

/// A line as the reader of the input hands it on: the terminating line feed
/// removed, and one carriage return before it removed as well.
pub open spec fn strip_cr(l: Seq<u8>) -> Seq<u8> {
    if l.len() > 0 && l.last() == 13 {
        l.drop_last()
    } else {
        l
    }
}

/// The lines of the input: split on line feeds, each terminated line with a
/// trailing carriage return removed; a final unterminated line is kept as it
/// stands, and there is no empty final line after a terminating line feed.
pub open spec fn line_list(s: Seq<u8>) -> Seq<Seq<u8>>
    decreases s.len(),
{
    if s.len() == 0 {
        seq![]
    } else {
        let i = first_nl(s);
        if i < s.len() {
            seq![strip_cr(s.take(i as int))] + line_list(s.skip(i as int + 1))
        } else {
            seq![s]
        }
    }
}

/// Splits the input into lines.
pub fn split_lines(input: &[u8]) -> (lines: Vec<Vec<u8>>)
    ensures
        byte_views(lines@) == line_list(input@),
{
    let n: usize = input.len();
    let mut lines: Vec<Vec<u8>> = Vec::new();
    let mut pos: usize = 0;
    proof {
        assert(byte_views(lines@) =~= Seq::<Seq<u8>>::empty());
        assert(input@.skip(0) =~= input@);
        assert(Seq::<Seq<u8>>::empty() + line_list(input@) =~= line_list(input@));
    }
    while pos < n
        invariant
            pos <= n,
            n == input@.len(),
            line_list(input@) == byte_views(lines@) + line_list(input@.skip(pos as int)),
        decreases n - pos,
    {
        let mut j: usize = pos;
        while j < n && input[j] != 10
            invariant
                pos <= j <= n,
                n == input@.len(),
                forall|k: int| pos <= k < j ==> input@[k] != 10,
            decreases n - j,
        {
            j = j + 1;
        }
        let end: usize = if j < n && j > pos && input[j - 1] == 13 {
            j - 1
        } else {
            j
        };
        let mut line: Vec<u8> = Vec::new();
        let mut k: usize = pos;
        while k < end
            invariant
                pos <= k <= end,
                end <= n,
                n == input@.len(),
                line@ == input@.subrange(pos as int, k as int),
            decreases end - k,
        {
            line.push(input[k]);
            proof {
                assert(line@ =~= input@.subrange(pos as int, k as int + 1));
            }
            k = k + 1;
        }
        let ghost rest: Seq<u8> = input@.skip(pos as int);
        let ghost old_lines: Seq<Vec<u8>> = lines@;
        proof {
            assert forall|q: int| 0 <= q < j - pos implies rest[q] != 10 by {
                assert(rest[q] == input@[pos + q]);
            }
            if j < n {
                assert(rest[j - pos] == input@[j as int]);
            }
            lemma_first_nl_at(rest, j - pos);
        }
        if j < n {
            proof {
                assert(rest.take(j - pos) =~= input@.subrange(pos as int, j as int));
                if j > pos && input@[j - 1] == 13 {
                    assert(strip_cr(rest.take(j - pos)) =~= input@.subrange(
                        pos as int,
                        end as int,
                    ));
                } else {
                    assert(strip_cr(rest.take(j - pos)) =~= input@.subrange(
                        pos as int,
                        end as int,
                    ));
                }
                assert(rest.skip(j - pos + 1) =~= input@.skip(j as int + 1));
                assert(line_list(rest) == seq![line@] + line_list(input@.skip(j as int + 1)));
            }
            lines.push(line);
            proof {
                lemma_byte_views_push(old_lines, lines@.last());
                assert(byte_views(lines@) + line_list(input@.skip(j as int + 1)) =~= byte_views(
                    old_lines,
                ) + line_list(rest));
            }
            pos = j + 1;
        } else {
            proof {
                assert(first_nl(rest) == rest.len());
                assert(line_list(rest) == seq![rest]);
                assert(line@ =~= rest);
            }
            lines.push(line);
            proof {
                lemma_byte_views_push(old_lines, lines@.last());
                assert(byte_views(lines@) + line_list(input@.skip(n as int)) =~= byte_views(
                    old_lines,
                ) + line_list(rest)) by {
                    assert(input@.skip(n as int) =~= Seq::<u8>::empty());
                }
            }
            pos = n;
        }
    }
    proof {
        assert(input@.skip(pos as int) =~= Seq::<u8>::empty());
        assert(byte_views(lines@) + line_list(input@.skip(pos as int)) =~= byte_views(lines@));
    }
    lines
}

/// The whitespace-separated tokens of one line: the maximal runs of
/// non-whitespace bytes, in order.
pub open spec fn token_list(s: Seq<u8>) -> Seq<Seq<u8>>
    decreases s.len(),
{
    if s.len() == 0 {
        seq![]
    } else if is_ws(s[0]) {
        token_list(s.skip(1))
    } else {
        let rest = token_list(s.skip(1));
        if s.len() > 1 && !is_ws(s[1]) {
            seq![seq![s[0]] + rest[0]] + rest.skip(1)
        } else {
            seq![seq![s[0]]] + rest
        }
    }
}

/// A maximal non-whitespace run at the front of `s` is the first token.
proof fn lemma_token_run(s: Seq<u8>, nlen: int)
    requires
        1 <= nlen <= s.len(),
        forall|k: int| 0 <= k < nlen ==> !is_ws(s[k]),
        nlen < s.len() ==> is_ws(s[nlen]),
    ensures
        token_list(s) == seq![s.take(nlen)] + token_list(s.skip(nlen)),
    decreases nlen,
{
    if nlen == 1 {
        assert(s.take(1) =~= seq![s[0]]);
        assert(s.skip(1) =~= s.skip(nlen));
    } else {
        assert(!is_ws(s[1]));
        assert forall|k: int| 0 <= k < nlen - 1 implies !is_ws(s.skip(1)[k]) by {
            assert(s.skip(1)[k] == s[k + 1]);
        }
        assert(nlen - 1 < s.skip(1).len() ==> s.skip(1)[nlen - 1] == s[nlen]);
        lemma_token_run(s.skip(1), nlen - 1);
        let rest = token_list(s.skip(1));
        assert(rest == seq![s.skip(1).take(nlen - 1)] + token_list(s.skip(1).skip(nlen - 1)));
        assert(s.skip(1).skip(nlen - 1) =~= s.skip(nlen));
        assert(rest.skip(1) =~= token_list(s.skip(nlen)));
        assert(seq![s[0]] + rest[0] =~= s.take(nlen));
    }
}

/// Splits one line into its whitespace-separated tokens.
pub fn tokenize(line: &[u8]) -> (toks: Vec<Vec<u8>>)
    ensures
        byte_views(toks@) == token_list(line@),
{
    let n: usize = line.len();
    let mut toks: Vec<Vec<u8>> = Vec::new();
    let mut pos: usize = 0;
    proof {
        assert(byte_views(toks@) =~= Seq::<Seq<u8>>::empty());
        assert(line@.skip(0) =~= line@);
        assert(Seq::<Seq<u8>>::empty() + token_list(line@) =~= token_list(line@));
    }
    while pos < n
        invariant
            pos <= n,
            n == line@.len(),
            token_list(line@) == byte_views(toks@) + token_list(line@.skip(pos as int)),
        decreases n - pos,
    {
        let b: u8 = line[pos];
        if b == 32 || (9 <= b && b <= 13) {
            proof {
                let rest = line@.skip(pos as int);
                assert(is_ws(rest[0]));
                assert(rest.skip(1) =~= line@.skip(pos as int + 1));
            }
            pos = pos + 1;
        } else {
            let mut j: usize = pos + 1;
            while j < n && !(line[j] == 32 || (9 <= line[j] && line[j] <= 13))
                invariant
                    pos < j <= n,
                    n == line@.len(),
                    forall|k: int| pos <= k < j ==> !is_ws(line@[k]),
                decreases n - j,
            {
                j = j + 1;
            }
            let mut tok: Vec<u8> = Vec::new();
            let mut k: usize = pos;
            while k < j
                invariant
                    pos <= k <= j <= n,
                    n == line@.len(),
                    tok@ == line@.subrange(pos as int, k as int),
                decreases j - k,
            {
                tok.push(line[k]);
                proof {
                    assert(tok@ =~= line@.subrange(pos as int, k as int + 1));
                }
                k = k + 1;
            }
            let ghost rest: Seq<u8> = line@.skip(pos as int);
            let ghost old_toks: Seq<Vec<u8>> = toks@;
            proof {
                assert forall|q: int| 0 <= q < j - pos implies !is_ws(rest[q]) by {
                    assert(rest[q] == line@[pos + q]);
                }
                if j < n {
                    assert(rest[j - pos] == line@[j as int]);
                }
                lemma_token_run(rest, j - pos);
                assert(rest.take(j - pos) =~= line@.subrange(pos as int, j as int));
                assert(rest.skip(j - pos) =~= line@.skip(j as int));
            }
            toks.push(tok);
            proof {
                lemma_byte_views_push(old_toks, toks@.last());
                assert(byte_views(toks@) + token_list(line@.skip(j as int)) =~= byte_views(
                    old_toks,
                ) + seq![tok@] + token_list(line@.skip(j as int)));
                assert(byte_views(old_toks) + seq![tok@] + token_list(line@.skip(j as int))
                    =~= byte_views(old_toks) + (seq![tok@] + token_list(line@.skip(j as int))));
            }
            pos = j;
        }
    }
    proof {
        assert(line@.skip(pos as int) =~= Seq::<u8>::empty());
        assert(byte_views(toks@) + token_list(line@.skip(pos as int)) =~= byte_views(toks@));
    }
    toks
}

} // verus!
