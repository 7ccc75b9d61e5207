//! Decomposition of a stream's content into lines: split at each line feed,
//! the terminator dropped, a carriage return before the line feed dropped
//! too; a final unterminated segment is a line of its own.

use vstd::prelude::*;

verus! {

/// A terminated segment with a trailing carriage return loses it; an
/// unterminated one keeps every byte.
pub open spec fn strip_cr(s: Seq<u8>) -> Seq<u8> {
    if s.len() > 0 && s[s.len() - 1] == 13 {
        s.drop_last()
    } else {
        s
    }
}

/// The lines of `c` when the bytes of `cur` have already been read from the
/// current line and no line feed among them.
pub open spec fn split_rec(c: Seq<u8>, cur: Seq<u8>) -> Seq<Seq<u8>>
    decreases c.len(),
{
    if c.len() == 0 {
        if cur.len() == 0 {
            Seq::<Seq<u8>>::empty()
        } else {
            seq![cur]
        }
    } else if c[0] == 10 {
        seq![strip_cr(cur)] + split_rec(c.drop_first(), Seq::<u8>::empty())
    } else {
        split_rec(c.drop_first(), cur.push(c[0]))
    }
}

/// The lines of the content, in stream order; empty content has no lines.
pub open spec fn split_lines(c: Seq<u8>) -> Seq<Seq<u8>> {
    split_rec(c, Seq::<u8>::empty())
}

/// The contents of a sequence of byte vectors, as mathematical sequences.
pub open spec fn views(v: Seq<Vec<u8>>) -> Seq<Seq<u8>> {
    v.map_values(|l: Vec<u8>| l@)
}

/// Split the content into its lines, terminators stripped.
pub fn split_lines_exec(content: &Vec<u8>) -> (lines: Vec<Vec<u8>>)
    ensures
        views(lines@) == split_lines(content@),
{
    let mut lines: Vec<Vec<u8>> = Vec::new();
    let mut cur: Vec<u8> = Vec::new();
    let mut i: usize = 0;
    proof {
        assert(content@.skip(0) =~= content@);
        assert(views(lines@) + split_rec(content@, cur@) =~= split_rec(content@, cur@));
    }
    while i < content.len()
        invariant
            i <= content@.len(),
            split_lines(content@) == views(lines@) + split_rec(content@.skip(i as int), cur@),
        decreases content@.len() - i,
    {
        let ghost rest = content@.skip(i as int);
        let ghost prev_lines = lines@;
        let ghost prev_cur = cur@;
        proof {
            assert(rest.len() == content@.len() - i);
            assert(rest[0] == content@[i as int]);
            assert(rest.drop_first() =~= content@.skip(i + 1));
        }
        let b = content[i];
        if b == 10 {
            let mut line = cur;
            cur = Vec::new();
            if line.len() > 0 && line[line.len() - 1] == 13 {
                line.pop();
            }
            proof {
                assert(line@ =~= strip_cr(prev_cur));
            }
            lines.push(line);
            proof {
                assert(views(lines@) =~= views(prev_lines).push(strip_cr(prev_cur)));
                assert(split_rec(rest, prev_cur) == seq![strip_cr(prev_cur)] + split_rec(
                    content@.skip(i + 1),
                    Seq::<u8>::empty(),
                ));
                assert(cur@ =~= Seq::<u8>::empty());
                assert(views(prev_lines) + split_rec(rest, prev_cur) =~= views(lines@)
                    + split_rec(content@.skip(i + 1), cur@));
            }
        } else {
            cur.push(b);
            proof {
                assert(cur@ == prev_cur.push(b));
                assert(split_rec(rest, prev_cur) == split_rec(content@.skip(i + 1), cur@));
            }
        }
        i = i + 1;
    }
    proof {
        assert(content@.skip(i as int) =~= Seq::<u8>::empty());
    }
    if cur.len() > 0 {
        let ghost prev_lines = lines@;
        let ghost last = cur@;
        lines.push(cur);
        proof {
            assert(split_rec(Seq::<u8>::empty(), last) == seq![last]);
            assert(views(lines@) =~= views(prev_lines).push(last));
            assert(views(prev_lines) + seq![last] =~= views(lines@));
        }
    } else {
        proof {
            assert(cur@ =~= Seq::<u8>::empty());
            assert(split_rec(Seq::<u8>::empty(), cur@) == Seq::<Seq<u8>>::empty());
            assert(views(lines@) + Seq::<Seq<u8>>::empty() =~= views(lines@));
        }
    }
    lines
}

} // verus!
