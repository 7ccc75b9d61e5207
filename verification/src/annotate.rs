//! The line annotator: turns one decoded line and its ordinal position into
//! the bytes written for it, according to the output options.

use vstd::prelude::*;
use crate::cli::NumberingMode;
use crate::options::OutputOptions;

verus! {

/// The decimal digits of `n`, most significant first, as ASCII bytes.
pub open spec fn dec_digits(n: nat) -> Seq<u8>
    decreases n,
{
    if n < 10 {
        seq![(48 + n) as u8]
    } else {
        dec_digits(n / 10) + seq![(48 + n % 10) as u8]
    }
}

/// The ordinal prefix of a numbered line: the decimal number right-aligned in
/// a space-padded field of width six, followed by one tab.
pub open spec fn number_prefix(n: nat) -> Seq<u8> {
    let d = dec_digits(n);
    if d.len() < 6 {
        Seq::new((6 - d.len()) as nat, |i: int| 32u8) + d + seq![9u8]
    } else {
        d + seq![9u8]
    }
}

/// Whether a line with this content is numbered under the given mode.
pub open spec fn line_numbered(mode: NumberingMode, line: Seq<u8>) -> bool {
    match mode {
        NumberingMode::Never => false,
        NumberingMode::NonEmpty => line.len() > 0,
        NumberingMode::All => true,
    }
}

/// The bytes written for one line of ordinal `n`: the number prefix when the
/// mode asks for one, then the line's content, where an end marker replaces an
/// empty line by five spaces and a dollar sign and follows a non-empty line as
/// a dollar sign, each with a terminator; without the marker the content is
/// written alone, with no terminator restored.
pub open spec fn annotate_line(line: Seq<u8>, n: nat, opts: OutputOptions) -> Seq<u8> {
    let prefix = if line_numbered(opts.numbering_mode, line) {
        number_prefix(n)
    } else {
        Seq::<u8>::empty()
    };
    let body = if opts.show_ends && line.len() == 0 {
        seq![32u8, 32u8, 32u8, 32u8, 32u8, 36u8, 10u8]
    } else if opts.show_ends {
        line + seq![36u8, 10u8]
    } else {
        line
    };
    prefix + body
}

fn dec_digits_exec(n: usize) -> (d: Vec<u8>)
    ensures
        d@ == dec_digits(n as nat),
    decreases n,
{
    if n < 10 {
        let mut v: Vec<u8> = Vec::new();
        v.push(48 + n as u8);
        proof {
            assert(v@ =~= dec_digits(n as nat));
        }
        v
    } else {
        let mut v = dec_digits_exec(n / 10);
        v.push(48 + (n % 10) as u8);
        proof {
            assert(v@ =~= dec_digits(n as nat));
        }
        v
    }
}

/// Append every byte of `src` to `out`, in order.
pub fn push_all(out: &mut Vec<u8>, src: &Vec<u8>)
    ensures
        final(out)@ == old(out)@ + src@,
{
    let mut i: usize = 0;
    while i < src.len()
        invariant
            i <= src@.len(),
            out@ == old(out)@ + src@.take(i as int),
        decreases src@.len() - i,
    {
        proof {
            assert(src@.take(i + 1) =~= src@.take(i as int).push(src@[i as int]));
        }
        out.push(src[i]);
        i = i + 1;
    }
    proof {
        assert(src@.take(src@.len() as int) =~= src@);
    }
}

/// The ordinal prefix written before a numbered line: the zero-based line
/// number as a right-aligned width-six decimal field, then a tab.
pub fn print_line_number(n: usize) -> (out: Vec<u8>)
    ensures
        out@ == number_prefix(n as nat),
{
    let mut d = dec_digits_exec(n);
    let dlen = d.len();
    let npad: usize = if dlen < 6 {
        6 - dlen
    } else {
        0
    };
    let mut out: Vec<u8> = Vec::new();
    let mut i: usize = 0;
    while i < npad
        invariant
            i <= npad,
            out@ == Seq::new(i as nat, |j: int| 32u8),
        decreases npad - i,
    {
        out.push(32);
        proof {
            assert(out@ =~= Seq::new((i + 1) as nat, |j: int| 32u8));
        }
        i = i + 1;
    }
    out.append(&mut d);
    out.push(9);
    proof {
        if dlen < 6 {
            assert(out@ =~= Seq::new((6 - dec_digits(n as nat).len()) as nat, |j: int| 32u8)
                + dec_digits(n as nat) + seq![9u8]);
        } else {
            assert(out@ =~= dec_digits(n as nat) + seq![9u8]);
        }
    }
    out
}

/// The annotated form of one decoded line: an optional number prefix, the
/// content, and the end marker where requested.
pub fn print_line(line: &Vec<u8>, line_number: usize, output_options: &OutputOptions) -> (out: Vec<u8>)
    ensures
        out@ == annotate_line(line@, line_number as nat, *output_options),
{
    let mut out: Vec<u8> = Vec::new();
    let numbered = match output_options.numbering_mode {
        NumberingMode::Never => false,
        NumberingMode::NonEmpty => line.len() > 0,
        NumberingMode::All => true,
    };
    if numbered {
        let mut p = print_line_number(line_number);
        out.append(&mut p);
    }
    if output_options.show_ends && line.len() == 0 {
        out.push(32);
        out.push(32);
        out.push(32);
        out.push(32);
        out.push(32);
        out.push(36);
        out.push(10);
    } else if output_options.show_ends {
        push_all(&mut out, line);
        out.push(36);
        out.push(10);
    } else {
        push_all(&mut out, line);
    }
    proof {
        assert(out@ =~= annotate_line(line@, line_number as nat, *output_options));
    }
    out
}

} // verus!
