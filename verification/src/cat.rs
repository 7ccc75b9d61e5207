//! The output engine: a byte-for-byte copy when no annotation is requested,
//! and the line-oriented path otherwise, over one content or a sequence of
//! them in order.

use vstd::prelude::*;
use crate::annotate::{annotate_line, print_line};
use crate::lines::{split_lines, split_lines_exec, views};
use crate::options::OutputOptions;

verus! {

/// Valid UTF-8, as the standard decoder decides it.
pub uninterp spec fn utf8_ok(bytes: Seq<u8>) -> bool;

/// Relies on core::str::from_utf8: it returns Ok exactly when the bytes are
/// well-formed UTF-8, a property of the bytes alone.
#[verifier::external_body]
fn is_valid_utf8(bytes: &Vec<u8>) -> (r: bool)
    ensures
        r == utf8_ok(bytes@),
{
    core::str::from_utf8(bytes.as_slice()).is_ok()
}

/// A line that could not be decoded, with the bytes already produced for the
/// lines before it and its zero-based position.
#[derive(Debug)]
pub struct CatError {
    pub written: Vec<u8>,
    pub line_number: usize,
}

/// A path whose processing failed on a line that could not be decoded: the
/// bytes produced up to that line, the path's position and the line's.
#[derive(Debug)]
pub struct ConcatError {
    pub written: Vec<u8>,
    pub path_index: usize,
    pub line_number: usize,
}

/// The bytes written for the given lines in order, ordinals counted from `k`.
pub open spec fn annotate_from(lines: Seq<Seq<u8>>, k: nat, opts: OutputOptions) -> Seq<u8>
    decreases lines.len(),
{
    if lines.len() == 0 {
        Seq::<u8>::empty()
    } else {
        annotate_line(lines[0], k, opts) + annotate_from(lines.drop_first(), k + 1, opts)
    }
}

/// The whole line-oriented output: every line in stream order, ordinals
/// starting at zero.
pub open spec fn annotated_output(lines: Seq<Seq<u8>>, opts: OutputOptions) -> Seq<u8> {
    annotate_from(lines, 0, opts)
}

/// Every line of the content decodes.
pub open spec fn all_lines_ok(lines: Seq<Seq<u8>>) -> bool {
    forall|j: int| 0 <= j < lines.len() ==> utf8_ok(lines[j])
}

/// Processing one content succeeds: always on the simple strategy, and
/// exactly when every line decodes on the line-oriented one.
pub open spec fn cat_succeeds(c: Seq<u8>, opts: OutputOptions) -> bool {
    opts.spec_is_simple() || all_lines_ok(split_lines(c))
}

/// The bytes a successful run writes for one content: the content itself on
/// the simple strategy, the annotated lines otherwise.
pub open spec fn cat_output(c: Seq<u8>, opts: OutputOptions) -> Seq<u8> {
    if opts.spec_is_simple() {
        c
    } else {
        annotated_output(split_lines(c), opts)
    }
}

proof fn lemma_annotate_from_push(lines: Seq<Seq<u8>>, x: Seq<u8>, k: nat, opts: OutputOptions)
    ensures
        annotate_from(lines.push(x), k, opts) == annotate_from(lines, k, opts) + annotate_line(
            x,
            k + lines.len(),
            opts,
        ),
    decreases lines.len(),
{
    if lines.len() == 0 {
        assert(lines.push(x)[0] == x);
        assert(lines.push(x).drop_first() =~= Seq::<Seq<u8>>::empty());
        assert(annotate_from(Seq::<Seq<u8>>::empty(), k + 1, opts) == Seq::<u8>::empty());
        assert(annotate_from(lines.push(x), k, opts) == annotate_line(x, k, opts)
            + Seq::<u8>::empty());
        assert(annotate_line(x, k, opts) + Seq::<u8>::empty() =~= annotate_line(x, k, opts));
        assert(annotate_from(lines, k, opts) + annotate_line(x, k, opts) =~= annotate_line(
            x,
            k,
            opts,
        ));
    } else {
        assert(lines.push(x)[0] == lines[0]);
        assert(lines.push(x).drop_first() =~= lines.drop_first().push(x));
        lemma_annotate_from_push(lines.drop_first(), x, k + 1, opts);
        assert(annotate_from(lines.push(x), k, opts) == annotate_line(lines[0], k, opts)
            + (annotate_from(lines.drop_first(), k + 1, opts) + annotate_line(
            x,
            k + lines.len(),
            opts,
        )));
        assert(annotate_line(lines[0], k, opts) + (annotate_from(lines.drop_first(), k + 1, opts)
            + annotate_line(x, k + lines.len(), opts)) =~= (annotate_line(lines[0], k, opts)
            + annotate_from(lines.drop_first(), k + 1, opts)) + annotate_line(
            x,
            k + lines.len(),
            opts,
        ));
    }
}

/// The simple strategy on one content: an exact byte-for-byte copy.
pub fn print_simple(content: &Vec<u8>) -> (out: Vec<u8>)
    ensures
        out@ == content@,
{
    let mut out: Vec<u8> = Vec::new();
    crate::annotate::push_all(&mut out, content);
    proof {
        assert(Seq::<u8>::empty() + content@ =~= content@);
    }
    out
}

/// The line-oriented strategy on one content: each line annotated in order,
/// ordinals from zero; a line that does not decode stops the run there, with
/// the bytes already produced and the line's position reported.
pub fn print_with_options(content: &Vec<u8>, output_options: &OutputOptions) -> (r: Result<
    Vec<u8>,
    CatError,
>)
    ensures
        ({
            let lines = split_lines(content@);
            match r {
                Ok(out) => all_lines_ok(lines) && out@ == annotated_output(lines, *output_options),
                Err(e) => {
                    &&& e.line_number < lines.len()
                    &&& !utf8_ok(lines[e.line_number as int])
                    &&& forall|j: int| 0 <= j < e.line_number ==> utf8_ok(lines[j])
                    &&& e.written@ == annotate_from(
                        lines.take(e.line_number as int),
                        0,
                        *output_options,
                    )
                },
            }
        }),
{
    let lines = split_lines_exec(content);
    let ghost slines = split_lines(content@);
    let mut out: Vec<u8> = Vec::new();
    let mut i: usize = 0;
    proof {
        assert(slines.take(0) =~= Seq::<Seq<u8>>::empty());
    }
    while i < lines.len()
        invariant
            i <= lines@.len(),
            views(lines@) == slines,
            slines == split_lines(content@),
            out@ == annotate_from(slines.take(i as int), 0, *output_options),
            forall|j: int| 0 <= j < i ==> utf8_ok(slines[j]),
        decreases lines@.len() - i,
    {
        proof {
            assert(lines@[i as int]@ == slines[i as int]);
        }
        let line = &lines[i];
        if !is_valid_utf8(line) {
            return Err(CatError { written: out, line_number: i });
        }
        let mut piece = print_line(line, i, output_options);
        proof {
            assert(slines.take(i + 1) =~= slines.take(i as int).push(slines[i as int]));
            lemma_annotate_from_push(slines.take(i as int), slines[i as int], 0, *output_options);
            assert(slines.take(i as int).len() == i);
        }
        out.append(&mut piece);
        i = i + 1;
    }
    proof {
        assert(slines.take(slines.len() as int) =~= slines);
    }
    Ok(out)
}

/// One content under the configuration: the strategy is chosen once from the
/// options, the byte copy when no annotation is requested and the
/// line-oriented path otherwise.
pub fn cat_content(content: &Vec<u8>, output_options: &OutputOptions) -> (r: Result<
    Vec<u8>,
    CatError,
>)
    ensures
        r is Ok <==> cat_succeeds(content@, *output_options),
        ({
            let lines = split_lines(content@);
            match r {
                Ok(out) => out@ == cat_output(content@, *output_options),
                Err(e) => {
                    &&& !output_options.spec_is_simple()
                    &&& e.line_number < lines.len()
                    &&& !utf8_ok(lines[e.line_number as int])
                    &&& forall|j: int| 0 <= j < e.line_number ==> utf8_ok(lines[j])
                    &&& e.written@ == annotate_from(
                        lines.take(e.line_number as int),
                        0,
                        *output_options,
                    )
                },
            }
        }),
{
    if output_options.is_simple() {
        Ok(print_simple(content))
    } else {
        print_with_options(content, output_options)
    }
}

/// Processing a whole sequence of contents succeeds: every one of them does.
pub open spec fn concat_succeeds(cs: Seq<Seq<u8>>, opts: OutputOptions) -> bool {
    forall|i: int| 0 <= i < cs.len() ==> cat_succeeds(cs[i], opts)
}

/// The bytes a successful run writes for a sequence of contents: each one
/// processed in full before the next, in order, each numbered from zero.
pub open spec fn concat_output(cs: Seq<Seq<u8>>, opts: OutputOptions) -> Seq<u8>
    decreases cs.len(),
{
    if cs.len() == 0 {
        Seq::<u8>::empty()
    } else {
        cat_output(cs[0], opts) + concat_output(cs.drop_first(), opts)
    }
}

proof fn lemma_concat_output_push(cs: Seq<Seq<u8>>, x: Seq<u8>, opts: OutputOptions)
    ensures
        concat_output(cs.push(x), opts) == concat_output(cs, opts) + cat_output(x, opts),
    decreases cs.len(),
{
    if cs.len() == 0 {
        assert(cs.push(x)[0] == x);
        assert(cs.push(x).drop_first() =~= Seq::<Seq<u8>>::empty());
        assert(concat_output(Seq::<Seq<u8>>::empty(), opts) == Seq::<u8>::empty());
        assert(cat_output(x, opts) + Seq::<u8>::empty() =~= cat_output(x, opts));
        assert(concat_output(cs, opts) + cat_output(x, opts) =~= cat_output(x, opts));
    } else {
        assert(cs.push(x)[0] == cs[0]);
        assert(cs.push(x).drop_first() =~= cs.drop_first().push(x));
        lemma_concat_output_push(cs.drop_first(), x, opts);
        assert(cat_output(cs[0], opts) + (concat_output(cs.drop_first(), opts) + cat_output(
            x,
            opts,
        )) =~= (cat_output(cs[0], opts) + concat_output(cs.drop_first(), opts)) + cat_output(
            x,
            opts,
        ));
    }
}

/// Every content in order onto one output: each path's bytes in full before
/// the next path's, the ordinals restarting at zero for each path. A line
/// that does not decode stops the whole run there, with the bytes already
/// produced and the positions of the path and the line reported.
pub fn concat_paths(contents: &Vec<Vec<u8>>, output_options: &OutputOptions) -> (r: Result<
    Vec<u8>,
    ConcatError,
>)
    ensures
        r is Ok <==> concat_succeeds(views(contents@), *output_options),
        ({
            let cs = views(contents@);
            match r {
                Ok(out) => out@ == concat_output(cs, *output_options),
                Err(e) => {
                    let lines = split_lines(cs[e.path_index as int]);
                    &&& e.path_index < cs.len()
                    &&& !cat_succeeds(cs[e.path_index as int], *output_options)
                    &&& forall|j: int|
                        0 <= j < e.path_index ==> cat_succeeds(cs[j], *output_options)
                    &&& e.line_number < lines.len()
                    &&& !utf8_ok(lines[e.line_number as int])
                    &&& forall|j: int| 0 <= j < e.line_number ==> utf8_ok(lines[j])
                    &&& e.written@ == concat_output(cs.take(e.path_index as int), *output_options)
                        + annotate_from(lines.take(e.line_number as int), 0, *output_options)
                },
            }
        }),
{
    let ghost cs = views(contents@);
    let mut out: Vec<u8> = Vec::new();
    let mut i: usize = 0;
    proof {
        assert(cs.take(0) =~= Seq::<Seq<u8>>::empty());
    }
    while i < contents.len()
        invariant
            i <= contents@.len(),
            cs == views(contents@),
            out@ == concat_output(cs.take(i as int), *output_options),
            forall|j: int| 0 <= j < i ==> cat_succeeds(cs[j], *output_options),
        decreases contents@.len() - i,
    {
        proof {
            assert(contents@[i as int]@ == cs[i as int]);
        }
        match cat_content(&contents[i], output_options) {
            Ok(mut piece) => {
                proof {
                    assert(cs.take(i + 1) =~= cs.take(i as int).push(cs[i as int]));
                    lemma_concat_output_push(cs.take(i as int), cs[i as int], *output_options);
                }
                out.append(&mut piece);
                i = i + 1;
            },
            Err(e) => {
                let mut written = out;
                let tail = e.written;
                crate::annotate::push_all(&mut written, &tail);
                return Err(
                    ConcatError { written, path_index: i, line_number: e.line_number },
                );
            },
        }
    }
    proof {
        assert(cs.take(cs.len() as int) =~= cs);
    }
    Ok(out)
}

/// Round trip: under the simple configuration a run always succeeds and its
/// output is the content itself, byte for byte, whatever the bytes hold.
pub proof fn lemma_simple_round_trip(c: Seq<u8>, opts: OutputOptions)
    requires
        opts.spec_is_simple(),
    ensures
        cat_succeeds(c, opts),
        cat_output(c, opts) == c,
{
}

/// Idempotence: the simple strategy is a function of the content alone, so
/// two runs over the same unchanged content write identical bytes.
pub proof fn lemma_simple_idempotent(c1: Seq<u8>, c2: Seq<u8>, opts: OutputOptions)
    requires
        opts.spec_is_simple(),
        c1 == c2,
    ensures
        cat_output(c1, opts) == cat_output(c2, opts),
{
}

/// Two paths: the run's output is the first path's output in full, then the
/// second's, each with its ordinals counted from zero.
pub proof fn lemma_concat_pair(c1: Seq<u8>, c2: Seq<u8>, opts: OutputOptions)
    ensures
        concat_output(seq![c1, c2], opts) == cat_output(c1, opts) + cat_output(c2, opts),
{
    assert(seq![c1, c2].drop_first() =~= seq![c2]);
    assert(seq![c2].drop_first() =~= Seq::<Seq<u8>>::empty());
    assert(concat_output(Seq::<Seq<u8>>::empty(), opts) == Seq::<u8>::empty());
    assert(cat_output(c2, opts) + Seq::<u8>::empty() =~= cat_output(c2, opts));
    assert(concat_output(seq![c2], opts) == cat_output(c2, opts));
}

} // verus!
