//! Cutting a text into lines short enough for the handwriting model.
//!
//! Everything is stated over the UTF-8 bytes of the text, since the limit and
//! the cut positions are byte positions.

use vstd::prelude::*;
use vstd::string::StringSliceAdditionalSpecFns;
use vstd::seq_lib::lemma_flatten_concat;
use vstd::utf8::*;

verus! {

broadcast use vstd::utf8::encode_utf8_valid_utf8;

/// A line longer than this many bytes is cut into pieces.
pub const LINE_LIMIT: usize = 70;

/// The bytes of each string of a sequence.
pub open spec fn byte_texts(v: Seq<String>) -> Seq<Seq<u8>> {
    v.map_values(|s: String| encode_utf8(s@))
}

/// Position of the first `\n` byte, or the length when there is none.
pub open spec fn first_newline(b: Seq<u8>) -> nat
    decreases b.len(),
{
    if b.len() == 0 {
        0
    } else if b[0] == 10u8 {
        0
    } else {
        1 + first_newline(b.drop_first())
    }
}

/// A line that was ended by `\n` loses one `\r` just before it.
pub open spec fn without_cr(line: Seq<u8>) -> Seq<u8> {
    if line.len() > 0 && line.last() == 13u8 {
        line.drop_last()
    } else {
        line
    }
}

/// The lines of a text: separated by `\n` or `\r\n`; a final line ending
/// adds no empty line, and an empty text has no line.
pub open spec fn text_lines(b: Seq<u8>) -> Seq<Seq<u8>>
    decreases b.len(),
{
    if b.len() == 0 {
        seq![]
    } else {
        let e = first_newline(b) as int;
        if e < b.len() {
            seq![without_cr(b.subrange(0, e))] + text_lines(b.subrange(e + 1, b.len() as int))
        } else {
            seq![b]
        }
    }
}

/// Position of the last space among the first `k` bytes, or -1 when there is none.
pub open spec fn last_space_before(b: Seq<u8>, k: int) -> int
    decreases k,
{
    if k <= 0 {
        -1
    } else if b[k - 1] == 32u8 {
        k - 1
    } else {
        last_space_before(b, k - 1)
    }
}

/// Where a piece of at least `LINE_LIMIT` bytes is cut: just after the last space
/// among its first `LINE_LIMIT` bytes, unless there is none or it is the piece's
/// last byte; then after `LINE_LIMIT` bytes.
pub open spec fn cut_point(b: Seq<u8>) -> int {
    let p = last_space_before(b, LINE_LIMIT as int);
    if 0 <= p && p < b.len() - 1 {
        p + 1
    } else {
        LINE_LIMIT as int
    }
}

/// The pieces of a line cut at `cut_point` until fewer than `LINE_LIMIT` bytes are left;
/// what is left (possibly nothing) is the last piece.
pub open spec fn wrap_line(b: Seq<u8>) -> Seq<Seq<u8>>
    decreases b.len(),
{
    if b.len() < LINE_LIMIT {
        seq![b]
    } else {
        let c = cut_point(b);
        seq![b.subrange(0, c)] + wrap_line(b.subrange(c, b.len() as int))
    }
}

/// A line is kept whole unless it is longer than `LINE_LIMIT` bytes.
pub open spec fn fit_line(l: Seq<u8>) -> Seq<Seq<u8>> {
    if l.len() > LINE_LIMIT {
        wrap_line(l)
    } else {
        seq![l]
    }
}

/// The pieces of all lines, in order.
pub open spec fn fit_lines(ls: Seq<Seq<u8>>) -> Seq<Seq<u8>>
    decreases ls.len(),
{
    if ls.len() == 0 {
        seq![]
    } else {
        fit_lines(ls.drop_last()) + fit_line(ls.last())
    }
}

/// The pieces that a text is turned into.
pub open spec fn accommodated(text: Seq<u8>) -> Seq<Seq<u8>> {
    fit_lines(text_lines(text))
}

/// Cutting never splits a character: every piece of at least `LINE_LIMIT` bytes
/// has a character boundary at `LINE_LIMIT`.
pub open spec fn wrap_safe(b: Seq<u8>) -> bool
    decreases b.len(),
{
    if b.len() < LINE_LIMIT {
        true
    } else {
        is_char_boundary(b, LINE_LIMIT as int) && wrap_safe(
            b.subrange(cut_point(b), b.len() as int),
        )
    }
}

/// A line can be fitted without splitting a character.
pub open spec fn fits_safely(l: Seq<u8>) -> bool {
    l.len() > LINE_LIMIT ==> wrap_safe(l)
}

/// Every line of the text can be fitted without splitting a character.
pub open spec fn splittable(text: Seq<u8>) -> bool {
    forall|i: int| 0 <= i < text_lines(text).len() ==> fits_safely(#[trigger] text_lines(text)[i])
}

/// An ASCII byte of valid UTF-8 starts a character, and so does the byte after it.
pub proof fn lemma_ascii_boundaries(b: Seq<u8>, i: int)
    requires
        valid_utf8(b),
        0 <= i < b.len(),
        b[i] < 128u8,
    ensures
        is_char_boundary(b, i),
        is_char_boundary(b, i + 1),
{
    is_char_boundary_iff_not_is_continuation_byte(b, i);
    is_char_boundary_start_end_of_seq(b);
    if i + 1 < b.len() {
        valid_utf8_split(b, i);
        let s = b.subrange(i, b.len() as int);
        assert(s[0] == b[i]);
        reveal_with_fuel(valid_utf8, 2);
        assert(length_of_first_scalar(s) == 1);
        let t = pop_first_scalar(s);
        assert(t.len() > 0);
        assert(t[0] == b[i + 1]);
        assert(valid_first_scalar(t));
        is_char_boundary_iff_not_is_continuation_byte(b, i + 1);
    }
}


/// The last space before `k` is a space, and lies before `k`.
proof fn lemma_last_space_range(b: Seq<u8>, k: int)
    ensures
        -1 <= last_space_before(b, k) < if k > 0 { k } else { 0 },
        last_space_before(b, k) >= 0 ==> b[last_space_before(b, k)] == 32u8,
    decreases k,
{
    if k > 0 {
        lemma_last_space_range(b, k - 1);
    }
}

/// A piece of at least `LINE_LIMIT` bytes is cut after one byte at least and
/// after `LINE_LIMIT` bytes at most.
proof fn lemma_cut_point_range(b: Seq<u8>)
    requires
        b.len() >= LINE_LIMIT,
    ensures
        1 <= cut_point(b) <= LINE_LIMIT,
{
    lemma_last_space_range(b, LINE_LIMIT as int);
}

/// No piece of a wrapped line is longer than `LINE_LIMIT` bytes.
proof fn lemma_wrap_pieces_short(b: Seq<u8>)
    ensures
        forall|i: int|
            0 <= i < wrap_line(b).len() ==> #[trigger] wrap_line(b)[i].len() <= LINE_LIMIT,
    decreases b.len(),
{
    if b.len() >= LINE_LIMIT {
        let c = cut_point(b);
        lemma_cut_point_range(b);
        let rest = b.subrange(c, b.len() as int);
        lemma_wrap_pieces_short(rest);
        assert forall|i: int| 0 <= i < wrap_line(b).len() implies #[trigger] wrap_line(
            b,
        )[i].len() <= LINE_LIMIT by {
            if i > 0 {
                assert(wrap_line(b)[i] == wrap_line(rest)[i - 1]);
            }
        }
    }
}

/// Joining the pieces of a wrapped line gives the line back.
proof fn lemma_wrap_line_flatten(b: Seq<u8>)
    ensures
        wrap_line(b).flatten() == b,
    decreases b.len(),
{
    if b.len() < LINE_LIMIT {
        seq![b].lemma_flatten_one_element();
    } else {
        let c = cut_point(b);
        lemma_cut_point_range(b);
        let rest = b.subrange(c, b.len() as int);
        lemma_wrap_line_flatten(rest);
        let w = wrap_line(b);
        assert(w.drop_first() =~= wrap_line(rest));
        assert(b.subrange(0, c) + rest =~= b);
    }
}

/// No piece of any line is longer than `LINE_LIMIT` bytes.
proof fn lemma_fit_lines_short(ls: Seq<Seq<u8>>)
    ensures
        forall|i: int|
            0 <= i < fit_lines(ls).len() ==> #[trigger] fit_lines(ls)[i].len() <= LINE_LIMIT,
    decreases ls.len(),
{
    if ls.len() > 0 {
        let front = fit_lines(ls.drop_last());
        let tail = fit_line(ls.last());
        lemma_fit_lines_short(ls.drop_last());
        lemma_wrap_pieces_short(ls.last());
        assert forall|i: int| 0 <= i < fit_lines(ls).len() implies #[trigger] fit_lines(
            ls,
        )[i].len() <= LINE_LIMIT by {
            if i >= front.len() {
                assert(fit_lines(ls)[i] == tail[i - front.len()]);
            } else {
                assert(fit_lines(ls)[i] == front[i]);
            }
        }
    }
}

/// Joining the pieces of all lines gives the lines joined.
proof fn lemma_fit_lines_flatten(ls: Seq<Seq<u8>>)
    ensures
        fit_lines(ls).flatten() == ls.flatten(),
    decreases ls.len(),
{
    if ls.len() > 0 {
        let init = ls.drop_last();
        lemma_fit_lines_flatten(init);
        lemma_flatten_concat(fit_lines(init), fit_line(ls.last()));
        if ls.last().len() > LINE_LIMIT {
            lemma_wrap_line_flatten(ls.last());
        } else {
            seq![ls.last()].lemma_flatten_one_element();
        }
        assert(init.push(ls.last()) =~= ls);
        init.lemma_flatten_push(ls.last());
    }
}

/// Every piece that a text is cut into has at most `LINE_LIMIT` bytes.
pub proof fn lemma_pieces_within_limit(text: Seq<u8>)
    ensures
        forall|i: int|
            0 <= i < accommodated(text).len() ==> #[trigger] accommodated(text)[i].len()
                <= LINE_LIMIT,
{
    lemma_fit_lines_short(text_lines(text));
}

/// Cutting loses and adds nothing: the pieces joined are the lines joined.
pub proof fn lemma_pieces_keep_text(text: Seq<u8>)
    ensures
        accommodated(text).flatten() == text_lines(text).flatten(),
{
    lemma_fit_lines_flatten(text_lines(text));
}

/// The bytes hold no `\n`.
pub open spec fn no_newline(b: Seq<u8>) -> bool {
    forall|i: int| 0 <= i < b.len() ==> #[trigger] b[i] != 10u8
}

/// No byte before `first_newline` is a `\n`.
proof fn lemma_first_newline_bounds(b: Seq<u8>)
    ensures
        first_newline(b) <= b.len(),
        first_newline(b) < b.len() ==> b[first_newline(b) as int] == 10u8,
        forall|j: int| 0 <= j < first_newline(b) ==> #[trigger] b[j] != 10u8,
    decreases b.len(),
{
    if b.len() > 0 && b[0] != 10u8 {
        let t = b.drop_first();
        lemma_first_newline_bounds(t);
        assert forall|j: int| 0 <= j < first_newline(b) implies #[trigger] b[j] != 10u8 by {
            if j > 0 {
                assert(b[j] == t[j - 1]);
            }
        }
        if first_newline(t) < t.len() {
            assert(t[first_newline(t) as int] == b[first_newline(b) as int]);
        }
    }
}

/// No line of a text holds a `\n`.
proof fn lemma_lines_no_newline(b: Seq<u8>)
    ensures
        forall|i: int| 0 <= i < text_lines(b).len() ==> no_newline(#[trigger] text_lines(b)[i]),
    decreases b.len(),
{
    if b.len() > 0 {
        lemma_first_newline_bounds(b);
        let e = first_newline(b) as int;
        if e < b.len() {
            let rest = b.subrange(e + 1, b.len() as int);
            lemma_lines_no_newline(rest);
            let first = without_cr(b.subrange(0, e));
            assert(no_newline(first)) by {
                assert forall|i: int| 0 <= i < first.len() implies #[trigger] first[i] != 10u8 by {
                    assert(first[i] == b[i]);
                }
            }
            assert forall|i: int| 0 <= i < text_lines(b).len() implies no_newline(
                #[trigger] text_lines(b)[i],
            ) by {
                if i > 0 {
                    assert(text_lines(b)[i] == text_lines(rest)[i - 1]);
                }
            }
        } else {
            assert(no_newline(text_lines(b)[0]));
        }
    }
}

/// No piece of a line without `\n` holds one.
proof fn lemma_wrap_no_newline(b: Seq<u8>)
    requires
        no_newline(b),
    ensures
        forall|i: int| 0 <= i < wrap_line(b).len() ==> no_newline(#[trigger] wrap_line(b)[i]),
    decreases b.len(),
{
    if b.len() >= LINE_LIMIT {
        let c = cut_point(b);
        lemma_cut_point_range(b);
        let head = b.subrange(0, c);
        let rest = b.subrange(c, b.len() as int);
        assert(no_newline(rest)) by {
            assert forall|i: int| 0 <= i < rest.len() implies #[trigger] rest[i] != 10u8 by {
                assert(rest[i] == b[i + c]);
            }
        }
        assert(no_newline(head)) by {
            assert forall|i: int| 0 <= i < head.len() implies #[trigger] head[i] != 10u8 by {
                assert(head[i] == b[i]);
            }
        }
        lemma_wrap_no_newline(rest);
        assert forall|i: int| 0 <= i < wrap_line(b).len() implies no_newline(
            #[trigger] wrap_line(b)[i],
        ) by {
            if i > 0 {
                assert(wrap_line(b)[i] == wrap_line(rest)[i - 1]);
            }
        }
    }
}

/// No piece of lines without `\n` holds one.
proof fn lemma_fit_lines_no_newline(ls: Seq<Seq<u8>>)
    requires
        forall|i: int| 0 <= i < ls.len() ==> no_newline(#[trigger] ls[i]),
    ensures
        forall|i: int| 0 <= i < fit_lines(ls).len() ==> no_newline(#[trigger] fit_lines(ls)[i]),
    decreases ls.len(),
{
    if ls.len() > 0 {
        let init = ls.drop_last();
        assert forall|i: int| 0 <= i < init.len() implies no_newline(#[trigger] init[i]) by {
            assert(init[i] == ls[i]);
        }
        lemma_fit_lines_no_newline(init);
        assert(no_newline(ls[ls.len() - 1]));
        lemma_wrap_no_newline(ls.last());
        let front = fit_lines(init);
        let tail = fit_line(ls.last());
        assert forall|i: int| 0 <= i < fit_lines(ls).len() implies no_newline(
            #[trigger] fit_lines(ls)[i],
        ) by {
            if i >= front.len() {
                assert(fit_lines(ls)[i] == tail[i - front.len()]);
            } else {
                assert(fit_lines(ls)[i] == front[i]);
            }
        }
    }
}

/// No piece that a text is cut into holds a line break.
pub proof fn lemma_pieces_have_no_line_break(text: Seq<u8>)
    ensures
        forall|i: int|
            0 <= i < accommodated(text).len() ==> no_newline(#[trigger] accommodated(text)[i]),
{
    lemma_lines_no_newline(text);
    lemma_fit_lines_no_newline(text_lines(text));
}

/// The pieces of two lists of lines are the pieces of each, one after the other.
proof fn lemma_fit_lines_concat(x: Seq<Seq<u8>>, y: Seq<Seq<u8>>)
    ensures
        fit_lines(x + y) == fit_lines(x) + fit_lines(y),
    decreases y.len(),
{
    if y.len() == 0 {
        assert(x + y =~= x);
        assert(fit_lines(x) + fit_lines(y) =~= fit_lines(x));
    } else {
        let init = y.drop_last();
        assert((x + y).drop_last() =~= x + init);
        assert((x + y).last() == y.last());
        lemma_fit_lines_concat(x, init);
        assert(fit_lines(x) + fit_lines(init) + fit_line(y.last()) =~= fit_lines(x) + (fit_lines(
            init,
        ) + fit_line(y.last())));
    }
}

/// Two texts joined by a line end have the lines of the first and then those of the
/// second, when the first is not empty and ends neither in a line end nor in `\r`.
proof fn lemma_text_lines_join(a: Seq<u8>, b: Seq<u8>)
    requires
        a.len() > 0,
        a.last() != 10u8,
        a.last() != 13u8,
    ensures
        text_lines(a + seq![10u8] + b) == text_lines(a) + text_lines(b),
    decreases a.len(),
{
    let w = a + seq![10u8] + b;
    lemma_first_newline_bounds(a);
    let e = first_newline(a) as int;
    assert forall|j: int| 0 <= j < e implies #[trigger] w[j] != 10u8 by {
        assert(w[j] == a[j]);
    }
    if e < a.len() {
        assert(w[e] == a[e]);
        lemma_first_newline(w, e);
        let rest = a.subrange(e + 1, a.len() as int);
        assert(e + 1 < a.len());
        assert(rest.last() == a.last());
        assert(w.subrange(0, e) =~= a.subrange(0, e));
        assert(w.subrange(e + 1, w.len() as int) =~= rest + seq![10u8] + b);
        lemma_text_lines_join(rest, b);
        assert(seq![without_cr(a.subrange(0, e))] + (text_lines(rest) + text_lines(b))
            =~= seq![without_cr(a.subrange(0, e))] + text_lines(rest) + text_lines(b));
    } else {
        assert(w[a.len() as int] == 10u8);
        lemma_first_newline(w, a.len() as int);
        assert(w.subrange(0, a.len() as int) =~= a);
        assert(w.subrange(a.len() + 1int, w.len() as int) =~= b);
        assert(without_cr(a) == a);
    }
}

/// Lines are cut each on their own: a text made of two texts joined by a line end is
/// cut into the pieces of the first and then those of the second, when the first is
/// not empty and ends neither in a line end nor in `\r`.
pub proof fn lemma_lines_independent(a: Seq<u8>, b: Seq<u8>)
    requires
        a.len() > 0,
        a.last() != 10u8,
        a.last() != 13u8,
    ensures
        accommodated(a + seq![10u8] + b) == accommodated(a) + accommodated(b),
{
    lemma_text_lines_join(a, b);
    lemma_fit_lines_concat(text_lines(a), text_lines(b));
}

/// A piece of at least `LINE_LIMIT` bytes with a space among its first `LINE_LIMIT`
/// bytes that is not its last byte is cut just after the last such space, however
/// long the piece is; the rest is cut on in the same way.
pub proof fn lemma_cut_after_last_space(b: Seq<u8>, p: int)
    requires
        b.len() >= LINE_LIMIT,
        0 <= p < LINE_LIMIT,
        p < b.len() - 1,
        b[p] == 32u8,
        forall|q: int| p < q < LINE_LIMIT ==> #[trigger] b[q] != 32u8,
    ensures
        wrap_line(b) == seq![b.subrange(0, p + 1)] + wrap_line(b.subrange(p + 1, b.len() as int)),
{
    lemma_last_space_at(b, LINE_LIMIT as int, p);
}

/// A piece of at least `LINE_LIMIT` bytes with no space among its first
/// `LINE_LIMIT` bytes, other than possibly its last byte, is cut after
/// `LINE_LIMIT` bytes.
pub proof fn lemma_cut_at_limit(b: Seq<u8>)
    requires
        b.len() >= LINE_LIMIT,
        forall|q: int| 0 <= q < LINE_LIMIT && q < b.len() - 1 ==> #[trigger] b[q] != 32u8,
    ensures
        wrap_line(b) == seq![b.subrange(0, LINE_LIMIT as int)] + wrap_line(
            b.subrange(LINE_LIMIT as int, b.len() as int),
        ),
{
    lemma_last_space_range(b, LINE_LIMIT as int);
}

/// The last space before `k` is `p` when `b[p]` is a space and none follows it before `k`.
proof fn lemma_last_space_at(b: Seq<u8>, k: int, p: int)
    requires
        0 <= p < k,
        b[p] == 32u8,
        forall|q: int| p < q < k ==> #[trigger] b[q] != 32u8,
    ensures
        last_space_before(b, k) == p,
    decreases k,
{
    if k - 1 > p {
        assert(b[k - 1] != 32u8);
        lemma_last_space_at(b, k - 1, p);
    }
}

/// A text of one line longer than `LINE_LIMIT` bytes is cut exactly as that line is
/// wrapped.
pub proof fn lemma_single_long_line(text: Seq<u8>)
    requires
        text.len() > LINE_LIMIT,
        no_newline(text),
    ensures
        accommodated(text) == wrap_line(text),
{
    lemma_first_newline(text, text.len() as int);
    assert(text_lines(text) == seq![text]);
    let one = seq![text];
    assert(one.drop_last() =~= Seq::<Seq<u8>>::empty());
    assert(one.last() == text);
    assert(fit_lines(one.drop_last()) == Seq::<Seq<u8>>::empty());
    assert(fit_line(text) == wrap_line(text));
    assert(fit_lines(one) =~= wrap_line(text));
}

/// `first_newline` is the first position that holds `\n`, or the length.
proof fn lemma_first_newline(b: Seq<u8>, e: int)
    requires
        0 <= e <= b.len(),
        forall|j: int| 0 <= j < e ==> b[j] != 10u8,
        e == b.len() || b[e] == 10u8,
    ensures
        first_newline(b) == e,
    decreases e,
{
    if e > 0 {
        let t = b.drop_first();
        assert forall|j: int| 0 <= j < e - 1 implies t[j] != 10u8 by {
            assert(t[j] == b[j + 1]);
        }
        if e < b.len() {
            assert(t[e - 1] == b[e]);
        }
        lemma_first_newline(t, e - 1);
    }
}

/// Appending one string to a sequence appends its bytes to `byte_texts`.
proof fn lemma_byte_texts_push(v: Seq<String>, s: String)
    ensures
        byte_texts(v.push(s)) == byte_texts(v).push(encode_utf8(s@)),
{
    assert(byte_texts(v.push(s)) =~= byte_texts(v).push(encode_utf8(s@)));
}

/// Appends the pieces of `line` to `out`; false when some cut would fall inside
/// a character, and then what `out` holds is of no use.
fn push_wrapped(line: &str, out: &mut Vec<String>) -> (ok: bool)
    ensures
        ok == wrap_safe(line.spec_bytes()),
        ok ==> byte_texts(final(out)@) == byte_texts(old(out)@) + wrap_line(line.spec_bytes()),
{
    let mut rest: &str = line;
    while rest.as_bytes().len() >= LINE_LIMIT
        invariant
            wrap_safe(line.spec_bytes()) == wrap_safe(rest.spec_bytes()),
            byte_texts(out@) + wrap_line(rest.spec_bytes()) == byte_texts(old(out)@) + wrap_line(
                line.spec_bytes(),
            ),
        decreases rest.spec_bytes().len(),
    {
        if !rest.is_char_boundary(LINE_LIMIT) {
            return false;
        }
        let bytes = rest.as_bytes();
        let ghost rb = rest.spec_bytes();
        let mut k: usize = LINE_LIMIT;
        while k > 0 && bytes[k - 1] != 32u8
            invariant
                k <= LINE_LIMIT,
                LINE_LIMIT <= bytes@.len(),
                bytes@ == rb,
                last_space_before(rb, k as int) == last_space_before(rb, LINE_LIMIT as int),
            decreases k,
        {
            k = k - 1;
        }
        let cut: usize = if k > 0 && k - 1 < bytes.len() - 1 {
            k
        } else {
            LINE_LIMIT
        };
        proof {
            if k > 0 && k - 1 < bytes.len() - 1 {
                lemma_ascii_boundaries(rb, k - 1);
            }
            assert(cut == cut_point(rb));
        }
        let (head, tail) = rest.split_at(cut);
        let piece = head.to_owned();
        proof {
            lemma_byte_texts_push(out@, piece);
            assert(wrap_line(rb) == seq![rb.subrange(0, cut as int)] + wrap_line(
                rb.subrange(cut as int, rb.len() as int),
            ));
            assert(tail.spec_bytes() == rb.subrange(cut as int, rb.len() as int));
            assert(byte_texts(out@).push(encode_utf8(piece@)) + wrap_line(tail.spec_bytes())
                =~= byte_texts(out@) + wrap_line(rb));
        }
        out.push(piece);
        rest = tail;
    }
    let piece = rest.to_owned();
    proof {
        lemma_byte_texts_push(out@, piece);
        assert(wrap_line(rest.spec_bytes()) == seq![rest.spec_bytes()]);
        assert(byte_texts(out@).push(encode_utf8(piece@)) =~= byte_texts(out@) + wrap_line(
            rest.spec_bytes(),
        ));
    }
    out.push(piece);
    true
}

/// Cuts `content` into its lines, and each line longer than `LINE_LIMIT` bytes into
/// pieces (see `wrap_line`); `None` exactly when some cut would fall inside a
/// character.
pub fn try_accomodate_list_to_character_limit(content: &str) -> (res: Option<Vec<String>>)
    ensures
        res is Some <==> splittable(content.spec_bytes()),
        res matches Some(v) ==> byte_texts(v@) == accommodated(content.spec_bytes()),
{
    let ghost whole = content.spec_bytes();
    let mut out: Vec<String> = Vec::new();
    let ghost mut done: Seq<Seq<u8>> = seq![];
    let mut rest: &str = content;
    proof {
        assert(byte_texts(out@) =~= seq![]);
        assert(done + text_lines(whole) =~= text_lines(whole));
    }
    while rest.as_bytes().len() > 0
        invariant
            whole == content.spec_bytes(),
            text_lines(whole) == done + text_lines(rest.spec_bytes()),
            forall|i: int| 0 <= i < done.len() ==> fits_safely(#[trigger] done[i]),
            byte_texts(out@) == fit_lines(done),
        decreases rest.spec_bytes().len(),
    {
        let bytes = rest.as_bytes();
        let ghost rb = rest.spec_bytes();
        let n = bytes.len();
        let mut e: usize = 0;
        while e < n && bytes[e] != 10u8
            invariant
                e <= n,
                n == bytes@.len(),
                bytes@ == rb,
                forall|j: int| 0 <= j < e ==> rb[j] != 10u8,
            decreases n - e,
        {
            e = e + 1;
        }
        proof {
            lemma_first_newline(rb, e as int);
            is_char_boundary_start_end_of_seq(rb);
            if e < n {
                lemma_ascii_boundaries(rb, e as int);
            }
        }
        let (raw, after) = rest.split_at(e);
        let (line, next) = if e < n {
            let lb = raw.as_bytes();
            let line = if lb.len() > 0 && lb[lb.len() - 1] == 13u8 {
                proof {
                    lemma_ascii_boundaries(lb@, lb.len() - 1);
                }
                let (kept, _) = raw.split_at(lb.len() - 1);
                proof {
                    assert(kept.spec_bytes() =~= raw.spec_bytes().drop_last());
                }
                kept
            } else {
                raw
            };
            proof {
                assert(after.spec_bytes()[0] == rb[e as int]);
                lemma_ascii_boundaries(after.spec_bytes(), 0);
            }
            let (_, next) = after.split_at(1);
            proof {
                assert(line.spec_bytes() == without_cr(rb.subrange(0, e as int)));
                assert(next.spec_bytes() =~= rb.subrange(e + 1, rb.len() as int));
            }
            (line, next)
        } else {
            proof {
                assert(raw.spec_bytes() =~= rb);
                assert(after.spec_bytes() =~= seq![]);
            }
            (raw, after)
        };
        let ghost x = line.spec_bytes();
        proof {
            assert(text_lines(rb) == seq![x] + text_lines(next.spec_bytes()));
            assert(done.push(x) + text_lines(next.spec_bytes()) =~= done + text_lines(rb));
            assert(done.push(x).drop_last() =~= done);
            assert(text_lines(whole)[done.len() as int] == x);
        }
        if line.as_bytes().len() > LINE_LIMIT {
            let ok = push_wrapped(line, &mut out);
            if !ok {
                proof {
                    assert(!fits_safely(text_lines(whole)[done.len() as int]));
                    assert(!splittable(whole));
                }
                return None;
            }
        } else {
            let piece = line.to_owned();
            proof {
                lemma_byte_texts_push(out@, piece);
                assert(byte_texts(out@).push(encode_utf8(piece@)) =~= byte_texts(out@) + fit_line(x));
            }
            out.push(piece);
        }
        proof {
            done = done.push(x);
        }
        rest = next;
    }
    proof {
        assert(text_lines(rest.spec_bytes()) =~= seq![]);
        assert(text_lines(whole) =~= done);
    }
    Some(out)
}

/// Cuts `content` into its lines, and each line longer than `LINE_LIMIT` bytes into
/// pieces (see `wrap_line`). Inputs on which a cut would fall inside a character
/// are left out.
pub fn accomodate_list_to_character_limit(content: &str) -> (lines: Vec<String>)
    requires
        splittable(content.spec_bytes()),
    ensures
        byte_texts(lines@) == accommodated(content.spec_bytes()),
{
    match try_accomodate_list_to_character_limit(content) {
        Some(v) => v,
        None => Vec::new(),
    }
}

} // verus!
