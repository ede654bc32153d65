use vstd::prelude::*;
use vstd::utf8::{decode_utf8, valid_utf8};

verus! {

pub open spec fn is_newline(b: u8) -> bool {
    b == 10u8
}

/// Splits `b` into the lines that a newline has closed and the bytes after
/// the last newline.
pub open spec fn segments(b: Seq<u8>) -> (Seq<Seq<u8>>, Seq<u8>)
    decreases b.len(),
{
    if b.len() == 0 {
        (Seq::empty(), Seq::empty())
    } else {
        let (done, cur) = segments(b.drop_last());
        if is_newline(b.last()) {
            (done.push(cur), Seq::empty())
        } else {
            (done, cur.push(b.last()))
        }
    }
}

/// Raw lines of `b`: each newline ends a line, and a last line without a
/// newline counts when it is not empty.
pub open spec fn raw_lines(b: Seq<u8>) -> Seq<Seq<u8>> {
    let (done, cur) = segments(b);
    if cur.len() > 0 {
        done.push(cur)
    } else {
        done
    }
}

/// A line without the carriage return that a CRLF ending leaves.
pub open spec fn strip_cr(l: Seq<u8>) -> Seq<u8> {
    if l.len() > 0 && l.last() == 13u8 {
        l.drop_last()
    } else {
        l
    }
}

/// The text of each raw line that is valid UTF-8, in order; invalid lines
/// are skipped.
pub open spec fn decoded(ls: Seq<Seq<u8>>) -> Seq<Seq<char>>
    decreases ls.len(),
{
    if ls.len() == 0 {
        Seq::empty()
    } else {
        let rest = decoded(ls.drop_last());
        let l = strip_cr(ls.last());
        if valid_utf8(l) {
            rest.push(decode_utf8(l))
        } else {
            rest
        }
    }
}

/// The text lines of a byte chunk.
pub open spec fn lines_of(b: Seq<u8>) -> Seq<Seq<char>> {
    decoded(raw_lines(b))
}

/// Views of a vector of strings.
pub open spec fn texts(v: Seq<String>) -> Seq<Seq<char>> {
    v.map_values(|s: String| s@)
}

/// Relies on `String::from_utf8`: it succeeds exactly on valid UTF-8 and
/// then holds the decoded characters.
#[verifier::external_body]
pub(crate) fn utf8_string(b: &[u8]) -> (r: Option<String>)
    ensures
        r is Some <==> valid_utf8(b@),
        r matches Some(s) ==> s@ == decode_utf8(b@),
{
    String::from_utf8(b.to_vec()).ok()
}

/// Appends the text of one finished raw line to `out` when it is valid UTF-8.
fn push_line(out: &mut Vec<String>, line: Vec<u8>)
    ensures
        texts(final(out)@) == texts(old(out)@) + decoded(seq![line@]),
{
    let mut l = line;
    let n = l.len();
    if n > 0 && l[n - 1] == 13u8 {
        l.pop();
    }
    assert(l@ == strip_cr(line@));
    let ghost one = seq![line@];
    assert(one.last() == line@);
    assert(one.drop_last() =~= Seq::<Seq<u8>>::empty());
    assert(decoded(one.drop_last()) =~= Seq::<Seq<char>>::empty());
    match utf8_string(l.as_slice()) {
        Some(s) => {
            out.push(s);
            assert(decoded(seq![line@]) =~= seq![s@]);
            assert(texts(out@) =~= texts(old(out)@) + decoded(seq![line@]));
        },
        None => {
            assert(decoded(seq![line@]) =~= Seq::<Seq<char>>::empty());
            assert(texts(out@) =~= texts(old(out)@) + decoded(seq![line@]));
        },
    }
}

proof fn lemma_decoded_push(ls: Seq<Seq<u8>>, l: Seq<u8>)
    ensures
        decoded(ls.push(l)) == decoded(ls) + decoded(seq![l]),
{
    let one = seq![l];
    assert(one.last() == l);
    assert(one.drop_last() =~= Seq::<Seq<u8>>::empty());
    assert(decoded(one.drop_last()) =~= Seq::<Seq<char>>::empty());
    assert(ls.push(l).drop_last() =~= ls);
    if valid_utf8(strip_cr(l)) {
        assert(decoded(one) =~= seq![decode_utf8(strip_cr(l))]);
        assert(decoded(ls.push(l)) =~= decoded(ls) + decoded(one));
    } else {
        assert(decoded(one) =~= Seq::<Seq<char>>::empty());
        assert(decoded(ls.push(l)) =~= decoded(ls) + decoded(one));
    }
}

proof fn lemma_segments_append(a: Seq<u8>, b: Seq<u8>)
    requires
        segments(a).1.len() == 0,
    ensures
        segments(a + b) == (segments(a).0 + segments(b).0, segments(b).1),
    decreases b.len(),
{
    if b.len() == 0 {
        assert(a + b =~= a);
        assert(segments(a).0 + segments(b).0 =~= segments(a).0);
    } else {
        lemma_segments_append(a, b.drop_last());
        assert((a + b).drop_last() =~= a + b.drop_last());
        assert((a + b).last() == b.last());
        let (d, c) = segments(b.drop_last());
        assert((segments(a).0 + d).push(c) =~= segments(a).0 + d.push(c));
    }
}

proof fn lemma_decoded_append(x: Seq<Seq<u8>>, y: Seq<Seq<u8>>)
    ensures
        decoded(x + y) == decoded(x) + decoded(y),
    decreases y.len(),
{
    if y.len() == 0 {
        assert(x + y =~= x);
        assert(decoded(x) + decoded(y) =~= decoded(x));
    } else {
        lemma_decoded_append(x, y.drop_last());
        assert((x + y).drop_last() =~= x + y.drop_last());
        assert((x + y).last() == y.last());
        let l = strip_cr(y.last());
        if valid_utf8(l) {
            assert((decoded(x) + decoded(y.drop_last())).push(decode_utf8(l)) =~= decoded(x)
                + decoded(y.drop_last()).push(decode_utf8(l)));
        }
    }
}

/// A chunk that is empty or ends with a newline leaves no partial line.
pub open spec fn ends_at_line_boundary(b: Seq<u8>) -> bool {
    b.len() == 0 || is_newline(b.last())
}

/// Splitting is compositional at line boundaries: the lines of `a + b` are
/// the lines of `a` followed by the lines of `b` when `a` ends with a newline
/// (or is empty).
pub proof fn lemma_lines_of_append(a: Seq<u8>, b: Seq<u8>)
    requires
        ends_at_line_boundary(a),
    ensures
        lines_of(a + b) == lines_of(a) + lines_of(b),
{
    if a.len() > 0 {
        assert(segments(a).1 == Seq::<u8>::empty());
    } else {
        assert(segments(a).1 =~= Seq::<u8>::empty());
    }
    lemma_segments_append(a, b);
    let (d, c) = segments(b);
    if c.len() > 0 {
        assert((segments(a).0 + d).push(c) =~= segments(a).0 + d.push(c));
    }
    assert(raw_lines(a + b) =~= raw_lines(a) + raw_lines(b));
    lemma_decoded_append(raw_lines(a), raw_lines(b));
}

/// Views of a vector of byte vectors.
pub open spec fn byte_lines(v: Seq<Vec<u8>>) -> Seq<Seq<u8>> {
    v.map_values(|l: Vec<u8>| l@)
}

/// The lines a newline closed and the bytes after the last newline, as
/// byte vectors.
pub fn split_segments(b: &[u8]) -> (r: (Vec<Vec<u8>>, Vec<u8>))
    ensures
        (byte_lines(r.0@), r.1@) == segments(b@),
{
    let mut out: Vec<Vec<u8>> = Vec::new();
    let mut cur: Vec<u8> = Vec::new();
    let n = b.len();
    let mut i: usize = 0;
    assert(b@.subrange(0, 0) =~= Seq::<u8>::empty());
    assert(byte_lines(out@) =~= Seq::<Seq<u8>>::empty());
    while i < n
        invariant
            n == b@.len(),
            i <= n,
            segments(b@.subrange(0, i as int)) == (byte_lines(out@), cur@),
        decreases n - i,
    {
        let c = b[i];
        assert(b@.subrange(0, i + 1).drop_last() =~= b@.subrange(0, i as int));
        assert(b@.subrange(0, i + 1).last() == c);
        if c == 10u8 {
            let mut line: Vec<u8> = Vec::new();
            std::mem::swap(&mut line, &mut cur);
            let ghost o0 = out@;
            out.push(line);
            assert(byte_lines(out@) =~= byte_lines(o0).push(line@));
        } else {
            cur.push(c);
        }
        i = i + 1;
    }
    assert(b@.subrange(0, n as int) =~= b@);
    (out, cur)
}

/// Splits a chunk of bytes into its text lines: a newline ends each line, a
/// trailing carriage return is dropped, a last line without newline is kept,
/// and lines that are not valid UTF-8 are skipped.
pub fn split_lines(b: &[u8]) -> (r: Vec<String>)
    ensures
        texts(r@) == lines_of(b@),
{
    let mut out: Vec<String> = Vec::new();
    let mut cur: Vec<u8> = Vec::new();
    let ghost mut done: Seq<Seq<u8>> = Seq::empty();
    let n = b.len();
    let mut i: usize = 0;
    assert(b@.subrange(0, 0) =~= Seq::<u8>::empty());
    while i < n
        invariant
            n == b@.len(),
            i <= n,
            segments(b@.subrange(0, i as int)) == (done, cur@),
            texts(out@) == decoded(done),
        decreases n - i,
    {
        let c = b[i];
        let ghost pre = b@.subrange(0, i as int);
        assert(b@.subrange(0, i + 1).drop_last() =~= pre);
        assert(b@.subrange(0, i + 1).last() == c);
        if c == 10u8 {
            proof {
                lemma_decoded_push(done, cur@);
                done = done.push(cur@);
            }
            let mut line: Vec<u8> = Vec::new();
            std::mem::swap(&mut line, &mut cur);
            push_line(&mut out, line);
        } else {
            cur.push(c);
        }
        i = i + 1;
    }
    assert(b@.subrange(0, n as int) =~= b@);
    if cur.len() > 0 {
        proof {
            lemma_decoded_push(done, cur@);
        }
        push_line(&mut out, cur);
    }
    out
}

} // verus!
