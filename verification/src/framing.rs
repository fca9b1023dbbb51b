use vstd::prelude::*;
use vstd::utf8::{decode_utf8, encode_scalar, encode_utf8, encode_utf8_decode_utf8, encode_utf8_valid_utf8, valid_utf8};

use crate::text::{chars_of, lemma_trim_bounds, lemma_trim_identity, lemma_trim_keeps_absent, string_of, trim, trim_bounds};

verus! {

// ---------------------------------------------------------------------------
// The line protocol: every frame travels as one line ended by '\n'.
// ---------------------------------------------------------------------------

/// The line that a reader hands on for the text `current` that a '\n' ended:
/// nothing when the trimmed text is empty.
pub open spec fn emit(current: Seq<char>) -> Seq<Seq<char>> {
    if trim(current).len() == 0 {
        seq![]
    } else {
        seq![trim(current)]
    }
}

/// The lines that a reader finds in `rest`, when `current` has been read since
/// the last '\n'. Text after the last '\n' is dropped.
pub open spec fn lines_from(current: Seq<char>, rest: Seq<char>) -> Seq<Seq<char>>
    decreases rest.len(),
{
    if rest.len() == 0 {
        seq![]
    } else if rest[0] == '\n' {
        emit(current) + lines_from(seq![], rest.drop_first())
    } else {
        lines_from(current.push(rest[0]), rest.drop_first())
    }
}

/// The frames in the text of one read: each '\n'-terminated line, trimmed,
/// empty lines skipped, and the unterminated tail dropped.
pub open spec fn frame_lines(text: Seq<char>) -> Seq<Seq<char>> {
    lines_from(seq![], text)
}

/// A line as a writer may send it: not empty, no '\n' in it, and no white space
/// at either end.
pub open spec fn is_clean_line(l: Seq<char>) -> bool {
    &&& l.len() > 0
    &&& !l.contains('\n')
    &&& trim(l) == l
}

/// The text of the lines `ls`, each followed by '\n'.
pub open spec fn encode_lines(ls: Seq<Seq<char>>) -> Seq<char>
    decreases ls.len(),
{
    if ls.len() == 0 {
        seq![]
    } else {
        ls[0] + seq!['\n'] + encode_lines(ls.drop_first())
    }
}

/// The views of a vector of strings.
pub open spec fn string_views(v: Seq<String>) -> Seq<Seq<char>> {
    v.map_values(|s: String| s@)
}

/// Reading text that holds no '\n' just extends the current line.
pub proof fn lemma_lines_from_no_newline(current: Seq<char>, w: Seq<char>, rest: Seq<char>)
    requires
        !w.contains('\n'),
    ensures
        lines_from(current, w + rest) == lines_from(current + w, rest),
    decreases w.len(),
{
    if w.len() == 0 {
        assert(w + rest =~= rest);
        assert(current + w =~= current);
    } else {
        assert((w + rest)[0] == w[0]);
        assert((w + rest).drop_first() =~= w.drop_first() + rest);
        assert(!w.drop_first().contains('\n')) by {
            if w.drop_first().contains('\n') {
                let k = choose|k: int| 0 <= k < w.drop_first().len() && w.drop_first()[k] == '\n';
                assert(w[k + 1] == '\n');
            }
        }
        lemma_lines_from_no_newline(current.push(w[0]), w.drop_first(), rest);
        assert(current.push(w[0]) + w.drop_first() =~= current + w);
    }
}

/// What a writer sends as lines is what a reader reads back, whatever
/// unterminated text follows the last line.
pub proof fn lemma_lines_round_trip(ls: Seq<Seq<char>>, tail: Seq<char>)
    requires
        forall|i: int| 0 <= i < ls.len() ==> is_clean_line(#[trigger] ls[i]),
        !tail.contains('\n'),
    ensures
        frame_lines(encode_lines(ls) + tail) == ls,
    decreases ls.len(),
{
    if ls.len() == 0 {
        assert(encode_lines(ls) + tail =~= tail);
        lemma_lines_from_no_newline(seq![], tail, seq![]);
        assert(tail + Seq::<char>::empty() =~= tail);
    } else {
        let l = ls[0];
        assert(is_clean_line(ls[0]));
        let rest = encode_lines(ls.drop_first()) + tail;
        assert(encode_lines(ls) + tail =~= l + (seq!['\n'] + rest));
        lemma_lines_from_no_newline(seq![], l, seq!['\n'] + rest);
        assert(Seq::<char>::empty() + l =~= l);
        assert((seq!['\n'] + rest)[0] == '\n');
        assert((seq!['\n'] + rest).drop_first() =~= rest);
        assert forall|i: int| 0 <= i < ls.drop_first().len() implies is_clean_line(
            #[trigger] ls.drop_first()[i],
        ) by {
            assert(ls.drop_first()[i] == ls[i + 1]);
        }
        lemma_lines_round_trip(ls.drop_first(), tail);
        assert(emit(l) =~= seq![l]);
        assert(ls =~= seq![l] + ls.drop_first());
    }
}

/// Every frame that a reader hands on is a clean line.
pub proof fn lemma_frames_are_clean(text: Seq<char>)
    ensures
        forall|i: int| 0 <= i < frame_lines(text).len() ==> is_clean_line(#[trigger] frame_lines(text)[i]),
{
    assert(!Seq::<char>::empty().contains('\n'));
    lemma_lines_are_clean_inner(seq![], text);
}

proof fn lemma_lines_are_clean_inner(current: Seq<char>, rest: Seq<char>)
    requires
        !current.contains('\n'),
    ensures
        forall|i: int|
            0 <= i < lines_from(current, rest).len() ==> is_clean_line(
                #[trigger] lines_from(current, rest)[i],
            ),
    decreases rest.len(),
{
    if rest.len() == 0 {
    } else if rest[0] == '\n' {
        assert(!Seq::<char>::empty().contains('\n'));
        lemma_lines_are_clean_inner(seq![], rest.drop_first());
        lemma_emit_clean(current);
        let e = emit(current);
        let r = lines_from(seq![], rest.drop_first());
        assert(lines_from(current, rest) == e + r);
        assert forall|i: int| 0 <= i < (e + r).len() implies is_clean_line(#[trigger] (e + r)[i]) by {
            if i < e.len() {
                assert((e + r)[i] == e[i]);
            } else {
                assert((e + r)[i] == r[i - e.len()]);
            }
        }
    } else {
        assert(!current.push(rest[0]).contains('\n')) by {
            if current.push(rest[0]).contains('\n') {
                let k = choose|k: int| 0 <= k < current.push(rest[0]).len() && current.push(rest[0])[k] == '\n';
                if k < current.len() {
                    assert(current[k] == '\n');
                }
            }
        }
        lemma_lines_are_clean_inner(current.push(rest[0]), rest.drop_first());
        assert(lines_from(current, rest) == lines_from(current.push(rest[0]), rest.drop_first()));
    }
}

proof fn lemma_emit_clean(current: Seq<char>)
    requires
        !current.contains('\n'),
    ensures
        forall|i: int| 0 <= i < emit(current).len() ==> is_clean_line(#[trigger] emit(current)[i]),
{
    lemma_trim_keeps_absent(current, '\n');
    lemma_trim_bounds(current);
    lemma_trim_identity(trim(current));
}

/// The frames in `text`, as `frame_lines` gives them.
pub fn split_lines(text: &str) -> (lines: Vec<String>)
    ensures
        string_views(lines@) == frame_lines(text@),
{
    let chars = chars_of(text);
    let n = chars.len();
    let mut out: Vec<String> = Vec::new();
    let mut start: usize = 0;
    let mut i: usize = 0;
    assert(chars@.subrange(0, 0) =~= Seq::<char>::empty());
    assert(chars@.subrange(0, n as int) =~= chars@);
    assert(string_views(out@) =~= Seq::<Seq<char>>::empty());
    assert(Seq::<Seq<char>>::empty() + frame_lines(text@) =~= frame_lines(text@));
    while i < n
        invariant
            start <= i <= n,
            n == chars@.len(),
            chars@ == text@,
            frame_lines(text@) == string_views(out@) + lines_from(
                chars@.subrange(start as int, i as int),
                chars@.subrange(i as int, n as int),
            ),
        decreases n - i,
    {
        let ghost cur = chars@.subrange(start as int, i as int);
        let ghost rest = chars@.subrange(i as int, n as int);
        assert(rest[0] == chars@[i as int]);
        assert(rest.drop_first() =~= chars@.subrange(i + 1, n as int));
        if chars[i] == '\n' {
            let (a, b) = trim_bounds(&chars, start, i);
            let ghost before = string_views(out@);
            if a < b {
                let line = string_of(&chars, a, b);
                out.push(line);
                assert(string_views(out@) =~= before + seq![trim(cur)]);
            } else {
                assert(emit(cur) =~= Seq::<Seq<char>>::empty());
            }
            start = i + 1;
            assert(chars@.subrange(start as int, i + 1) =~= Seq::<char>::empty());
        } else {
            assert(cur.push(chars@[i as int]) =~= chars@.subrange(start as int, i + 1));
        }
        i = i + 1;
    }
    assert(chars@.subrange(i as int, n as int) =~= Seq::<char>::empty());
    assert(string_views(out@) + Seq::<Seq<char>>::empty() =~= string_views(out@));
    out
}

/// The bytes that a writer puts on the wire for the serialized frames `ls`:
/// each one's UTF-8 encoding, then a '\n' byte, as `encode_line` makes them.
pub open spec fn wire_bytes(ls: Seq<Seq<char>>) -> Seq<u8>
    decreases ls.len(),
{
    if ls.len() == 0 {
        seq![]
    } else {
        encode_utf8(ls[0]).push(10u8) + wire_bytes(ls.drop_first())
    }
}

/// UTF-8 encoding distributes over concatenation.
pub proof fn lemma_encode_utf8_append(a: Seq<char>, b: Seq<char>)
    ensures
        encode_utf8(a + b) == encode_utf8(a) + encode_utf8(b),
    decreases a.len(),
{
    if a.len() == 0 {
        assert(a + b =~= b);
        assert(encode_utf8(a) + encode_utf8(b) =~= encode_utf8(b));
    } else {
        assert((a + b)[0] == a[0]);
        assert((a + b).drop_first() =~= a.drop_first() + b);
        lemma_encode_utf8_append(a.drop_first(), b);
        assert(encode_utf8(a + b) =~= encode_scalar(a[0] as u32) + (encode_utf8(a.drop_first())
            + encode_utf8(b)));
    }
}

/// The bytes of frames written one after another are the UTF-8 encoding of
/// their lines.
pub proof fn lemma_wire_bytes_encode(ls: Seq<Seq<char>>)
    ensures
        wire_bytes(ls) == encode_utf8(encode_lines(ls)),
    decreases ls.len(),
{
    if ls.len() > 0 {
        lemma_wire_bytes_encode(ls.drop_first());
        let rest = encode_lines(ls.drop_first());
        lemma_encode_utf8_append(ls[0] + seq!['\n'], rest);
        lemma_encode_utf8_append(ls[0], seq!['\n']);
        let nl = seq!['\n'];
        assert(nl.drop_first() =~= Seq::<char>::empty());
        assert(encode_utf8(nl) == encode_scalar(nl[0] as u32) + encode_utf8(nl.drop_first()));
        assert(encode_utf8(Seq::<char>::empty()) =~= Seq::<u8>::empty());
        assert('\n' as u32 == 10u32);
        assert((10u32 & 0x7F) as u8 == 10u8) by (bit_vector);
        assert(encode_utf8(seq!['\n']) =~= seq![10u8]);
        assert(encode_utf8(ls[0]) + seq![10u8] =~= encode_utf8(ls[0]).push(10u8));
    }
}

/// Frames that a writer sends in one piece are read back whole and in order
/// from the bytes: the bytes are valid UTF-8, and the reader finds exactly the
/// lines that were written.
pub proof fn lemma_wire_round_trip(ls: Seq<Seq<char>>)
    requires
        forall|i: int| 0 <= i < ls.len() ==> is_clean_line(#[trigger] ls[i]),
    ensures
        valid_utf8(wire_bytes(ls)),
        frame_lines(decode_utf8(wire_bytes(ls))) == ls,
{
    lemma_wire_bytes_encode(ls);
    encode_utf8_valid_utf8(encode_lines(ls));
    encode_utf8_decode_utf8(encode_lines(ls));
    lemma_lines_round_trip(ls, seq![]);
    assert(encode_lines(ls) + Seq::<char>::empty() =~= encode_lines(ls));
}

/// The text that `String::from_utf8_lossy` makes of `bytes`: each maximal
/// invalid UTF-8 sequence becomes U+FFFD.
pub uninterp spec fn lossy_utf8(bytes: Seq<u8>) -> Seq<char>;

/// Decodes `bytes` with `String::from_utf8_lossy`. Claimed of it: the text is
/// `lossy_utf8` of the bytes, and valid UTF-8 decodes to the characters that it
/// encodes.
#[verifier::external_body]
fn decode_lossy(bytes: &[u8]) -> (text: String)
    ensures
        text@ == lossy_utf8(bytes@),
        valid_utf8(bytes@) ==> text@ == decode_utf8(bytes@),
{
    String::from_utf8_lossy(bytes).into_owned()
}

/// The frames in the bytes of one read from a connection: the bytes are
/// decoded (invalid UTF-8 replaced), and split as `frame_lines` says. Nothing
/// is kept for the next read.
pub fn read_frames(chunk: &[u8]) -> (lines: Vec<String>)
    ensures
        string_views(lines@) == frame_lines(lossy_utf8(chunk@)),
        valid_utf8(chunk@) ==> string_views(lines@) == frame_lines(decode_utf8(chunk@)),
{
    let text = decode_lossy(chunk);
    split_lines(text.as_str())
}

/// The bytes that go on the wire for one serialized frame: the frame, then '\n'.
pub fn encode_line(serialized: &[u8]) -> (line: Vec<u8>)
    ensures
        line@ == serialized@.push(10u8),
{
    let mut line: Vec<u8> = Vec::new();
    let mut i: usize = 0;
    while i < serialized.len()
        invariant
            i <= serialized@.len(),
            line@ == serialized@.subrange(0, i as int),
        decreases serialized@.len() - i,
    {
        line.push(serialized[i]);
        i = i + 1;
    }
    assert(serialized@.subrange(0, i as int) =~= serialized@);
    line.push(10u8);
    line
}

} // verus!
