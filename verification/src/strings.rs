//! Reading and writing domain names, including the RFC 1035 label
//! compression scheme: a length byte of 0xC0 or above, together with the
//! byte after it, points the name walk at an earlier offset of the same
//! message. Pointers come from untrusted input, so every target is checked
//! against the buffer bounds, and a chain of pointers is refused as soon as
//! it revisits an offset or grows past a fixed bound.

use vstd::prelude::*;

use crate::cursor::Cursor;
use crate::wire::WireError;

verus! {

/// How many pointers one name may follow before the chain is refused: a
/// second line of defence, independent of the revisit check.
pub const MAX_POINTER_CHAIN: usize = 64;

/// The byte of the dot that separates labels in the textual form of a name.
pub const DOT: u8 = 46;

/// A failure of the name walk, at the specification level. It mirrors the
/// corresponding variants of `WireError`, with the offset chain as a
/// sequence.
pub enum NameErr {
    /// The buffer ran out mid-name.
    Io,
    /// A pointer aimed at the given offset, outside the buffer.
    OutOfBounds(u16),
    /// The pointer chain revisited an offset or grew too long; the offsets
    /// examined, ending with the offending one.
    TooMuchRecursion(Seq<u16>),
}

/// A name being accumulated, one more label at its end: labels after the
/// first are set off with a dot.
pub open spec fn extend_name(acc: Seq<u8>, label: Seq<u8>) -> Seq<u8> {
    if acc.len() == 0 {
        label
    } else {
        acc + seq![DOT] + label
    }
}

/// The name walk, as a total function over the buffer: reads labels at
/// `pos`, appending them to `acc` with dots between, follows pointers, and
/// yields the accumulated name bytes together with the offset at which the
/// enclosing record continues. That offset is fixed by the first pointer
/// followed, if any, and carried in `end`; `visited` holds the targets of
/// the pointers followed so far.
pub open spec fn walk(
    buf: Seq<u8>,
    pos: int,
    visited: Seq<u16>,
    acc: Seq<u8>,
    end: Option<int>,
) -> Result<(Seq<u8>, int), NameErr>
    decreases MAX_POINTER_CHAIN - visited.len(), buf.len() - pos,
{
    if !(0 <= pos < buf.len()) {
        Err(NameErr::Io)
    } else {
        let b = buf[pos];
        if b == 0 {
            Ok((acc, match end {
                Some(e) => e,
                None => pos + 1,
            }))
        } else if b >= 0xC0 {
            if pos + 2 > buf.len() {
                Err(NameErr::Io)
            } else {
                let target = (b - 0xC0) * 256 + buf[pos + 1];
                if target >= buf.len() {
                    Err(NameErr::OutOfBounds(target as u16))
                } else if visited.contains(target as u16) || visited.len() >= MAX_POINTER_CHAIN {
                    Err(NameErr::TooMuchRecursion(visited.push(target as u16)))
                } else {
                    walk(
                        buf,
                        target,
                        visited.push(target as u16),
                        acc,
                        Some(match end {
                            Some(e) => e,
                            None => pos + 2,
                        }),
                    )
                }
            }
        } else {
            if pos + 1 + b > buf.len() {
                Err(NameErr::Io)
            } else {
                let label = buf.subrange(pos + 1, pos + 1 + b);
                walk(buf, pos + 1 + b, visited, extend_name(acc, label), end)
            }
        }
    }
}

/// The name walk as a fresh read starts it: nothing accumulated, no pointer
/// followed yet.
pub open spec fn name_at(buf: Seq<u8>, pos: int) -> Result<(Seq<u8>, int), NameErr> {
    walk(buf, pos, Seq::empty(), Seq::empty(), None)
}

/// The characters that a sequence of name bytes spells, one per byte.
pub open spec fn chars_of(bytes: Seq<u8>) -> Seq<char> {
    bytes.map_values(|b: u8| b as char)
}

/// Whether a `WireError` reports the given failure of the name walk.
pub open spec fn wire_err_matches(w: WireError, e: NameErr) -> bool {
    match e {
        NameErr::Io => w == WireError::IO,
        NameErr::OutOfBounds(t) => w == WireError::OutOfBounds(t),
        NameErr::TooMuchRecursion(ch) => w matches WireError::TooMuchRecursion(v) && v@ == ch,
    }
}

/// Law: a compression pointer aiming at or past the end of the buffer makes
/// the name walk fail with `OutOfBounds`, carrying that offset.
pub proof fn lemma_pointer_out_of_bounds(buf: Seq<u8>, pos: int)
    requires
        0 <= pos < buf.len(),
        pos + 2 <= buf.len(),
        buf[pos] >= 0xC0,
        (buf[pos] - 0xC0) * 256 + buf[pos + 1] >= buf.len(),
    ensures
        name_at(buf, pos) == Err::<(Seq<u8>, int), NameErr>(
            NameErr::OutOfBounds((((buf[pos] - 0xC0) * 256 + buf[pos + 1]) as u16)),
        ),
{
}

/// Law: two pointers that aim at each other make the name walk fail with
/// `TooMuchRecursion`; the walk never follows the cycle round.
pub proof fn lemma_pointer_cycle(buf: Seq<u8>, pos: int, target: int)
    requires
        0 <= pos,
        pos + 2 <= buf.len(),
        buf[pos] >= 0xC0,
        (buf[pos] - 0xC0) * 256 + buf[pos + 1] == target,
        0 <= target,
        target + 2 <= buf.len(),
        buf[target] >= 0xC0,
        (buf[target] - 0xC0) * 256 + buf[target + 1] == pos,
    ensures
        name_at(buf, pos) matches Err(e) && e is TooMuchRecursion,
{
    let e = Seq::<u8>::empty();
    let v0 = Seq::<u16>::empty();
    let v1 = v0.push(target as u16);
    assert(v1[0] == target as u16);
    assert(v1.contains(target as u16));
    assert(name_at(buf, pos) == walk(buf, target, v1, e, Some(pos + 2)));
    if v1.contains(pos as u16) {
        assert(walk(buf, target, v1, e, Some(pos + 2)) == Err::<(Seq<u8>, int), NameErr>(
            NameErr::TooMuchRecursion(v1.push(pos as u16)),
        ));
    } else {
        let v2 = v1.push(pos as u16);
        assert(v2[0] == target as u16);
        assert(v2.contains(target as u16));
        assert(walk(buf, target, v1, e, Some(pos + 2)) == walk(buf, pos, v2, e, Some(pos + 2)));
        assert(walk(buf, pos, v2, e, Some(pos + 2)) == Err::<(Seq<u8>, int), NameErr>(
            NameErr::TooMuchRecursion(v2.push(target as u16)),
        ));
    }
}

broadcast use vstd::string::is_ascii_spec_bytes;

/// The bytes that the characters of a textual name stand for, one per
/// character; faithful for ASCII text.
pub open spec fn text_bytes(s: Seq<char>) -> Seq<u8> {
    s.map_values(|c: char| c as u8)
}

/// The index of the first dot of the text, or a negative value if it has
/// none.
pub open spec fn first_dot(s: Seq<u8>) -> int
    decreases s.len(),
{
    if s.len() == 0 {
        -1
    } else if s[0] == DOT {
        0
    } else if first_dot(s.drop_first()) < 0 {
        -1
    } else {
        first_dot(s.drop_first()) + 1
    }
}

/// The dot-separated segments of a textual name.
pub open spec fn name_segments(s: Seq<u8>) -> Seq<Seq<u8>>
    decreases s.len(),
{
    let k = first_dot(s);
    if 0 <= k < s.len() {
        seq![s.take(k)] + name_segments(s.skip(k + 1))
    } else {
        seq![s]
    }
}

/// Whether a segment can stand as one label on the wire: one to sixty-three
/// bytes, printable ASCII, no dot.
pub open spec fn valid_label(l: Seq<u8>) -> bool {
    1 <= l.len() <= 63 && forall|i: int| 0 <= i < l.len() ==> 0 < #[trigger] l[i] < 128 && l[i]
        != DOT
}

/// Whether a textual name can be written to the wire: every dot-separated
/// segment is a valid label.
pub open spec fn valid_name(s: Seq<u8>) -> bool {
    forall|i: int| 0 <= i < name_segments(s).len() ==> valid_label(#[trigger] name_segments(s)[i])
}

/// The wire encoding of a list of labels: each as a length byte and its
/// bytes, then a terminating zero length. No pointers are ever written:
/// the expanded form is always valid.
pub open spec fn enc_segs(segs: Seq<Seq<u8>>) -> Seq<u8>
    decreases segs.len(),
{
    if segs.len() == 0 {
        seq![0u8]
    } else {
        seq![segs[0].len() as u8] + segs[0] + enc_segs(segs.drop_first())
    }
}

/// The wire encoding of a textual name.
pub open spec fn enc_name(s: Seq<u8>) -> Seq<u8> {
    enc_segs(name_segments(s))
}

/// A name, rebuilt by appending each segment in turn.
pub open spec fn join_onto(acc: Seq<u8>, segs: Seq<Seq<u8>>) -> Seq<u8>
    decreases segs.len(),
{
    if segs.len() == 0 {
        acc
    } else {
        join_onto(extend_name(acc, segs[0]), segs.drop_first())
    }
}

/// The first dot lies within the text, on a dot.
proof fn lemma_first_dot_props(s: Seq<u8>)
    ensures
        first_dot(s) < s.len(),
        first_dot(s) >= 0 ==> s[first_dot(s)] == DOT,
    decreases s.len(),
{
    if s.len() == 0 {
    } else if s[0] == DOT {
    } else {
        lemma_first_dot_props(s.drop_first());
    }
}

/// Joining the segments of a text onto a name already begun re-inserts
/// exactly the dots that segmentation removed.
proof fn lemma_join_general(acc: Seq<u8>, s: Seq<u8>)
    requires
        acc.len() > 0,
    ensures
        join_onto(acc, name_segments(s)) == acc + seq![DOT] + s,
    decreases s.len(),
{
    lemma_first_dot_props(s);
    let k = first_dot(s);
    if 0 <= k < s.len() {
        let head = s.take(k);
        let rest = s.skip(k + 1);
        assert(name_segments(s) == seq![head] + name_segments(rest));
        assert((seq![head] + name_segments(rest))[0] == head);
        assert((seq![head] + name_segments(rest)).drop_first() =~= name_segments(rest));
        let acc2 = acc + seq![DOT] + head;
        assert(extend_name(acc, head) == acc2);
        lemma_join_general(acc2, rest);
        assert(acc2 + seq![DOT] + rest =~= acc + seq![DOT] + s);
    } else {
        assert(name_segments(s) == seq![s]);
        assert(seq![s][0] == s);
        assert(seq![s].drop_first() =~= Seq::<Seq<u8>>::empty());
        assert(join_onto(extend_name(acc, s), Seq::<Seq<u8>>::empty()) == extend_name(acc, s));
    }
}

/// Joining all the segments of a valid name from nothing gives the name
/// back: segmentation loses nothing.
proof fn lemma_join_root(s: Seq<u8>)
    requires
        valid_name(s),
    ensures
        join_onto(Seq::empty(), name_segments(s)) == s,
{
    lemma_first_dot_props(s);
    let k = first_dot(s);
    if 0 <= k < s.len() {
        let head = s.take(k);
        let rest = s.skip(k + 1);
        assert(name_segments(s) == seq![head] + name_segments(rest));
        assert((seq![head] + name_segments(rest))[0] == head);
        assert((seq![head] + name_segments(rest)).drop_first() =~= name_segments(rest));
        assert(valid_label(name_segments(s)[0]));
        assert(head.len() >= 1);
        assert(extend_name(Seq::empty(), head) == head);
        assert(join_onto(Seq::empty(), name_segments(s)) == join_onto(head, name_segments(rest)));
        lemma_join_general(head, rest);
        assert(head + seq![DOT] + rest =~= s);
    } else {
        assert(name_segments(s) == seq![s]);
        assert(seq![s][0] == s);
        assert(seq![s].drop_first() =~= Seq::<Seq<u8>>::empty());
        assert(extend_name(Seq::empty(), s) == s);
        assert(join_onto(Seq::empty(), name_segments(s)) == join_onto(
            s,
            Seq::<Seq<u8>>::empty(),
        ));
    }
}

/// The name walk over an encoded list of valid labels reads them all back,
/// joined onto whatever was accumulated, and stops just past the
/// terminating zero.
proof fn lemma_walk_enc(
    buf: Seq<u8>,
    pos: int,
    visited: Seq<u16>,
    acc: Seq<u8>,
    end: Option<int>,
    segs: Seq<Seq<u8>>,
)
    requires
        forall|i: int| 0 <= i < segs.len() ==> valid_label(#[trigger] segs[i]),
        0 <= pos,
        pos + enc_segs(segs).len() <= buf.len(),
        buf.subrange(pos, pos + enc_segs(segs).len()) == enc_segs(segs),
    ensures
        walk(buf, pos, visited, acc, end) == Ok::<(Seq<u8>, int), NameErr>(
            (join_onto(acc, segs), match end {
                Some(e) => e,
                None => pos + enc_segs(segs).len(),
            }),
        ),
    decreases segs.len(),
{
    let enc = enc_segs(segs);
    if segs.len() == 0 {
        assert(enc == seq![0u8]);
        assert(buf[pos] == buf.subrange(pos, pos + 1)[0]);
        assert(buf[pos] == 0);
    } else {
        let l = segs[0];
        let rest = segs.drop_first();
        assert(valid_label(segs[0]));
        let b = l.len() as u8;
        assert(enc == seq![b] + l + enc_segs(rest));
        assert(buf[pos] == buf.subrange(pos, pos + enc.len())[0]);
        assert(buf[pos] == b);
        assert(1 <= b < 0xC0);
        let label = buf.subrange(pos + 1, pos + 1 + b);
        assert(label =~= l) by {
            assert forall|i: int| 0 <= i < l.len() implies label[i] == l[i] by {
                assert(label[i] == buf.subrange(pos, pos + enc.len())[1 + i]);
                assert(enc[1 + i] == l[i]);
            }
        }
        let pos2 = pos + 1 + b;
        assert(buf.subrange(pos2, pos2 + enc_segs(rest).len()) =~= enc_segs(rest)) by {
            assert forall|i: int| 0 <= i < enc_segs(rest).len() implies buf.subrange(
                pos2,
                pos2 + enc_segs(rest).len(),
            )[i] == enc_segs(rest)[i] by {
                assert(buf.subrange(pos2, pos2 + enc_segs(rest).len())[i] == buf.subrange(
                    pos,
                    pos + enc.len(),
                )[1 + b + i]);
                assert(enc[1 + b + i] == enc_segs(rest)[i]);
            }
        }
        assert(forall|i: int| 0 <= i < rest.len() ==> valid_label(#[trigger] rest[i])) by {
            assert(forall|i: int| 0 <= i < rest.len() ==> rest[i] == segs[i + 1]);
        }
        lemma_walk_enc(buf, pos2, visited, extend_name(acc, l), end, rest);
        assert(walk(buf, pos, visited, acc, end) == walk(
            buf,
            pos2,
            visited,
            extend_name(acc, label),
            end,
        ));
    }
}

/// For ASCII text, going to bytes and back to characters changes nothing.
pub proof fn lemma_chars_of_text_bytes(s: Seq<char>)
    requires
        vstd::utf8::is_ascii_chars(s),
    ensures
        chars_of(text_bytes(s)) == s,
{
    assert forall|i: int| 0 <= i < s.len() implies chars_of(text_bytes(s))[i] == s[i] by {
        let c = s[i];
        vstd::utf8::char_u32_cast(c, c as u32);
        assert(text_bytes(s)[i] == c as u8);
        assert(((c as u8) as char) == c);
    }
    assert(chars_of(text_bytes(s)) =~= s);
}

/// Law: reading a name written in the expanded label form gives exactly
/// that name back, wherever in the message it stands — writing a valid name
/// and decoding it round-trips, and the walk ends just past its bytes.
pub proof fn lemma_name_roundtrip(buf: Seq<u8>, pos: int, name: Seq<u8>)
    requires
        valid_name(name),
        0 <= pos,
        pos + enc_name(name).len() <= buf.len(),
        buf.subrange(pos, pos + enc_name(name).len()) == enc_name(name),
    ensures
        name_at(buf, pos) == Ok::<(Seq<u8>, int), NameErr>((name, pos + enc_name(name).len())),
{
    lemma_walk_enc(buf, pos, Seq::empty(), Seq::empty(), None, name_segments(name));
    lemma_join_root(name);
}

/// A scan that stopped at the first dot, or at the end without one, found
/// exactly what `first_dot` names.
proof fn lemma_first_dot_from_scan(s: Seq<u8>, k: int)
    requires
        0 <= k <= s.len(),
        forall|j: int| 0 <= j < k ==> s[j] != DOT,
        k < s.len() ==> s[k] == DOT,
    ensures
        first_dot(s) == if k == s.len() {
            -1
        } else {
            k
        },
    decreases s.len(),
{
    if s.len() == 0 {
    } else if k == 0 {
    } else {
        lemma_first_dot_from_scan(s.drop_first(), k - 1);
    }
}

/// Writes a textual name in the expanded label form that `enc_name`
/// describes.
pub fn write_labels(out: &mut Vec<u8>, name: &str)
    requires
        name.is_ascii(),
        valid_name(text_bytes(name@)),
    ensures
        final(out)@ == old(out)@ + enc_name(text_bytes(name@)),
{
    let bytes: &[u8] = name.as_bytes();
    let ghost nb = text_bytes(name@);
    proof {
        assert(bytes@ =~= nb);
    }
    let n = bytes.len();
    let mut p: usize = 0;
    proof {
        assert(nb.skip(0) =~= nb);
    }
    loop
        invariant
            nb == text_bytes(name@),
            bytes@ == nb,
            n == nb.len(),
            p <= n,
            valid_name(nb.skip(p as int)),
            old(out)@ + enc_name(nb) == out@ + enc_segs(name_segments(nb.skip(p as int))),
        decreases n - p,
    {
        let mut q: usize = p;
        while q < n && bytes[q] != DOT
            invariant
                bytes@ == nb,
                n == nb.len(),
                p <= q <= n,
                forall|j: int| p <= j < q ==> nb[j] != DOT,
            decreases n - q,
        {
            q = q + 1;
        }
        let ghost s_suf = nb.skip(p as int);
        proof {
            assert forall|j: int| 0 <= j < q - p implies s_suf[j] != DOT by {
                assert(s_suf[j] == nb[p + j]);
            }
            lemma_first_dot_from_scan(s_suf, q - p);
        }
        let seg_len = q - p;
        if q == n {
            proof {
                assert(name_segments(s_suf) == seq![s_suf]);
                let segs = seq![s_suf];
                assert(segs[0] == s_suf);
                assert(valid_label(name_segments(s_suf)[0]));
                assert(s_suf.len() == n - p);
                assert(segs.drop_first() =~= Seq::<Seq<u8>>::empty());
                assert(enc_segs(segs.drop_first()) == seq![0u8]);
                assert(enc_segs(segs) =~= seq![s_suf.len() as u8] + s_suf + seq![0u8]);
            }
            let ghost before = out@;
            out.push(seg_len as u8);
            let mut j: usize = p;
            while j < q
                invariant
                    bytes@ == nb,
                    n == nb.len(),
                    p <= j <= q <= n,
                    q - p <= 63,
                    out@ == before.push((q - p) as u8) + nb.subrange(p as int, j as int),
                decreases q - j,
            {
                let byte = bytes[j];
                out.push(byte);
                proof {
                    assert(nb.subrange(p as int, j + 1) =~= nb.subrange(p as int, j as int).push(
                        byte,
                    ));
                }
                j = j + 1;
            }
            out.push(0);
            proof {
                assert(s_suf =~= nb.subrange(p as int, q as int));
                assert(out@ =~= before + enc_segs(name_segments(s_suf)));
            }
            return;
        } else {
            let ghost k = (q - p) as int;
            proof {
                assert(name_segments(s_suf) == seq![s_suf.take(k)] + name_segments(
                    s_suf.skip(k + 1),
                ));
                assert(name_segments(s_suf)[0] == s_suf.take(k));
                assert(valid_label(s_suf.take(k)));
                assert(s_suf.take(k).len() == k);
            }
            let ghost before = out@;
            out.push(seg_len as u8);
            let mut j: usize = p;
            while j < q
                invariant
                    bytes@ == nb,
                    n == nb.len(),
                    p <= j <= q <= n,
                    q - p <= 63,
                    out@ == before.push((q - p) as u8) + nb.subrange(p as int, j as int),
                decreases q - j,
            {
                let byte = bytes[j];
                out.push(byte);
                proof {
                    assert(nb.subrange(p as int, j + 1) =~= nb.subrange(p as int, j as int).push(
                        byte,
                    ));
                }
                j = j + 1;
            }
            proof {
                let rest = s_suf.skip(k + 1);
                assert(rest =~= nb.skip(q + 1));
                assert forall|i: int| 0 <= i < name_segments(rest).len() implies valid_label(
                    #[trigger] name_segments(rest)[i],
                ) by {
                    assert(name_segments(s_suf)[i + 1] == name_segments(rest)[i]);
                }
                assert(s_suf.take(k) =~= nb.subrange(p as int, q as int));
                assert(enc_segs(name_segments(s_suf)) == seq![(q - p) as u8] + s_suf.take(k)
                    + enc_segs(name_segments(rest))) by {
                    assert((seq![s_suf.take(k)] + name_segments(rest)).drop_first() =~= name_segments(
                        rest,
                    ));
                    assert((seq![s_suf.take(k)] + name_segments(rest))[0] == s_suf.take(k));
                }
                assert(out@ + enc_segs(name_segments(nb.skip(q + 1))) =~= before + enc_segs(
                    name_segments(s_suf),
                ));
            }
            p = q + 1;
        }
    }
}

/// Whether the text can stand as a name on the wire: ASCII, and every
/// dot-separated segment a valid label. The executable test of what
/// `write_labels` requires.
pub fn is_valid_name(name: &str) -> (r: bool)
    ensures
        r == (name.is_ascii() && valid_name(text_bytes(name@))),
{
    if !name.is_ascii() {
        return false;
    }
    let bytes: &[u8] = name.as_bytes();
    let ghost nb = text_bytes(name@);
    proof {
        assert(bytes@ =~= nb);
        assert forall|j: int| 0 <= j < nb.len() implies nb[j] < 128 by {
            assert(nb[j] == name@[j] as u8);
        }
        assert(nb.skip(0) =~= nb);
    }
    let n = bytes.len();
    let mut p: usize = 0;
    loop
        invariant
            name.is_ascii(),
            nb == text_bytes(name@),
            bytes@ == nb,
            n == nb.len(),
            p <= n,
            forall|j: int| 0 <= j < nb.len() ==> nb[j] < 128,
            valid_name(nb) == valid_name(nb.skip(p as int)),
        decreases n - p,
    {
        let mut q: usize = p;
        let mut clean = true;
        while q < n && bytes[q] != DOT
            invariant
                bytes@ == nb,
                n == nb.len(),
                p <= q <= n,
                forall|j: int| p <= j < q ==> nb[j] != DOT,
                clean == (forall|j: int| p <= j < q ==> nb[j] != 0),
            decreases n - q,
        {
            if bytes[q] == 0 {
                clean = false;
            }
            q = q + 1;
        }
        let ghost s_suf = nb.skip(p as int);
        proof {
            assert forall|j: int| 0 <= j < q - p implies s_suf[j] != DOT by {
                assert(s_suf[j] == nb[p + j]);
            }
            lemma_first_dot_from_scan(s_suf, q - p);
        }
        let seg_len = q - p;
        let seg_ok = clean && 1 <= seg_len && seg_len <= 63;
        if q == n {
            proof {
                assert(name_segments(s_suf) == seq![s_suf]);
                assert(name_segments(s_suf)[0] == s_suf);
                assert(s_suf.len() == q - p);
                assert forall|j: int| 0 <= j < s_suf.len() implies s_suf[j] == nb[p + j] by {}
                if seg_ok {
                    assert(valid_label(s_suf));
                    assert(valid_name(s_suf));
                } else {
                    assert(!valid_label(s_suf)) by {
                        if 1 <= seg_len && seg_len <= 63 {
                            assert(!clean);
                            assert(exists|j: int| p <= j < q && nb[j] == 0);
                            let j = choose|j: int| p <= j < q && nb[j] == 0;
                            assert(s_suf[j - p] == nb[j]);
                        } else {
                            assert(s_suf.len() < 1 || s_suf.len() > 63);
                        }
                    }
                    assert(!valid_name(s_suf)) by {
                        if valid_name(s_suf) {
                            assert(valid_label(name_segments(s_suf)[0]));
                        }
                    }
                }
            }
            return seg_ok;
        } else {
            let ghost k = (q - p) as int;
            let ghost head = s_suf.take(k);
            let ghost rest = s_suf.skip(k + 1);
            proof {
                assert(name_segments(s_suf) == seq![head] + name_segments(rest));
                assert(name_segments(s_suf)[0] == head);
                assert(head.len() == k);
                assert forall|j: int| 0 <= j < head.len() implies head[j] == nb[p + j] by {}
            }
            if !seg_ok {
                proof {
                    assert(!valid_label(head)) by {
                        if 1 <= seg_len && seg_len <= 63 {
                            assert(!clean);
                            assert(exists|j: int| p <= j < q && nb[j] == 0);
                            let j = choose|j: int| p <= j < q && nb[j] == 0;
                            assert(head[j - p] == nb[j]);
                        } else {
                            assert(head.len() < 1 || head.len() > 63);
                        }
                    }
                    assert(!valid_name(s_suf)) by {
                        if valid_name(s_suf) {
                            assert(valid_label(name_segments(s_suf)[0]));
                        }
                    }
                }
                return false;
            }
            proof {
                assert(valid_label(head));
                assert(rest =~= nb.skip(q + 1));
                assert(valid_name(s_suf) == valid_name(rest)) by {
                    assert forall|i: int|
                        0 <= i < name_segments(rest).len() implies name_segments(s_suf)[i + 1]
                        == name_segments(rest)[i] by {}
                    if valid_name(rest) {
                        assert forall|i: int|
                            0 <= i < name_segments(s_suf).len() implies valid_label(
                            #[trigger] name_segments(s_suf)[i],
                        ) by {
                            if i == 0 {
                            } else {
                                assert(name_segments(s_suf)[i] == name_segments(rest)[i - 1]);
                            }
                        }
                    }
                    if valid_name(s_suf) {
                        assert forall|i: int|
                            0 <= i < name_segments(rest).len() implies valid_label(
                            #[trigger] name_segments(rest)[i],
                        ) by {
                            assert(name_segments(rest)[i] == name_segments(s_suf)[i + 1]);
                            assert(valid_label(name_segments(s_suf)[i + 1]));
                        }
                    }
                }
            }
            p = q + 1;
        }
    }
}

/// Whether the vector holds the value.
fn contains_u16(v: &Vec<u16>, x: u16) -> (r: bool)
    ensures
        r == v@.contains(x),
{
    let mut i: usize = 0;
    while i < v.len()
        invariant
            i <= v@.len(),
            forall|j: int| 0 <= j < i ==> v@[j] != x,
        decreases v@.len() - i,
    {
        if v[i] == x {
            return true;
        }
        i = i + 1;
    }
    assert(!v@.contains(x));
    false
}

/// Relies on `String::push`: it appends exactly the one character given.
#[verifier::external_body]
fn push_char(s: &mut String, c: char)
    ensures
        final(s)@ == old(s)@.push(c),
{
    s.push(c);
}

/// The string that a sequence of name bytes spells.
fn bytes_to_string(v: &Vec<u8>) -> (r: String)
    ensures
        r@ == chars_of(v@),
{
    let mut s = String::new();
    let mut i: usize = 0;
    while i < v.len()
        invariant
            i <= v@.len(),
            s@ == chars_of(v@.take(i as int)),
        decreases v@.len() - i,
    {
        push_char(&mut s, v[i] as char);
        proof {
            assert(chars_of(v@.take(i + 1)) =~= chars_of(v@.take(i as int)).push(v@[i as int] as char));
        }
        i = i + 1;
    }
    proof {
        assert(v@.take(v@.len() as int) =~= v@);
    }
    s
}

impl<'a> Cursor<'a> {
    /// Reads a domain name at the cursor: labels, possibly continued
    /// through compression pointers, as `walk` describes. The cursor
    /// advances past the name's bytes at its own position — past the
    /// terminating zero, or past the first pointer — never to wherever a
    /// pointer led.
    pub fn read_labels(&mut self) -> (r: Result<String, WireError>)
        ensures
            final(self).buf@ == old(self).buf@,
            name_at(old(self).buf@, old(self).pos as int) matches Ok(nm) ==> r is Ok
                && r->Ok_0@ == chars_of(nm.0) && final(self).pos == nm.1,
            name_at(old(self).buf@, old(self).pos as int) == Err::<(Seq<u8>, int), NameErr>(
                NameErr::Io,
            ) ==> r == Err::<String, WireError>(WireError::IO),
            name_at(old(self).buf@, old(self).pos as int) matches Err(NameErr::OutOfBounds(t))
                ==> r == Err::<String, WireError>(WireError::OutOfBounds(t)),
            name_at(old(self).buf@, old(self).pos as int) matches Err(
                NameErr::TooMuchRecursion(ch),
            ) ==> (r matches Err(WireError::TooMuchRecursion(v)) && v@ == ch),
    {
        let ghost buf0 = self.buf@;
        let ghost p0 = self.pos as int;
        let mut acc: Vec<u8> = Vec::new();
        let mut visited: Vec<u16> = Vec::new();
        let mut wpos: usize = self.pos;
        let mut end: Option<usize> = None;
        loop
            invariant
                buf0 == old(self).buf@,
                p0 == old(self).pos,
                self.buf@ == buf0,
                self.pos == p0,
                visited@.len() <= MAX_POINTER_CHAIN,
                end matches Some(e) ==> e <= buf0.len(),
                walk(buf0, p0, Seq::empty(), Seq::empty(), None) == walk(
                    buf0,
                    wpos as int,
                    visited@,
                    acc@,
                    match end {
                        Some(e) => Some(e as int),
                        None => None,
                    },
                ),
            decreases MAX_POINTER_CHAIN - visited@.len(), buf0.len() - wpos,
        {
            let ghost spec_end: Option<int> = match end {
                Some(e) => Some(e as int),
                None => None,
            };
            if wpos >= self.buf.len() {
                return Err(WireError::IO);
            }
            let b = self.buf[wpos];
            if b == 0 {
                let newpos = match end {
                    Some(e) => e,
                    None => wpos + 1,
                };
                self.pos = newpos;
                let s = bytes_to_string(&acc);
                return Ok(s);
            } else if b >= 0xC0 {
                if wpos + 1 >= self.buf.len() {
                    return Err(WireError::IO);
                }
                let b2 = self.buf[wpos + 1];
                let target: u16 = ((b - 0xC0) as u16) * 256 + (b2 as u16);
                if target as usize >= self.buf.len() {
                    return Err(WireError::OutOfBounds(target));
                }
                let seen = contains_u16(&visited, target);
                if seen || visited.len() >= MAX_POINTER_CHAIN {
                    visited.push(target);
                    return Err(WireError::TooMuchRecursion(visited));
                }
                visited.push(target);
                end = match end {
                    Some(e) => Some(e),
                    None => Some(wpos + 2),
                };
                wpos = target as usize;
            } else {
                let lab_len = b as usize;
                if lab_len > self.buf.len() - (wpos + 1) {
                    return Err(WireError::IO);
                }
                let ghost acc_before = acc@;
                if acc.len() > 0 {
                    acc.push(DOT);
                }
                let buf_len = self.buf.len();
                let mut j: usize = 0;
                while j < lab_len
                    invariant
                        self.buf@ == buf0,
                        j <= lab_len,
                        buf_len == buf0.len(),
                        wpos + 1 + lab_len <= buf_len,
                        acc@ == (if acc_before.len() == 0 {
                            Seq::<u8>::empty()
                        } else {
                            acc_before + seq![DOT]
                        }) + buf0.subrange(wpos + 1, wpos + 1 + j),
                    decreases lab_len - j,
                {
                    let byte = self.buf[wpos + 1 + j];
                    acc.push(byte);
                    proof {
                        assert(buf0.subrange(wpos + 1, wpos + 1 + j + 1) =~= buf0.subrange(
                            wpos + 1,
                            wpos + 1 + j,
                        ).push(byte));
                    }
                    j = j + 1;
                }
                proof {
                    let label = buf0.subrange(wpos + 1, wpos + 1 + b);
                    assert(acc@ =~= if acc_before.len() == 0 {
                        label
                    } else {
                        acc_before + seq![DOT] + label
                    });
                }
                wpos = wpos + 1 + lab_len;
            }
        }
    }
}

} // verus!
