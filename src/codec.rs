//! The byte layout of stored records: little-endian integers, and texts as
//! a 32-bit byte count followed by their UTF-8 bytes.
use vstd::bytes::*;
use vstd::prelude::*;
use vstd::slice::slice_subrange;
use vstd::utf8::*;

verus! {

broadcast use vstd::seq::group_seq_axioms;

/// The largest number of bytes that one stored record may take.
pub const MAX_RECORD_SIZE: usize = 2048;

/// `e` stands in `b` from position `pos` on.
pub open spec fn has_at(b: Seq<u8>, pos: int, e: Seq<u8>) -> bool {
    &&& 0 <= pos
    &&& pos + e.len() <= b.len()
    &&& b.subrange(pos, pos + e.len()) == e
}

/// Where a concatenation stands, each of its two parts stands.
pub broadcast proof fn lemma_has_at_split(b: Seq<u8>, pos: int, x: Seq<u8>, y: Seq<u8>)
    requires
        #[trigger] has_at(b, pos, x + y),
    ensures
        has_at(b, pos, x),
        has_at(b, pos + x.len(), y),
{
    assert(b.subrange(pos, pos + x.len()) =~= x) by {
        assert forall|i: int| 0 <= i < x.len() implies b.subrange(pos, pos + x.len())[i] == x[i] by {
            assert(b.subrange(pos, pos + (x + y).len())[i] == (x + y)[i]);
        }
    }
    assert(b.subrange(pos + x.len(), pos + x.len() + y.len()) =~= y) by {
        assert forall|i: int| 0 <= i < y.len() implies b.subrange(
            pos + x.len(),
            pos + x.len() + y.len(),
        )[i] == y[i] by {
            assert(b.subrange(pos, pos + (x + y).len())[x.len() + i] == (x + y)[x.len() + i]);
        }
    }
}

pub open spec fn enc_u64(v: u64) -> Seq<u8> {
    spec_u64_to_le_bytes(v)
}

pub open spec fn enc_u32(v: u32) -> Seq<u8> {
    spec_u32_to_le_bytes(v)
}

/// A text: its UTF-8 byte count on four bytes, then those bytes.
pub open spec fn enc_text(s: Seq<char>) -> Seq<u8> {
    enc_u32(encode_utf8(s).len() as u32) + encode_utf8(s)
}

/// The texts of a list one after the other, without their count.
pub open spec fn enc_text_run(ss: Seq<Seq<char>>) -> Seq<u8>
    decreases ss.len(),
{
    if ss.len() == 0 {
        Seq::empty()
    } else {
        enc_text_run(ss.drop_last()) + enc_text(ss.last())
    }
}

/// A list of texts: their count on four bytes, then the texts.
pub open spec fn enc_texts(ss: Seq<Seq<char>>) -> Seq<u8> {
    enc_u32(ss.len() as u32) + enc_text_run(ss)
}

pub proof fn lemma_int_sizes()
    ensures
        forall|v: u64| #[trigger] enc_u64(v).len() == 8,
        forall|v: u32| #[trigger] enc_u32(v).len() == 4,
{
    lemma_auto_spec_u64_to_from_le_bytes();
    lemma_auto_spec_u32_to_from_le_bytes();
}

/// Each text of a run takes at least four bytes of it, and its UTF-8 bytes
/// are no longer than the run.
pub proof fn lemma_run_bounds(ss: Seq<Seq<char>>)
    ensures
        enc_text_run(ss).len() >= 4 * ss.len(),
        forall|k: int| 0 <= k < ss.len() ==> encode_utf8(#[trigger] ss[k]).len() <= enc_text_run(ss).len(),
    decreases ss.len(),
{
    lemma_int_sizes();
    if ss.len() > 0 {
        lemma_run_bounds(ss.drop_last());
        assert forall|k: int| 0 <= k < ss.len() implies encode_utf8(#[trigger] ss[k]).len() <= enc_text_run(ss).len() by {
            if k < ss.len() - 1 {
                assert(ss.drop_last()[k] == ss[k]);
            }
        }
    }
}

/// The run of the first `i` texts is where the run of all of them starts.
proof fn lemma_run_prefix(ss: Seq<Seq<char>>, i: int)
    requires
        0 <= i <= ss.len(),
    ensures
        enc_text_run(ss) == enc_text_run(ss.take(i)) + enc_text_run(ss).subrange(
            enc_text_run(ss.take(i)).len() as int,
            enc_text_run(ss).len() as int,
        ),
    decreases ss.len(),
{
    if i == ss.len() {
        assert(ss.take(i) =~= ss);
        assert(enc_text_run(ss) =~= enc_text_run(ss) + Seq::<u8>::empty());
    } else {
        let d = ss.drop_last();
        assert(d.take(i) =~= ss.take(i));
        lemma_run_prefix(d, i);
        let a = enc_text_run(ss.take(i));
        let r = enc_text_run(d);
        assert(enc_text_run(ss) == r + enc_text(ss.last()));
        assert(enc_text_run(ss) =~= a + enc_text_run(ss).subrange(
            a.len() as int,
            enc_text_run(ss).len() as int,
        ));
    }
}

pub fn push_u64(buf: &mut Vec<u8>, v: u64)
    ensures
        final(buf)@ == old(buf)@ + enc_u64(v),
{
    let mut bytes = u64_to_le_bytes(v);
    buf.append(&mut bytes);
}

pub fn push_u32(buf: &mut Vec<u8>, v: u32)
    ensures
        final(buf)@ == old(buf)@ + enc_u32(v),
{
    let mut bytes = u32_to_le_bytes(v);
    buf.append(&mut bytes);
}

pub fn push_text(buf: &mut Vec<u8>, s: &String)
    requires
        encode_utf8(s@).len() <= u32::MAX,
    ensures
        final(buf)@ == old(buf)@ + enc_text(s@),
{
    let bytes = s.as_str().as_bytes();
    push_u32(buf, bytes.len() as u32);
    let mut i: usize = 0;
    let ghost start = buf@;
    while i < bytes.len()
        invariant
            0 <= i <= bytes@.len(),
            bytes@ == encode_utf8(s@),
            buf@ == start + bytes@.take(i as int),
        decreases bytes@.len() - i,
    {
        buf.push(bytes[i]);
        i = i + 1;
        assert(buf@ =~= start + bytes@.take(i as int));
    }
    assert(bytes@.take(i as int) =~= bytes@);
    assert(buf@ =~= old(buf)@ + enc_text(s@));
}

pub fn push_texts(buf: &mut Vec<u8>, ss: &Vec<String>)
    requires
        ss@.len() <= u32::MAX,
        forall|k: int| 0 <= k < ss@.len() ==> encode_utf8(#[trigger] ss@[k]@).len() <= u32::MAX,
    ensures
        final(buf)@ == old(buf)@ + enc_texts(ss@.map_values(|s: String| s@)),
{
    let ghost views = ss@.map_values(|s: String| s@);
    push_u32(buf, ss.len() as u32);
    let ghost start = buf@;
    let mut i: usize = 0;
    while i < ss.len()
        invariant
            0 <= i <= ss@.len(),
            views == ss@.map_values(|s: String| s@),
            forall|k: int| 0 <= k < ss@.len() ==> encode_utf8(#[trigger] ss@[k]@).len() <= u32::MAX,
            buf@ == start + enc_text_run(views.take(i as int)),
        decreases ss@.len() - i,
    {
        push_text(buf, &ss[i]);
        assert(views.take(i + 1).drop_last() =~= views.take(i as int));
        i = i + 1;
        assert(buf@ =~= start + enc_text_run(views.take(i as int)));
    }
    assert(views.take(i as int) =~= views);
    assert(buf@ =~= old(buf)@ + enc_texts(views));
}

/// Adds the stored size of a text to `acc`, saturating just above the
/// record bound.
pub fn add_text_size(acc: usize, s: &String) -> (r: usize)
    requires
        acc <= MAX_RECORD_SIZE + 1,
    ensures
        r <= MAX_RECORD_SIZE + 1,
        r <= MAX_RECORD_SIZE <==> acc + enc_text(s@).len() <= MAX_RECORD_SIZE,
        r <= MAX_RECORD_SIZE ==> r == acc + enc_text(s@).len(),
{
    proof {
        lemma_int_sizes();
    }
    let n = s.as_str().as_bytes().len();
    if n > MAX_RECORD_SIZE || acc + 4 + n > MAX_RECORD_SIZE {
        MAX_RECORD_SIZE + 1
    } else {
        acc + 4 + n
    }
}

pub fn read_u64(b: &[u8], pos: usize, Ghost(v): Ghost<u64>) -> (r: u64)
    requires
        has_at(b@, pos as int, enc_u64(v)),
    ensures
        r == v,
{
    proof {
        lemma_auto_spec_u64_to_from_le_bytes();
    }
    let len = b.len();
    assert(pos + 8 <= len);
    u64_from_le_bytes(slice_subrange(b, pos, pos + 8))
}

pub fn read_u32(b: &[u8], pos: usize, Ghost(v): Ghost<u32>) -> (r: u32)
    requires
        has_at(b@, pos as int, enc_u32(v)),
    ensures
        r == v,
{
    proof {
        lemma_auto_spec_u32_to_from_le_bytes();
    }
    let len = b.len();
    assert(pos + 4 <= len);
    u32_from_le_bytes(slice_subrange(b, pos, pos + 4))
}

/// Relies on `String::from_utf8`: it accepts exactly the valid UTF-8 byte
/// strings, and the text it gives back is made of those bytes.
#[verifier::external_body]
fn text_from_utf8(b: &[u8]) -> (r: Option<String>)
    ensures
        r is Some <==> valid_utf8(b@),
        r matches Some(s) ==> encode_utf8(s@) == b@,
{
    String::from_utf8(b.to_vec()).ok()
}

pub fn read_text(b: &[u8], pos: usize, Ghost(t): Ghost<Seq<char>>) -> (r: (String, usize))
    requires
        has_at(b@, pos as int, enc_text(t)),
        encode_utf8(t).len() <= u32::MAX,
    ensures
        r.0@ == t,
        r.1 == pos + enc_text(t).len(),
{
    proof {
        lemma_int_sizes();
        lemma_has_at_split(b@, pos as int, enc_u32(encode_utf8(t).len() as u32), encode_utf8(t));
    }
    let n = read_u32(b, pos, Ghost(encode_utf8(t).len() as u32));
    let len = b.len();
    assert(pos + enc_text(t).len() <= len);
    let start = pos + 4;
    let end = start + n as usize;
    let piece = slice_subrange(b, start, end);
    proof {
        encode_utf8_valid_utf8(t);
    }
    match text_from_utf8(piece) {
        Some(s) => {
            proof {
                encode_utf8_decode_utf8(t);
                encode_utf8_decode_utf8(s@);
            }
            (s, end)
        },
        None => (String::new(), end),
    }
}

pub fn read_texts(b: &[u8], pos: usize, Ghost(ts): Ghost<Seq<Seq<char>>>) -> (r: (
    Vec<String>,
    usize,
))
    requires
        has_at(b@, pos as int, enc_texts(ts)),
        ts.len() <= u32::MAX,
        b@.len() <= u32::MAX,
    ensures
        r.0@.map_values(|s: String| s@) == ts,
        r.1 == pos + enc_texts(ts).len(),
{
    proof {
        lemma_int_sizes();
        lemma_has_at_split(b@, pos as int, enc_u32(ts.len() as u32), enc_text_run(ts));
    }
    let n = read_u32(b, pos, Ghost(ts.len() as u32));
    let ghost run_start = pos + 4;
    let mut at: usize = pos + 4;
    let mut out: Vec<String> = Vec::new();
    let mut i: u32 = 0;
    while i < n
        invariant
            0 <= i <= n,
            n == ts.len(),
            b@.len() <= u32::MAX,
            has_at(b@, run_start, enc_text_run(ts)),
            at == run_start + enc_text_run(ts.take(i as int)).len(),
            out@.map_values(|s: String| s@) == ts.take(i as int),
        decreases n - i,
    {
        let ghost run = enc_text_run(ts);
        let ghost before = enc_text_run(ts.take(i as int));
        let ghost upto = enc_text_run(ts.take(i + 1));
        proof {
            assert(ts.take(i + 1).drop_last() =~= ts.take(i as int));
            assert(upto == before + enc_text(ts[i as int]));
            lemma_run_prefix(ts, i + 1);
            lemma_has_at_split(b@, run_start, upto, run.subrange(upto.len() as int, run.len() as int));
            lemma_has_at_split(b@, run_start, before, enc_text(ts[i as int]));
            assert(encode_utf8(ts[i as int]).len() <= u32::MAX) by {
                assert(enc_text(ts[i as int]).len() <= b@.len());
            }
        }
        let (s, next) = read_text(b, at, Ghost(ts[i as int]));
        out.push(s);
        at = next;
        i = i + 1;
        assert(out@.map_values(|s: String| s@) =~= ts.take(i as int));
    }
    assert(ts.take(i as int) =~= ts);
    (out, at)
}

/// An optional text: a byte 0 for none, or a byte 1 and the text.
pub open spec fn enc_opt_text(o: Option<Seq<char>>) -> Seq<u8> {
    match o {
        None => seq![0u8],
        Some(s) => seq![1u8] + enc_text(s),
    }
}

pub fn push_opt_text(buf: &mut Vec<u8>, o: &Option<String>)
    requires
        o matches Some(s) ==> encode_utf8(s@).len() <= u32::MAX,
    ensures
        final(buf)@ == old(buf)@ + enc_opt_text(
            match o {
                Some(s) => Some(s@),
                None => None,
            },
        ),
{
    match o {
        None => {
            buf.push(0u8);
        },
        Some(s) => {
            buf.push(1u8);
            push_text(buf, s);
            assert(buf@ =~= old(buf)@ + (seq![1u8] + enc_text(s@)));
        },
    }
}

pub fn read_opt_text(b: &[u8], pos: usize, Ghost(o): Ghost<Option<Seq<char>>>) -> (r: (
    Option<String>,
    usize,
))
    requires
        has_at(b@, pos as int, enc_opt_text(o)),
        o matches Some(t) ==> encode_utf8(t).len() <= u32::MAX,
    ensures
        match (r.0, o) {
            (None, None) => true,
            (Some(s), Some(t)) => s@ == t,
            _ => false,
        },
        r.1 == pos + enc_opt_text(o).len(),
{
    assert(b@.subrange(pos as int, pos + enc_opt_text(o).len())[0] == b@[pos as int]);
    if b[pos] == 0 {
        (None, pos + 1)
    } else {
        let ghost t = o->Some_0;
        proof {
            lemma_has_at_split(b@, pos as int, seq![1u8], enc_text(t));
        }
        let (s, next) = read_text(b, pos + 1, Ghost(t));
        (Some(s), next)
    }
}

/// The bytes up to `q` are those up to `p` followed by those from `p` to `q`.
pub proof fn lemma_prefix_extend(b: Seq<u8>, p: int, q: int)
    requires
        0 <= p <= q <= b.len(),
    ensures
        b.subrange(0, q) == b.subrange(0, p) + b.subrange(p, q),
{
    assert(b.subrange(0, q) =~= b.subrange(0, p) + b.subrange(p, q));
}

/// Reads eight bytes at `pos` as an integer, if there are eight. When the
/// bytes of `v` stand there, it reads `v`.
pub fn take_u64(b: &[u8], pos: usize, Ghost(v): Ghost<u64>) -> (r: Option<(u64, usize)>)
    requires
        pos <= b@.len(),
    ensures
        r matches Some((w, p)) ==> p == pos + 8 && p <= b@.len() && b@.subrange(pos as int, p as int)
            == enc_u64(w),
        has_at(b@, pos as int, enc_u64(v)) ==> r == Some((v, (pos + 8) as usize)),
{
    proof {
        lemma_auto_spec_u64_to_from_le_bytes();
    }
    let len = b.len();
    if len - pos < 8 {
        return None;
    }
    let piece = slice_subrange(b, pos, pos + 8);
    let w = u64_from_le_bytes(piece);
    Some((w, pos + 8))
}

/// Reads four bytes at `pos` as an integer, if there are four. When the
/// bytes of `v` stand there, it reads `v`.
pub fn take_u32(b: &[u8], pos: usize, Ghost(v): Ghost<u32>) -> (r: Option<(u32, usize)>)
    requires
        pos <= b@.len(),
    ensures
        r matches Some((w, p)) ==> p == pos + 4 && p <= b@.len() && b@.subrange(pos as int, p as int)
            == enc_u32(w),
        has_at(b@, pos as int, enc_u32(v)) ==> r == Some((v, (pos + 4) as usize)),
{
    proof {
        lemma_auto_spec_u32_to_from_le_bytes();
    }
    let len = b.len();
    if len - pos < 4 {
        return None;
    }
    let piece = slice_subrange(b, pos, pos + 4);
    let w = u32_from_le_bytes(piece);
    Some((w, pos + 4))
}

/// Reads a text at `pos`, if its count fits in what is left and its bytes
/// are valid UTF-8. When the bytes of `t` stand there, it reads `t`.
pub fn take_text(b: &[u8], pos: usize, Ghost(t): Ghost<Seq<char>>) -> (r: Option<(String, usize)>)
    requires
        pos <= b@.len(),
    ensures
        r matches Some((s, p)) ==> pos <= p <= b@.len() && b@.subrange(pos as int, p as int)
            == enc_text(s@),
        has_at(b@, pos as int, enc_text(t)) && b@.len() <= u32::MAX ==> (r matches Some((s, p))
            && s@ == t && p == pos + enc_text(t).len()),
{
    let ghost fits = has_at(b@, pos as int, enc_text(t)) && b@.len() <= u32::MAX;
    let ghost size = encode_utf8(t).len();
    proof {
        lemma_int_sizes();
        encode_utf8_valid_utf8(t);
        encode_utf8_decode_utf8(t);
        if fits {
            lemma_has_at_split(b@, pos as int, enc_u32(size as u32), encode_utf8(t));
        }
    }
    let (n, start) = match take_u32(b, pos, Ghost(size as u32)) {
        Some(x) => x,
        None => {
            return None;
        },
    };
    let len = b.len();
    if ((len - start) as u64) < (n as u64) {
        return None;
    }
    let end = start + n as usize;
    let piece = slice_subrange(b, start, end);
    match text_from_utf8(piece) {
        Some(s) => {
            proof {
                encode_utf8_decode_utf8(s@);
                lemma_prefix_extend(b@.subrange(pos as int, end as int), 4, (end - pos) as int);
                assert(b@.subrange(pos as int, end as int).subrange(0, 4) =~= b@.subrange(
                    pos as int,
                    start as int,
                ));
                assert(b@.subrange(pos as int, end as int).subrange(4, (end - pos) as int)
                    =~= piece@);
                assert(b@.subrange(pos as int, end as int).subrange(0, (end - pos) as int)
                    =~= b@.subrange(pos as int, end as int));
            }
            Some((s, end))
        },
        None => None,
    }
}

/// Reads a list of texts at `pos`, if all of it is there. When the bytes
/// of `ts` stand there, it reads `ts`.
pub fn take_texts(b: &[u8], pos: usize, Ghost(ts): Ghost<Seq<Seq<char>>>) -> (r: Option<
    (Vec<String>, usize),
>)
    requires
        pos <= b@.len(),
    ensures
        r matches Some((ss, p)) ==> pos <= p <= b@.len() && b@.subrange(pos as int, p as int)
            == enc_texts(ss@.map_values(|s: String| s@)),
        has_at(b@, pos as int, enc_texts(ts)) && b@.len() <= u32::MAX ==> (r matches Some((ss, p))
            && ss@.map_values(|s: String| s@) == ts && p == pos + enc_texts(ts).len()),
{
    let ghost fits = has_at(b@, pos as int, enc_texts(ts)) && b@.len() <= u32::MAX;
    proof {
        lemma_int_sizes();
        lemma_run_bounds(ts);
        if fits {
            lemma_has_at_split(b@, pos as int, enc_u32(ts.len() as u32), enc_text_run(ts));
        }
    }
    let (n, start) = match take_u32(b, pos, Ghost(#[verifier::truncate] (ts.len() as u32))) {
        Some(x) => x,
        None => {
            return None;
        },
    };
    let mut out: Vec<String> = Vec::new();
    let mut at = start;
    let mut i: u32 = 0;
    while i < n
        invariant
            0 <= i <= n,
            pos + 4 == start,
            fits == (has_at(b@, pos as int, enc_texts(ts)) && b@.len() <= u32::MAX),
            start <= at <= b@.len(),
            out@.len() == i,
            b@.subrange(start as int, at as int) == enc_text_run(
                out@.map_values(|s: String| s@),
            ),
            fits ==> n == ts.len() && has_at(b@, start as int, enc_text_run(ts)) && b@.len()
                <= u32::MAX,
            fits ==> out@.map_values(|s: String| s@) == ts.take(i as int) && at == start
                + enc_text_run(ts.take(i as int)).len(),
        decreases n - i,
    {
        proof {
            assert(fits ==> has_at(b@, at as int, enc_text(ts[i as int]))) by {
                if fits {
                let run = enc_text_run(ts);
                let before = enc_text_run(ts.take(i as int));
                let upto = enc_text_run(ts.take(i + 1));
                assert(ts.take(i + 1).drop_last() =~= ts.take(i as int));
                assert(upto == before + enc_text(ts[i as int]));
                lemma_run_prefix(ts, i + 1);
                lemma_has_at_split(
                    b@,
                    start as int,
                    upto,
                    run.subrange(upto.len() as int, run.len() as int),
                );
                lemma_has_at_split(b@, start as int, before, enc_text(ts[i as int]));
                }
            }
        }
        let (s, next) = match take_text(b, at, Ghost(ts[i as int])) {
            Some(x) => x,
            None => {
                return None;
            },
        };
        proof {
            let before = out@.map_values(|s: String| s@);
            lemma_prefix_extend(
                b@.subrange(start as int, next as int),
                (at - start) as int,
                (next - start) as int,
            );
            assert(b@.subrange(start as int, next as int).subrange(0, (at - start) as int)
                =~= b@.subrange(start as int, at as int));
            assert(b@.subrange(start as int, next as int).subrange(
                (at - start) as int,
                (next - start) as int,
            ) =~= b@.subrange(at as int, next as int));
            assert(b@.subrange(start as int, next as int).subrange(0, (next - start) as int)
                =~= b@.subrange(start as int, next as int));
            assert(out@.push(s).map_values(|s: String| s@).drop_last() =~= before);
            if fits {
                assert(out@.push(s).map_values(|s: String| s@) =~= ts.take(i + 1));
                assert(ts.take(i + 1).drop_last() =~= ts.take(i as int));
            }
        }
        out.push(s);
        at = next;
        i = i + 1;
    }
    proof {
        lemma_prefix_extend(b@.subrange(pos as int, at as int), 4, (at - pos) as int);
        assert(b@.subrange(pos as int, at as int).subrange(0, 4) =~= b@.subrange(
            pos as int,
            start as int,
        ));
        assert(b@.subrange(pos as int, at as int).subrange(4, (at - pos) as int) =~= b@.subrange(
            start as int,
            at as int,
        ));
        assert(b@.subrange(pos as int, at as int).subrange(0, (at - pos) as int) =~= b@.subrange(
            pos as int,
            at as int,
        ));
        if fits {
            assert(ts.take(i as int) =~= ts);
        }
    }
    Some((out, at))
}

/// Reads an optional text at `pos`, if it is well formed. When the bytes of
/// `o` stand there, it reads `o`.
pub fn take_opt_text(b: &[u8], pos: usize, Ghost(o): Ghost<Option<Seq<char>>>) -> (r: Option<
    (Option<String>, usize),
>)
    requires
        pos <= b@.len(),
    ensures
        r matches Some((x, p)) ==> pos <= p <= b@.len() && b@.subrange(pos as int, p as int)
            == enc_opt_text(
            match x {
                Some(s) => Some(s@),
                None => None,
            },
        ),
        has_at(b@, pos as int, enc_opt_text(o)) && b@.len() <= u32::MAX ==> (r matches Some((x, p))
            && p == pos + enc_opt_text(o).len() && match x {
            Some(s) => o == Some(s@),
            None => o is None,
        }),
{
    let ghost fits = has_at(b@, pos as int, enc_opt_text(o)) && b@.len() <= u32::MAX;
    let ghost t = match o {
        Some(t) => t,
        None => Seq::empty(),
    };
    proof {
        if fits {
            assert(b@.subrange(pos as int, pos + enc_opt_text(o).len())[0] == b@[pos as int]);
            if o is Some {
                lemma_has_at_split(b@, pos as int, seq![1u8], enc_text(t));
            }
        }
    }
    let len = b.len();
    if pos == len {
        return None;
    }
    let tag = b[pos];
    if tag == 0 {
        assert(b@.subrange(pos as int, pos + 1) =~= seq![0u8]);
        Some((None, pos + 1))
    } else if tag == 1 {
        match take_text(b, pos + 1, Ghost(t)) {
            Some((s, next)) => {
                proof {
                    assert(b@.subrange(pos as int, next as int) =~= seq![1u8] + b@.subrange(
                        pos + 1,
                        next as int,
                    ));
                }
                Some((Some(s), next))
            },
            None => None,
        }
    } else {
        None
    }
}

/// What was read up to `pos` and what was read from `pos` to `q` make up
/// what was read up to `q`.
pub proof fn lemma_grow(b: Seq<u8>, pos: int, q: int, prefix: Seq<u8>, e: Seq<u8>)
    requires
        0 <= pos <= q <= b.len(),
        b.subrange(0, pos) == prefix,
        b.subrange(pos, q) == e,
    ensures
        b.subrange(0, q) == prefix + e,
{
    lemma_prefix_extend(b, pos, q);
}

/// Two integers with the same bytes are the same.
pub proof fn lemma_u64_injective(a: u64, b: u64)
    requires
        enc_u64(a) == enc_u64(b),
    ensures
        a == b,
{
    lemma_auto_spec_u64_to_from_le_bytes();
}

} // verus!
