//! Reassembly of UTF-8 text that arrives in raw chunks, where a chunk may end
//! in the middle of a multi-byte character.

use vstd::prelude::*;
use vstd::utf8::*;

verus! {

/// Most bytes held back from one chunk for the next: the longest encoding of
/// one character.
pub const MAX_CARRY: usize = 4;

/// `k` is the length of the longest prefix of `b` that is valid UTF-8.
pub open spec fn is_longest_valid_prefix(b: Seq<u8>, k: int) -> bool {
    &&& 0 <= k <= b.len()
    &&& valid_utf8(b.subrange(0, k))
    &&& forall|j: int| k < j <= b.len() ==> !valid_utf8(#[trigger] b.subrange(0, j))
}

/// The length of the longest prefix of `b` that is valid UTF-8.
pub open spec fn valid_up_to(b: Seq<u8>) -> int {
    choose|k: int| is_longest_valid_prefix(b, k)
}

/// The bytes that one step works on: those held back, then the new chunk.
pub open spec fn step_data(carry: Seq<u8>, chunk: Seq<u8>) -> Seq<u8> {
    carry + chunk
}

/// The bytes after the longest valid prefix of what one step works on.
pub open spec fn step_rest(carry: Seq<u8>, chunk: Seq<u8>) -> Seq<u8> {
    let data = step_data(carry, chunk);
    data.subrange(valid_up_to(data), data.len() as int)
}

/// The text that one step emits: the longest valid prefix, decoded.
pub open spec fn step_text(carry: Seq<u8>, chunk: Seq<u8>) -> Seq<char> {
    let data = step_data(carry, chunk);
    decode_utf8(data.subrange(0, valid_up_to(data)))
}

/// The bytes held back after one step: the undecodable rest when it could
/// still be the start of a character, and nothing when it is too long for that.
pub open spec fn step_carry(carry: Seq<u8>, chunk: Seq<u8>) -> Seq<u8> {
    let rest = step_rest(carry, chunk);
    if rest.len() <= MAX_CARRY {
        rest
    } else {
        Seq::empty()
    }
}

/// How many bytes one step throws away as malformed.
pub open spec fn step_dropped(carry: Seq<u8>, chunk: Seq<u8>) -> nat {
    let rest = step_rest(carry, chunk);
    if rest.len() <= MAX_CARRY {
        0
    } else {
        rest.len()
    }
}

/// Relies on std::str::from_utf8, which accepts exactly the valid UTF-8 byte
/// strings, and on Utf8Error::valid_up_to, the largest index up to which the
/// input is valid UTF-8.
#[verifier::external_body]
fn utf8_valid_up_to(bytes: &[u8]) -> (k: usize)
    ensures
        is_longest_valid_prefix(bytes@, k as int),
{
    match std::str::from_utf8(bytes) {
        Ok(_) => bytes.len(),
        Err(e) => e.valid_up_to(),
    }
}

/// Relies on String::from_utf8: it succeeds exactly on valid UTF-8, and the
/// string then holds the characters those bytes encode.
#[verifier::external_body]
fn utf8_into_string(bytes: Vec<u8>) -> (r: Option<String>)
    ensures
        r is Some <==> valid_utf8(bytes@),
        r matches Some(s) ==> s@ == decode_utf8(bytes@),
{
    String::from_utf8(bytes).ok()
}

/// What one chunk gave: the text to emit, and how many malformed bytes were
/// thrown away (none in the usual case).
pub struct DecodedChunk {
    pub text: String,
    pub dropped: usize,
}

/// Holds the bytes of a character that a chunk cut short, until the next
/// chunk completes it.
pub struct Utf8BoundaryDecoder {
    carry: Vec<u8>,
}

impl View for Utf8BoundaryDecoder {
    type V = Seq<u8>;

    closed spec fn view(&self) -> Seq<u8> {
        self.carry@
    }
}

impl Utf8BoundaryDecoder {
    /// The bytes held back never exceed one character's encoding.
    pub open spec fn wf(&self) -> bool {
        self@.len() <= MAX_CARRY
    }

    /// A decoder that holds nothing back.
    pub fn new() -> (r: Self)
        ensures
            r@ == Seq::<u8>::empty(),
            r.wf(),
    {
        Utf8BoundaryDecoder { carry: Vec::new() }
    }

    /// The bytes held back from earlier chunks.
    pub fn pending(&self) -> (r: &[u8])
        ensures
            r@ == self@,
    {
        self.carry.as_slice()
    }

    /// Takes the next raw chunk. Emits the longest valid prefix of the held
    /// bytes followed by the chunk, decoded; holds back the rest when it is
    /// short enough to be a cut character, and throws it away otherwise.
    pub fn push(&mut self, chunk: &[u8]) -> (r: DecodedChunk)
        requires
            old(self)@.len() + chunk@.len() <= usize::MAX,
        ensures
            r.text@ == step_text(old(self)@, chunk@),
            final(self)@ == step_carry(old(self)@, chunk@),
            r.dropped as nat == step_dropped(old(self)@, chunk@),
            final(self).wf(),
    {
        let ghost carry0 = self@;
        let mut data: Vec<u8> = Vec::new();
        data.append(&mut self.carry);
        let mut i: usize = 0;
        while i < chunk.len()
            invariant
                i <= chunk@.len(),
                data@ == carry0 + chunk@.subrange(0, i as int),
            decreases chunk@.len() - i,
        {
            data.push(chunk[i]);
            i = i + 1;
            assert(data@ =~= carry0 + chunk@.subrange(0, i as int));
        }
        assert(chunk@.subrange(0, chunk@.len() as int) =~= chunk@);
        let ghost all = data@;
        assert(all == step_data(carry0, chunk@));
        let k = utf8_valid_up_to(data.as_slice());
        proof {
            lemma_longest_valid_prefix_unique(all, k as int);
        }
        let rest = data.split_off(k);
        let dropped: usize;
        if rest.len() <= MAX_CARRY {
            self.carry = rest;
            dropped = 0;
        } else {
            self.carry = Vec::new();
            dropped = rest.len();
        }
        let text = match utf8_into_string(data) {
            Some(t) => t,
            None => String::new(),
        };
        assert(self@ =~= step_carry(carry0, chunk@));
        DecodedChunk { text, dropped }
    }
}

/// Only one length is the longest valid prefix.
pub proof fn lemma_longest_valid_prefix_unique(b: Seq<u8>, k: int)
    requires
        is_longest_valid_prefix(b, k),
    ensures
        valid_up_to(b) == k,
{
    let c = valid_up_to(b);
    assert(is_longest_valid_prefix(b, c));
    if c < k {
        assert(!valid_utf8(b.subrange(0, k)));
    }
    if k < c {
        assert(!valid_utf8(b.subrange(0, c)));
    }
}

proof fn lemma_longest_below(b: Seq<u8>, hi: int) -> (k: int)
    requires
        0 <= hi <= b.len(),
    ensures
        0 <= k <= hi,
        valid_utf8(b.subrange(0, k)),
        forall|j: int| k < j <= hi ==> !valid_utf8(#[trigger] b.subrange(0, j)),
    decreases hi,
{
    if hi == 0 {
        assert(b.subrange(0, 0) =~= Seq::<u8>::empty());
        0
    } else if valid_utf8(b.subrange(0, hi)) {
        hi
    } else {
        lemma_longest_below(b, hi - 1)
    }
}

/// Every byte string has a longest valid prefix.
pub proof fn lemma_valid_up_to(b: Seq<u8>)
    ensures
        is_longest_valid_prefix(b, valid_up_to(b)),
{
    let k = lemma_longest_below(b, b.len() as int);
    lemma_longest_valid_prefix_unique(b, k);
}

/// A run of bytes that starts with a continuation byte, and is longer than
/// one character's encoding, is thrown away whole: nothing is emitted and
/// nothing is held back.
pub proof fn lemma_orphan_continuation_run_dropped(carry: Seq<u8>, chunk: Seq<u8>)
    requires
        step_data(carry, chunk).len() > MAX_CARRY,
        is_continuation_byte(step_data(carry, chunk)[0]),
    ensures
        step_text(carry, chunk) == Seq::<char>::empty(),
        step_carry(carry, chunk) == Seq::<u8>::empty(),
        step_dropped(carry, chunk) == step_data(carry, chunk).len(),
{
    let b = step_data(carry, chunk);
    assert(b.subrange(0, 0) =~= Seq::<u8>::empty());
    assert forall|j: int| 0 < j <= b.len() implies !valid_utf8(#[trigger] b.subrange(0, j)) by {
        assert(b.subrange(0, j)[0] == b[0]);
    }
    lemma_longest_valid_prefix_unique(b, 0);
    assert(b.subrange(0, b.len() as int) =~= b);
}

/// A prefix of valid UTF-8 that is itself valid ends on a character boundary.
proof fn lemma_valid_prefix_is_boundary(a: Seq<u8>, k: int)
    requires
        valid_utf8(a),
        0 <= k <= a.len(),
        valid_utf8(a.subrange(0, k)),
    ensures
        is_char_boundary(a, k),
    decreases a.len(),
{
    if k > 0 {
        let p = a.subrange(0, k);
        assert(p[0] == a[0]);
        let n = length_of_first_scalar(a);
        assert(length_of_first_scalar(p) == n);
        assert(pop_first_scalar(p) =~= pop_first_scalar(a).subrange(0, k - n));
        lemma_valid_prefix_is_boundary(pop_first_scalar(a), k - n);
    }
}

/// Within valid UTF-8, every position is at most three bytes past a
/// character boundary.
proof fn lemma_boundary_near(a: Seq<u8>, m: int) -> (b: int)
    requires
        valid_utf8(a),
        0 <= m <= a.len(),
    ensures
        m - 3 <= b <= m,
        0 <= b,
        valid_utf8(a.subrange(0, b)),
    decreases a.len(),
{
    if m == 0 || m < length_of_first_scalar(a) {
        assert(a.subrange(0, 0) =~= Seq::<u8>::empty());
        0
    } else {
        let n = length_of_first_scalar(a);
        let tail = pop_first_scalar(a);
        let b1 = lemma_boundary_near(tail, m - n);
        let p = a.subrange(0, n + b1);
        assert(p[0] == a[0]);
        assert(n >= 2 ==> p[1] == a[1]);
        assert(n >= 3 ==> p[2] == a[2]);
        assert(n >= 4 ==> p[3] == a[3]);
        assert(valid_first_scalar(p));
        assert(pop_first_scalar(p) =~= tail.subrange(0, b1));
        n + b1
    }
}

/// A character cut by the boundary between two chunks comes out whole: from
/// a decoder that holds nothing, two chunks that together are valid UTF-8
/// give, across the two steps, exactly their text, and nothing is left held.
pub proof fn lemma_split_character_round_trip(c1: Seq<u8>, c2: Seq<u8>)
    requires
        valid_utf8(c1 + c2),
    ensures
        step_text(Seq::empty(), c1) + step_text(step_carry(Seq::empty(), c1), c2)
            == decode_utf8(c1 + c2),
        step_carry(step_carry(Seq::empty(), c1), c2) == Seq::<u8>::empty(),
        step_dropped(Seq::empty(), c1) == 0,
        step_dropped(step_carry(Seq::empty(), c1), c2) == 0,
{
    let e = Seq::<u8>::empty();
    let a = c1 + c2;
    let d1 = step_data(e, c1);
    assert(d1 =~= c1);
    lemma_valid_up_to(c1);
    let k1 = valid_up_to(c1);
    // a character boundary lies at most three bytes before the cut
    let b = lemma_boundary_near(a, c1.len() as int);
    assert(a.subrange(0, b) =~= c1.subrange(0, b));
    assert(b <= k1);
    let rest1 = c1.subrange(k1, c1.len() as int);
    assert(rest1.len() <= MAX_CARRY);
    assert(step_carry(e, c1) == rest1);
    // the valid prefix of the first chunk ends on a boundary of the whole
    assert(a.subrange(0, k1) =~= c1.subrange(0, k1));
    lemma_valid_prefix_is_boundary(a, k1);
    valid_utf8_split(a, k1);
    decode_utf8_split(a, k1);
    let d2 = step_data(rest1, c2);
    assert(d2 =~= a.subrange(k1, a.len() as int));
    assert(d2.subrange(0, d2.len() as int) =~= d2);
    lemma_longest_valid_prefix_unique(d2, d2.len() as int);
    assert(d2.subrange(d2.len() as int, d2.len() as int) =~= Seq::<u8>::empty());
}

/// The bytes of several chunks, in order.
pub open spec fn joined(chunks: Seq<Seq<u8>>) -> Seq<u8>
    decreases chunks.len(),
{
    if chunks.len() == 0 {
        Seq::empty()
    } else {
        joined(chunks.drop_last()) + chunks.last()
    }
}

/// The bytes held back after feeding `chunks`, one step each, to a decoder
/// that held nothing.
pub open spec fn run_carry(chunks: Seq<Seq<u8>>) -> Seq<u8>
    decreases chunks.len(),
{
    if chunks.len() == 0 {
        Seq::empty()
    } else {
        step_carry(run_carry(chunks.drop_last()), chunks.last())
    }
}

/// The texts emitted over that run, joined.
pub open spec fn run_text(chunks: Seq<Seq<u8>>) -> Seq<char>
    decreases chunks.len(),
{
    if chunks.len() == 0 {
        Seq::empty()
    } else {
        run_text(chunks.drop_last()) + step_text(run_carry(chunks.drop_last()), chunks.last())
    }
}

/// The bytes dropped over that run.
pub open spec fn run_dropped(chunks: Seq<Seq<u8>>) -> nat
    decreases chunks.len(),
{
    if chunks.len() == 0 {
        0
    } else {
        run_dropped(chunks.drop_last()) + step_dropped(run_carry(chunks.drop_last()), chunks.last())
    }
}

/// Over any run of chunks, valid or not, the bytes held back never exceed
/// one character's encoding: a malformed run cannot make them grow.
pub proof fn lemma_run_carry_bounded(chunks: Seq<Seq<u8>>)
    ensures
        run_carry(chunks).len() <= MAX_CARRY,
{
}

/// Within valid UTF-8 `a`, the longest valid prefixes of the first `m1` and
/// the first `m2` bytes are ordered, are prefixes of `a`, and the second ends
/// at most three bytes before `m2`.
proof fn lemma_prefix_bounds(a: Seq<u8>, m1: int, m2: int)
    requires
        valid_utf8(a),
        0 <= m1 <= m2 <= a.len(),
    ensures
        ({
            let b1 = valid_up_to(a.subrange(0, m1));
            let b2 = valid_up_to(a.subrange(0, m2));
            &&& 0 <= b1 <= m1
            &&& b1 <= b2 <= m2
            &&& m2 - b2 <= 3
            &&& valid_utf8(a.subrange(0, b1))
            &&& valid_utf8(a.subrange(0, b2))
        }),
{
    let p1 = a.subrange(0, m1);
    let p2 = a.subrange(0, m2);
    lemma_valid_up_to(p1);
    lemma_valid_up_to(p2);
    let b1 = valid_up_to(p1);
    let b2 = valid_up_to(p2);
    assert(p1.subrange(0, b1) =~= a.subrange(0, b1));
    assert(p2.subrange(0, b2) =~= a.subrange(0, b2));
    let b = lemma_boundary_near(a, m2);
    assert(p2.subrange(0, b) =~= a.subrange(0, b));
    assert(p2.subrange(0, b1) =~= a.subrange(0, b1));
}

/// Two valid prefixes of `a`, the shorter ending at `b1`: the bytes between
/// them are valid, and decode to the difference of their texts.
proof fn lemma_between_valid_prefixes(a: Seq<u8>, b1: int, b2: int)
    requires
        0 <= b1 <= b2 <= a.len(),
        valid_utf8(a.subrange(0, b1)),
        valid_utf8(a.subrange(0, b2)),
    ensures
        valid_utf8(a.subrange(b1, b2)),
        decode_utf8(a.subrange(0, b2)) == decode_utf8(a.subrange(0, b1)) + decode_utf8(
            a.subrange(b1, b2),
        ),
{
    let q = a.subrange(0, b2);
    assert(q.subrange(0, b1) =~= a.subrange(0, b1));
    lemma_valid_prefix_is_boundary(q, b1);
    valid_utf8_split(q, b1);
    decode_utf8_split(q, b1);
    assert(q.subrange(b1, b2) =~= a.subrange(b1, b2));
}

/// After a valid prefix ending at `b1`, the bytes up to `m2` are valid
/// exactly as far as the longest valid prefix of the first `m2` bytes goes.
proof fn lemma_valid_up_to_after(a: Seq<u8>, b1: int, m2: int)
    requires
        0 <= b1 <= m2 <= a.len(),
        valid_utf8(a.subrange(0, b1)),
        b1 <= valid_up_to(a.subrange(0, m2)),
        is_longest_valid_prefix(a.subrange(0, m2), valid_up_to(a.subrange(0, m2))),
        valid_utf8(a.subrange(b1, valid_up_to(a.subrange(0, m2)))),
    ensures
        valid_up_to(a.subrange(b1, m2)) == valid_up_to(a.subrange(0, m2)) - b1,
{
    let p2 = a.subrange(0, m2);
    let b2 = valid_up_to(p2);
    let d = a.subrange(b1, m2);
    assert(d.subrange(0, b2 - b1) =~= a.subrange(b1, b2));
    assert forall|j: int| b2 - b1 < j <= d.len() implies !valid_utf8(#[trigger] d.subrange(0, j)) by {
        if valid_utf8(d.subrange(0, j)) {
            valid_utf8_concat(a.subrange(0, b1), d.subrange(0, j));
            assert(a.subrange(0, b1) + d.subrange(0, j) =~= p2.subrange(0, b1 + j));
        }
    }
    lemma_longest_valid_prefix_unique(d, b2 - b1);
}

/// One step inside valid UTF-8 `a`: after the first `m1` bytes the decoder
/// holds what follows their longest valid prefix; the next `m2 - m1` bytes
/// then emit the text up to the longest valid prefix of the first `m2`, and
/// hold the rest, at most three bytes.
proof fn lemma_step_within_valid(a: Seq<u8>, m1: int, m2: int)
    requires
        valid_utf8(a),
        0 <= m1 <= m2 <= a.len(),
    ensures
        ({
            let b1 = valid_up_to(a.subrange(0, m1));
            let b2 = valid_up_to(a.subrange(0, m2));
            &&& 0 <= b1 <= b2 <= m2
            &&& valid_utf8(a.subrange(0, b2))
            &&& step_text(a.subrange(b1, m1), a.subrange(m1, m2)) == decode_utf8(a.subrange(b1, b2))
            &&& decode_utf8(a.subrange(0, b2)) == decode_utf8(a.subrange(0, b1)) + decode_utf8(
                a.subrange(b1, b2),
            )
            &&& step_carry(a.subrange(b1, m1), a.subrange(m1, m2)) == a.subrange(b2, m2)
            &&& step_dropped(a.subrange(b1, m1), a.subrange(m1, m2)) == 0
        }),
{
    lemma_prefix_bounds(a, m1, m2);
    let b1 = valid_up_to(a.subrange(0, m1));
    let b2 = valid_up_to(a.subrange(0, m2));
    lemma_between_valid_prefixes(a, b1, b2);
    lemma_valid_up_to(a.subrange(0, m2));
    lemma_valid_up_to_after(a, b1, m2);
    let d = step_data(a.subrange(b1, m1), a.subrange(m1, m2));
    assert(d =~= a.subrange(b1, m2));
    assert(d.subrange(0, b2 - b1) =~= a.subrange(b1, b2));
    assert(d.subrange(b2 - b1, d.len() as int) =~= a.subrange(b2, m2));
}

/// Feeding chunks that are a prefix of valid UTF-8 `a`: the decoder holds
/// what follows the longest valid prefix of what it was fed, and has emitted
/// that prefix's text, dropping nothing.
proof fn lemma_run_within_valid(chunks: Seq<Seq<u8>>, a: Seq<u8>)
    requires
        valid_utf8(a),
        joined(chunks).len() <= a.len(),
        a.subrange(0, joined(chunks).len() as int) == joined(chunks),
    ensures
        ({
            let j = joined(chunks);
            let b = valid_up_to(j);
            &&& run_carry(chunks) == a.subrange(b, j.len() as int)
            &&& run_text(chunks) == decode_utf8(a.subrange(0, b))
            &&& run_dropped(chunks) == 0
        }),
    decreases chunks.len(),
{
    let j = joined(chunks);
    if chunks.len() == 0 {
        lemma_valid_up_to(j);
        assert(a.subrange(0, 0) =~= Seq::<u8>::empty());
    } else {
        let prev = chunks.drop_last();
        let jp = joined(prev);
        let m1 = jp.len() as int;
        let m2 = j.len() as int;
        assert(j == jp + chunks.last());
        assert(a.subrange(0, m1) =~= jp) by {
            assert(a.subrange(0, m1) =~= a.subrange(0, m2).subrange(0, m1));
        }
        lemma_run_within_valid(prev, a);
        assert(chunks.last() =~= a.subrange(m1, m2)) by {
            assert(a.subrange(m1, m2) =~= a.subrange(0, m2).subrange(m1, m2));
        }
        lemma_step_within_valid(a, m1, m2);
        assert(a.subrange(0, m2) == j);
    }
}

/// Chunks that together are valid UTF-8, however they are cut: the texts
/// emitted, joined, are exactly the text of all the bytes, nothing is dropped,
/// and nothing is left held back.
pub proof fn lemma_stream_round_trip(chunks: Seq<Seq<u8>>)
    requires
        valid_utf8(joined(chunks)),
    ensures
        run_text(chunks) == decode_utf8(joined(chunks)),
        run_carry(chunks) == Seq::<u8>::empty(),
        run_dropped(chunks) == 0,
{
    let j = joined(chunks);
    assert(j.subrange(0, j.len() as int) =~= j);
    lemma_run_within_valid(chunks, j);
    assert forall|k: int| j.len() < k <= j.len() implies !valid_utf8(#[trigger] j.subrange(0, k)) by {}
    lemma_longest_valid_prefix_unique(j, j.len() as int);
    assert(j.subrange(j.len() as int, j.len() as int) =~= Seq::<u8>::empty());
}

} // verus!
