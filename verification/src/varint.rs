//! Length-prefixed framing: a message travels as its length, written as an
//! unsigned base-128 varint, followed by its bytes.
use vstd::prelude::*;

verus! {

/// Most bytes that a length prefix may take.
pub const MAX_PREFIX_LEN: usize = 10;

/// Base-128 digits of `n`, least significant first, one per byte; every
/// byte but the last has its high bit set.
pub open spec fn varint_encode(n: nat) -> Seq<u8>
    decreases n,
{
    if n < 128 {
        seq![n as u8]
    } else {
        seq![(n % 128 + 128) as u8] + varint_encode(n / 128)
    }
}

/// Index of the first byte below 128, the one that ends a varint.
pub open spec fn varint_end(s: Seq<u8>) -> Option<int>
    decreases s.len(),
{
    if s.len() == 0 {
        None
    } else if s[0] < 128 {
        Some(0)
    } else {
        match varint_end(s.drop_first()) {
            Some(i) => Some(i + 1),
            None => None,
        }
    }
}

/// The number whose base-128 digits, least significant first, are the low
/// seven bits of the bytes of `s`.
pub open spec fn varint_value(s: Seq<u8>) -> nat
    decreases s.len(),
{
    if s.len() == 0 {
        0
    } else {
        (s[0] % 128) as nat + 128 * varint_value(s.drop_first())
    }
}

/// What the bytes read so far say of the length of the message.
#[derive(Debug, Clone, Copy, PartialEq, Eq, Structural)]
pub enum PrefixStatus {
    /// The prefix has not ended yet: read another byte.
    Incomplete,
    /// The prefix ended after `prefix_len` bytes and announces `len` bytes.
    Complete { len: usize, prefix_len: usize },
    /// The prefix does not end within its first `MAX_PREFIX_LEN` bytes.
    Overflow,
    /// The announced length exceeds the maximum allowed.
    TooLarge,
}

/// Why a length-prefixed message could not be read.
#[derive(Debug, Clone, Copy, PartialEq, Eq, Structural)]
pub enum FrameError {
    /// The input ended inside the prefix or inside the message.
    UnexpectedEof,
    /// The prefix does not end within its first `MAX_PREFIX_LEN` bytes.
    Overflow,
    /// The announced length exceeds the maximum allowed.
    TooLarge,
}

/// The status of the bytes `s` read so far, for messages of at most `max`
/// bytes.
pub open spec fn prefix_status(s: Seq<u8>, max: nat) -> PrefixStatus {
    match varint_end(s) {
        Some(j) => if j >= MAX_PREFIX_LEN {
            PrefixStatus::Overflow
        } else if varint_value(s.take(j + 1)) > max {
            PrefixStatus::TooLarge
        } else {
            PrefixStatus::Complete {
                len: varint_value(s.take(j + 1)) as usize,
                prefix_len: (j + 1) as usize,
            }
        },
        None => if s.len() >= MAX_PREFIX_LEN {
            PrefixStatus::Overflow
        } else {
            PrefixStatus::Incomplete
        },
    }
}

/// The message that the bytes `s` carry, read as a stream that ends after
/// `s`: an input that ends before any byte carries the empty message.
pub open spec fn frame_decode(s: Seq<u8>, max: nat) -> Result<Seq<u8>, FrameError> {
    match prefix_status(s, max) {
        PrefixStatus::Incomplete => if s.len() == 0 {
            Ok(Seq::empty())
        } else {
            Err(FrameError::UnexpectedEof)
        },
        PrefixStatus::Complete { len, prefix_len } => if prefix_len + len <= s.len() {
            Ok(s.subrange(prefix_len as int, prefix_len + len))
        } else {
            Err(FrameError::UnexpectedEof)
        },
        PrefixStatus::Overflow => Err(FrameError::Overflow),
        PrefixStatus::TooLarge => Err(FrameError::TooLarge),
    }
}

/// Skipping bytes that all have their high bit set moves the end of the
/// varint by as many places.
proof fn lemma_varint_end_skip(s: Seq<u8>, j: int)
    requires
        0 <= j <= s.len(),
        forall|i: int| 0 <= i < j ==> s[i] >= 128,
    ensures
        varint_end(s) == match varint_end(s.skip(j)) {
            Some(k) => Some(k + j),
            None => None::<int>,
        },
    decreases j,
{
    if j == 0 {
        assert(s.skip(0) =~= s);
    } else {
        let t = s.drop_first();
        assert forall|i: int| 0 <= i < j - 1 implies t[i] >= 128 by {
            assert(t[i] == s[i + 1]);
        }
        lemma_varint_end_skip(t, j - 1);
        assert(t.skip(j - 1) =~= s.skip(j));
    }
}

/// A varint value only grows when digits are added in front.
proof fn lemma_varint_value_grows(s: Seq<u8>, a: int, b: int, e: int)
    requires
        0 <= a <= b <= e <= s.len(),
    ensures
        varint_value(s.subrange(a, e)) >= varint_value(s.subrange(b, e)),
    decreases b - a,
{
    if a < b {
        lemma_varint_value_grows(s, a + 1, b, e);
        assert(s.subrange(a, e).drop_first() =~= s.subrange(a + 1, e));
    }
}

/// The end of a varint lies inside the bytes.
proof fn lemma_varint_end_range(s: Seq<u8>)
    ensures
        varint_end(s) matches Some(k) ==> 0 <= k < s.len(),
    decreases s.len(),
{
    if s.len() > 0 && s[0] >= 128 {
        lemma_varint_end_range(s.drop_first());
    }
}

/// The status of the bytes read so far, for messages of at most `max`
/// bytes.
pub fn length_prefix_status(prefix: &[u8], max: usize) -> (r: PrefixStatus)
    ensures
        r == prefix_status(prefix@, max as nat),
{
    let n = prefix.len();
    let mut j: usize = 0;
    while j < n && j < MAX_PREFIX_LEN && prefix[j] >= 128
        invariant
            n == prefix@.len(),
            j <= n,
            j <= MAX_PREFIX_LEN,
            forall|i: int| 0 <= i < j ==> prefix@[i] >= 128,
        decreases n - j,
    {
        j += 1;
    }
    let ghost s = prefix@;
    proof {
        lemma_varint_end_skip(s, j as int);
        if j < n {
            assert(s.skip(j as int)[0] == s[j as int]);
        }
        if j == n {
            assert(s.skip(j as int).len() == 0);
        }
        lemma_varint_end_range(s.skip(j as int));
    }
    if j == MAX_PREFIX_LEN {
        return PrefixStatus::Overflow;
    }
    if j == n {
        return PrefixStatus::Incomplete;
    }
    // The prefix ends at index `j`; fold its digits from the last one.
    let mut v: usize = 0;
    let mut i: usize = j + 1;
    proof {
        assert(s.subrange(i as int, j + 1).len() == 0);
    }
    while i > 0
        invariant
            n == s.len(),
            j < n,
            j < MAX_PREFIX_LEN,
            i <= j + 1,
            v <= max,
            v == varint_value(s.subrange(i as int, j + 1)),
            prefix@ == s,
            varint_end(s) == Some(j as int),
        decreases i,
    {
        i -= 1;
        let low: usize = (prefix[i] % 128) as usize;
        proof {
            assert(s.subrange(i as int, j + 1).drop_first() =~= s.subrange(i + 1, j + 1));
            assert(s.subrange(i as int, j + 1)[0] == s[i as int]);
        }
        if low > max || v > (max - low) / 128 {
            proof {
                assert(low + 128 * v > max) by (nonlinear_arith)
                    requires
                        low > max || v > (max - low) / 128,
                        low <= 127,
                ;
                lemma_varint_value_grows(s, 0, i as int, j + 1);
                assert(s.subrange(0, j + 1) =~= s.take(j + 1));
            }
            return PrefixStatus::TooLarge;
        }
        proof {
            assert(low + 128 * v <= max) by (nonlinear_arith)
                requires
                    low <= max,
                    v <= (max - low) / 128,
            ;
        }
        v = low + 128 * v;
    }
    proof {
        assert(s.subrange(0, j + 1) =~= s.take(j + 1));
    }
    PrefixStatus::Complete { len: v, prefix_len: j + 1 }
}

/// Reads a whole length-prefixed message from `frame`, as a stream that ends
/// after `frame`: the bytes after the message are left unread.
pub fn decode_length_prefixed(frame: &[u8], max: usize) -> (r: Result<Vec<u8>, FrameError>)
    ensures
        match r {
            Ok(m) => frame_decode(frame@, max as nat) == Ok::<Seq<u8>, FrameError>(m@),
            Err(e) => frame_decode(frame@, max as nat) == Err::<Seq<u8>, FrameError>(e),
        },
{
    proof {
        lemma_varint_end_range(frame@);
    }
    match length_prefix_status(frame, max) {
        PrefixStatus::Incomplete => {
            if frame.len() == 0 {
                let empty: Vec<u8> = Vec::new();
                proof {
                    assert(empty@ =~= Seq::<u8>::empty());
                }
                Ok(empty)
            } else {
                Err(FrameError::UnexpectedEof)
            }
        },
        PrefixStatus::Complete { len, prefix_len } => {
            if len <= frame.len() - prefix_len {
                let body = vstd::slice::slice_subrange(frame, prefix_len, prefix_len + len);
                let out = vstd::slice::slice_to_vec(body);
                Ok(out)
            } else {
                Err(FrameError::UnexpectedEof)
            }
        },
        PrefixStatus::Overflow => Err(FrameError::Overflow),
        PrefixStatus::TooLarge => Err(FrameError::TooLarge),
    }
}

/// Writes `data` as a length-prefixed message.
pub fn encode_length_prefixed(data: &[u8]) -> (r: Vec<u8>)
    ensures
        r@ == varint_encode(data@.len()) + data@,
{
    let total = data.len();
    let mut out: Vec<u8> = Vec::new();
    let mut n: usize = total;
    while n >= 128
        invariant
            out@ + varint_encode(n as nat) == varint_encode(total as nat),
        decreases n,
    {
        let ghost before = out@;
        out.push((n % 128 + 128) as u8);
        proof {
            assert(varint_encode(n as nat) == seq![(n % 128 + 128) as u8] + varint_encode(
                (n / 128) as nat,
            ));
            assert(out@ + varint_encode((n / 128) as nat) =~= before + varint_encode(n as nat));
        }
        n = n / 128;
    }
    let ghost before = out@;
    out.push(n as u8);
    proof {
        assert(out@ =~= before + varint_encode(n as nat));
    }
    append_bytes(&mut out, data);
    out
}

/// Appends the bytes of `data` to `out`.
pub fn append_bytes(out: &mut Vec<u8>, data: &[u8])
    ensures
        final(out)@ == old(out)@ + data@,
{
    let ghost start = out@;
    let total = data.len();
    let mut i: usize = 0;
    while i < total
        invariant
            total == data@.len(),
            i <= total,
            out@ == start + data@.take(i as int),
        decreases total - i,
    {
        out.push(data[i]);
        proof {
            assert(data@.take(i + 1) =~= data@.take(i as int).push(data@[i as int]));
            assert(out@ =~= start + data@.take(i + 1));
        }
        i += 1;
    }
    proof {
        assert(data@.take(total as int) =~= data@);
    }
}

/// 128 to the power `k`.
pub open spec fn pow128(k: nat) -> nat
    decreases k,
{
    if k == 0 {
        1
    } else {
        128 * pow128((k - 1) as nat)
    }
}

/// Law: the shape of an encoded length: every byte but the last has its
/// high bit set, the last has it clear, and the digits give back the length.
pub proof fn lemma_encode_shape(n: nat)
    ensures
        varint_encode(n).len() >= 1,
        forall|i: int| 0 <= i < varint_encode(n).len() - 1 ==> varint_encode(n)[i] >= 128,
        varint_encode(n)[varint_encode(n).len() - 1] < 128,
        varint_value(varint_encode(n)) == n,
    decreases n,
{
    if n >= 128 {
        let e = varint_encode(n);
        let t = varint_encode(n / 128);
        lemma_encode_shape(n / 128);
        assert(e.drop_first() =~= t);
        assert forall|i: int| 0 <= i < e.len() - 1 implies e[i] >= 128 by {
            if i > 0 {
                assert(e[i] == t[i - 1]);
            }
        }
        assert(e[e.len() - 1] == t[t.len() - 1]);
        assert(e[0] == (n % 128 + 128) as u8);
        assert((e[0] % 128) as nat == n % 128);
        assert(n == n % 128 + 128 * (n / 128));
    } else {
        let e = varint_encode(n);
        assert(e.drop_first().len() == 0);
        assert(varint_value(e.drop_first()) == 0);
    }
}

/// A number below `128^k` takes at most `k` bytes.
proof fn lemma_encode_len(n: nat, k: nat)
    requires
        k >= 1,
        n < pow128(k),
    ensures
        varint_encode(n).len() <= k,
    decreases n,
{
    if n >= 128 {
        let p = pow128((k - 1) as nat);
        if k == 1 {
            assert(pow128(1) == 128) by {
                reveal_with_fuel(pow128, 2);
            }
        }
        assert(k >= 2);
        assert(n < 128 * p);
        assert(n / 128 < p) by (nonlinear_arith)
            requires
                n < 128 * p,
        ;
        lemma_encode_len(n / 128, (k - 1) as nat);
    }
}

/// A length that fits in memory takes at most `MAX_PREFIX_LEN` bytes.
pub proof fn lemma_encode_fits(n: nat)
    requires
        n <= usize::MAX,
    ensures
        varint_encode(n).len() <= MAX_PREFIX_LEN,
{
    assert(pow128(10) == 1180591620717411303424) by {
        reveal_with_fuel(pow128, 11);
    }
    assert(usize::MAX <= 0xffff_ffff_ffff_ffff);
    lemma_encode_len(n, 10);
}

/// What the bytes of an encoded length, followed by anything, say: the
/// prefix ends where the encoding ends and gives back the length.
proof fn lemma_encoded_prefix(n: nat, rest: Seq<u8>)
    requires
        n <= usize::MAX,
    ensures
        varint_end(varint_encode(n) + rest) == Some(varint_encode(n).len() - 1),
        (varint_encode(n) + rest).take(varint_encode(n).len() as int) == varint_encode(n),
{
    let e = varint_encode(n);
    let s = e + rest;
    lemma_encode_shape(n);
    let j = e.len() - 1;
    assert forall|i: int| 0 <= i < j implies s[i] >= 128 by {
        assert(s[i] == e[i]);
    }
    lemma_varint_end_skip(s, j);
    assert(s.skip(j)[0] == e[j]);
    assert(s.take(e.len() as int) =~= e);
}

/// Law: a reader that is fed the bytes of a message written by
/// `encode_length_prefixed` keeps asking for more while it reads the length
/// prefix, then knows the length as soon as the prefix is complete,
/// whatever follows it.
pub proof fn lemma_prefix_streaming(n: nat, max: nat, rest: Seq<u8>)
    requires
        n <= max,
        max <= usize::MAX,
    ensures
        forall|k: int|
            0 <= k < varint_encode(n).len() ==> #[trigger] prefix_status(
                varint_encode(n).take(k),
                max,
            ) == PrefixStatus::Incomplete,
        prefix_status(varint_encode(n) + rest, max) == (PrefixStatus::Complete {
            len: n as usize,
            prefix_len: varint_encode(n).len() as usize,
        }),
{
    let e = varint_encode(n);
    lemma_encode_shape(n);
    lemma_encode_fits(n);
    lemma_encoded_prefix(n, rest);
    assert forall|k: int| 0 <= k < e.len() implies #[trigger] prefix_status(e.take(k), max)
        == PrefixStatus::Incomplete by {
        let p = e.take(k);
        assert forall|i: int| 0 <= i < k implies p[i] >= 128 by {
            assert(p[i] == e[i]);
        }
        lemma_varint_end_skip(p, k);
        assert(p.skip(k).len() == 0);
    }
}

/// Law: reading back what `encode_length_prefixed` wrote gives the message
/// again, whatever follows it, when the message is within the maximum.
pub proof fn lemma_frame_roundtrip(data: Seq<u8>, max: nat, rest: Seq<u8>)
    requires
        data.len() <= max,
        max <= usize::MAX,
    ensures
        frame_decode(varint_encode(data.len()) + data + rest, max) == Ok::<Seq<u8>, FrameError>(
            data,
        ),
{
    let e = varint_encode(data.len());
    let s = e + data + rest;
    lemma_prefix_streaming(data.len(), max, data + rest);
    lemma_encode_fits(data.len());
    assert(s =~= e + (data + rest));
    assert(prefix_status(s, max) == (PrefixStatus::Complete {
        len: data.len() as usize,
        prefix_len: e.len() as usize,
    }));
    assert(s.subrange(e.len() as int, (e.len() + data.len()) as int) =~= data);
}

/// Law: a message longer than the maximum is refused, before any of its
/// bytes are read.
pub proof fn lemma_frame_too_large(data: Seq<u8>, max: nat, rest: Seq<u8>)
    requires
        max < data.len(),
        data.len() <= usize::MAX,
    ensures
        frame_decode(varint_encode(data.len()) + data + rest, max) == Err::<Seq<u8>, FrameError>(
            FrameError::TooLarge,
        ),
{
    let e = varint_encode(data.len());
    lemma_encode_shape(data.len());
    lemma_encode_fits(data.len());
    lemma_encoded_prefix(data.len(), data + rest);
    assert(e + data + rest =~= e + (data + rest));
}

/// Law: a message is read only once all the bytes its prefix announces
/// have arrived, and then it is exactly those bytes: when fewer follow the
/// prefix the stream ended early, and otherwise the first announced bytes
/// are the message.
pub proof fn lemma_frame_reads_announced(n: nat, max: nat, d: Seq<u8>)
    requires
        n <= max,
        max <= usize::MAX,
    ensures
        d.len() < n ==> frame_decode(varint_encode(n) + d, max) == Err::<Seq<u8>, FrameError>(
            FrameError::UnexpectedEof,
        ),
        d.len() >= n ==> frame_decode(varint_encode(n) + d, max) == Ok::<Seq<u8>, FrameError>(
            d.take(n as int),
        ),
{
    let e = varint_encode(n);
    let s = e + d;
    lemma_prefix_streaming(n, max, d);
    lemma_encode_fits(n);
    assert(prefix_status(s, max) == (PrefixStatus::Complete {
        len: n as usize,
        prefix_len: e.len() as usize,
    }));
    if d.len() >= n {
        assert(s.subrange(e.len() as int, (e.len() + n) as int) =~= d.take(n as int));
    }
}

/// Law: a byte below 128 is a whole prefix announcing itself; two bytes,
/// the first with its high bit set and the second without, announce the
/// low seven bits of the first plus 128 times the second; a lone byte with
/// its high bit set asks for more.
pub proof fn lemma_short_prefixes(lo: u8, hi: u8, max: nat)
    requires
        hi < 128,
        max <= usize::MAX,
    ensures
        lo < 128 && lo <= max ==> prefix_status(seq![lo], max) == (PrefixStatus::Complete {
            len: lo as usize,
            prefix_len: 1,
        }),
        lo < 128 && lo > max ==> prefix_status(seq![lo], max) == PrefixStatus::TooLarge,
        lo >= 128 ==> prefix_status(seq![lo], max) == PrefixStatus::Incomplete,
        lo >= 128 && (lo - 128) + 128 * hi <= max ==> prefix_status(seq![lo, hi], max) == (
        PrefixStatus::Complete { len: ((lo - 128) + 128 * hi) as usize, prefix_len: 2 }),
        lo >= 128 && (lo - 128) + 128 * hi > max ==> prefix_status(seq![lo, hi], max)
            == PrefixStatus::TooLarge,
{
    let one = seq![lo];
    let two = seq![lo, hi];
    assert(one.drop_first().len() == 0);
    assert(two.drop_first() =~= seq![hi]);
    assert(seq![hi].drop_first().len() == 0);
    assert(varint_value(Seq::<u8>::empty()) == 0);
    assert(one.take(1) =~= one);
    assert(two.take(2) =~= two);
    assert(varint_value(seq![hi]) == hi % 128 + 128 * varint_value(seq![hi].drop_first()));
    reveal_with_fuel(varint_end, 3);
    reveal_with_fuel(varint_value, 3);
}

} // verus!
