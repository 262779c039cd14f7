use vstd::prelude::*;

use crate::ascii::ascii_size;
use crate::buffer::{
    buf_clear, buf_get, buf_is_empty, buf_len, buf_new, buf_push, buf_view, PendingBuf,
};
use crate::context::{view_of, CtxView, EncodationError, EncodationType, EncodingContext};

verus! {

/// Reserved 6-bit sentinel written into the codeword stream to signal
/// "return to the default (ASCII) mode"; never a valid encodable
/// character, so it cannot collide with real input.
pub const UNLATCH: u8 = 0b011111;

/// True iff `ch` lies in the range this mode can represent.
pub open spec fn spec_is_encodable(ch: u8) -> bool {
    32 <= ch <= 94
}

/// True iff `ch` lies in the range this mode can represent.
#[verifier::when_used_as_spec(spec_is_encodable)]
pub fn is_encodable(ch: u8) -> (r: bool)
    ensures
        r == spec_is_encodable(ch),
{
    matches!(ch, 32..=94)
}

/// The codewords that packing one group of one to four 6-bit values
/// produces: values missing at the tail count as zero for filling bit
/// positions, and only the codewords implied by the supplied count are
/// emitted (one value gives one codeword, two give two, three or four
/// give three).
pub open spec fn pack(s: Seq<u8>) -> Seq<u8>
    recommends
        1 <= s.len() <= 4,
{
    let v1 = if s.len() >= 2 { s[1] & 0x3f } else { 0u8 };
    let v2 = if s.len() >= 3 { s[2] & 0x3f } else { 0u8 };
    let v3 = if s.len() >= 4 { s[3] & 0x3f } else { 0u8 };
    let c0 = (s[0] << 2) | (v1 >> 4);
    let c1 = (v1 << 4) | (v2 >> 2);
    let c2 = (v2 << 6) | v3;
    if s.len() == 1 {
        seq![c0]
    } else if s.len() == 2 {
        seq![c0, c1]
    } else {
        seq![c0, c1, c2]
    }
}

/// The standard 6-to-8 bit expansion of one full group: the four 6-bit
/// values spread over three codewords.
pub open spec fn unpack(cw: Seq<u8>) -> Seq<u8>
    recommends
        cw.len() == 3,
{
    seq![
        cw[0] >> 2,
        ((cw[0] & 0x03) << 4) | (cw[1] >> 4),
        ((cw[1] & 0x0f) << 2) | (cw[2] >> 6),
        cw[2] & 0x3f,
    ]
}

/// Packing `k` values emits exactly `k` codewords for `k` below four; a
/// full group of four packs into exactly three codewords.
pub proof fn lemma_pack_count(s: Seq<u8>)
    requires
        1 <= s.len() <= 4,
    ensures
        pack(s).len() == if s.len() < 4 { s.len() as int } else { 3int },
{
}

proof fn lemma_pack_unpack_bits(a: u8, b: u8, c: u8, d: u8, x: u8, y: u8, z: u8)
    by (bit_vector)
    requires
        a < 64,
        b < 64,
        c < 64,
        d < 64,
        x == (a << 2) | ((b & 0x3f) >> 4),
        y == ((b & 0x3f) << 4) | ((c & 0x3f) >> 2),
        z == ((c & 0x3f) << 6) | (d & 0x3f),
    ensures
        x >> 2 == a,
        ((x & 0x03) << 4) | (y >> 4) == b,
        ((y & 0x0f) << 2) | (z >> 6) == c,
        z & 0x3f == d,
{
}

/// Round trip over a full group: packing any four 6-bit values and
/// expanding the three resulting codewords recovers the original four
/// values exactly.
pub proof fn lemma_pack_unpack(a: u8, b: u8, c: u8, d: u8)
    requires
        a < 64,
        b < 64,
        c < 64,
        d < 64,
    ensures
        unpack(pack(seq![a, b, c, d])) == seq![a, b, c, d],
{
    let s = seq![a, b, c, d];
    let p = pack(s);
    lemma_pack_unpack_bits(a, b, c, d, p[0], p[1], p[2]);
    assert(unpack(p) =~= s);
}

/// Encode one group of one to four 6-bit values and write the resulting
/// codewords to the context's output sink.
pub fn write4<T: EncodingContext>(ctx: &mut T, s: &PendingBuf)
    requires
        1 <= buf_view(*s).len() <= 4,
    ensures
        final(ctx).output() == old(ctx).output() + pack(buf_view(*s)),
        final(ctx).input() == old(ctx).input(),
        final(ctx).taken() == old(ctx).taken(),
        final(ctx).mode() == old(ctx).mode(),
        forall|e: nat| #[trigger] final(ctx).space_left(e) == old(ctx).space_left(
            (e + pack(buf_view(*s)).len()) as nat,
        ),
{
    let len: usize = buf_len(s);
    let s1: u8 = if len >= 2 { buf_get(s, 1) & 0b11_1111 } else { 0 };
    ctx.push((buf_get(s, 0) << 2) | (s1 >> 4));
    if len >= 2 {
        let s2: u8 = if len >= 3 { buf_get(s, 2) & 0b11_1111 } else { 0 };
        ctx.push((s1 << 4) | (s2 >> 2));
        if len >= 3 {
            let s3: u8 = if len >= 4 { buf_get(s, 3) & 0b11_1111 } else { 0 };
            ctx.push((s2 << 6) | s3);
        }
    }
    proof {
        assert(ctx.output() =~= old(ctx).output() + pack(buf_view(*s)));
    }
}

/// The cheap-finish condition of end-of-segment handling: the whole rest
/// of the message (`pending` values plus unconsumed `input`) is one to
/// four characters, the default (ASCII) encodation fits them in at most
/// two codewords, and after reserving that many codewords at most two
/// would remain in the symbol — so the message can end in plain ASCII
/// with no unlatch. `sp_cheap` is the host's answer to reserving exactly
/// those codewords.
pub open spec fn cheap_finish(pending: Seq<u8>, input: Seq<u8>, sp_cheap: Option<nat>) -> bool {
    let rest = pending.len() + input.len();
    let asz = ascii_size(pending + input);
    &&& 0 < rest <= 4
    &&& asz <= 2
    &&& match sp_cheap {
        Some(x) => x + asz <= 2,
        None => false,
    }
}

/// No observable host state changed between the two snapshots.
pub open spec fn ctx_unchanged(pre: CtxView, post: CtxView) -> bool {
    &&& post.input == pre.input
    &&& post.taken == pre.taken
    &&& post.output == pre.output
    &&& post.mode == pre.mode
}

/// What end-of-segment handling does, given the pending buffer and the
/// host state `pre` at entry. `sp_cheap` is the capacity answer after
/// reserving the codewords of a cheap ASCII finish, `sp_flush` the answer
/// after reserving as many codewords as there are pending values.
///
/// If a cheap finish applies, the pending characters go back to the input
/// stream, the mode switches to ASCII and nothing is emitted. Otherwise,
/// with an empty buffer, one unlatch codeword is emitted — as padding
/// with a mode switch at true end of data when room remains, unchanged
/// mode when input remains (a forced switch), and not at all when the
/// symbol is exactly full. With one to three pending values the group is
/// flushed, preceded by the unlatch sentinel (and a switch to ASCII)
/// whenever room remains after the flush or exactly three values are
/// pending. Whenever the needed capacity answer is unavailable the run
/// fails with the not-enough-space error and the host is left unchanged.
pub open spec fn end_post(
    pending: Seq<u8>,
    pre: CtxView,
    sp_cheap: Option<nat>,
    sp_flush: Option<nat>,
    post: CtxView,
    r: Result<(), EncodationError>,
) -> bool {
    if cheap_finish(pending, pre.input, sp_cheap) {
        &&& r == Ok::<(), EncodationError>(())
        &&& post.output == pre.output
        &&& post.taken == pre.taken.take(pre.taken.len() - pending.len())
        &&& post.input == pre.taken.skip(pre.taken.len() - pending.len()) + pre.input
        &&& post.mode == EncodationType::Ascii
    } else if pending.len() == 0 {
        if pre.input.len() == 0 {
            match sp_flush {
                None => r == Err::<(), EncodationError>(EncodationError::NotEnoughSpace)
                    && ctx_unchanged(pre, post),
                Some(x) => r == Ok::<(), EncodationError>(()) && if x > 0 {
                    &&& post.output == pre.output.push(UNLATCH << 2)
                    &&& post.mode == EncodationType::Ascii
                    &&& post.input == pre.input
                    &&& post.taken == pre.taken
                } else {
                    ctx_unchanged(pre, post)
                },
            }
        } else {
            &&& r == Ok::<(), EncodationError>(())
            &&& post.output == pre.output.push(UNLATCH << 2)
            &&& post.mode == pre.mode
            &&& post.input == pre.input
            &&& post.taken == pre.taken
        }
    } else {
        match sp_flush {
            None => r == Err::<(), EncodationError>(EncodationError::NotEnoughSpace)
                && ctx_unchanged(pre, post),
            Some(x) => {
                &&& r == Ok::<(), EncodationError>(())
                &&& post.input == pre.input
                &&& post.taken == pre.taken
                &&& if x > 0 || pending.len() == 3 {
                    post.output == pre.output + pack(pending.push(UNLATCH))
                        && post.mode == EncodationType::Ascii
                } else {
                    post.output == pre.output + pack(pending) && post.mode == pre.mode
                }
            },
        }
    }
}


/// When the whole remaining message (pending values plus unconsumed
/// input) is one to four characters, the default (ASCII) encodation
/// fits it in at most two codewords, and after reserving them at most
/// two codewords would remain in the symbol, end-of-segment handling
/// emits nothing and switches to the ASCII mode; and whenever the
/// pending values are the characters taken last, they all return to the
/// front of the unconsumed stream.
pub proof fn lemma_cheap_finish(
    pending: Seq<u8>,
    pre: CtxView,
    sp_cheap: Option<nat>,
    sp_flush: Option<nat>,
    post: CtxView,
    r: Result<(), EncodationError>,
)
    requires
        cheap_finish(pending, pre.input, sp_cheap),
        end_post(pending, pre, sp_cheap, sp_flush, post, r),
        pending.len() <= pre.taken.len(),
    ensures
        r == Ok::<(), EncodationError>(()),
        post.output == pre.output,
        post.mode == EncodationType::Ascii,
        pre.taken.skip(pre.taken.len() - pending.len()) == pending ==> post.input == pending
            + pre.input,
{
}

/// End-of-data with exactly three pending values always appends the
/// unlatch sentinel before the final flush, whatever the remaining
/// space, whenever the host can answer the capacity query at all: the
/// flush then emits exactly three codewords, the same count as three
/// pending values alone would take.
pub proof fn lemma_three_pending_unlatch(
    pending: Seq<u8>,
    pre: CtxView,
    sp_cheap: Option<nat>,
    sp_flush: Option<nat>,
    post: CtxView,
    r: Result<(), EncodationError>,
)
    requires
        pending.len() == 3,
        !cheap_finish(pending, pre.input, sp_cheap),
        sp_flush is Some,
        end_post(pending, pre, sp_cheap, sp_flush, post, r),
    ensures
        r == Ok::<(), EncodationError>(()),
        post.mode == EncodationType::Ascii,
        post.output == pre.output + pack(pending.push(UNLATCH)),
        post.output.len() == pre.output.len() + 3,
{
    lemma_pack_count(pending.push(UNLATCH));
}

/// Perform end-of-segment handling with the pending buffer `s`, after the
/// consumption loop has stopped for any reason.
pub fn handle_end<T: EncodingContext>(ctx: &mut T, s: PendingBuf) -> (r: Result<
    (),
    EncodationError,
>)
    requires
        buf_view(s).len() <= 3,
        buf_view(s).len() > 0 ==> old(ctx).input().len() == 0,
        buf_view(s).len() <= old(ctx).taken().len(),
    ensures
        end_post(
            buf_view(s),
            view_of(*old(ctx)),
            old(ctx).space_left(ascii_size(buf_view(s) + old(ctx).input())),
            old(ctx).space_left(buf_view(s).len()),
            view_of(*final(ctx)),
            r,
        ),
{
    let mut buf = s;
    let ghost pending = buf_view(buf);
    let ghost input0 = ctx.input();
    let slen: usize = buf_len(&buf);
    let left: usize = ctx.characters_left();
    // a short enough tail may finish in plain ASCII with no unlatch
    if left <= 4 {
        let rest_chars: usize = slen + left;
        if 0 < rest_chars && rest_chars <= 4 {
            let mut tail: Vec<u8> = Vec::new();
            let mut j: usize = 0;
            while j < slen
                invariant
                    j <= slen,
                    slen == pending.len(),
                    pending == buf_view(buf),
                    tail@ == pending.take(j as int),
                decreases slen - j,
            {
                tail.push(buf_get(&buf, j));
                proof {
                    assert(tail@ =~= pending.take(j + 1));
                }
                j = j + 1;
            }
            let rest = ctx.rest();
            let mut k: usize = 0;
            while k < rest.len()
                invariant
                    k <= rest@.len(),
                    rest@ == input0,
                    tail@ == pending.take(pending.len() as int) + input0.take(k as int),
                decreases rest@.len() - k,
            {
                tail.push(rest[k]);
                proof {
                    assert(tail@ =~= pending.take(pending.len() as int) + input0.take(k + 1));
                }
                k = k + 1;
            }
            proof {
                assert(tail@ =~= pending + input0);
            }
            let asz: usize = crate::ascii::encoding_size(tail.as_slice());
            if asz <= 2 {
                match ctx.symbol_size_left(asz) {
                    Some(x) => {
                        if x <= 2 - asz {
                            ctx.backup(slen);
                            ctx.set_mode(EncodationType::Ascii);
                            return Ok(());
                        }
                    },
                    None => {},
                }
            }
        }
    }
    proof {
        assert(!cheap_finish(pending, input0, old(ctx).space_left(ascii_size(pending + input0))));
    }
    if buf_is_empty(&buf) {
        if !ctx.has_more_characters() {
            // end of data
            match ctx.symbol_size_left(0) {
                None => {
                    return Err(EncodationError::NotEnoughSpace);
                },
                Some(space_left) => {
                    if space_left > 0 {
                        // padding case
                        ctx.push(UNLATCH << 2);
                        ctx.set_mode(EncodationType::Ascii);
                    }
                },
            }
        } else {
            // mode switch requested by the host; it changes the mode itself
            ctx.push(UNLATCH << 2);
        }
    } else {
        // end of data; maybe add UNLATCH for padding if space allows
        match ctx.symbol_size_left(slen) {
            None => {
                return Err(EncodationError::NotEnoughSpace);
            },
            Some(space_left) => {
                if space_left > 0 || slen == 3 {
                    buf_push(&mut buf, UNLATCH);
                    ctx.set_mode(EncodationType::Ascii);
                }
                write4(ctx, &buf);
            },
        }
    }
    Ok(())
}

/// The concatenated codewords of the consecutive full groups of four
/// values in `s`.
pub open spec fn packed_groups(s: Seq<u8>) -> Seq<u8>
    recommends
        s.len() % 4 == 0,
    decreases s.len(),
{
    if s.len() < 4 {
        Seq::empty()
    } else {
        pack(s.take(4)) + packed_groups(s.skip(4))
    }
}

/// Appending one more full group packs it after the earlier groups.
pub proof fn lemma_packed_groups_snoc(s: Seq<u8>, g: Seq<u8>)
    requires
        s.len() % 4 == 0,
        g.len() == 4,
    ensures
        packed_groups(s + g) == packed_groups(s) + pack(g),
    decreases s.len(),
{
    if s.len() == 0 {
        assert(s + g =~= g);
        assert(g.take(4) =~= g);
        assert(g.skip(4) =~= Seq::<u8>::empty());
        assert(packed_groups(s) + pack(g) =~= pack(g) + packed_groups(g.skip(4)));
    } else {
        lemma_packed_groups_snoc(s.skip(4), g);
        assert((s + g).take(4) =~= s.take(4));
        assert((s + g).skip(4) =~= s.skip(4) + g);
        assert(pack(s.take(4)) + (packed_groups(s.skip(4)) + pack(g)) =~= (pack(s.take(4))
            + packed_groups(s.skip(4))) + pack(g));
    }
}

/// A consumption loop that stopped regularly after eating `n` characters
/// of `pre`'s input: every eaten character was encodable, the stop came
/// at exhausted input or at a group boundary where the host requested a
/// switch, and from the state so reached (full groups flushed, up to
/// three values pending) end-of-segment handling produced `post` and `r`.
pub open spec fn encode_stop<T: EncodingContext>(
    pre: T,
    post: CtxView,
    r: Result<(), EncodationError>,
    n: int,
) -> bool {
    let i0 = pre.input();
    let flushed = i0.take(n - n % 4);
    let pending = i0.subrange(n - n % 4, n);
    let emitted = packed_groups(flushed);
    let mid = CtxView {
        input: i0.skip(n),
        taken: pre.taken() + i0.take(n),
        output: pre.output() + emitted,
        mode: pre.mode(),
    };
    &&& 0 <= n <= i0.len()
    &&& (forall|i: int| 0 <= i < n ==> spec_is_encodable(#[trigger] i0[i]))
    &&& (n == i0.len() || (n % 4 == 0 && 0 < n))
    &&& end_post(
        pending,
        mid,
        pre.space_left(ascii_size(pending + i0.skip(n)) + emitted.len()),
        pre.space_left(pending.len() + emitted.len()),
        post,
        r,
    )
}

/// A consumption loop that stopped on the illegal character at position
/// `n` of `pre`'s input: everything before it was encodable and already
/// consumed, the full groups among it were flushed, and nothing was
/// emitted for the offending character itself.
pub open spec fn illegal_stop<T: EncodingContext>(pre: T, post: CtxView, n: int) -> bool {
    let i0 = pre.input();
    &&& 0 <= n < i0.len()
    &&& (forall|i: int| 0 <= i < n ==> spec_is_encodable(#[trigger] i0[i]))
    &&& !spec_is_encodable(i0[n])
    &&& post.input == i0.skip(n + 1)
    &&& post.taken == pre.taken() + i0.take(n + 1)
    &&& post.output == pre.output() + packed_groups(i0.take(n - n % 4))
    &&& post.mode == pre.mode()
}

/// Run the EDIFACT encoder against the host: consume characters, flush
/// each full group of four, yield at a host-requested mode switch, and
/// perform end-of-segment handling. No consumed character is lost: what
/// was taken and what remains always reassemble the original input.
pub fn encode<T: EncodingContext>(ctx: &mut T) -> (r: Result<(), EncodationError>)
    ensures
        final(ctx).taken() + final(ctx).input() == old(ctx).taken() + old(ctx).input(),
        r != Err::<(), EncodationError>(EncodationError::IllegalEdifactCharacter)
            ==> exists|n: int| #[trigger] encode_stop(*old(ctx), view_of(*final(ctx)), r, n),
        r == Err::<(), EncodationError>(EncodationError::IllegalEdifactCharacter)
            ==> exists|n: int| #[trigger] illegal_stop(*old(ctx), view_of(*final(ctx)), n),
        (forall|i: int|
            0 <= i < old(ctx).input().len() ==> spec_is_encodable(
                #[trigger] old(ctx).input()[i],
            )) ==> r != Err::<(), EncodationError>(EncodationError::IllegalEdifactCharacter),
{
    let ghost i0 = old(ctx).input();
    let ghost t0 = old(ctx).taken();
    let ghost o0 = old(ctx).output();
    let ghost m0 = old(ctx).mode();
    let ghost ctx0 = *old(ctx);
    let mut symbols = buf_new();
    let ghost mut n: int = 0;
    proof {
        assert(i0.take(0) =~= Seq::<u8>::empty());
        assert(i0.skip(0) =~= i0);
        assert(i0.subrange(0, 0) =~= Seq::<u8>::empty());
        assert(t0 + Seq::<u8>::empty() =~= t0);
        assert(o0 + packed_groups(i0.take(0)) =~= o0);
    }
    loop
        invariant
            0 <= n <= i0.len(),
            ctx.input() == i0.skip(n),
            ctx.taken() == t0 + i0.take(n),
            ctx.output() == o0 + packed_groups(i0.take(n - n % 4)),
            ctx.mode() == m0,
            forall|i: int| 0 <= i < n ==> spec_is_encodable(#[trigger] i0[i]),
            buf_view(symbols) == i0.subrange(n - n % 4, n),
            buf_view(symbols).len() == n % 4,
            forall|e: nat| #[trigger] ctx.space_left(e) == ctx0.space_left(
                e + packed_groups(i0.take(n - n % 4)).len(),
            ),
            ctx0 == *old(ctx),
            i0 == ctx0.input(),
            t0 == ctx0.taken(),
            o0 == ctx0.output(),
            m0 == ctx0.mode(),
        ensures
            n == i0.len() || (buf_view(symbols).len() == 0 && 0 < n && n % 4 == 0),
        decreases i0.len() - n,
    {
        let next = ctx.eat();
        match next {
            None => { break; },
            Some(ch) => {
                proof {
                    assert(ctx.input() =~= i0.skip(n + 1));
                    assert(ctx.taken() =~= t0 + i0.take(n + 1));
                }
                if !is_encodable(ch) {
                    // Failing eagerly here is deliberate: backing out and
                    // switching to ASCII instead risks the encoder
                    // oscillating between modes under look-ahead.
                    proof {
                        assert(ch == i0[n]);
                        assert(illegal_stop(ctx0, view_of(*ctx), n));
                        assert((t0 + i0.take(n + 1)) + i0.skip(n + 1) =~= t0 + i0);
                    }
                    return Err(EncodationError::IllegalEdifactCharacter);
                }
                buf_push(&mut symbols, ch);
                proof {
                    n = n + 1;
                    assert(buf_view(symbols) =~= i0.subrange(n - 1 - (n - 1) % 4, n));
                    assert(n - 1 - (n - 1) % 4 == n - n % 4 || (n % 4 == 0 && n - 1 - (n - 1) % 4
                        == n - 4));
                }
                if buf_len(&symbols) == 4 {
                    proof {
                        assert(n % 4 == 0);
                        assert(buf_view(symbols) == i0.subrange(n - 4, n));
                    }
                    write4(ctx, &symbols);
                    buf_clear(&mut symbols);
                    proof {
                        lemma_packed_groups_snoc(i0.take(n - 4), i0.subrange(n - 4, n));
                        assert(i0.take(n - 4) + i0.subrange(n - 4, n) =~= i0.take(n));
                        assert((o0 + packed_groups(i0.take(n - 4))) + pack(i0.subrange(n - 4, n))
                            =~= o0 + (packed_groups(i0.take(n - 4)) + pack(i0.subrange(n - 4, n))));
                        assert(ctx.output() =~= o0 + packed_groups(i0.take(n - n % 4)));
                        assert(buf_view(symbols) =~= i0.subrange(n - n % 4, n));
                    }
                    if ctx.maybe_switch_mode() {
                        break;
                    }
                }
            },
        }
    }
    let ghost mid = *ctx;
    let r = handle_end(ctx, symbols);
    proof {
        let pending = buf_view(symbols);
        let l = mid.taken().len() as int;
        let p = pending.len() as int;
        assert(mid.taken().take(l - p) + (mid.taken().skip(l - p) + mid.input()) =~= mid.taken()
            + mid.input());
        assert((t0 + i0.take(n)) + i0.skip(n) =~= t0 + i0);
        assert(encode_stop(ctx0, view_of(*ctx), r, n));
    }
    r
}

} // verus!
