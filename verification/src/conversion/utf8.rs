//! The packed buffer: strings stored one after another in a flat byte buffer,
//! each as a big-endian length of fixed width followed by its UTF-8 bytes.
//!
//! Reading and writing thread a `(beg, end)` cursor pair through successive
//! calls: each call starts where the previous one ended.

use crate::exception::{
    captured, throw, CauseView, ExceptionView, Outcome, TraitStdResultToOutcome,
};
use crate::exception_names::{IndexOutOfBoundException, InvalidUTF8BytesException};
use crate::lang::PTRLEN;
use crate::text::{decimal, usize_to_decimal};
use vstd::prelude::*;
use vstd::slice::{slice_subrange, slice_to_vec};
use vstd::string::*;
use vstd::utf8::{
    decode_utf8, encode_utf8, encode_utf8_decode_utf8, encode_utf8_valid_utf8, valid_utf8,
};

verus! {

/// 256 to the power `k`.
pub open spec fn pow256(k: nat) -> nat
    decreases k,
{
    if k == 0 {
        1
    } else {
        256 * pow256((k - 1) as nat)
    }
}

/// The big-endian representation of `n` in exactly `width` bytes (the low
/// `width` bytes of `n`, most significant first).
pub open spec fn be_bytes(n: nat, width: nat) -> Seq<u8>
    decreases width,
{
    if width == 0 {
        Seq::empty()
    } else {
        be_bytes(n / 256, (width - 1) as nat).push((n % 256) as u8)
    }
}

/// The number that `bytes` represent in big-endian order.
pub open spec fn be_value(bytes: Seq<u8>) -> nat
    decreases bytes.len(),
{
    if bytes.len() == 0 {
        0
    } else {
        be_value(bytes.drop_last()) * 256 + bytes.last() as nat
    }
}

/// `buf` with the bytes from `at` on replaced by `data`.
pub open spec fn overwrite(buf: Seq<u8>, at: int, data: Seq<u8>) -> Seq<u8>
    recommends
        0 <= at,
        at + data.len() <= buf.len(),
{
    buf.subrange(0, at) + data + buf.subrange(at + data.len(), buf.len() as int)
}

/// One stored item: the length prefix, then the payload.
pub open spec fn frame(payload: Seq<u8>) -> Seq<u8> {
    be_bytes(payload.len(), PTRLEN as nat) + payload
}

/// A cursor position moved forward by `by`, held at the largest `usize` where
/// the sum would pass it.
pub open spec fn advance(pos: usize, by: usize) -> usize {
    if pos + by > usize::MAX {
        usize::MAX
    } else {
        (pos + by) as usize
    }
}

/// The explanation attached to an access outside the buffer.
pub open spec fn bounds_context(action: Seq<char>, beg: usize, end: usize, bufsize: usize) -> Seq<
    char,
> {
    "When "@ + action + ", index "@ + decimal(beg as nat) + ".."@ + decimal(end as nat)
        + " out of bound for bufsize "@ + decimal(bufsize as nat)
}

/// The location that the codec reports for the failures it raises itself.
pub const CODEC_SITE: &'static str = "xuanmi_base_support::conversion::utf8";

/// The failure raised for an access to `beg..end` outside a buffer of `bufsize` bytes.
pub open spec fn bounds_failure(action: Seq<char>, beg: usize, end: usize, bufsize: usize) -> ExceptionView {
    captured(
        IndexOutOfBoundException@,
        bounds_context(action, beg, end, bufsize),
        CODEC_SITE@,
        0,
        0,
        None,
    )
}

fn out_of_bound<T>(action: &str, beg: usize, end: usize, bufsize: usize) -> (out: Outcome<T>)
    ensures
        out is Err,
        out->Err_0@ == bounds_failure(action@, beg, end, bufsize),
{
    let mut ctx = String::from_str("When ");
    ctx.append(action);
    ctx.append(", index ");
    ctx.append(usize_to_decimal(beg).as_str());
    ctx.append("..");
    ctx.append(usize_to_decimal(end).as_str());
    ctx.append(" out of bound for bufsize ");
    ctx.append(usize_to_decimal(bufsize).as_str());
    throw(IndexOutOfBoundException, ctx.as_str(), CODEC_SITE, 0, 0)
}

/// On either supported platform the largest `usize` is one less than 256 to
/// the power of the prefix width.
pub proof fn lemma_prefix_holds_every_length()
    ensures
        pow256(PTRLEN as nat) == usize::MAX + 1,
{
    reveal_with_fuel(pow256, 9);
}

proof fn lemma_pow256_monotonic(a: nat, b: nat)
    requires
        a <= b,
    ensures
        pow256(a) <= pow256(b),
        pow256(a) >= 1,
    decreases b,
{
    if a < b {
        lemma_pow256_monotonic(a, (b - 1) as nat);
    } else if a > 0 {
        lemma_pow256_monotonic((a - 1) as nat, (a - 1) as nat);
    }
}

proof fn lemma_be_bytes_len(n: nat, width: nat)
    ensures
        be_bytes(n, width).len() == width,
    decreases width,
{
    if width > 0 {
        lemma_be_bytes_len(n / 256, (width - 1) as nat);
    }
}

proof fn lemma_be_value_bound(bytes: Seq<u8>)
    ensures
        be_value(bytes) < pow256(bytes.len()),
    decreases bytes.len(),
{
    if bytes.len() > 0 {
        lemma_be_value_bound(bytes.drop_last());
    }
}

/// Decoding the big-endian bytes of a number that fits the width gives the number back.
pub proof fn lemma_be_round_trip(n: nat, width: nat)
    requires
        n < pow256(width),
    ensures
        be_bytes(n, width).len() == width,
        be_value(be_bytes(n, width)) == n,
    decreases width,
{
    lemma_be_bytes_len(n, width);
    if width > 0 {
        let rest = be_bytes(n / 256, (width - 1) as nat);
        lemma_be_round_trip(n / 256, (width - 1) as nat);
        assert(be_bytes(n, width).drop_last() =~= rest);
    }
}

/// Writes the big-endian prefix for `n` into `buf` at `at`.
fn write_prefix(n: usize, buf: &mut Vec<u8>, at: usize)
    requires
        at + PTRLEN <= old(buf).len(),
    ensures
        final(buf)@ == overwrite(old(buf)@, at as int, be_bytes(n as nat, PTRLEN as nat)),
        final(buf).len() == old(buf).len(),
{
    let mut k: usize = PTRLEN;
    let mut rest: usize = n;
    let ghost mut suffix: Seq<u8> = Seq::empty();
    proof {
        assert(buf@ =~= overwrite(old(buf)@, at + k, suffix));
        assert(be_bytes(n as nat, PTRLEN as nat) =~= be_bytes(rest as nat, k as nat) + suffix);
    }
    while k > 0
        invariant
            k <= PTRLEN,
            at + PTRLEN <= buf.len(),
            buf.len() == old(buf).len(),
            suffix.len() == PTRLEN - k,
            buf@ == overwrite(old(buf)@, at + k, suffix),
            be_bytes(n as nat, PTRLEN as nat) == be_bytes(rest as nat, k as nat) + suffix,
        decreases k,
    {
        let digit: u8 = (rest % 256) as u8;
        let ghost before = buf@;
        buf.set(at + k - 1, digit);
        proof {
            let longer = seq![digit] + suffix;
            assert(buf@ =~= overwrite(old(buf)@, at + k - 1, longer));
            assert(be_bytes(rest as nat, k as nat) + suffix =~= be_bytes(
                (rest / 256) as nat,
                (k - 1) as nat,
            ) + longer);
            suffix = longer;
        }
        rest = rest / 256;
        k -= 1;
    }
    proof {
        assert(be_bytes(rest as nat, 0) + suffix =~= suffix);
    }
}

/// Reads the big-endian prefix stored in `buf` at `at`.
fn read_prefix(buf: &Vec<u8>, at: usize) -> (n: usize)
    requires
        at + PTRLEN <= buf.len(),
    ensures
        n == be_value(buf@.subrange(at as int, at + PTRLEN)),
{
    let mut k: usize = 0;
    let mut acc: usize = 0;
    let ghost bytes = buf@.subrange(at as int, at + PTRLEN);
    while k < PTRLEN
        invariant
            k <= PTRLEN,
            at + PTRLEN <= buf.len(),
            bytes == buf@.subrange(at as int, at + PTRLEN),
            acc == be_value(bytes.subrange(0, k as int)),
        decreases PTRLEN - k,
    {
        let byte: u8 = buf[at + k];
        proof {
            let next = bytes.subrange(0, k + 1);
            assert(next.drop_last() =~= bytes.subrange(0, k as int));
            assert(next.last() == byte);
            lemma_be_value_bound(next);
            lemma_pow256_monotonic((k + 1) as nat, PTRLEN as nat);
            lemma_prefix_holds_every_length();
        }
        acc = acc * 256 + byte as usize;
        k += 1;
    }
    proof {
        assert(bytes.subrange(0, PTRLEN as int) =~= bytes);
    }
    acc
}

/// The standard library's error for bytes that are not UTF-8.
#[verifier::external_type_specification]
#[verifier::external_body]
pub struct ExFromUtf8Error(std::string::FromUtf8Error);

/// `String::from_utf8`: succeeds exactly on well-formed UTF-8, and the string
/// it then returns is the one that those bytes encode. Nothing is claimed about
/// the error it returns otherwise.
#[verifier::external_body]
fn string_from_utf8(bytes: Vec<u8>) -> (r: Result<String, std::string::FromUtf8Error>)
    ensures
        r is Ok <==> valid_utf8(bytes@),
        r is Ok ==> r->Ok_0@ == decode_utf8(bytes@),
{
    String::from_utf8(bytes)
}

/// The failure raised for bytes that are not UTF-8, whatever its cause says.
pub open spec fn is_utf8_failure(ex: ExceptionView) -> bool {
    &&& ex == captured(InvalidUTF8BytesException@, Seq::empty(), CODEC_SITE@, 0, 0, ex.cause)
    &&& ex.cause matches Some(CauseView::Message(_))
}

/// What decoding `bytes` as UTF-8 owes: the text they encode, or a failure
/// named for invalid UTF-8 whose cause is the decoder's own description.
pub open spec fn decodes_to(bytes: Seq<u8>, out: Outcome<String>) -> bool {
    match out {
        Ok(text) => valid_utf8(bytes) && text@ == decode_utf8(bytes),
        Err(ex) => !valid_utf8(bytes) && is_utf8_failure(ex@),
    }
}

fn decode_owned(bytes: Vec<u8>) -> (out: Outcome<String>)
    ensures
        decodes_to(bytes@, out),
{
    proof {
        reveal_strlit("");
        reveal_strlit("InvalidUTF8Bytes");
        assert(""@ =~= Seq::<char>::empty());
    }
    string_from_utf8(bytes).catch(InvalidUTF8BytesException, "", CODEC_SITE, 0, 0)
}

/// A string as a borrowed run of UTF-8 bytes together with its length in bytes.
pub fn str_to_u8p(text: &str) -> (r: (&[u8], usize))
    ensures
        r.0@ == encode_utf8(text@),
        r.1 == r.0@.len(),
{
    let bytes: &[u8] = text.as_bytes();
    let len: usize = bytes.len();
    (bytes, len)
}

/// The first `len` bytes of `u8p`.
pub fn u8p_to_bslice(u8p: &[u8], len: usize) -> (bytes: &[u8])
    requires
        len <= u8p@.len(),
    ensures
        bytes@ == u8p@.subrange(0, len as int),
{
    slice_subrange(u8p, 0, len)
}

/// The first `len` bytes of `u8p` as an owned string, if they are UTF-8.
pub fn u8p_to_str(u8p: &[u8], len: usize) -> (out: Outcome<String>)
    requires
        len <= u8p@.len(),
    ensures
        decodes_to(u8p@.subrange(0, len as int), out),
{
    decode_owned(slice_to_vec(slice_subrange(u8p, 0, len)))
}

/// Whether a length prefix starting at `at` lies inside a buffer of `buf_len` bytes.
pub open spec fn prefix_fits(buf_len: nat, at: usize) -> bool {
    at + PTRLEN <= buf_len
}

/// Whether a whole item with a payload of `len` bytes, starting at `at`, lies
/// inside a buffer of `buf_len` bytes.
pub open spec fn item_fits(buf_len: nat, at: usize, len: nat) -> bool {
    at + PTRLEN + len <= buf_len
}

/// The payload length that the prefix at `at` announces.
pub open spec fn stored_len(buf: Seq<u8>, at: usize) -> nat {
    be_value(buf.subrange(at as int, at + PTRLEN))
}

/// The payload of the item stored at `at`.
pub open spec fn stored_payload(buf: Seq<u8>, at: usize) -> Seq<u8> {
    buf.subrange(at + PTRLEN, at + PTRLEN + stored_len(buf, at))
}

/// The buffer and the cursor end after one item with `payload` has been
/// packed at `at`; `None` where the item does not fit.
pub open spec fn packed_one(buf: Seq<u8>, at: usize, payload: Seq<u8>) -> Option<(Seq<u8>, usize)> {
    if item_fits(buf.len(), at, payload.len()) {
        Some((overwrite(buf, at as int, frame(payload)), (at + PTRLEN + payload.len()) as usize))
    } else {
        None
    }
}

/// The string and the cursor end after one item has been unpacked at `at`;
/// `None` where the item reaches past the buffer or is not UTF-8.
pub open spec fn unpacked_one(buf: Seq<u8>, at: usize) -> Option<(Seq<char>, usize)> {
    if prefix_fits(buf.len(), at) && item_fits(buf.len(), at, stored_len(buf, at)) && valid_utf8(
        stored_payload(buf, at),
    ) {
        Some(
            (
                decode_utf8(stored_payload(buf, at)),
                (at + PTRLEN + stored_len(buf, at)) as usize,
            ),
        )
    } else {
        None
    }
}

/// Packs `bslice` into `buf` right after the cursor and moves the cursor over it.
///
/// The item starts at the old `end`. It is stored only where it fits: when the
/// prefix does not fit, nothing is written; when the prefix fits and the payload
/// does not, the prefix alone is written. In both cases the failure is named
/// for an index out of bound and the cursor shows the range that was refused.
pub fn bslice_into_partof_vecu8(
    bslice: &[u8],
    buf: &mut Vec<u8>,
    beg: &mut usize,
    end: &mut usize,
) -> (out: Outcome<()>)
    ensures
        final(buf)@.len() == old(buf)@.len(),
        out is Ok <==> item_fits(old(buf)@.len(), *old(end), bslice@.len()),
        out is Ok <==> packed_one(old(buf)@, *old(end), bslice@) is Some,
        out is Ok ==> (final(buf)@, *final(end)) == packed_one(old(buf)@, *old(end), bslice@)->0,
        out is Ok ==> {
            &&& final(buf)@ == overwrite(old(buf)@, *old(end) as int, frame(bslice@))
            &&& *final(beg) == *old(end) + PTRLEN
            &&& *final(end) == *old(end) + PTRLEN + bslice@.len()
        },
        !prefix_fits(old(buf)@.len(), *old(end)) ==> {
            &&& final(buf)@ == old(buf)@
            &&& *final(beg) == *old(end)
            &&& *final(end) == advance(*old(end), PTRLEN)
            &&& out is Err
            &&& out->Err_0@ == bounds_failure(
                "writing the length"@,
                *final(beg),
                *final(end),
                old(buf)@.len() as usize,
            )
        },
        prefix_fits(old(buf)@.len(), *old(end)) && !item_fits(
            old(buf)@.len(),
            *old(end),
            bslice@.len(),
        ) ==> {
            &&& final(buf)@ == overwrite(
                old(buf)@,
                *old(end) as int,
                be_bytes(bslice@.len(), PTRLEN as nat),
            )
            &&& *final(beg) == *old(end) + PTRLEN
            &&& *final(end) == advance(*final(beg), bslice@.len() as usize)
            &&& out is Err
            &&& out->Err_0@ == bounds_failure(
                "writing the bytes"@,
                *final(beg),
                *final(end),
                old(buf)@.len() as usize,
            )
        },
{
    let buflen = buf.len();
    let start = *end;
    *beg = start;
    *end = start.saturating_add(PTRLEN);
    if PTRLEN > buflen || start > buflen - PTRLEN {
        return out_of_bound("writing the length", *beg, *end, buflen);
    }
    write_prefix(bslice.len(), buf, start);
    let ghost with_prefix = buf@;
    let body = *end;
    *beg = body;
    *end = body.saturating_add(bslice.len());
    if bslice.len() > buflen - body {
        return out_of_bound("writing the bytes", *beg, *end, buflen);
    }
    let mut i: usize = 0;
    proof {
        lemma_be_bytes_len(bslice@.len(), PTRLEN as nat);
        assert(buf@ =~= overwrite(with_prefix, body as int, bslice@.subrange(0, 0)));
    }
    while i < bslice.len()
        invariant
            i <= bslice@.len(),
            body + bslice@.len() <= buflen,
            buf.len() == buflen,
            with_prefix.len() == buflen,
            buf@ == overwrite(with_prefix, body as int, bslice@.subrange(0, i as int)),
        decreases bslice@.len() - i,
    {
        buf.set(body + i, bslice[i]);
        proof {
            assert(buf@ =~= overwrite(with_prefix, body as int, bslice@.subrange(0, i + 1)));
        }
        i += 1;
    }
    proof {
        assert(bslice@.subrange(0, bslice@.len() as int) =~= bslice@);
        assert(buf@ =~= overwrite(old(buf)@, start as int, frame(bslice@)));
    }
    Ok(())
}

/// Packs `text` into `buf` as [`bslice_into_partof_vecu8`] packs its UTF-8 bytes.
pub fn str_into_partof_vecu8(text: &str, buf: &mut Vec<u8>, beg: &mut usize, end: &mut usize) -> (out:
    Outcome<()>)
    ensures
        final(buf)@.len() == old(buf)@.len(),
        out is Ok <==> item_fits(old(buf)@.len(), *old(end), encode_utf8(text@).len()),
        out is Ok <==> packed_one(old(buf)@, *old(end), encode_utf8(text@)) is Some,
        out is Ok ==> (final(buf)@, *final(end)) == packed_one(
            old(buf)@,
            *old(end),
            encode_utf8(text@),
        )->0,
        out is Ok ==> {
            &&& final(buf)@ == overwrite(old(buf)@, *old(end) as int, frame(encode_utf8(text@)))
            &&& *final(beg) == *old(end) + PTRLEN
            &&& *final(end) == *old(end) + PTRLEN + encode_utf8(text@).len()
        },
        !prefix_fits(old(buf)@.len(), *old(end)) ==> {
            &&& final(buf)@ == old(buf)@
            &&& *final(beg) == *old(end)
            &&& *final(end) == advance(*old(end), PTRLEN)
            &&& out is Err
            &&& out->Err_0@ == bounds_failure(
                "writing the length"@,
                *final(beg),
                *final(end),
                old(buf)@.len() as usize,
            )
        },
        prefix_fits(old(buf)@.len(), *old(end)) && !item_fits(
            old(buf)@.len(),
            *old(end),
            encode_utf8(text@).len(),
        ) ==> {
            &&& final(buf)@ == overwrite(
                old(buf)@,
                *old(end) as int,
                be_bytes(encode_utf8(text@).len(), PTRLEN as nat),
            )
            &&& *final(beg) == *old(end) + PTRLEN
            &&& *final(end) == advance(*final(beg), encode_utf8(text@).len() as usize)
            &&& out is Err
            &&& out->Err_0@ == bounds_failure(
                "writing the bytes"@,
                *final(beg),
                *final(end),
                old(buf)@.len() as usize,
            )
        },
{
    let bslice = text.as_bytes();
    bslice_into_partof_vecu8(bslice, buf, beg, end)
}

/// Unpacks the string stored in `buf` right after the cursor and moves the
/// cursor over it.
///
/// The item starts at the old `end`. A prefix or a payload that reaches past
/// the end of the buffer gives a failure named for an index out of bound, with
/// the cursor showing the range that was refused; a payload that is not UTF-8
/// gives a failure named for invalid UTF-8.
pub fn str_from_partof_vecu8(buf: &Vec<u8>, beg: &mut usize, end: &mut usize) -> (out: Outcome<
    String,
>)
    ensures
        out is Ok <==> {
            &&& prefix_fits(buf@.len(), *old(end))
            &&& item_fits(buf@.len(), *old(end), stored_len(buf@, *old(end)))
            &&& valid_utf8(stored_payload(buf@, *old(end)))
        },
        out is Ok <==> unpacked_one(buf@, *old(end)) is Some,
        out is Ok ==> (out->Ok_0@, *final(end)) == unpacked_one(buf@, *old(end))->0,
        !prefix_fits(buf@.len(), *old(end)) ==> {
            &&& *final(beg) == *old(end)
            &&& *final(end) == advance(*old(end), PTRLEN)
            &&& out is Err
            &&& out->Err_0@ == bounds_failure(
                "reading the length"@,
                *final(beg),
                *final(end),
                buf@.len() as usize,
            )
        },
        prefix_fits(buf@.len(), *old(end)) ==> *final(beg) == *old(end) + PTRLEN,
        prefix_fits(buf@.len(), *old(end)) && !item_fits(
            buf@.len(),
            *old(end),
            stored_len(buf@, *old(end)),
        ) ==> {
            &&& *final(end) == advance(*final(beg), stored_len(buf@, *old(end)) as usize)
            &&& out is Err
            &&& out->Err_0@ == bounds_failure(
                "reading the bytes"@,
                *final(beg),
                *final(end),
                buf@.len() as usize,
            )
        },
        item_fits(buf@.len(), *old(end), stored_len(buf@, *old(end))) ==> {
            &&& *final(end) == *old(end) + PTRLEN + stored_len(buf@, *old(end))
            &&& decodes_to(stored_payload(buf@, *old(end)), out)
        },
{
    let buflen = buf.len();
    let start = *end;
    *beg = start;
    *end = start.saturating_add(PTRLEN);
    if PTRLEN > buflen || start > buflen - PTRLEN {
        return out_of_bound("reading the length", *beg, *end, buflen);
    }
    let len = read_prefix(buf, start);
    let body = *end;
    *beg = body;
    *end = body.saturating_add(len);
    if len > buflen - body {
        return out_of_bound("reading the bytes", *beg, *end, buflen);
    }
    let item = slice_subrange(buf.as_slice(), body, body + len);
    decode_owned(slice_to_vec(item))
}

/// The buffer and cursor end after packing `texts` in order, one call after
/// the other, starting at `at`; `None` when one of them does not fit.
pub open spec fn packed_all(buf: Seq<u8>, at: usize, texts: Seq<Seq<char>>) -> Option<
    (Seq<u8>, usize),
>
    decreases texts.len(),
{
    if texts.len() == 0 {
        Some((buf, at))
    } else {
        match packed_one(buf, at, encode_utf8(texts[0])) {
            Some(step) => packed_all(step.0, step.1, texts.drop_first()),
            None => None,
        }
    }
}

/// The strings and the cursor end after unpacking `count` items in order,
/// one call after the other, starting at `at`; `None` when one of them
/// reaches past the buffer or is not UTF-8.
pub open spec fn unpacked_all(buf: Seq<u8>, at: usize, count: nat) -> Option<
    (Seq<Seq<char>>, usize),
>
    decreases count,
{
    if count == 0 {
        Some((Seq::empty(), at))
    } else {
        match unpacked_one(buf, at) {
            Some(step) => match unpacked_all(buf, step.1, (count - 1) as nat) {
                Some(rest) => Some((seq![step.0] + rest.0, rest.1)),
                None => None,
            },
            None => None,
        }
    }
}

/// An item that was packed at `at` is unpacked from there unchanged, as long as
/// the bytes of that item are left alone: the prefix announces the payload's
/// length, and the payload decodes to the text that was packed.
pub proof fn lemma_unpack_packed(buf: Seq<u8>, at: usize, text: Seq<char>)
    requires
        buf.len() <= usize::MAX,
        prefix_fits(buf.len(), at),
        item_fits(buf.len(), at, encode_utf8(text).len()),
        buf.subrange(at as int, at + PTRLEN + encode_utf8(text).len()) == frame(
            encode_utf8(text),
        ),
    ensures
        stored_len(buf, at) == encode_utf8(text).len(),
        stored_payload(buf, at) == encode_utf8(text),
        valid_utf8(stored_payload(buf, at)),
        decode_utf8(stored_payload(buf, at)) == text,
{
    let payload = encode_utf8(text);
    let prefix = be_bytes(payload.len(), PTRLEN as nat);
    lemma_prefix_holds_every_length();
    lemma_be_round_trip(payload.len(), PTRLEN as nat);
    let item = buf.subrange(at as int, at + PTRLEN + payload.len());
    assert(buf.subrange(at as int, at + PTRLEN) =~= item.subrange(0, PTRLEN as int));
    assert(item.subrange(0, PTRLEN as int) =~= prefix);
    assert(stored_len(buf, at) == payload.len());
    assert(stored_payload(buf, at) =~= item.subrange(
        PTRLEN as int,
        PTRLEN + payload.len(),
    ));
    assert(item.subrange(PTRLEN as int, PTRLEN + payload.len()) =~= payload);
    encode_utf8_valid_utf8(text);
    encode_utf8_decode_utf8(text);
}

/// An item that was packed at `at` is unpacked from there unchanged: what
/// reading finds at `at` in the buffer that writing left is the announced
/// length, the payload, and the text itself.
pub proof fn lemma_write_then_read(buf: Seq<u8>, at: usize, text: Seq<char>)
    requires
        buf.len() <= usize::MAX,
        item_fits(buf.len(), at, encode_utf8(text).len()),
    ensures
        ({
            let written = overwrite(buf, at as int, frame(encode_utf8(text)));
            &&& written.len() == buf.len()
            &&& prefix_fits(written.len(), at)
            &&& stored_len(written, at) == encode_utf8(text).len()
            &&& item_fits(written.len(), at, stored_len(written, at))
            &&& stored_payload(written, at) == encode_utf8(text)
            &&& valid_utf8(stored_payload(written, at))
            &&& decode_utf8(stored_payload(written, at)) == text
        }),
{
    let payload = encode_utf8(text);
    lemma_be_bytes_len(payload.len(), PTRLEN as nat);
    let written = overwrite(buf, at as int, frame(payload));
    assert(written.subrange(at as int, at + PTRLEN + payload.len()) =~= frame(payload));
    lemma_unpack_packed(written, at, text);
}

/// Packing further items changes neither the buffer's length nor any byte
/// before the position at which it starts.
pub proof fn lemma_packing_keeps_earlier_bytes(buf: Seq<u8>, at: usize, texts: Seq<Seq<char>>)
    requires
        buf.len() <= usize::MAX,
        at <= buf.len(),
        packed_all(buf, at, texts) is Some,
    ensures
        (packed_all(buf, at, texts)->0).0.len() == buf.len(),
        (packed_all(buf, at, texts)->0).0.subrange(0, at as int) == buf.subrange(0, at as int),
        at <= (packed_all(buf, at, texts)->0).1 <= buf.len(),
    decreases texts.len(),
{
    if texts.len() > 0 {
        let payload = encode_utf8(texts[0]);
        lemma_be_bytes_len(payload.len(), PTRLEN as nat);
        let next_buf = overwrite(buf, at as int, frame(payload));
        let next_at = (at + PTRLEN + payload.len()) as usize;
        lemma_packing_keeps_earlier_bytes(next_buf, next_at, texts.drop_first());
        let last = (packed_all(next_buf, next_at, texts.drop_first())->0).0;
        assert(last.subrange(0, at as int) =~= last.subrange(0, next_at as int).subrange(
            0,
            at as int,
        ));
        assert(next_buf.subrange(0, next_at as int).subrange(0, at as int) =~= buf.subrange(
            0,
            at as int,
        ));
    }
}

/// Packing one more string after others continues from the buffer and the
/// cursor that the others left: a run of calls packs what [`packed_all`] says.
pub proof fn lemma_pack_one_more(buf: Seq<u8>, at: usize, texts: Seq<Seq<char>>, text: Seq<char>)
    requires
        packed_all(buf, at, texts) is Some,
    ensures
        packed_all(buf, at, texts.push(text)) == packed_one(
            (packed_all(buf, at, texts)->0).0,
            (packed_all(buf, at, texts)->0).1,
            encode_utf8(text),
        ),
    decreases texts.len(),
{
    let longer = texts.push(text);
    if texts.len() == 0 {
        assert(longer[0] == text);
        assert(longer.drop_first() =~= Seq::<Seq<char>>::empty());
        let one = packed_one(buf, at, encode_utf8(text));
        if one is Some {
            assert(packed_all((one->0).0, (one->0).1, longer.drop_first()) == Some(one->0));
        }
    } else {
        assert(longer[0] == texts[0]);
        let step = packed_one(buf, at, encode_utf8(texts[0]))->0;
        lemma_pack_one_more(step.0, step.1, texts.drop_first(), text);
        assert(longer.drop_first() =~= texts.drop_first().push(text));
    }
}

/// Strings that were packed one after another into a buffer are unpacked from
/// it, in the same order and from the same starting position, unchanged, and
/// the reading cursor ends where the writing cursor ended.
pub proof fn lemma_pack_unpack_round_trip(buf: Seq<u8>, at: usize, texts: Seq<Seq<char>>)
    requires
        buf.len() <= usize::MAX,
        packed_all(buf, at, texts) is Some,
    ensures
        unpacked_all((packed_all(buf, at, texts)->0).0, at, texts.len()) == Some(
            (texts, (packed_all(buf, at, texts)->0).1),
        ),
    decreases texts.len(),
{
    let last = (packed_all(buf, at, texts)->0).0;
    if texts.len() > 0 {
        let payload = encode_utf8(texts[0]);
        lemma_be_bytes_len(payload.len(), PTRLEN as nat);
        let next_buf = overwrite(buf, at as int, frame(payload));
        let next_at = (at + PTRLEN + payload.len()) as usize;
        let rest = texts.drop_first();
        lemma_pack_unpack_round_trip(next_buf, next_at, rest);
        lemma_packing_keeps_earlier_bytes(next_buf, next_at, rest);
        assert(last.subrange(at as int, next_at as int) =~= last.subrange(
            0,
            next_at as int,
        ).subrange(at as int, next_at as int));
        assert(next_buf.subrange(0, next_at as int).subrange(at as int, next_at as int)
            =~= frame(payload));
        lemma_unpack_packed(last, at, texts[0]);
        assert(seq![texts[0]] + rest =~= texts);
    } else {
        assert(texts =~= Seq::<Seq<char>>::empty());
    }
}

} // verus!
