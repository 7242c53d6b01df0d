//! The record codec: byte-exact serialization of the three record kinds.
//!
//! Every string field is length-prefixed with a 4-byte little-endian length,
//! the initialization flag is one byte (0 or 1), the reply back-reference is
//! 32 raw bytes, and the counter is one byte. A record is always written at
//! the front of its account's byte region; trailing bytes are left as they
//! were, and decoding ignores them. Decoding zero-filled storage succeeds
//! and yields a default record with the flag down, which is how freshly
//! provisioned accounts read.

use vstd::prelude::*;
use crate::records::{IntroError, Reply, ReplyCounter, StudentInfo};

verus! {

/// The fixed allocation of an introduction account.
pub const INTRO_ACCOUNT_LEN: usize = 1000;

/// The exact size of a reply counter record and its account.
pub const COUNTER_ACCOUNT_LEN: usize = 13;

/// The fixed layout size the token collaborator requires of a mint account.
pub const MINT_ACCOUNT_LEN: usize = 82;

/// The introduction discriminator: the bytes of "studentinfo".
pub open spec fn intro_tag() -> Seq<u8> {
    seq![115u8, 116u8, 117u8, 100u8, 101u8, 110u8, 116u8, 105u8, 110u8, 102u8, 111u8]
}

/// The counter discriminator: the bytes of "counter".
pub open spec fn counter_tag() -> Seq<u8> {
    seq![99u8, 111u8, 117u8, 110u8, 116u8, 101u8, 114u8]
}

/// The reply discriminator: the bytes of "reply".
pub open spec fn reply_tag() -> Seq<u8> {
    seq![114u8, 101u8, 112u8, 108u8, 121u8]
}

/// The little-endian bytes of a 32-bit length.
pub open spec fn le4_of(x: u32) -> Seq<u8> {
    seq![
        (x & 0xff) as u8,
        ((x >> 8) & 0xff) as u8,
        ((x >> 16) & 0xff) as u8,
        ((x >> 24) & 0xff) as u8,
    ]
}

/// The 32-bit value read back from four little-endian bytes.
pub open spec fn le4_val(s: Seq<u8>) -> u32
    recommends
        s.len() == 4,
{
    (s[0] as u32) | ((s[1] as u32) << 8) | ((s[2] as u32) << 16) | ((s[3] as u32) << 24)
}

pub proof fn lemma_le4_round_trip(x: u32)
    ensures
        le4_of(x).len() == 4,
        le4_val(le4_of(x)) == x,
{
    assert({
        &&& x & 0xff < 256
        &&& (x >> 8) & 0xff < 256
        &&& (x >> 16) & 0xff < 256
        &&& (x >> 24) & 0xff < 256
    }) by (bit_vector);
    assert(x == (x & 0xff) | (((x >> 8) & 0xff) << 8) | (((x >> 16) & 0xff) << 16) | (((x >> 24)
        & 0xff) << 24)) by (bit_vector);
}

pub proof fn lemma_le4_val_zero()
    ensures
        le4_val(seq![0u8, 0u8, 0u8, 0u8]) == 0,
{
    assert((0u32) | ((0u32) << 8) | ((0u32) << 16) | ((0u32) << 24) == 0) by (bit_vector);
}

/// A byte string as persisted: 4-byte little-endian length, then the bytes.
pub open spec fn enc_bytes(b: Seq<u8>) -> Seq<u8>
    recommends
        b.len() < 0x1_0000_0000,
{
    le4_of(b.len() as u32) + b
}

/// The persisted initialization flag.
pub open spec fn flag_byte(b: bool) -> u8 {
    if b {
        1u8
    } else {
        0u8
    }
}

/// The serialized form of an introduction record.
pub open spec fn enc_student_info(disc: Seq<u8>, init: bool, name: Seq<u8>, msg: Seq<u8>) -> Seq<
    u8,
> {
    enc_bytes(disc) + seq![flag_byte(init)] + enc_bytes(name) + enc_bytes(msg)
}

/// The serialized form of a reply counter record.
pub open spec fn enc_reply_counter(disc: Seq<u8>, init: bool, count: u8) -> Seq<u8> {
    enc_bytes(disc) + seq![flag_byte(init), count]
}

/// The serialized form of a reply record; `intro` is the raw 32-byte
/// back-reference.
pub open spec fn enc_reply(disc: Seq<u8>, init: bool, intro: Seq<u8>, text: Seq<u8>) -> Seq<u8> {
    enc_bytes(disc) + seq![flag_byte(init)] + intro + enc_bytes(text)
}

/// An all-zero byte region of length `n`, which is how the ledger hands out
/// fresh storage.
pub open spec fn zeros(n: int) -> Seq<u8> {
    Seq::new(n as nat, |i: int| 0u8)
}

/// Reads one length-prefixed byte string at offset `i`; yields the bytes and
/// the offset just past them.
pub open spec fn parse_bytes(d: Seq<u8>, i: int) -> Option<(Seq<u8>, int)> {
    if 0 <= i && i + 4 <= d.len() {
        let n = le4_val(d.subrange(i, i + 4)) as int;
        if i + 4 + n <= d.len() {
            Some((d.subrange(i + 4, i + 4 + n), i + 4 + n))
        } else {
            None
        }
    } else {
        None
    }
}

/// Reads the one-byte initialization flag at offset `i`; only 0 and 1 are
/// valid.
pub open spec fn parse_flag(d: Seq<u8>, i: int) -> Option<(bool, int)> {
    if 0 <= i && i < d.len() && d[i] <= 1 {
        Some((d[i] == 1, i + 1))
    } else {
        None
    }
}

/// Reads one raw byte at offset `i`.
pub open spec fn parse_byte(d: Seq<u8>, i: int) -> Option<(u8, int)> {
    if 0 <= i && i < d.len() {
        Some((d[i], i + 1))
    } else {
        None
    }
}

/// Reads a raw 32-byte address at offset `i`.
pub open spec fn parse_addr32(d: Seq<u8>, i: int) -> Option<(Seq<u8>, int)> {
    if 0 <= i && i + 32 <= d.len() {
        Some((d.subrange(i, i + 32), i + 32))
    } else {
        None
    }
}

/// The introduction record read from the front of a byte region:
/// discriminator, flag, name, message. Trailing bytes are ignored.
pub open spec fn parse_student_info(d: Seq<u8>) -> Option<(Seq<u8>, bool, Seq<u8>, Seq<u8>)> {
    match parse_bytes(d, 0) {
        None => None,
        Some((disc, i)) => match parse_flag(d, i) {
            None => None,
            Some((init, j)) => match parse_bytes(d, j) {
                None => None,
                Some((name, k)) => match parse_bytes(d, k) {
                    None => None,
                    Some((msg, _end)) => Some((disc, init, name, msg)),
                },
            },
        },
    }
}

/// The counter record read from the front of a byte region.
pub open spec fn parse_reply_counter(d: Seq<u8>) -> Option<(Seq<u8>, bool, u8)> {
    match parse_bytes(d, 0) {
        None => None,
        Some((disc, i)) => match parse_flag(d, i) {
            None => None,
            Some((init, j)) => match parse_byte(d, j) {
                None => None,
                Some((count, _end)) => Some((disc, init, count)),
            },
        },
    }
}

/// The reply record read from the front of a byte region.
pub open spec fn parse_reply(d: Seq<u8>) -> Option<(Seq<u8>, bool, Seq<u8>, Seq<u8>)> {
    match parse_bytes(d, 0) {
        None => None,
        Some((disc, i)) => match parse_flag(d, i) {
            None => None,
            Some((init, j)) => match parse_addr32(d, j) {
                None => None,
                Some((intro, k)) => match parse_bytes(d, k) {
                    None => None,
                    Some((text, _end)) => Some((disc, init, intro, text)),
                },
            },
        },
    }
}

pub proof fn lemma_parse_bytes_at(pre: Seq<u8>, b: Seq<u8>, rest: Seq<u8>)
    requires
        b.len() < 0x1_0000_0000,
    ensures
        parse_bytes(pre + enc_bytes(b) + rest, pre.len() as int) == Some(
            (b, pre.len() + 4 + b.len() as int),
        ),
{
    let d = pre + enc_bytes(b) + rest;
    let i = pre.len() as int;
    lemma_le4_round_trip(b.len() as u32);
    assert(d.subrange(i, i + 4) =~= le4_of(b.len() as u32));
    assert(d.subrange(i + 4, i + 4 + b.len() as int) =~= b);
}

/// Decoding inverts encoding for an introduction record, whatever trails it.
pub proof fn lemma_student_info_round_trip(
    disc: Seq<u8>,
    init: bool,
    name: Seq<u8>,
    msg: Seq<u8>,
    rest: Seq<u8>,
)
    requires
        disc.len() < 0x1_0000_0000,
        name.len() < 0x1_0000_0000,
        msg.len() < 0x1_0000_0000,
    ensures
        parse_student_info(enc_student_info(disc, init, name, msg) + rest) == Some(
            (disc, init, name, msg),
        ),
{
    let d = enc_student_info(disc, init, name, msg) + rest;
    let e1 = enc_bytes(disc);
    let f = seq![flag_byte(init)];
    let e2 = enc_bytes(name);
    let e3 = enc_bytes(msg);
    let i1 = e1.len() as int;
    let i2 = i1 + 1;
    let i3 = i2 + e2.len() as int;
    let rest1 = f + e2 + e3 + rest;
    assert(d =~= Seq::<u8>::empty() + e1 + rest1);
    lemma_parse_bytes_at(Seq::<u8>::empty(), disc, rest1);
    assert(parse_bytes(d, 0) == Some((disc, i1)));
    assert(d =~= e1 + rest1);
    assert(d[i1] == flag_byte(init));
    assert(parse_flag(d, i1) == Some((init, i2)));
    let pre2 = e1 + f;
    let rest2 = e3 + rest;
    assert(d =~= pre2 + e2 + rest2);
    lemma_parse_bytes_at(pre2, name, rest2);
    assert(parse_bytes(d, i2) == Some((name, i3)));
    let pre3 = pre2 + e2;
    assert(d =~= pre3 + e3 + rest);
    lemma_parse_bytes_at(pre3, msg, rest);
    assert(parse_bytes(d, i3) == Some((msg, i3 + 4 + msg.len() as int)));
}

/// Decoding inverts encoding for a counter record, whatever trails it.
#[verifier::spinoff_prover]
#[verifier::rlimit(100)]
pub proof fn lemma_reply_counter_round_trip(disc: Seq<u8>, init: bool, count: u8, rest: Seq<u8>)
    requires
        disc.len() < 0x1_0000_0000,
    ensures
        parse_reply_counter(enc_reply_counter(disc, init, count) + rest) == Some(
            (disc, init, count),
        ),
{
    let d = enc_reply_counter(disc, init, count) + rest;
    let e1 = enc_bytes(disc);
    let i1 = e1.len() as int;
    let rest1 = seq![flag_byte(init), count] + rest;
    assert(d =~= Seq::<u8>::empty() + e1 + rest1);
    lemma_parse_bytes_at(Seq::<u8>::empty(), disc, rest1);
    assert(parse_bytes(d, 0) == Some((disc, i1)));
    assert(d =~= e1 + rest1);
    assert(d[i1] == flag_byte(init));
    assert(parse_flag(d, i1) == Some((init, i1 + 1)));
    assert(d[i1 + 1] == count);
    assert(parse_byte(d, i1 + 1) == Some((count, i1 + 2)));
}

/// Decoding inverts encoding for a reply record, whatever trails it.
#[verifier::spinoff_prover]
#[verifier::rlimit(100)]
pub proof fn lemma_reply_round_trip(
    disc: Seq<u8>,
    init: bool,
    intro: Seq<u8>,
    text: Seq<u8>,
    rest: Seq<u8>,
)
    requires
        disc.len() < 0x1_0000_0000,
        text.len() < 0x1_0000_0000,
        intro.len() == 32,
    ensures
        parse_reply(enc_reply(disc, init, intro, text) + rest) == Some((disc, init, intro, text)),
{
    let d = enc_reply(disc, init, intro, text) + rest;
    let e1 = enc_bytes(disc);
    let f = seq![flag_byte(init)];
    let e3 = enc_bytes(text);
    let i1 = e1.len() as int;
    let i2 = i1 + 1;
    let i3 = i2 + 32;
    let rest1 = f + intro + e3 + rest;
    assert(d =~= Seq::<u8>::empty() + e1 + rest1);
    lemma_parse_bytes_at(Seq::<u8>::empty(), disc, rest1);
    assert(parse_bytes(d, 0) == Some((disc, i1)));
    assert(d =~= e1 + rest1);
    assert(d[i1] == flag_byte(init));
    assert(parse_flag(d, i1) == Some((init, i2)));
    assert(d.subrange(i2, i3) =~= intro);
    assert(parse_addr32(d, i2) == Some((intro, i3)));
    let pre3 = e1 + f + intro;
    assert(d =~= pre3 + e3 + rest);
    lemma_parse_bytes_at(pre3, text, rest);
    assert(parse_bytes(d, i3) == Some((text, i3 + 4 + text.len() as int)));
}

/// A parsed counter record's serialized form fits inside the region it was
/// read from.
pub proof fn lemma_counter_parse_fits(d: Seq<u8>)
    requires
        parse_reply_counter(d) is Some,
    ensures
        ({
            let t = parse_reply_counter(d)->0;
            4 + t.0.len() + 2 <= d.len()
        }),
{
    let p = parse_bytes(d, 0)->0;
    let disc = p.0;
    let i = p.1;
    assert(disc.len() == i - 4);
    assert(parse_byte(d, i + 1) is Some);
}

pub proof fn lemma_parse_bytes_zeros(n: int, i: int)
    requires
        0 <= i,
        i + 4 <= n,
    ensures
        parse_bytes(zeros(n), i) == Some((Seq::<u8>::empty(), i + 4)),
{
    let d = zeros(n);
    assert(d.subrange(i, i + 4) =~= seq![0u8, 0u8, 0u8, 0u8]);
    lemma_le4_val_zero();
    assert(d.subrange(i + 4, i + 4) =~= Seq::<u8>::empty());
}

/// Freshly provisioned introduction storage reads as an empty record with
/// the flag down.
pub proof fn lemma_student_info_zeros(n: int)
    requires
        n >= 13,
    ensures
        parse_student_info(zeros(n)) == Some(
            (Seq::<u8>::empty(), false, Seq::<u8>::empty(), Seq::<u8>::empty()),
        ),
{
    lemma_parse_bytes_zeros(n, 0);
    lemma_parse_bytes_zeros(n, 5);
    lemma_parse_bytes_zeros(n, 9);
}

/// Freshly provisioned counter storage reads as an empty record with the
/// flag down and a zero count.
pub proof fn lemma_reply_counter_zeros(n: int)
    requires
        n >= 6,
    ensures
        parse_reply_counter(zeros(n)) == Some((Seq::<u8>::empty(), false, 0u8)),
{
    lemma_parse_bytes_zeros(n, 0);
}

/// Freshly provisioned reply storage reads as an empty record with the flag
/// down.
pub proof fn lemma_reply_zeros(n: int)
    requires
        n >= 41,
    ensures
        parse_reply(zeros(n)) == Some(
            (Seq::<u8>::empty(), false, zeros(32), Seq::<u8>::empty()),
        ),
{
    lemma_parse_bytes_zeros(n, 0);
    assert(zeros(n).subrange(5, 37) =~= zeros(32));
    lemma_parse_bytes_zeros(n, 37);
}

fn read_le4(d: &Vec<u8>, i: usize) -> (x: u32)
    requires
        i + 4 <= d@.len(),
    ensures
        x == le4_val(d@.subrange(i as int, i as int + 4)),
{
    let len = d.len();
    assert(i + 4 <= len);
    let b0 = d[i] as u32;
    let b1 = d[i + 1] as u32;
    let b2 = d[i + 2] as u32;
    let b3 = d[i + 3] as u32;
    b0 | (b1 << 8) | (b2 << 16) | (b3 << 24)
}

pub(crate) fn copy_range(d: &Vec<u8>, i: usize, j: usize) -> (r: Vec<u8>)
    requires
        i <= j <= d@.len(),
    ensures
        r@ == d@.subrange(i as int, j as int),
{
    let mut v: Vec<u8> = Vec::new();
    let mut k: usize = i;
    while k < j
        invariant
            i <= k <= j <= d@.len(),
            v@ == d@.subrange(i as int, k as int),
        decreases j - k,
    {
        v.push(d[k]);
        assert(v@ =~= d@.subrange(i as int, k as int + 1));
        k += 1;
    }
    v
}

pub(crate) fn read_bytes(d: &Vec<u8>, i: usize) -> (r: Option<(Vec<u8>, usize)>)
    ensures
        match r {
            Some(p) => {
                &&& parse_bytes(d@, i as int) == Some((p.0@, p.1 as int))
                &&& p.1 <= d@.len()
            },
            None => parse_bytes(d@, i as int) is None,
        },
{
    if i > d.len() || d.len() - i < 4 {
        return None;
    }
    let n = read_le4(d, i) as usize;
    let start = i + 4;
    if d.len() - start < n {
        return None;
    }
    let bytes = copy_range(d, start, start + n);
    Some((bytes, start + n))
}

fn read_flag(d: &Vec<u8>, i: usize) -> (r: Option<(bool, usize)>)
    ensures
        match r {
            Some(p) => {
                &&& parse_flag(d@, i as int) == Some((p.0, p.1 as int))
                &&& p.1 <= d@.len()
            },
            None => parse_flag(d@, i as int) is None,
        },
{
    if i < d.len() && d[i] <= 1 {
        Some((d[i] == 1, i + 1))
    } else {
        None
    }
}

fn read_byte(d: &Vec<u8>, i: usize) -> (r: Option<(u8, usize)>)
    ensures
        match r {
            Some(p) => {
                &&& parse_byte(d@, i as int) == Some((p.0, p.1 as int))
                &&& p.1 <= d@.len()
            },
            None => parse_byte(d@, i as int) is None,
        },
{
    if i < d.len() {
        Some((d[i], i + 1))
    } else {
        None
    }
}

fn read_addr32(d: &Vec<u8>, i: usize) -> (r: Option<(Vec<u8>, usize)>)
    ensures
        match r {
            Some(p) => {
                &&& parse_addr32(d@, i as int) == Some((p.0@, p.1 as int))
                &&& p.1 <= d@.len()
            },
            None => parse_addr32(d@, i as int) is None,
        },
{
    if i > d.len() || d.len() - i < 32 {
        return None;
    }
    let bytes = copy_range(d, i, i + 32);
    Some((bytes, i + 32))
}

/// Decodes an introduction record from the front of a byte region, without
/// judging the initialization flag; `None` only on a malformed region.
pub fn decode_student_info(d: &Vec<u8>) -> (r: Option<StudentInfo>)
    ensures
        match r {
            Some(rec) => parse_student_info(d@) == Some(
                (rec.discriminator@, rec.is_initialized, rec.name@, rec.msg@),
            ),
            None => parse_student_info(d@) is None,
        },
{
    match read_bytes(d, 0) {
        None => None,
        Some((disc, i)) => match read_flag(d, i) {
            None => None,
            Some((init, j)) => match read_bytes(d, j) {
                None => None,
                Some((name, k)) => match read_bytes(d, k) {
                    None => None,
                    Some((msg, _end)) => Some(
                        StudentInfo { discriminator: disc, is_initialized: init, name, msg },
                    ),
                },
            },
        },
    }
}

/// Decodes a counter record from the front of a byte region.
pub fn decode_reply_counter(d: &Vec<u8>) -> (r: Option<ReplyCounter>)
    ensures
        match r {
            Some(rec) => parse_reply_counter(d@) == Some(
                (rec.discriminator@, rec.is_initialized, rec.counter),
            ),
            None => parse_reply_counter(d@) is None,
        },
{
    match read_bytes(d, 0) {
        None => None,
        Some((disc, i)) => match read_flag(d, i) {
            None => None,
            Some((init, j)) => match read_byte(d, j) {
                None => None,
                Some((count, _end)) => Some(
                    ReplyCounter { discriminator: disc, is_initialized: init, counter: count },
                ),
            },
        },
    }
}

/// Decodes a reply record from the front of a byte region.
pub fn decode_reply(d: &Vec<u8>) -> (r: Option<Reply>)
    ensures
        match r {
            Some(rec) => parse_reply(d@) == Some(
                (rec.discriminator@, rec.is_initialized, rec.studentinfo@, rec.reply@),
            ),
            None => parse_reply(d@) is None,
        },
{
    match read_bytes(d, 0) {
        None => None,
        Some((disc, i)) => match read_flag(d, i) {
            None => None,
            Some((init, j)) => match read_addr32(d, j) {
                None => None,
                Some((back, k)) => match read_bytes(d, k) {
                    None => None,
                    Some((text, _end)) => Some(
                        Reply {
                            discriminator: disc,
                            is_initialized: init,
                            studentinfo: back,
                            reply: text,
                        },
                    ),
                },
            },
        },
    }
}

pub(crate) fn push_bytes(out: &mut Vec<u8>, b: &Vec<u8>)
    ensures
        final(out)@ == old(out)@ + b@,
{
    let mut k: usize = 0;
    while k < b.len()
        invariant
            k <= b@.len(),
            out@ == old(out)@ + b@.subrange(0, k as int),
        decreases b@.len() - k,
    {
        out.push(b[k]);
        assert(out@ =~= old(out)@ + b@.subrange(0, k as int + 1));
        k += 1;
    }
    proof {
        assert(out@ =~= old(out)@ + b@);
    }
}

fn push_le4(out: &mut Vec<u8>, x: u32)
    ensures
        final(out)@ == old(out)@ + le4_of(x),
{
    proof {
        assert({
            &&& x & 0xff < 256
            &&& (x >> 8) & 0xff < 256
            &&& (x >> 16) & 0xff < 256
            &&& (x >> 24) & 0xff < 256
        }) by (bit_vector);
    }
    out.push((x & 0xff) as u8);
    out.push(((x >> 8) & 0xff) as u8);
    out.push(((x >> 16) & 0xff) as u8);
    out.push(((x >> 24) & 0xff) as u8);
    proof {
        assert(out@ =~= old(out)@ + le4_of(x));
    }
}

fn push_len_prefixed(out: &mut Vec<u8>, b: &Vec<u8>)
    requires
        b@.len() < 0x1_0000_0000,
    ensures
        final(out)@ == old(out)@ + enc_bytes(b@),
{
    push_le4(out, b.len() as u32);
    push_bytes(out, b);
    proof {
        assert(out@ =~= old(out)@ + enc_bytes(b@));
    }
}

/// Serializes an introduction record.
pub fn encode_student_info(rec: &StudentInfo) -> (r: Vec<u8>)
    requires
        rec.discriminator@.len() < 0x1_0000_0000,
        rec.name@.len() < 0x1_0000_0000,
        rec.msg@.len() < 0x1_0000_0000,
    ensures
        r@ == enc_student_info(rec.discriminator@, rec.is_initialized, rec.name@, rec.msg@),
{
    let mut out: Vec<u8> = Vec::new();
    push_len_prefixed(&mut out, &rec.discriminator);
    out.push(if rec.is_initialized { 1 } else { 0 });
    push_len_prefixed(&mut out, &rec.name);
    push_len_prefixed(&mut out, &rec.msg);
    proof {
        assert(out@ =~= enc_student_info(
            rec.discriminator@,
            rec.is_initialized,
            rec.name@,
            rec.msg@,
        ));
    }
    out
}

/// Serializes a counter record.
pub fn encode_reply_counter(rec: &ReplyCounter) -> (r: Vec<u8>)
    requires
        rec.discriminator@.len() < 0x1_0000_0000,
    ensures
        r@ == enc_reply_counter(rec.discriminator@, rec.is_initialized, rec.counter),
{
    let mut out: Vec<u8> = Vec::new();
    push_len_prefixed(&mut out, &rec.discriminator);
    out.push(if rec.is_initialized { 1 } else { 0 });
    out.push(rec.counter);
    proof {
        assert(out@ =~= enc_reply_counter(rec.discriminator@, rec.is_initialized, rec.counter));
    }
    out
}

/// Serializes a reply record.
pub fn encode_reply(rec: &Reply) -> (r: Vec<u8>)
    requires
        rec.discriminator@.len() < 0x1_0000_0000,
        rec.reply@.len() < 0x1_0000_0000,
        rec.studentinfo@.len() == 32,
    ensures
        r@ == enc_reply(rec.discriminator@, rec.is_initialized, rec.studentinfo@, rec.reply@),
{
    let mut out: Vec<u8> = Vec::new();
    push_len_prefixed(&mut out, &rec.discriminator);
    out.push(if rec.is_initialized { 1 } else { 0 });
    push_bytes(&mut out, &rec.studentinfo);
    push_len_prefixed(&mut out, &rec.reply);
    proof {
        assert(out@ =~= enc_reply(
            rec.discriminator@,
            rec.is_initialized,
            rec.studentinfo@,
            rec.reply@,
        ));
    }
    out
}

/// Overwrites the front of an account's byte region with a serialized
/// record, leaving trailing bytes as they were; refuses a record that does
/// not fit its allocation.
pub fn write_prefix(target: &mut Vec<u8>, src: &Vec<u8>) -> (r: Result<(), IntroError>)
    ensures
        match r {
            Ok(()) => {
                &&& src@.len() <= old(target)@.len()
                &&& final(target)@ == src@ + old(target)@.skip(src@.len() as int)
            },
            Err(e) => {
                &&& e == IntroError::SerializationOverflow
                &&& src@.len() > old(target)@.len()
                &&& final(target)@ == old(target)@
            },
        },
{
    if src.len() > target.len() {
        return Err(IntroError::SerializationOverflow);
    }
    let mut k: usize = 0;
    while k < src.len()
        invariant
            k <= src@.len() <= target@.len(),
            target@.len() == old(target)@.len(),
            forall|j: int| 0 <= j < k ==> target@[j] == src@[j],
            forall|j: int| k <= j < target@.len() ==> target@[j] == old(target)@[j],
        decreases src@.len() - k,
    {
        target[k] = src[k];
        k += 1;
    }
    proof {
        assert(target@ =~= src@ + old(target)@.skip(src@.len() as int));
    }
    Ok(())
}

/// A byte string padded with zeros to a region of length `n`.
pub open spec fn padded(s: Seq<u8>, n: int) -> Seq<u8>
    recommends
        s.len() <= n,
{
    s + zeros(n - s.len())
}

/// Pads a serialized record with zeros to its account's allocation.
pub(crate) fn pad_to(v: Vec<u8>, n: usize) -> (r: Vec<u8>)
    requires
        v@.len() <= n,
    ensures
        r@ == padded(v@, n as int),
{
    let mut out = v;
    let pad = zero_vec(n - out.len());
    push_bytes(&mut out, &pad);
    out
}

pub(crate) fn intro_tag_bytes() -> (r: Vec<u8>)
    ensures
        r@ == intro_tag(),
{
    let mut v: Vec<u8> = Vec::new();
    v.push(115);
    v.push(116);
    v.push(117);
    v.push(100);
    v.push(101);
    v.push(110);
    v.push(116);
    v.push(105);
    v.push(110);
    v.push(102);
    v.push(111);
    proof {
        assert(v@ =~= intro_tag());
    }
    v
}

pub(crate) fn counter_tag_bytes() -> (r: Vec<u8>)
    ensures
        r@ == counter_tag(),
{
    let mut v: Vec<u8> = Vec::new();
    v.push(99);
    v.push(111);
    v.push(117);
    v.push(110);
    v.push(116);
    v.push(101);
    v.push(114);
    proof {
        assert(v@ =~= counter_tag());
    }
    v
}

pub(crate) fn reply_tag_bytes() -> (r: Vec<u8>)
    ensures
        r@ == reply_tag(),
{
    let mut v: Vec<u8> = Vec::new();
    v.push(114);
    v.push(101);
    v.push(112);
    v.push(108);
    v.push(121);
    proof {
        assert(v@ =~= reply_tag());
    }
    v
}

/// Builds the zero-filled byte region of a freshly provisioned account.
pub fn zero_vec(n: usize) -> (r: Vec<u8>)
    ensures
        r@ == zeros(n as int),
{
    let mut v: Vec<u8> = Vec::new();
    let mut k: usize = 0;
    while k < n
        invariant
            k <= n,
            v@ == zeros(k as int),
        decreases n - k,
    {
        v.push(0);
        assert(v@ =~= zeros(k as int + 1));
        k += 1;
    }
    v
}

} // verus!
