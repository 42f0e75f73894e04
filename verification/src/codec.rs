//! Trusted boundary to the serialisation and compression crates.  Each
//! serialiser's output is named by what deserialising it gives back;
//! each compressor's output by what decompressing it gives back.  The
//! archive logic is verified against these round-trip contracts.

use vstd::prelude::*;
use crate::chunk::Template;

verus! {

/// What zstd decompression returns on the given bytes, or `None` if
/// they are not a valid zstd frame.
pub uninterp spec fn zstd_inflate(b: Seq<u8>) -> Option<Seq<u8>>;

/// Relies on zstd::stream::encode_all: the result is a zstd frame that
/// decompresses to the input.  At the archive's fixed level, writing
/// into memory, compression cannot fail, so the call always succeeds.
#[verifier::external_body]
pub(crate) fn zstd_compress(data: &Vec<u8>, level: i32) -> (r: Option<Vec<u8>>)
    requires
        level == 3,
    ensures
        r is Some,
        r is Some ==> zstd_inflate(r->0@) == Some(data@),
{
    zstd::stream::encode_all(data.as_slice(), level).ok()
}

/// Relies on zstd::stream::decode_all: decompression is a function of
/// the input bytes alone.
#[verifier::external_body]
pub(crate) fn zstd_decompress(data: &Vec<u8>) -> (r: Option<Vec<u8>>)
    ensures
        r is Some <==> zstd_inflate(data@) is Some,
        r is Some ==> Some(r->0@) == zstd_inflate(data@),
{
    zstd::stream::decode_all(data.as_slice()).ok()
}

/// What postcard deserialisation of an `i64` column returns.
pub uninterp spec fn pc_parse_i64s(b: Seq<u8>) -> Option<Seq<i64>>;

/// Relies on postcard::to_allocvec: deserialising its output returns
/// the original column; the allocating serialiser cannot fail on a
/// column of this type.
#[verifier::external_body]
pub(crate) fn pc_ser_i64s(v: &Vec<i64>) -> (r: Option<Vec<u8>>)
    ensures
        r is Some,
        r is Some ==> pc_parse_i64s(r->0@) == Some(v@),
{
    postcard::to_allocvec(v).ok()
}

/// Relies on postcard::from_bytes on a `Vec<i64>`.
#[verifier::external_body]
pub(crate) fn pc_de_i64s(b: &Vec<u8>) -> (r: Option<Vec<i64>>)
    ensures
        r is Some <==> pc_parse_i64s(b@) is Some,
        r is Some ==> Some(r->0@) == pc_parse_i64s(b@),
{
    postcard::from_bytes(b).ok()
}

/// What postcard deserialisation of a `u32` column returns.
pub uninterp spec fn pc_parse_u32s(b: Seq<u8>) -> Option<Seq<u32>>;

/// Relies on postcard::to_allocvec: deserialising its output returns
/// the original column; the allocating serialiser cannot fail on a
/// column of this type.
#[verifier::external_body]
pub(crate) fn pc_ser_u32s(v: &Vec<u32>) -> (r: Option<Vec<u8>>)
    ensures
        r is Some,
        r is Some ==> pc_parse_u32s(r->0@) == Some(v@),
{
    postcard::to_allocvec(v).ok()
}

/// Relies on postcard::from_bytes on a `Vec<u32>`.
#[verifier::external_body]
pub(crate) fn pc_de_u32s(b: &Vec<u8>) -> (r: Option<Vec<u32>>)
    ensures
        r is Some <==> pc_parse_u32s(b@) is Some,
        r is Some ==> Some(r->0@) == pc_parse_u32s(b@),
{
    postcard::from_bytes(b).ok()
}

/// What postcard deserialisation of an optional-id column returns.
pub uninterp spec fn pc_parse_opt_u32s(b: Seq<u8>) -> Option<Seq<Option<u32>>>;

/// Relies on postcard::to_allocvec: deserialising its output returns
/// the original column; the allocating serialiser cannot fail on a
/// column of this type.
#[verifier::external_body]
pub(crate) fn pc_ser_opt_u32s(v: &Vec<Option<u32>>) -> (r: Option<Vec<u8>>)
    ensures
        r is Some,
        r is Some ==> pc_parse_opt_u32s(r->0@) == Some(v@),
{
    postcard::to_allocvec(v).ok()
}

/// Relies on postcard::from_bytes on a `Vec<Option<u32>>`.
#[verifier::external_body]
pub(crate) fn pc_de_opt_u32s(b: &Vec<u8>) -> (r: Option<Vec<Option<u32>>>)
    ensures
        r is Some <==> pc_parse_opt_u32s(b@) is Some,
        r is Some ==> Some(r->0@) == pc_parse_opt_u32s(b@),
{
    postcard::from_bytes(b).ok()
}

/// What postcard deserialisation of a `bool` column returns.
pub uninterp spec fn pc_parse_bools(b: Seq<u8>) -> Option<Seq<bool>>;

/// Relies on postcard::to_allocvec: deserialising its output returns
/// the original column; the allocating serialiser cannot fail on a
/// column of this type.
#[verifier::external_body]
pub(crate) fn pc_ser_bools(v: &Vec<bool>) -> (r: Option<Vec<u8>>)
    ensures
        r is Some,
        r is Some ==> pc_parse_bools(r->0@) == Some(v@),
{
    postcard::to_allocvec(v).ok()
}

/// Relies on postcard::from_bytes on a `Vec<bool>`.
#[verifier::external_body]
pub(crate) fn pc_de_bools(b: &Vec<u8>) -> (r: Option<Vec<bool>>)
    ensures
        r is Some <==> pc_parse_bools(b@) is Some,
        r is Some ==> Some(r->0@) == pc_parse_bools(b@),
{
    postcard::from_bytes(b).ok()
}

/// What postcard deserialisation of the variables column — a list of
/// string lists — returns.
pub uninterp spec fn pc_parse_str_lists(b: Seq<u8>) -> Option<Seq<Seq<Seq<char>>>>;

/// Relies on postcard::to_allocvec: deserialising its output returns
/// the original column; the allocating serialiser cannot fail on a
/// column of this type.
#[verifier::external_body]
pub(crate) fn pc_ser_str_lists(v: &Vec<Vec<String>>) -> (r: Option<Vec<u8>>)
    ensures
        r is Some,
        r is Some ==> pc_parse_str_lists(r->0@) == Some(v.deep_view()),
{
    postcard::to_allocvec(v).ok()
}

/// Relies on postcard::from_bytes on a `Vec<Vec<String>>`.
#[verifier::external_body]
pub(crate) fn pc_de_str_lists(b: &Vec<u8>) -> (r: Option<Vec<Vec<String>>>)
    ensures
        r is Some <==> pc_parse_str_lists(b@) is Some,
        r is Some ==> Some(r->0.deep_view()) == pc_parse_str_lists(b@),
{
    postcard::from_bytes(b).ok()
}

/// What postcard deserialisation of the archive container returns: the
/// template pairs, the string pool, and the ten column blocks in field
/// order.
pub uninterp spec fn pc_parse_container(b: Seq<u8>) -> Option<
    (Seq<(u32, Seq<char>)>, Seq<Seq<char>>, Seq<Seq<u8>>),
>;

/// Relies on postcard::to_allocvec: the container serialises as its
/// fields in order — the template pairs, the string pool, then the ten
/// blocks — and deserialising the output returns them; the allocating
/// serialiser cannot fail on this shape.
#[verifier::external_body]
pub(crate) fn pc_ser_container(templates: &Vec<Template>, pool: &Vec<String>, b: &Vec<Vec<u8>>) -> (r:
    Option<Vec<u8>>)
    requires
        b@.len() == 10,
    ensures
        r is Some,
        r is Some ==> pc_parse_container(r->0@) == Some(
            (templates.deep_view(), pool.deep_view(), b.deep_view()),
        ),
{
    let t: Vec<(u32, &String)> = templates.iter().map(|x| (x.id, &x.pattern)).collect();
    postcard::to_allocvec(
        &(t, pool, &b[0], &b[1], &b[2], &b[3], &b[4], &b[5], &b[6], &b[7], &b[8], &b[9]),
    ).ok()
}

/// Relies on postcard::from_bytes on the container's twelve fields; a
/// successful parse always yields exactly ten blocks.
#[verifier::external_body]
pub(crate) fn pc_de_container(data: &Vec<u8>) -> (r: Option<(Vec<Template>, Vec<String>, Vec<Vec<u8>>)>)
    ensures
        r is Some <==> pc_parse_container(data@) is Some,
        r is Some ==> ({
            let m = pc_parse_container(data@)->0;
            let c = r->0;
            &&& c.0.deep_view() == m.0
            &&& c.1.deep_view() == m.1
            &&& c.2.deep_view() == m.2
            &&& m.2.len() == 10
        }),
{
    match postcard::from_bytes::<
        (Vec<(u32, String)>, Vec<String>, Vec<u8>, Vec<u8>, Vec<u8>, Vec<u8>, Vec<u8>, Vec<u8>, Vec<
            u8,
        >, Vec<u8>, Vec<u8>, Vec<u8>),
    >(data) {
        Ok((tp, pool, b0, b1, b2, b3, b4, b5, b6, b7, b8, b9)) => Some(
            (
                tp.into_iter().map(|p| Template { id: p.0, pattern: p.1 }).collect(),
                pool,
                vec![b0, b1, b2, b3, b4, b5, b6, b7, b8, b9],
            ),
        ),
        Err(_) => None,
    }
}

} // verus!
