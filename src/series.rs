//! Series registration: the catalog's ids of `(backend, channel, scalar type,
//! shape)` tuples, and the decisions of allocating a fresh id.
use vstd::prelude::*;
use md5::Digest;
use vstd::utf8::encode_utf8;
use crate::bytes::{le_bytes, le_value, read_uint};
use crate::types::{scalar_type_index, shape_dims, ByteOrder, ChannelDesc};

verus! {

/// Whether an id was found in the catalog or created by this call.
#[derive(Debug, PartialEq, Eq)]
pub enum Existence<T> {
    Created(T),
    Existing(T),
}

impl<T> Existence<T> {
    pub open spec fn inner(self) -> T {
        match self {
            Existence::Created(x) => x,
            Existence::Existing(x) => x,
        }
    }

    pub fn into_inner(self) -> (r: T)
        ensures
            r == self.inner(),
    {
        match self {
            Existence::Created(x) => x,
            Existence::Existing(x) => x,
        }
    }
}

/// The catalog id of a series.
#[derive(Clone, Copy, Debug, PartialEq, Eq, PartialOrd, Ord, Structural)]
pub struct SeriesId(u64);

impl SeriesId {
    pub closed spec fn spec_id(&self) -> u64 {
        self.0
    }

    pub fn new(id: u64) -> (r: Self)
        ensures
            r.spec_id() == id,
    {
        SeriesId(id)
    }

    pub fn id(&self) -> (r: u64)
        ensures
            r == self.spec_id(),
    {
        self.0
    }
}

/// The catalog id of a channel's status series.
#[derive(Clone, Copy, Debug, PartialEq, Eq, PartialOrd, Ord, Structural)]
pub struct ChannelStatusSeriesId(u64);

impl ChannelStatusSeriesId {
    pub closed spec fn spec_id(&self) -> u64 {
        self.0
    }

    pub fn new(id: u64) -> (r: Self)
        ensures
            r.spec_id() == id,
    {
        ChannelStatusSeriesId(id)
    }

    pub fn id(&self) -> (r: u64)
        ensures
            r == self.spec_id(),
    {
        self.0
    }
}

/// Attempts at a fresh id before registration gives up.
pub const MAX_ATTEMPTS: u32 = 200;

/// Largest id the catalog's signed column holds.
pub const SERIES_ID_MAX: u64 = 0x7fff_ffff_ffff_ffff;

/// Decimal digits of `n`, as ASCII.
pub open spec fn dec_digits(n: nat) -> Seq<u8>
    decreases n,
{
    if n < 10 {
        seq![(48 + n) as u8]
    } else {
        dec_digits(n / 10).push((48 + n % 10) as u8)
    }
}

/// `v` as Rust's `Debug` writes an integer.
pub open spec fn dbg_int(v: int) -> Seq<u8> {
    if v < 0 {
        seq![45u8] + dec_digits((-v) as nat)
    } else {
        dec_digits(v as nat)
    }
}

/// The elements of `s` separated by `", "`.
pub open spec fn dbg_list_body(s: Seq<i32>) -> Seq<u8>
    decreases s.len(),
{
    if s.len() == 0 {
        seq![]
    } else if s.len() == 1 {
        dbg_int(s[0] as int)
    } else {
        dbg_list_body(s.drop_last()) + seq![44u8, 32u8] + dbg_int(s.last() as int)
    }
}

/// `s` as Rust's `Debug` writes a list of integers.
pub open spec fn dbg_list(s: Seq<i32>) -> Seq<u8> {
    seq![91u8] + dbg_list_body(s) + seq![93u8]
}

/// The bytes that seed the id hash of a channel: backend, channel name, and
/// the debug forms of the type index and of the shape's dimensions.
pub open spec fn series_seed(backend: Seq<char>, desc: ChannelDesc) -> Seq<u8> {
    encode_utf8(backend) + encode_utf8(desc.name@) + dbg_int(scalar_type_index(desc.scalar_type) as int) + dbg_list(shape_dims(desc.shape))
}

/// The MD5 digest of a byte sequence.
pub uninterp spec fn md5_of(data: Seq<u8>) -> Seq<u8>;

/// The id that a digest proposes: its first eight bytes, least significant
/// first, where that is neither zero nor above `SERIES_ID_MAX`.
pub open spec fn candidate_spec(digest: Seq<u8>) -> Option<u64> {
    let v = le_value(digest.subrange(0, 8));
    if 0 < v && v <= SERIES_ID_MAX {
        Some(v as u64)
    } else {
        None
    }
}

/// Relies on `md5::Md5` (crate md-5) through `Digest::digest`: the MD5
/// digest of the bytes, which is 16 bytes long.
#[verifier::external_body]
fn md5_digest(data: &Vec<u8>) -> (r: Vec<u8>)
    ensures
        r@ == md5_of(data@),
        r@.len() == 16,
{
    md5::Md5::digest(data.as_slice()).to_vec()
}

/// The id that `digest` proposes, if it is a valid id.
pub fn candidate_from_digest(digest: &[u8]) -> (r: Option<u64>)
    requires
        digest@.len() >= 8,
    ensures
        r == candidate_spec(digest@),
{
    let v = read_uint(digest, 0, 8, ByteOrder::LE);
    if 0 < v && v <= SERIES_ID_MAX {
        Some(v)
    } else {
        None
    }
}

/// The id of the first catalog row found, as an existing series.
pub fn existing_from_rows(rows: &Vec<i64>) -> (r: Option<Existence<SeriesId>>)
    ensures
        rows@.len() == 0 ==> r is None,
        rows@.len() > 0 ==> (r matches Some(Existence::Existing(id)) && id.spec_id() == rows@[0] as u64),
{
    if rows.len() == 0 {
        None
    } else {
        Some(Existence::Existing(SeriesId(rows[0] as u64)))
    }
}

fn push_dec(out: &mut Vec<u8>, n: u64)
    ensures
        final(out)@ == old(out)@ + dec_digits(n as nat),
    decreases n,
{
    if n >= 10 {
        push_dec(out, n / 10);
    }
    out.push((48 + n % 10) as u8);
    proof {
        if n >= 10 {
            assert(final(out)@ =~= old(out)@ + dec_digits(n as nat));
        } else {
            assert(final(out)@ =~= old(out)@ + dec_digits(n as nat));
        }
    }
}

fn push_dbg_int(out: &mut Vec<u8>, v: i32)
    ensures
        final(out)@ == old(out)@ + dbg_int(v as int),
{
    if v < 0 {
        out.push(45u8);
        let m: i64 = -(v as i64);
        push_dec(out, m as u64);
        assert(final(out)@ =~= old(out)@ + dbg_int(v as int));
    } else {
        push_dec(out, v as u64);
    }
}

fn push_dbg_list(out: &mut Vec<u8>, s: &Vec<i32>)
    ensures
        final(out)@ == old(out)@ + dbg_list(s@),
{
    let ghost start = out@;
    out.push(91u8);
    let mut i: usize = 0;
    while i < s.len()
        invariant
            i <= s@.len(),
            out@ == start + seq![91u8] + dbg_list_body(s@.subrange(0, i as int)),
        decreases s@.len() - i,
    {
        let ghost before = out@;
        if i > 0 {
            out.push(44u8);
            out.push(32u8);
        }
        push_dbg_int(out, s[i]);
        proof {
            let pre = s@.subrange(0, i as int);
            let next = s@.subrange(0, i + 1);
            assert(next.drop_last() =~= pre);
            if i == 0 {
                assert(out@ =~= start + seq![91u8] + dbg_list_body(next));
            } else {
                assert(out@ =~= start + seq![91u8] + dbg_list_body(next));
            }
        }
        i = i + 1;
    }
    out.push(93u8);
    proof {
        assert(s@.subrange(0, s@.len() as int) =~= s@);
        assert(out@ =~= start + dbg_list(s@));
    }
}

/// State of allocating a fresh id: the hash input so far and the attempts
/// made. Each attempt mixes a fresh nonce into the input.
pub struct SeriesRegistration {
    seed: Vec<u8>,
    attempts: u32,
}

impl SeriesRegistration {
    pub closed spec fn spec_seed(&self) -> Seq<u8> {
        self.seed@
    }

    pub closed spec fn spec_attempts(&self) -> u32 {
        self.attempts
    }

    /// Starts from the seed of the channel; no attempt made yet.
    pub fn new(backend: &str, desc: &ChannelDesc) -> (r: Self)
        ensures
            r.spec_seed() == series_seed(backend@, *desc),
            r.spec_attempts() == 0,
    {
        let mut seed: Vec<u8> = Vec::new();
        seed.extend_from_slice(backend.as_bytes());
        seed.extend_from_slice(desc.name.as_str().as_bytes());
        push_dbg_int(&mut seed, desc.scalar_type.to_scylla_i32());
        let dims = desc.shape.to_scylla_vec();
        push_dbg_list(&mut seed, &dims);
        proof {
            assert(seed@ =~= series_seed(backend@, *desc));
        }
        SeriesRegistration { seed, attempts: 0 }
    }

    /// True once all attempts are spent.
    pub fn exhausted(&self) -> (r: bool)
        ensures
            r == (self.spec_attempts() >= MAX_ATTEMPTS),
    {
        self.attempts >= MAX_ATTEMPTS
    }

    /// One attempt: mixes `nonce` (four bytes, least significant first) into
    /// the hash input and proposes the id of its digest, if valid.
    pub fn next_candidate(&mut self, nonce: u32) -> (r: Option<u64>)
        requires
            old(self).spec_attempts() < MAX_ATTEMPTS,
        ensures
            final(self).spec_attempts() == old(self).spec_attempts() + 1,
            final(self).spec_seed() == old(self).spec_seed() + le_bytes(nonce as nat, 4),
            r == candidate_spec(md5_of(final(self).spec_seed())),
    {
        let b0 = (nonce % 256) as u8;
        let b1 = ((nonce / 256) % 256) as u8;
        let b2 = ((nonce / 65536) % 256) as u8;
        let b3 = (nonce / 16777216) as u8;
        let ghost before = self.seed@;
        self.seed.push(b0);
        self.seed.push(b1);
        self.seed.push(b2);
        self.seed.push(b3);
        proof {
            reveal_with_fuel(le_bytes, 5);
            assert(nonce as nat / 256 / 256 == nonce as nat / 65536) by {
                vstd::arithmetic::div_mod::lemma_div_denominator(nonce as int, 256, 256);
            }
            assert(nonce as nat / 65536 / 256 == nonce as nat / 16777216) by {
                vstd::arithmetic::div_mod::lemma_div_denominator(nonce as int, 65536, 256);
            }
            assert((nonce as nat / 16777216) / 256 == 0);
            assert(self.seed@ =~= before + le_bytes(nonce as nat, 4));
        }
        self.attempts = self.attempts + 1;
        let digest = md5_digest(&self.seed);
        candidate_from_digest(digest.as_slice())
    }

    /// The catalog's answer to inserting `id`: one row inserted means the id
    /// is now this series'; anything else means another attempt is due.
    pub fn on_insert(&self, rows_inserted: u64, id: u64) -> (r: Option<Existence<SeriesId>>)
        ensures
            rows_inserted == 1 ==> (r matches Some(Existence::Created(s)) && s.spec_id() == id),
            rows_inserted != 1 ==> r is None,
    {
        if rows_inserted == 1 {
            Some(Existence::Created(SeriesId(id)))
        } else {
            None
        }
    }
}

} // verus!
