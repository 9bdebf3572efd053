//! The `.purem` header: 22 little-endian bytes in front of the payload.
//!
//! ```text
//! offset  size  field
//!   0      5    magic (`PUREM`)
//!   5      1    reserved (0)
//!   6      4    format version (1)
//!  10      4    schema hash (FNV-1a over the wire-type fingerprint)
//!  14      8    payload length (bytes after the header)
//! ```
//!
//! Any mismatch on magic, version, schema hash or payload length refuses
//! the blob.

use vstd::bytes::{
    spec_u32_from_le_bytes, spec_u32_to_le_bytes, spec_u64_from_le_bytes, spec_u64_to_le_bytes,
    u32_from_le_bytes, u32_to_le_bytes, u64_from_le_bytes, u64_to_le_bytes,
};
use vstd::prelude::*;
use vstd::slice::slice_subrange;
use vstd::string::StringSliceAdditionalSpecFns;

verus! {

/// File magic: the bytes of `PUREM`.
pub const MAGIC: [u8; 5] = [80, 85, 82, 69, 77];

/// The reserved header byte.
pub const RESERVED: u8 = 0;

/// Current format version.
pub const FORMAT_VERSION: u32 = 1;

/// Header length in bytes (5 + 1 + 4 + 4 + 8).
pub const HEADER_LEN: usize = 22;

/// Fingerprint of every type and field of the wire format; any change to
/// it changes [`SCHEMA_HASH`]. It names the `.purem` format's types as
/// that format fixed them, and serves as the identifier of format
/// version [`FORMAT_VERSION`]: it is not a description of this crate's
/// in-memory types, some of which differ (here `ElementId` has no
/// `Package` variant, `PureModelSlice` is not defined, and `ExprKind`
/// has more variants than the fingerprint lists).
pub const SCHEMA_FINGERPRINT_TYPES: &'static str = "\
    ElementId{InstanceId{chunk_id,local_idx},Package(PackageId)}\
    PackageId(u32)\
    RelationId(u32)\
    Arena<T>{items}\
    ElementNode{name,source_info,name_source_info,parent_package}\
    ModelChunk{chunk_id,nodes,elements}\
    Element{Class,Enumeration,Function,Profile,Association,Measure,Unit,PrimitiveType,PackageableMultiplicity,Package}\
    TypeExpr{Named,FunctionType,Relation,Generic,GenericTypeOperation{op,left,right},Unresolved}\
    GenericTypeOpKind{Union,Difference,Subset,Equal}\
    ConstValue{Integer,String}\
    Multiplicity{PureOne,ZeroOrOne,ZeroOrMany,OneOrMany,Range,Variable}\
    Parameter{name,type_expr,multiplicity,source_info}\
    DateValue{StrictDate,DateTime,StrictTime,Latest}\
    ResolvedType{type_expr,multiplicity}\
    ValueSpec{kind,source_info,type_info}\
    FunctionCallData{function,function_name,arguments}\
    ExprKind{IntegerLiteral,FloatLiteral,DecimalLiteral,StringLiteral,BooleanLiteral,DateLiteral,Variable,FunctionCall,PropertyCall,QualifiedPropertyCall,EnumValue,Lambda,Collection,TypeReference,PackageableElementRef,Column,RelationLiteral,ColSpecArrayLiteral,ColSpecLiteral}\
    RelationColumnLowered{name,type_element,multiplicity}\
    PrimitiveType{super_type,super_type_value_arguments,type_variable_parameters,constraints}\
    Class{type_parameters,type_variable_parameters,super_types,properties,qualified_properties,constraints,stereotypes,tagged_values,original_milestoned_properties}\
    TypeParameter{name,variance}\
    Variance{Invariant,Covariant,Contravariant}\
    Property{name,source_info,type_expr,multiplicity,aggregation,default_value,stereotypes,tagged_values}\
    QualifiedProperty{name,source_info,parameters,return_type,return_multiplicity,body,stereotypes,tagged_values}\
    Constraint{name,source_info,function,enforcement_level,external_id,message}\
    AggregationKind{None,Shared,Composite}\
    Function{function_name,is_native,parameters,return_type,return_multiplicity,body,stereotypes,tagged_values}\
    Association{properties,qualified_properties,stereotypes,tagged_values,original_milestoned_properties}\
    Enumeration{values,stereotypes,tagged_values}\
    EnumValue{name,source_info,stereotypes,tagged_values}\
    Profile{stereotypes,tags}\
    Measure{canonical_unit,non_canonical_units}\
    Unit{measure,conversion_expression}\
    StereotypeRef{profile,value}\
    TaggedValueRef{profile,tag,value}\
    PureModelSlice{source_chunk_range,chunks,external_refs,element_packages}\
    SourceInfo{source,start_line,start_column,end_line,end_column}";

/// FNV-1a of [`SCHEMA_FINGERPRINT_TYPES`] (see [`schema_hash`]).
pub const SCHEMA_HASH: u32 = 0x6b91_1d48;

/// FNV-1a offset basis.
pub const FNV_OFFSET: u32 = 0x811c_9dc5;

/// FNV-1a prime.
pub const FNV_PRIME: u32 = 0x0100_0193;

/// One FNV-1a step: xor in the byte, multiply by the prime modulo 2^32.
pub open spec fn fnv_step(h: u32, b: u8) -> u32 {
    vstd::wrapping::u32_specs::wrapping_mul(h ^ (b as u32), FNV_PRIME)
}

/// FNV-1a (32 bit) of a byte sequence.
pub open spec fn fnv1a_spec(bytes: Seq<u8>) -> u32
    decreases bytes.len(),
{
    if bytes.len() == 0 {
        FNV_OFFSET
    } else {
        fnv_step(fnv1a_spec(bytes.drop_last()), bytes.last())
    }
}

/// FNV-1a (32 bit) of `bytes`.
pub fn fnv1a(bytes: &[u8]) -> (h: u32)
    ensures
        h == fnv1a_spec(bytes@),
{
    let mut hash: u32 = FNV_OFFSET;
    let mut i: usize = 0;
    while i < bytes.len()
        invariant
            i <= bytes@.len(),
            hash == fnv1a_spec(bytes@.take(i as int)),
        decreases bytes.len() - i,
    {
        assert(bytes@.take(i + 1).drop_last() =~= bytes@.take(i as int));
        hash = hash ^ (bytes[i] as u32);
        hash = hash.wrapping_mul(FNV_PRIME);
        i = i + 1;
    }
    assert(bytes@.take(i as int) =~= bytes@);
    hash
}

/// FNV-1a of the wire-type fingerprint; equals [`SCHEMA_HASH`].
pub fn schema_hash() -> (h: u32)
    ensures
        h == fnv1a_spec(SCHEMA_FINGERPRINT_TYPES.spec_bytes()),
{
    fnv1a(SCHEMA_FINGERPRINT_TYPES.as_bytes())
}

/// Why a header was refused.
#[derive(Debug, PartialEq, Eq)]
pub enum HeaderError {
    /// The blob is shorter than [`HEADER_LEN`].
    TooShort { expected: usize, got: usize },
    /// The first five bytes are not `PUREM`.
    BadMagic { got: [u8; 5] },
    /// The format version differs from [`FORMAT_VERSION`].
    BadVersion { expected: u32, got: u32 },
    /// The schema hash differs from [`SCHEMA_HASH`].
    BadSchemaHash { expected: u32, got: u32 },
    /// The payload length field differs from the bytes after the header.
    BadPayloadLength { expected: u64, got: u64 },
}

/// The magic bytes.
pub open spec fn magic_bytes() -> Seq<u8> {
    seq![80u8, 85u8, 82u8, 69u8, 77u8]
}

/// The header written for a payload of `n` bytes.
pub open spec fn header_bytes(n: u64) -> Seq<u8> {
    magic_bytes() + seq![RESERVED] + spec_u32_to_le_bytes(FORMAT_VERSION) + spec_u32_to_le_bytes(
        SCHEMA_HASH,
    ) + spec_u64_to_le_bytes(n)
}

/// The version field of a blob.
pub open spec fn version_field(b: Seq<u8>) -> u32 {
    spec_u32_from_le_bytes(b.subrange(6, 10))
}

/// The schema-hash field of a blob.
pub open spec fn schema_field(b: Seq<u8>) -> u32 {
    spec_u32_from_le_bytes(b.subrange(10, 14))
}

/// The payload-length field of a blob.
pub open spec fn length_field(b: Seq<u8>) -> u64 {
    spec_u64_from_le_bytes(b.subrange(14, 22))
}

/// The blob starts with an acceptable header describing exactly the bytes
/// that follow it.
pub open spec fn header_valid(b: Seq<u8>) -> bool {
    &&& b.len() >= HEADER_LEN
    &&& b.take(5) == magic_bytes()
    &&& version_field(b) == FORMAT_VERSION
    &&& schema_field(b) == SCHEMA_HASH
    &&& b.len() - HEADER_LEN == length_field(b)
}

/// `e` is the refusal of `b`: the first check that fails, with its
/// diagnostics (magic, then version, then schema hash, then length).
pub open spec fn header_error(b: Seq<u8>, e: HeaderError) -> bool {
    match e {
        HeaderError::TooShort { expected, got } => {
            &&& b.len() < HEADER_LEN
            &&& expected == HEADER_LEN
            &&& got == b.len()
        },
        HeaderError::BadMagic { got } => {
            &&& b.len() >= HEADER_LEN
            &&& b.take(5) != magic_bytes()
            &&& got@ == b.take(5)
        },
        HeaderError::BadVersion { expected, got } => {
            &&& b.len() >= HEADER_LEN
            &&& b.take(5) == magic_bytes()
            &&& got == version_field(b)
            &&& got != FORMAT_VERSION
            &&& expected == FORMAT_VERSION
        },
        HeaderError::BadSchemaHash { expected, got } => {
            &&& b.len() >= HEADER_LEN
            &&& b.take(5) == magic_bytes()
            &&& version_field(b) == FORMAT_VERSION
            &&& got == schema_field(b)
            &&& got != SCHEMA_HASH
            &&& expected == SCHEMA_HASH
        },
        HeaderError::BadPayloadLength { expected, got } => {
            &&& b.len() >= HEADER_LEN
            &&& b.take(5) == magic_bytes()
            &&& version_field(b) == FORMAT_VERSION
            &&& schema_field(b) == SCHEMA_HASH
            &&& expected == length_field(b)
            &&& got == b.len() - HEADER_LEN
            &&& got != expected
        },
    }
}

fn append_bytes(out: &mut Vec<u8>, bytes: &[u8])
    ensures
        final(out)@ == old(out)@ + bytes@,
{
    let ghost start = out@;
    let mut i: usize = 0;
    while i < bytes.len()
        invariant
            i <= bytes@.len(),
            out@ == start + bytes@.take(i as int),
        decreases bytes.len() - i,
    {
        out.push(bytes[i]);
        assert(bytes@.take(i + 1) =~= bytes@.take(i as int).push(bytes@[i as int]));
        i = i + 1;
    }
    assert(bytes@.take(i as int) =~= bytes@);
}

/// Appends the 22-byte header for a payload of `payload_length` bytes.
pub fn write_header(out: &mut Vec<u8>, payload_length: u64)
    ensures
        final(out)@ == old(out)@ + header_bytes(payload_length),
{
    let ghost start = out@;
    append_bytes(out, MAGIC.as_slice());
    out.push(RESERVED);
    let version = u32_to_le_bytes(FORMAT_VERSION);
    append_bytes(out, version.as_slice());
    let schema = u32_to_le_bytes(SCHEMA_HASH);
    append_bytes(out, schema.as_slice());
    let len = u64_to_le_bytes(payload_length);
    append_bytes(out, len.as_slice());
    assert(MAGIC@ =~= magic_bytes());
    assert(out@ =~= start + header_bytes(payload_length));
}

/// Validates the header at the front of `blob` and returns the payload
/// that follows it.
pub fn read_header(blob: &[u8]) -> (r: Result<&[u8], HeaderError>)
    ensures
        match r {
            Ok(payload) => header_valid(blob@) && payload@ == blob@.subrange(
                HEADER_LEN as int,
                blob@.len() as int,
            ),
            Err(e) => header_error(blob@, e),
        },
{
    if blob.len() < HEADER_LEN {
        return Err(HeaderError::TooShort { expected: HEADER_LEN, got: blob.len() });
    }
    let got_magic: [u8; 5] = [blob[0], blob[1], blob[2], blob[3], blob[4]];
    assert(got_magic@ =~= blob@.take(5));
    if !(got_magic[0] == MAGIC[0] && got_magic[1] == MAGIC[1] && got_magic[2] == MAGIC[2]
        && got_magic[3] == MAGIC[3] && got_magic[4] == MAGIC[4]) {
        assert(blob@.take(5) != magic_bytes()) by {
            if blob@.take(5) == magic_bytes() {
                assert(blob@.take(5)[0] == 80u8);
            }
        }
        return Err(HeaderError::BadMagic { got: got_magic });
    }
    assert(blob@.take(5) =~= magic_bytes());
    // The reserved byte is not checked: later versions may use it.
    let version = u32_from_le_bytes(slice_subrange(blob, 6, 10));
    if version != FORMAT_VERSION {
        return Err(HeaderError::BadVersion { expected: FORMAT_VERSION, got: version });
    }
    let schema = u32_from_le_bytes(slice_subrange(blob, 10, 14));
    if schema != SCHEMA_HASH {
        return Err(HeaderError::BadSchemaHash { expected: SCHEMA_HASH, got: schema });
    }
    let payload_length = u64_from_le_bytes(slice_subrange(blob, 14, 22));
    let payload = slice_subrange(blob, HEADER_LEN, blob.len());
    if payload.len() as u64 != payload_length {
        return Err(
            HeaderError::BadPayloadLength { expected: payload_length, got: payload.len() as u64 },
        );
    }
    Ok(payload)
}

/// A header written for `n` bytes, followed by `n` bytes of payload, is
/// accepted, and reading it gives back exactly that payload.
pub proof fn lemma_header_round_trip(n: u64, payload: Seq<u8>)
    requires
        payload.len() == n,
    ensures
        header_bytes(n).len() == HEADER_LEN,
        header_valid(header_bytes(n) + payload),
        (header_bytes(n) + payload).subrange(HEADER_LEN as int, HEADER_LEN + n) == payload,
{
    vstd::bytes::lemma_auto_spec_u32_to_from_le_bytes();
    vstd::bytes::lemma_auto_spec_u64_to_from_le_bytes();
    let h = header_bytes(n);
    let b = h + payload;
    let v = spec_u32_to_le_bytes(FORMAT_VERSION);
    let s = spec_u32_to_le_bytes(SCHEMA_HASH);
    let l = spec_u64_to_le_bytes(n);
    assert(h.len() == 22);
    assert(b.take(5) =~= magic_bytes());
    assert(b.subrange(6, 10) =~= v);
    assert(b.subrange(10, 14) =~= s);
    assert(b.subrange(14, 22) =~= l);
    assert(b.subrange(22, 22 + n) =~= payload);
}

/// A `.purem` blob: the header for `payload`, then `payload`.
pub fn frame_payload(payload: &[u8]) -> (r: Vec<u8>)
    requires
        payload@.len() + HEADER_LEN <= usize::MAX,
    ensures
        r@ == header_bytes(payload@.len() as u64) + payload@,
        header_valid(r@),
        r@.subrange(HEADER_LEN as int, r@.len() as int) == payload@,
{
    let mut blob: Vec<u8> = Vec::new();
    write_header(&mut blob, payload.len() as u64);
    append_bytes(&mut blob, payload);
    proof {
        lemma_header_round_trip(payload@.len() as u64, payload@);
        assert(blob@ =~= header_bytes(payload@.len() as u64) + payload@);
    }
    blob
}

} // verus!
