//! Typed asset handles, the on-disk reference record they convert to and
//! from, and the byte-coded enumeration wrapper.
use vstd::prelude::*;

use crate::assoc;
use crate::scope::ProjectScope;

verus! {

/// The on-disk reference record: a fixed local file id and type tag per
/// asset kind, plus the referenced asset's GUID.
#[derive(Debug, Clone)]
pub struct UnityAssetReference {
    pub file_id: u32,
    pub guid: String,
    pub ty: u8,
}

/// The capability of an asset kind: its fixed `(file_id, type_tag)`
/// constants, and conversion to and from the generic reference record.
/// Encoding writes the kind's constants next to the handle's GUID; decoding
/// keeps only the record's GUID and silently ignores its constants.
pub trait AssetKind: Sized {
    /// The GUID this handle holds.
    spec fn guid_view(self) -> Seq<char>;

    /// The fixed local file id of this kind.
    spec fn file_id_spec() -> u32;

    /// The fixed type tag of this kind.
    spec fn type_tag_spec() -> u8;

    /// Decode: keep the record's GUID, discard its constants.
    fn from_reference(r: UnityAssetReference) -> (s: Self)
        ensures
            s.guid_view() == r.guid@,
    ;

    /// Encode: this kind's constants beside this handle's GUID.
    fn to_reference(&self) -> (r: UnityAssetReference)
        ensures
            r.guid@ == self.guid_view(),
            r.file_id == Self::file_id_spec(),
            r.ty == Self::type_tag_spec(),
    ;

    /// Borrow the GUID.
    fn guid(&self) -> (g: &String)
        ensures
            g@ == self.guid_view(),
    ;
}

/// Law: for every asset kind, decoding an encoded handle keeps the GUID.
/// `enc` stands for any record `to_reference` may return for `h`, and `dec`
/// for any handle `from_reference` may return for `enc`; their contracts
/// force the GUID through unchanged.
pub proof fn lemma_reference_roundtrip<A: AssetKind>(h: A, enc: UnityAssetReference, dec: A)
    requires
        enc.guid@ == h.guid_view(),
        dec.guid_view() == enc.guid@,
    ensures
        dec.guid_view() == h.guid_view(),
{
}

/// A handle to a non-2D texture asset.
#[derive(Debug, Clone)]
pub struct UnityTexture {
    guid: String,
}

impl AssetKind for UnityTexture {
    closed spec fn guid_view(self) -> Seq<char> {
        self.guid@
    }

    open spec fn file_id_spec() -> u32 {
        2700000
    }

    open spec fn type_tag_spec() -> u8 {
        3
    }

    fn from_reference(r: UnityAssetReference) -> (s: Self) {
        UnityTexture { guid: r.guid }
    }

    fn to_reference(&self) -> (r: UnityAssetReference) {
        UnityAssetReference { file_id: 2700000, guid: self.guid.clone(), ty: 3 }
    }

    fn guid(&self) -> (g: &String) {
        &self.guid
    }
}

/// A handle to a 2D texture asset.
#[derive(Debug, Clone)]
pub struct UnityTexture2D {
    guid: String,
}

impl AssetKind for UnityTexture2D {
    closed spec fn guid_view(self) -> Seq<char> {
        self.guid@
    }

    open spec fn file_id_spec() -> u32 {
        2800000
    }

    open spec fn type_tag_spec() -> u8 {
        3
    }

    fn from_reference(r: UnityAssetReference) -> (s: Self) {
        UnityTexture2D { guid: r.guid }
    }

    fn to_reference(&self) -> (r: UnityAssetReference) {
        UnityAssetReference { file_id: 2800000, guid: self.guid.clone(), ty: 3 }
    }

    fn guid(&self) -> (g: &String) {
        &self.guid
    }
}

/// A handle to a material asset.
#[derive(Debug, Clone)]
pub struct UnityMaterial {
    guid: String,
}

impl AssetKind for UnityMaterial {
    closed spec fn guid_view(self) -> Seq<char> {
        self.guid@
    }

    open spec fn file_id_spec() -> u32 {
        2100000
    }

    open spec fn type_tag_spec() -> u8 {
        2
    }

    fn from_reference(r: UnityAssetReference) -> (s: Self) {
        UnityMaterial { guid: r.guid }
    }

    fn to_reference(&self) -> (r: UnityAssetReference) {
        UnityAssetReference { file_id: 2100000, guid: self.guid.clone(), ty: 2 }
    }

    fn guid(&self) -> (g: &String) {
        &self.guid
    }
}

/// A handle to a sprite asset.
#[derive(Debug, Clone)]
pub struct UnitySprite {
    guid: String,
}

impl AssetKind for UnitySprite {
    closed spec fn guid_view(self) -> Seq<char> {
        self.guid@
    }

    open spec fn file_id_spec() -> u32 {
        21300000
    }

    open spec fn type_tag_spec() -> u8 {
        3
    }

    fn from_reference(r: UnityAssetReference) -> (s: Self) {
        UnitySprite { guid: r.guid }
    }

    fn to_reference(&self) -> (r: UnityAssetReference) {
        UnityAssetReference { file_id: 21300000, guid: self.guid.clone(), ty: 3 }
    }

    fn guid(&self) -> (g: &String) {
        &self.guid
    }
}

impl UnityTexture {
    /// The indexed asset's own path: the sidecar path recorded for this
    /// handle's GUID, with the metadata suffix removed.
    pub fn as_path(&self, scope: &ProjectScope) -> (r: String)
        requires
            scope.wf(),
            assoc::has_key(scope.entries(), self.guid_view()),
        ensures
            match assoc::lookup(scope.entries(), self.guid_view()) {
                Some(p) => r@ == p.take(p.len() - 5),
                None => false,
            },
    {
        scope.asset_path(self.guid().as_str())
    }
}

impl UnityTexture2D {
    /// The indexed asset's own path: the sidecar path recorded for this
    /// handle's GUID, with the metadata suffix removed.
    pub fn as_path(&self, scope: &ProjectScope) -> (r: String)
        requires
            scope.wf(),
            assoc::has_key(scope.entries(), self.guid_view()),
        ensures
            match assoc::lookup(scope.entries(), self.guid_view()) {
                Some(p) => r@ == p.take(p.len() - 5),
                None => false,
            },
    {
        scope.asset_path(self.guid().as_str())
    }
}

impl UnityMaterial {
    /// The indexed asset's own path: the sidecar path recorded for this
    /// handle's GUID, with the metadata suffix removed.
    pub fn as_path(&self, scope: &ProjectScope) -> (r: String)
        requires
            scope.wf(),
            assoc::has_key(scope.entries(), self.guid_view()),
        ensures
            match assoc::lookup(scope.entries(), self.guid_view()) {
                Some(p) => r@ == p.take(p.len() - 5),
                None => false,
            },
    {
        scope.asset_path(self.guid().as_str())
    }
}

impl UnitySprite {
    /// The indexed asset's own path: the sidecar path recorded for this
    /// handle's GUID, with the metadata suffix removed.
    pub fn as_path(&self, scope: &ProjectScope) -> (r: String)
        requires
            scope.wf(),
            assoc::has_key(scope.entries(), self.guid_view()),
        ensures
            match assoc::lookup(scope.entries(), self.guid_view()) {
                Some(p) => r@ == p.take(p.len() - 5),
                None => false,
            },
    {
        scope.asset_path(self.guid().as_str())
    }
}

/// A closed enumeration with a byte-valued discriminant. Encoding is the
/// discriminant; decoding an undeclared byte yields the designated fallback
/// variant, never an error.
pub trait ByteCodable: Sized {
    /// The discriminant of this variant.
    spec fn byte_spec(self) -> u8;

    /// Whether `b` is a declared discriminant.
    spec fn declared_spec(b: u8) -> bool;

    /// What decoding `b` yields.
    spec fn from_byte_spec(b: u8) -> Self;

    /// The fallback variant for undeclared bytes.
    spec fn fallback_spec() -> Self;

    /// Encode this variant as its discriminant.
    fn to_byte(&self) -> (b: u8)
        ensures
            b == self.byte_spec(),
    ;

    /// Decode a byte by discriminant lookup; undeclared bytes fall back.
    fn from_byte(b: u8) -> (r: Self)
        ensures
            r == Self::from_byte_spec(b),
    ;

    /// Law every implementor proves: a declared discriminant decodes to the
    /// variant carrying it, and every undeclared byte decodes to the one
    /// fallback variant.
    proof fn lemma_byte_codec(b: u8)
        ensures
            Self::declared_spec(b) ==> Self::from_byte_spec(b).byte_spec() == b,
            !Self::declared_spec(b) ==> Self::from_byte_spec(b) == Self::fallback_spec(),
    ;
}

/// Stores a closed enumeration that serializes as a single byte.
#[derive(Debug, Clone)]
pub struct UnityEnum<E: ByteCodable> {
    e: E,
}

impl<E: ByteCodable> UnityEnum<E> {
    /// The wrapped value.
    pub closed spec fn value_spec(self) -> E {
        self.e
    }

    /// Wraps a value.
    pub fn new(e: E) -> (r: UnityEnum<E>)
        ensures
            r.value_spec() == e,
    {
        UnityEnum { e }
    }

    pub fn get_val(&self) -> (r: &E)
        ensures
            *r == self.value_spec(),
    {
        &self.e
    }

    /// The single byte this value serializes as: its discriminant.
    pub fn encode(&self) -> (b: u8)
        ensures
            b == self.value_spec().byte_spec(),
    {
        self.e.to_byte()
    }

    /// Deserializes a single byte by discriminant lookup, falling back to
    /// the designated variant on an undeclared byte.
    pub fn decode(b: u8) -> (r: UnityEnum<E>)
        ensures
            r.value_spec() == E::from_byte_spec(b),
    {
        UnityEnum { e: E::from_byte(b) }
    }
}

impl<E: ByteCodable> From<E> for UnityEnum<E> {
    fn from(value: E) -> (r: UnityEnum<E>)
        ensures
            r.value_spec() == value,
    {
        UnityEnum { e: value }
    }
}

impl<E: ByteCodable> vstd::std_specs::convert::FromSpecImpl<E> for UnityEnum<E> {
    open spec fn obeys_from_spec() -> bool {
        true
    }

    closed spec fn from_spec(value: E) -> UnityEnum<E> {
        UnityEnum { e: value }
    }
}

/// Law: decoding a declared discriminant yields the variant carrying it, so
/// encoding it again gives the byte back; decoding any undeclared byte
/// yields the one fallback variant, so the fallback is deterministic.
/// `UnityEnum::decode(b)` wraps exactly `E::from_byte_spec(b)` and
/// `UnityEnum::encode` returns exactly the wrapped value's discriminant.
pub proof fn lemma_enum_byte_roundtrip<E: ByteCodable>(b: u8)
    ensures
        E::declared_spec(b) ==> E::from_byte_spec(b).byte_spec() == b,
        !E::declared_spec(b) ==> E::from_byte_spec(b) == E::fallback_spec(),
{
    E::lemma_byte_codec(b);
}

/// A three-variant sample enumeration, the shape the byte-codec convention
/// is written for: discriminants 0, 1, 2, with the lowest variant as the
/// fallback for undeclared bytes.
#[derive(Debug, Clone, Copy, PartialEq, Eq, Structural)]
pub enum DebugEnum {
    Val1,
    Val2,
    Val3,
}

impl ByteCodable for DebugEnum {
    open spec fn byte_spec(self) -> u8 {
        match self {
            DebugEnum::Val1 => 0,
            DebugEnum::Val2 => 1,
            DebugEnum::Val3 => 2,
        }
    }

    open spec fn declared_spec(b: u8) -> bool {
        b == 0 || b == 1 || b == 2
    }

    open spec fn from_byte_spec(b: u8) -> DebugEnum {
        if b == 0 {
            DebugEnum::Val1
        } else if b == 1 {
            DebugEnum::Val2
        } else if b == 2 {
            DebugEnum::Val3
        } else {
            DebugEnum::Val1
        }
    }

    open spec fn fallback_spec() -> DebugEnum {
        DebugEnum::Val1
    }

    fn to_byte(&self) -> (b: u8) {
        match self {
            DebugEnum::Val1 => 0,
            DebugEnum::Val2 => 1,
            DebugEnum::Val3 => 2,
        }
    }

    fn from_byte(b: u8) -> (r: DebugEnum) {
        if b == 0 {
            DebugEnum::Val1
        } else if b == 1 {
            DebugEnum::Val2
        } else if b == 2 {
            DebugEnum::Val3
        } else {
            DebugEnum::Val1
        }
    }

    proof fn lemma_byte_codec(b: u8) {
    }
}

} // verus!
