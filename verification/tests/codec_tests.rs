use unity_scope::data::AssetKind;
use unity_scope::data::DebugEnum;
use unity_scope::data::UnityAssetReference;
use unity_scope::data::UnityEnum;
use unity_scope::data::UnityMaterial;
use unity_scope::data::UnitySprite;
use unity_scope::data::UnityTexture;
use unity_scope::data::UnityTexture2D;

fn record(guid: &str) -> UnityAssetReference {
    UnityAssetReference { file_id: 0, guid: guid.to_string(), ty: 0 }
}

#[test]
fn test_texture2d_roundtrip_guid() {
    let handle = UnityTexture2D::from_reference(record("abc123"));
    let encoded = handle.to_reference();
    assert_eq!(encoded.guid, "abc123");
    assert_eq!(encoded.file_id, 2800000);
    assert_eq!(encoded.ty, 3);
    let decoded = UnityTexture2D::from_reference(encoded);
    assert_eq!(decoded.guid(), handle.guid());
}

#[test]
fn test_texture_roundtrip_guid() {
    let handle = UnityTexture::from_reference(record("t-guid"));
    let encoded = handle.to_reference();
    assert_eq!(encoded.file_id, 2700000);
    assert_eq!(encoded.ty, 3);
    let decoded = UnityTexture::from_reference(encoded);
    assert_eq!(decoded.guid(), "t-guid");
}

#[test]
fn test_material_roundtrip_guid() {
    let handle = UnityMaterial::from_reference(record("m-guid"));
    let encoded = handle.to_reference();
    assert_eq!(encoded.file_id, 2100000);
    assert_eq!(encoded.ty, 2);
    let decoded = UnityMaterial::from_reference(encoded);
    assert_eq!(decoded.guid(), "m-guid");
}

#[test]
fn test_sprite_roundtrip_guid() {
    let handle = UnitySprite::from_reference(record("s-guid"));
    let encoded = handle.to_reference();
    assert_eq!(encoded.file_id, 21300000);
    assert_eq!(encoded.ty, 3);
    let decoded = UnitySprite::from_reference(encoded);
    assert_eq!(decoded.guid(), "s-guid");
}

#[test]
fn test_decode_ignores_record_constants() {
    let odd = UnityAssetReference { file_id: 999, guid: "g".to_string(), ty: 77 };
    let handle = UnityTexture2D::from_reference(odd);
    assert_eq!(handle.guid(), "g");
    let encoded = handle.to_reference();
    assert_eq!(encoded.file_id, 2800000);
    assert_eq!(encoded.ty, 3);
}

#[test]
fn test_enum_declared_roundtrip() {
    for b in 0u8..=2u8 {
        let decoded = UnityEnum::<DebugEnum>::decode(b);
        assert_eq!(decoded.encode(), b);
    }
    assert_eq!(*UnityEnum::<DebugEnum>::decode(0).get_val(), DebugEnum::Val1);
    assert_eq!(*UnityEnum::<DebugEnum>::decode(1).get_val(), DebugEnum::Val2);
    assert_eq!(*UnityEnum::<DebugEnum>::decode(2).get_val(), DebugEnum::Val3);
}

#[test]
fn test_enum_fallback_deterministic() {
    let a = UnityEnum::<DebugEnum>::decode(3);
    let b = UnityEnum::<DebugEnum>::decode(77);
    let c = UnityEnum::<DebugEnum>::decode(255);
    assert_eq!(*a.get_val(), DebugEnum::Val1);
    assert_eq!(*b.get_val(), DebugEnum::Val1);
    assert_eq!(*c.get_val(), DebugEnum::Val1);
}

#[test]
fn test_enum_wrap() {
    let wrapped = UnityEnum::from(DebugEnum::Val2);
    assert_eq!(*wrapped.get_val(), DebugEnum::Val2);
    assert_eq!(wrapped.encode(), 1);
    let built = UnityEnum::new(DebugEnum::Val3);
    assert_eq!(built.encode(), 2);
}
