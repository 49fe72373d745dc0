use std::sync::Arc;

use vortex_core::temporal::{
    ArrayData, DType, ExtDType, ExtensionArray, Nullability, PType, TemporalArray,
    TemporalMetadata, TimeUnit,
};

fn prim(p: PType) -> ArrayData {
    ArrayData { dtype: DType::Primitive(p, Nullability::NonNullable), len: 5 }
}

#[test]
fn dates_of_days() {
    let t = TemporalArray::new_date(prim(PType::I32), TimeUnit::D);
    assert_eq!(t.temporal_metadata(), &TemporalMetadata::Date(TimeUnit::D));
    assert_eq!(t.temporal_values(), prim(PType::I32));
    let ext = t.ext_dtype();
    assert_eq!(ext.id, "vortex.date");
    assert_eq!(ext.storage_dtype, DType::Primitive(PType::I32, Nullability::NonNullable));
    assert_eq!(ext.metadata, Some(TemporalMetadata::Date(TimeUnit::D)));
}

#[test]
fn times_and_timestamps() {
    let t = TemporalArray::new_time(prim(PType::I64), TimeUnit::Ns);
    assert_eq!(t.ext_dtype().id, "vortex.time");
    let ts = TemporalArray::new_timestamp(prim(PType::I64), TimeUnit::Ms, Some("UTC".to_string()));
    assert_eq!(
        ts.temporal_metadata(),
        &TemporalMetadata::Timestamp(TimeUnit::Ms, Some("UTC".to_string()))
    );
    assert_eq!(ts.ext_dtype().id, "vortex.timestamp");
}

#[test]
fn round_trip_through_extension_array() {
    let ts = TemporalArray::new_timestamp(prim(PType::I64), TimeUnit::Us, None);
    let ext = ts.into_extension();
    let back = TemporalArray::try_from_extension(ext).unwrap();
    assert_eq!(back.temporal_metadata(), &TemporalMetadata::Timestamp(TimeUnit::Us, None));
}

#[test]
fn non_temporal_extensions_are_refused() {
    let ext = ExtensionArray {
        ext_dtype: Arc::new(ExtDType {
            id: "vortex.uuid".to_string(),
            storage_dtype: DType::Binary(Nullability::NonNullable),
            metadata: None,
        }),
        storage: ArrayData { dtype: DType::Binary(Nullability::NonNullable), len: 1 },
    };
    assert!(TemporalArray::try_from_extension(ext).is_err());
    // A temporal kind under the wrong identifier is refused too.
    let ext = ExtensionArray {
        ext_dtype: Arc::new(ExtDType {
            id: "vortex.time".to_string(),
            storage_dtype: DType::Primitive(PType::I32, Nullability::NonNullable),
            metadata: Some(TemporalMetadata::Date(TimeUnit::D)),
        }),
        storage: prim(PType::I32),
    };
    assert!(TemporalArray::try_from_extension(ext).is_err());
}
