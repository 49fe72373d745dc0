use vstd::prelude::*;

use std::sync::Arc;

use crate::text::push_str;

verus! {

/// Granularity of temporal values.
#[derive(Clone, Copy, Debug, PartialEq, Eq, Structural)]
pub enum TimeUnit {
    Ns,
    Us,
    Ms,
    S,
    D,
}

/// Physical type of primitive values.
#[derive(Clone, Copy, Debug, PartialEq, Eq, Structural)]
pub enum PType {
    U8,
    U16,
    U32,
    U64,
    I8,
    I16,
    I32,
    I64,
    F16,
    F32,
    F64,
}

#[derive(Clone, Copy, Debug, PartialEq, Eq, Structural)]
pub enum Nullability {
    NonNullable,
    Nullable,
}

/// Logical type of the values an array holds (the non-nested types).
#[derive(Clone, Copy, Debug, PartialEq, Eq, Structural)]
pub enum DType {
    Null,
    Bool(Nullability),
    Primitive(PType, Nullability),
    Utf8(Nullability),
    Binary(Nullability),
}

/// An array as the temporal logic sees it: the type of its values and how many there are.
#[derive(Clone, Copy, Debug, PartialEq, Eq, Structural)]
pub struct ArrayData {
    pub dtype: DType,
    pub len: usize,
}

/// What temporal values mean: times of day, dates, or timestamps with an optional time zone.
#[derive(Clone, Debug, PartialEq, Eq)]
pub enum TemporalMetadata {
    Time(TimeUnit),
    Date(TimeUnit),
    Timestamp(TimeUnit, Option<String>),
}

/// Error raised when an array cannot be viewed as a temporal array.
#[derive(Debug)]
pub enum TemporalError {
    UnknownExtension,
}

/// Identifier of the date extension type.
pub open spec fn date_id() -> Seq<char> {
    "vortex.date"@
}

/// Identifier of the time-of-day extension type.
pub open spec fn time_id() -> Seq<char> {
    "vortex.time"@
}

/// Identifier of the timestamp extension type.
pub open spec fn timestamp_id() -> Seq<char> {
    "vortex.timestamp"@
}

/// The extension identifier that goes with a kind of temporal metadata.
pub open spec fn metadata_id(m: TemporalMetadata) -> Seq<char> {
    match m {
        TemporalMetadata::Time(_) => time_id(),
        TemporalMetadata::Date(_) => date_id(),
        TemporalMetadata::Timestamp(_, _) => timestamp_id(),
    }
}

/// An extension type: an identifier, the type of the values that store it, and its metadata.
#[derive(Clone, Debug)]
pub struct ExtDType {
    pub id: String,
    pub storage_dtype: DType,
    pub metadata: Option<TemporalMetadata>,
}

/// An array of an extension type over a storage array.
#[derive(Clone, Debug)]
pub struct ExtensionArray {
    pub ext_dtype: Arc<ExtDType>,
    pub storage: ArrayData,
}

/// Storage of primitive `ptype` values, of any nullability.
pub open spec fn has_ptype(dtype: DType, ptype: PType) -> bool {
    dtype matches DType::Primitive(p, _) && p == ptype
}

/// Dates are `i32` day counts or `i64` millisecond counts.
pub open spec fn valid_date_storage(dtype: DType, unit: TimeUnit) -> bool {
    match unit {
        TimeUnit::D => has_ptype(dtype, PType::I32),
        TimeUnit::Ms => has_ptype(dtype, PType::I64),
        _ => false,
    }
}

/// Times of day are `i32` seconds or milliseconds, or `i64` microseconds or nanoseconds.
pub open spec fn valid_time_storage(dtype: DType, unit: TimeUnit) -> bool {
    match unit {
        TimeUnit::S | TimeUnit::Ms => has_ptype(dtype, PType::I32),
        TimeUnit::Us | TimeUnit::Ns => has_ptype(dtype, PType::I64),
        TimeUnit::D => false,
    }
}

/// Timestamps are `i64` counts of a sub-day unit.
pub open spec fn valid_timestamp_storage(dtype: DType, unit: TimeUnit) -> bool {
    has_ptype(dtype, PType::I64) && unit != TimeUnit::D
}

/// The metadata an extension type declares, when it is one of the temporal types and its
/// metadata is of the matching kind.
pub open spec fn temporal_metadata_of(ext: ExtDType) -> Option<TemporalMetadata> {
    match ext.metadata {
        Some(m) => if ext.id@ == metadata_id(m) {
            Some(m)
        } else {
            None
        },
        None => None,
    }
}

/// Calls std's `Arc::clone`, which hands out another pointer to the same extension type; the
/// contract claims the pointee is unchanged.
#[verifier::external_body]
fn share_ext_dtype(ext: &Arc<ExtDType>) -> (res: Arc<ExtDType>)
    ensures
        *res == **ext,
{
    Arc::clone(ext)
}

fn id_string(m: &TemporalMetadata) -> (res: String)
    ensures
        res@ == metadata_id(*m),
{
    let mut s = String::new();
    match m {
        TemporalMetadata::Time(_) => push_str(&mut s, "vortex.time"),
        TemporalMetadata::Date(_) => push_str(&mut s, "vortex.date"),
        TemporalMetadata::Timestamp(_, _) => push_str(&mut s, "vortex.timestamp"),
    }
    assert(Seq::<char>::empty() + metadata_id(*m) == metadata_id(*m));
    s
}

fn is_ptype(dtype: &DType, ptype: PType) -> (res: bool)
    ensures
        res == has_ptype(*dtype, ptype),
{
    match dtype {
        DType::Primitive(p, _) => *p == ptype,
        _ => false,
    }
}

impl TemporalMetadata {
    /// A copy of the metadata.
    pub fn duplicate(&self) -> (res: Self)
        ensures
            res == *self,
    {
        match self {
            TemporalMetadata::Time(u) => TemporalMetadata::Time(*u),
            TemporalMetadata::Date(u) => TemporalMetadata::Date(*u),
            TemporalMetadata::Timestamp(u, tz) => TemporalMetadata::Timestamp(
                *u,
                match tz {
                    Some(z) => Some(z.clone()),
                    None => None,
                },
            ),
        }
    }

    /// Reads the temporal metadata of an extension type, failing when the type is not a
    /// temporal one.
    pub fn try_from_ext_dtype(ext: &ExtDType) -> (res: Result<TemporalMetadata, TemporalError>)
        ensures
            temporal_metadata_of(*ext) matches Some(m) ==> res matches Ok(r) && r == m,
            temporal_metadata_of(*ext) is None ==> res is Err,
    {
        match &ext.metadata {
            Some(m) => {
                let id = id_string(m);
                if ext.id == id {
                    Ok(m.duplicate())
                } else {
                    Err(TemporalError::UnknownExtension)
                }
            },
            None => Err(TemporalError::UnknownExtension),
        }
    }
}

/// An extension array whose values have a temporal meaning, with its metadata held decoded.
#[derive(Clone, Debug)]
pub struct TemporalArray {
    ext: ExtensionArray,
    temporal_metadata: TemporalMetadata,
}

impl TemporalArray {
    /// The underlying extension array.
    pub closed spec fn extension(self) -> ExtensionArray {
        self.ext
    }

    /// The decoded temporal metadata.
    pub closed spec fn metadata(self) -> TemporalMetadata {
        self.temporal_metadata
    }

    /// The held metadata is the one the extension type declares.
    pub open spec fn wf(self) -> bool {
        temporal_metadata_of(*self.extension().ext_dtype) == Some(self.metadata())
    }

    fn wrap(array: ArrayData, temporal_metadata: TemporalMetadata) -> (res: Self)
        ensures
            res.wf(),
            res.metadata() == temporal_metadata,
            res.extension().storage == array,
            *res.extension().ext_dtype == (ExtDType {
                id: res.extension().ext_dtype.id,
                storage_dtype: array.dtype,
                metadata: Some(temporal_metadata),
            }),
            res.extension().ext_dtype.id@ == metadata_id(temporal_metadata),
    {
        let ext_dtype = ExtDType {
            id: id_string(&temporal_metadata),
            storage_dtype: array.dtype,
            metadata: Some(temporal_metadata.duplicate()),
        };
        TemporalArray {
            ext: ExtensionArray { ext_dtype: Arc::new(ext_dtype), storage: array },
            temporal_metadata,
        }
    }

    /// A temporal array of dates: `i32` day offsets (unit `D`) or `i64` millisecond offsets
    /// (unit `Ms`) from the UNIX epoch. Any other pairing of unit and storage is refused.
    pub fn new_date(array: ArrayData, time_unit: TimeUnit) -> (res: Self)
        requires
            valid_date_storage(array.dtype, time_unit),
        ensures
            res.wf(),
            res.metadata() == TemporalMetadata::Date(time_unit),
            res.extension().storage == array,
            res.extension().ext_dtype.id@ == date_id(),
            res.extension().ext_dtype.storage_dtype == array.dtype,
            res.extension().ext_dtype.metadata == Some(TemporalMetadata::Date(time_unit)),
    {
        Self::wrap(array, TemporalMetadata::Date(time_unit))
    }

    /// A temporal array of times since midnight: `i32` seconds or milliseconds, or `i64`
    /// microseconds or nanoseconds. Days are refused, as is storage of another type.
    pub fn new_time(array: ArrayData, time_unit: TimeUnit) -> (res: Self)
        requires
            valid_time_storage(array.dtype, time_unit),
        ensures
            res.wf(),
            res.metadata() == TemporalMetadata::Time(time_unit),
            res.extension().storage == array,
            res.extension().ext_dtype.id@ == time_id(),
            res.extension().ext_dtype.storage_dtype == array.dtype,
            res.extension().ext_dtype.metadata == Some(TemporalMetadata::Time(time_unit)),
    {
        Self::wrap(array, TemporalMetadata::Time(time_unit))
    }

    /// A temporal array of timestamps: `i64` counts of a sub-day unit since the UNIX epoch, with
    /// an optional time zone.
    pub fn new_timestamp(array: ArrayData, time_unit: TimeUnit, time_zone: Option<String>) -> (res:
        Self)
        requires
            valid_timestamp_storage(array.dtype, time_unit),
        ensures
            res.wf(),
            res.metadata() == TemporalMetadata::Timestamp(time_unit, time_zone),
            res.extension().storage == array,
            res.extension().ext_dtype.id@ == timestamp_id(),
            res.extension().ext_dtype.storage_dtype == array.dtype,
            res.extension().ext_dtype.metadata == Some(
                TemporalMetadata::Timestamp(time_unit, time_zone),
            ),
    {
        Self::wrap(array, TemporalMetadata::Timestamp(time_unit, time_zone))
    }

    /// The stored temporal values, to be read with the unit and time zone of the metadata.
    pub fn temporal_values(&self) -> (res: ArrayData)
        ensures
            res == self.extension().storage,
    {
        self.ext.storage
    }

    /// The temporal metadata.
    pub fn temporal_metadata(&self) -> (res: &TemporalMetadata)
        ensures
            *res == self.metadata(),
    {
        &self.temporal_metadata
    }

    /// The extension type of the underlying array.
    pub fn ext_dtype(&self) -> (res: Arc<ExtDType>)
        ensures
            *res == *self.extension().ext_dtype,
    {
        share_ext_dtype(&self.ext.ext_dtype)
    }

    /// Views an extension array as a temporal array; fails when its extension type is not one
    /// of the temporal types.
    pub fn try_from_extension(ext: ExtensionArray) -> (res: Result<Self, TemporalError>)
        ensures
            temporal_metadata_of(*ext.ext_dtype) matches Some(m) ==> res matches Ok(t) && t.metadata()
                == m && t.extension() == ext && t.wf(),
            temporal_metadata_of(*ext.ext_dtype) is None ==> res is Err,
    {
        let temporal_metadata = TemporalMetadata::try_from_ext_dtype(&ext.ext_dtype)?;
        Ok(TemporalArray { ext, temporal_metadata })
    }

    /// The underlying extension array.
    pub fn into_extension(self) -> (res: ExtensionArray)
        ensures
            res == self.extension(),
    {
        self.ext
    }
}

/// An extension type built from temporal metadata under its identifier, as the constructors build
/// it, reads back as that same metadata; so a constructed array, taken to its extension array
/// with `into_extension`, is accepted again by `try_from_extension` with its metadata intact.
pub proof fn lemma_temporal_round_trip(m: TemporalMetadata, id: String, storage_dtype: DType)
    requires
        id@ == metadata_id(m),
    ensures
        temporal_metadata_of(ExtDType { id, storage_dtype, metadata: Some(m) }) == Some(m),
{
}

/// Extension types that declare no temporal metadata, or metadata under another kind's
/// identifier, are refused.
pub proof fn lemma_foreign_extension_refused(m: TemporalMetadata, id: String, storage_dtype: DType)
    requires
        id@ != metadata_id(m),
    ensures
        temporal_metadata_of(ExtDType { id, storage_dtype, metadata: Some(m) }) is None,
        temporal_metadata_of(ExtDType { id, storage_dtype, metadata: None }) is None,
{
}

} // verus!
