use vstd::prelude::*;

use std::sync::Arc;

use crate::text::push_str;

verus! {

/// File extension of files in the columnar format.
pub open spec fn vortex_file_extension() -> Seq<char> {
    "vortex"@
}

/// Compression a table provider may ask to be applied to whole files.
#[derive(Clone, Copy, Debug, PartialEq, Eq, Structural)]
pub enum CompressionTypeVariant {
    GZIP,
    BZIP2,
    XZ,
    ZSTD,
    UNCOMPRESSED,
}

/// Whether a file format can evaluate a set of filters while scanning.
#[derive(Clone, Copy, Debug, PartialEq, Eq, Structural)]
pub enum FilePushdownSupport {
    NoSupport,
    NotSupportedForFilter,
    Supported,
}

/// Errors reported to the query engine.
#[derive(Debug)]
pub enum FormatError {
    Internal(String),
}

/// The message with which whole-file compression is refused.
pub open spec fn compression_refused_message() -> Seq<char> {
    "Vortex does not support file level compression."@
}

/// The query-engine file format for the columnar format, holding the array context used to
/// decode files.
#[derive(Debug, Default)]
pub struct VortexFormat<C> {
    context: Arc<C>,
}

impl<C: Clone> VortexFormat<C> {
    /// The array context files are decoded with.
    pub closed spec fn context(self) -> C {
        *self.context
    }

    pub fn new(context: &C) -> (res: Self)
        ensures
            cloned(*context, res.context()),
    {
        Self { context: Arc::new(context.clone()) }
    }

    /// The file extension this format reads and writes.
    pub fn get_ext(&self) -> (res: String)
        ensures
            res@ == vortex_file_extension(),
    {
        let mut ext = String::new();
        push_str(&mut ext, "vortex");
        assert(Seq::<char>::empty() + "vortex"@ == "vortex"@);
        ext
    }

    /// The file extension under a whole-file compression: only uncompressed files exist.
    pub fn get_ext_with_compression(&self, file_compression_type: &CompressionTypeVariant) -> (res:
        Result<String, FormatError>)
        ensures
            *file_compression_type == CompressionTypeVariant::UNCOMPRESSED ==> (res matches Ok(ext)
                && ext@ == vortex_file_extension()),
            *file_compression_type != CompressionTypeVariant::UNCOMPRESSED ==> (res matches Err(
                FormatError::Internal(msg),
            ) && msg@ == compression_refused_message()),
    {
        match file_compression_type {
            CompressionTypeVariant::UNCOMPRESSED => Ok(self.get_ext()),
            _ => {
                let mut msg = String::new();
                push_str(&mut msg, "Vortex does not support file level compression.");
                assert(Seq::<char>::empty() + compression_refused_message()
                    == compression_refused_message());
                Err(FormatError::Internal(msg))
            },
        }
    }

    /// Whether the given filters can be pushed into the scan: `filter_pushable[i]` tells whether
    /// filter `i` can be evaluated against the table schema; all of them must be.
    pub fn supports_filters_pushdown(&self, filter_pushable: &Vec<bool>) -> (res: FilePushdownSupport)
        ensures
            res == if forall|i: int| 0 <= i < filter_pushable.len() ==> #[trigger] filter_pushable@[i] {
                FilePushdownSupport::Supported
            } else {
                FilePushdownSupport::NotSupportedForFilter
            },
    {
        let mut i: usize = 0;
        while i < filter_pushable.len()
            invariant
                i <= filter_pushable.len(),
                forall|j: int| 0 <= j < i ==> #[trigger] filter_pushable@[j],
            decreases filter_pushable.len() - i,
        {
            if !filter_pushable[i] {
                return FilePushdownSupport::NotSupportedForFilter;
            }
            i = i + 1;
        }
        FilePushdownSupport::Supported
    }
}

} // verus!
