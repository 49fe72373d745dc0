use vortex_core::file_format::{CompressionTypeVariant, FilePushdownSupport, FormatError, VortexFormat};

#[test]
fn extension_and_compression() {
    let f = VortexFormat::new(&7u32);
    assert_eq!(f.get_ext(), "vortex");
    match f.get_ext_with_compression(&CompressionTypeVariant::UNCOMPRESSED) {
        Ok(ext) => assert_eq!(ext, "vortex"),
        Err(e) => panic!("{e:?}"),
    }
    for c in [
        CompressionTypeVariant::GZIP,
        CompressionTypeVariant::BZIP2,
        CompressionTypeVariant::XZ,
        CompressionTypeVariant::ZSTD,
    ] {
        match f.get_ext_with_compression(&c) {
            Err(FormatError::Internal(msg)) => {
                assert_eq!(msg, "Vortex does not support file level compression.")
            }
            Ok(_) => panic!("compressed files accepted"),
        }
    }
}

#[test]
fn pushdown_needs_every_filter() {
    let f = VortexFormat::new(&String::from("ctx"));
    assert_eq!(f.supports_filters_pushdown(&vec![]), FilePushdownSupport::Supported);
    assert_eq!(f.supports_filters_pushdown(&vec![true, true]), FilePushdownSupport::Supported);
    assert_eq!(
        f.supports_filters_pushdown(&vec![true, false]),
        FilePushdownSupport::NotSupportedForFilter
    );
}
