use framely::io::{prepare_export, IoError};
use framely::model::RawImage;

#[test]
fn io_error_messages() {
    assert_eq!(IoError::ClipboardEmpty.message(), "presse-papiers vide ou sans image");
    assert_eq!(
        IoError::ClipboardError("busy".to_string()).message(),
        "erreur presse-papiers : busy"
    );
    assert_eq!(IoError::FileError("denied".to_string()).message(), "erreur fichier : denied");
}

#[test]
fn prepare_export_checks_the_buffer() {
    let image = RawImage { width: 2, height: 2, pixels: (0..16).collect() };
    let buffer = prepare_export(&image).expect("a matching buffer is accepted");
    assert_eq!(buffer.image.dimensions(), (2, 2));
    assert_eq!(buffer.image.as_raw(), &image.pixels);

    let short = RawImage { width: 2, height: 2, pixels: vec![0; 15] };
    match prepare_export(&short) {
        Err(IoError::FileError(m)) => assert_eq!(m, "dimensions incohérentes avec le buffer de pixels"),
        _ => panic!("a short buffer is refused"),
    }

    let longer = RawImage { width: 1, height: 1, pixels: vec![7; 8] };
    let buffer = prepare_export(&longer).expect("extra bytes are kept");
    assert_eq!(buffer.image.as_raw().len(), 8);
}
