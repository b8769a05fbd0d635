use std::io::Write;

use narou_rs::illustration_animation::{
    assemble_animation, build_apng, default_limits, frame_delays, is_zip, Limits,
};
use narou_rs::illustration_store::{
    guessed_extension_from_url, illustration_extension_from_content_type,
};

#[test]
fn delays_are_read_from_the_url_query() {
    assert_eq!(
        frame_delays("https://i.pximg.net/x.zip?ugoira=120,80,80"),
        Some(vec![120, 80, 80])
    );
    assert_eq!(frame_delays("https://i.pximg.net/x.zip"), None);
    assert_eq!(frame_delays("https://i.pximg.net/x.zip?ugoira="), None);
    assert_eq!(frame_delays("https://i.pximg.net/x.png"), None);
}

#[test]
fn extension_detection_prefers_content_type_and_url_path() {
    assert_eq!(
        illustration_extension_from_content_type("image/png; charset=binary"),
        Some("png")
    );
    assert_eq!(
        guessed_extension_from_url("https://example.com/image.jpg?format=.png"),
        "jpg"
    );
    assert_eq!(
        guessed_extension_from_url("https://example.com/view/without-extension"),
        "jpg"
    );
}

fn png_frame(width: u32, height: u32, color: [u8; 4]) -> Vec<u8> {
    let image = image::RgbaImage::from_pixel(width, height, image::Rgba(color));
    let mut out = Vec::new();
    image::DynamicImage::ImageRgba8(image)
        .write_to(&mut std::io::Cursor::new(&mut out), image::ImageFormat::Png)
        .unwrap();
    out
}

fn zip_of(frames: &[(&str, Vec<u8>)]) -> Vec<u8> {
    let mut buffer = Vec::new();
    {
        let mut writer = zip::ZipWriter::new(std::io::Cursor::new(&mut buffer));
        let options = zip::write::SimpleFileOptions::default();
        for (name, data) in frames {
            writer.start_file(*name, options).unwrap();
            writer.write_all(data).unwrap();
        }
        writer.finish().unwrap();
    }
    buffer
}

/// The chunk stream: `(kind, payload)` pairs, CRC skipped.
fn chunks(apng: &[u8]) -> Vec<(String, Vec<u8>)> {
    let mut out = Vec::new();
    let mut cursor = 8;
    while cursor + 8 <= apng.len() {
        let length = u32::from_be_bytes(apng[cursor..cursor + 4].try_into().unwrap()) as usize;
        let kind = String::from_utf8_lossy(&apng[cursor + 4..cursor + 8]).to_string();
        let start = cursor + 8;
        if start + length > apng.len() {
            break;
        }
        out.push((kind, apng[start..start + length].to_vec()));
        cursor = start + length + 4;
    }
    out
}

fn chunk_kinds(apng: &[u8]) -> Vec<String> {
    chunks(apng).into_iter().map(|(kind, _)| kind).collect()
}

#[test]
fn a_frame_archive_becomes_an_apng() {
    let archive = zip_of(&[
        ("000001.png", png_frame(2, 2, [255, 0, 0, 255])),
        ("000000.png", png_frame(2, 2, [0, 255, 0, 255])),
    ]);
    let apng = assemble_animation("https://i.pximg.net/x.zip?ugoira=120,80", &archive)
        .expect("archive should be recognised")
        .expect("assembly should succeed");

    assert_eq!(&apng[..8], b"\x89PNG\r\n\x1a\n");
    let kinds = chunk_kinds(&apng);
    assert_eq!(kinds[0], "IHDR", "{kinds:?}");
    assert_eq!(kinds[1], "acTL", "{kinds:?}");
    assert_eq!(kinds[2..], ["fcTL", "IDAT", "fcTL", "fdAT", "IEND"]);

    let parsed = chunks(&apng);
    let actl = parsed.iter().find(|(kind, _)| kind == "acTL").expect("acTL chunk");
    assert_eq!(u32::from_be_bytes(actl.1[..4].try_into().unwrap()), 2);
    let fctl = parsed.iter().find(|(kind, _)| kind == "fcTL").expect("fcTL chunk");
    assert_eq!(u16::from_be_bytes(fctl.1[20..22].try_into().unwrap()), 120);
    assert_eq!(u16::from_be_bytes(fctl.1[22..24].try_into().unwrap()), 1000);
}

#[test]
fn frames_are_ordered_by_name_not_by_archive_order() {
    let archive = zip_of(&[
        ("000002.png", png_frame(2, 2, [0, 0, 255, 255])),
        ("000000.png", png_frame(2, 2, [255, 0, 0, 255])),
        ("000001.png", png_frame(2, 2, [0, 255, 0, 255])),
    ]);
    let apng = assemble_animation("https://i.pximg.net/x.zip?ugoira=10,20,30", &archive)
        .unwrap()
        .unwrap();
    let kinds = chunk_kinds(&apng);
    assert_eq!(kinds.iter().filter(|kind| kind.as_str() == "fcTL").count(), 3);
}

#[test]
fn a_single_frame_archive_stays_a_plain_png() {
    let archive = zip_of(&[("000000.png", png_frame(2, 2, [1, 2, 3, 255]))]);
    let png = assemble_animation("https://i.pximg.net/x.zip?ugoira=100", &archive)
        .unwrap()
        .unwrap();
    assert_eq!(&png[..8], b"\x89PNG\r\n\x1a\n");
    assert!(!chunk_kinds(&png).contains(&"acTL".to_string()));
}

#[test]
fn frames_keep_their_alpha_channel() {
    for color in [[10, 20, 30, 255], [1, 2, 3, 128]] {
        let archive = zip_of(&[
            ("000000.png", png_frame(2, 2, color)),
            ("000001.png", png_frame(2, 2, [40, 50, 60, 255])),
        ]);
        let apng = assemble_animation("https://i.pximg.net/x.zip?ugoira=50,50", &archive)
            .unwrap()
            .unwrap();
        let ihdr = chunks(&apng).into_iter().find(|(kind, _)| kind == "IHDR").expect("IHDR");
        assert_eq!(ihdr.1[8], 8, "bit depth");
        assert_eq!(ihdr.1[9], 6, "colour type 6 = RGBA (frame {color:?})");
    }
}

#[test]
fn ordinary_images_are_not_treated_as_archives() {
    let png = png_frame(2, 2, [0, 0, 0, 255]);
    assert!(assemble_animation("https://i.pximg.net/x.png", &png).is_none());
    let archive = zip_of(&[("000000.png", png_frame(2, 2, [0, 0, 0, 255]))]);
    assert!(assemble_animation("https://i.pximg.net/x.zip", &archive).is_none());
}

#[test]
fn zip_signatures_are_recognised() {
    assert!(!is_zip(b"\x89PNG\r\n\x1a\n"));
    assert!(is_zip(b"PK\x03\x04rest"));
    assert!(is_zip(b"PK\x05\x06"));
}

#[test]
fn limits_reject_oversized_archives() {
    let two_frames = zip_of(&[
        ("000000.png", png_frame(2, 2, [255, 0, 0, 255])),
        ("000001.png", png_frame(2, 2, [0, 255, 0, 255])),
    ]);
    let delays = [50u16, 50];

    let too_many = Limits { max_frames: 1, ..default_limits() };
    assert!(build_apng(&two_frames, &delays, too_many).is_err());

    let too_many_pixels = Limits { max_frame_pixels: 1, ..default_limits() };
    assert!(build_apng(&two_frames, &delays, too_many_pixels).is_err());

    let too_large = Limits { max_output_bytes: 16, ..default_limits() };
    assert!(build_apng(&two_frames, &delays, too_large).is_err());

    assert!(build_apng(&two_frames, &delays, default_limits()).is_ok());
}

#[test]
fn delays_shorter_than_frames_reuse_the_last_value() {
    let archive = zip_of(&[
        ("000000.png", png_frame(2, 2, [1, 1, 1, 255])),
        ("000001.png", png_frame(2, 2, [2, 2, 2, 255])),
        ("000002.png", png_frame(2, 2, [3, 3, 3, 255])),
    ]);
    let apng = build_apng(&archive, &[120, 80], default_limits()).unwrap();
    let controls: Vec<Vec<u8>> = chunks(&apng)
        .into_iter()
        .filter(|(kind, _)| kind == "fcTL")
        .map(|(_, payload)| payload)
        .collect();
    assert_eq!(controls.len(), 3);
    let delay = |payload: &[u8]| u16::from_be_bytes(payload[20..22].try_into().unwrap());
    assert_eq!(delay(&controls[0]), 120);
    assert_eq!(delay(&controls[1]), 80);
    assert_eq!(delay(&controls[2]), 80);
}
