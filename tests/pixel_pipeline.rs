use dicom_app::batch::{begin_task, BatchTally, FileOutcome, Operation, TaskStep};
use dicom_app::models::FileMetadata;
use dicom_app::voi::{parse_decimal, render_voi, VoiAttributes};
use dicom_app::pixel::{
    color_model, decode_failure, decode_samples, invert, normalize, pack_raster, render_plain, ColorModel, RenderError,
};

#[test]
fn photometric_classification() {
    assert_eq!(color_model(Some("RGB")), ColorModel::Rgb);
    assert_eq!(color_model(Some("YBR_FULL")), ColorModel::Rgb);
    assert_eq!(color_model(Some("YBR_FULL_422")), ColorModel::Rgb);
    assert_eq!(color_model(Some("MONOCHROME1")), ColorModel::Inverted);
    assert_eq!(color_model(Some("MONOCHROME2")), ColorModel::Monochrome);
    assert_eq!(color_model(Some("PALETTE COLOR")), ColorModel::Monochrome);
    assert_eq!(color_model(None), ColorModel::Monochrome);
}

#[test]
fn sixteen_bit_samples_are_little_endian() {
    let s = decode_samples(ColorModel::Monochrome, 16, &vec![0x00, 0x00, 0x00, 0x80, 0xff, 0xff, 0xe8, 0x03, 0x07]);
    assert_eq!(s.values, vec![0, 32768, 65535, 1000]);
    assert_eq!(s.scale, 1);
}

#[test]
fn rgb_reduces_to_luminance_thousandths() {
    let s = decode_samples(ColorModel::Rgb, 8, &vec![255, 0, 0, 0, 255, 0, 0, 0, 255, 10, 20]);
    assert_eq!(s.values, vec![76245, 149685, 29070]);
    assert_eq!(s.scale, 1000);
}

#[test]
fn inversion_subtracts_from_maximum() {
    assert_eq!(invert(&vec![0, 100, 200, 250]), vec![250, 150, 50, 0]);
    assert_eq!(invert(&vec![]), Vec::<u32>::new());
}

#[test]
fn normalization_is_min_max_rounded_down() {
    assert_eq!(normalize(&vec![10, 20, 30, 40]), vec![0, 85, 170, 255]);
}

#[test]
fn flat_input_normalizes_to_zero() {
    assert_eq!(normalize(&vec![7, 7, 7, 7]), vec![0, 0, 0, 0]);
    assert_eq!(normalize(&vec![65535]), vec![0]);
    assert_eq!(normalize(&vec![]), Vec::<u8>::new());
}

#[test]
fn monochrome_sixteen_bit_round_trip() {
    let r = render_plain(ColorModel::Monochrome, 16, &vec![0x00, 0x00, 0x00, 0x80, 0xff, 0xff, 0xe8, 0x03], 2, 2).unwrap();
    assert_eq!((r.width, r.height), (2, 2));
    assert_eq!(r.pixels, vec![0, 127, 255, 3]);
}

#[test]
fn inverted_render() {
    let r = render_plain(ColorModel::Inverted, 8, &vec![0, 100, 200, 250], 4, 1).unwrap();
    assert_eq!(r.pixels, vec![255, 153, 51, 0]);
}

#[test]
fn dimension_mismatch_fails() {
    assert_eq!(pack_raster(3, 1, vec![1, 2]).unwrap_err(), RenderError::Dimensions);
    assert!(render_plain(ColorModel::Monochrome, 8, &vec![1, 2, 3], 2, 2).is_err());
    assert_eq!(pack_raster(1, 2, vec![1, 2]).unwrap().pixels, vec![1, 2]);
}

#[test]
fn error_texts() {
    assert_eq!(RenderError::MissingPixelData.message(), "Missing PixelData - file may not contain image data");
    let e = decode_failure("JPEG Baseline", "bad marker");
    assert_eq!(e.message(), "Could not decode pixel data (Transfer Syntax: JPEG Baseline): bad marker");
}

#[test]
fn three_file_batch_scenario() {
    // A: monochrome 512x512 with window 128/256; B: RGB without window; C: no pixel data.
    let a_bytes: Vec<u8> = (0..512 * 512).map(|i| (i % 256) as u8).collect();
    let b_bytes: Vec<u8> = vec![255, 0, 0, 0, 255, 0, 0, 0, 255, 255, 255, 255];
    let window = VoiAttributes {
        slope: None,
        intercept: None,
        window: Some((parse_decimal("128").unwrap(), parse_decimal("256").unwrap())),
    };
    let mut tally = BatchTally::new(3);
    let mut rasters = Vec::new();
    for name in ["A", "B", "C"] {
        let (step, _) = begin_task(Operation::Convert, false, 1, 3, name.to_string());
        assert_eq!(step, TaskStep::Run);
        let mut meta = FileMetadata::blank();
        meta.file_name = name.to_string();
        let rendered = match name {
            "A" => Some(render_voi(ColorModel::Monochrome, 8, &a_bytes, 512, 512, window)),
            "B" => Some(render_plain(ColorModel::Rgb, 8, &b_bytes, 2, 2)),
            _ => None,
        };
        let outcome = match rendered {
            None => FileOutcome::Failed { metadata: meta, error: RenderError::MissingPixelData.message() },
            Some(r) => {
                rasters.push(r.unwrap());
                FileOutcome::Converted(meta)
            }
        };
        tally.record(Operation::Convert, name.to_string(), name.to_string(), &outcome);
    }
    let r = tally.report(Vec::new());
    assert_eq!((r.total, r.successful, r.failed), (3, 2, 1));
    assert_eq!(r.failed_files, vec!["C".to_string()]);
    // Window 128/256 spans [0, 255]: ((v - 127.5) / 255 + 0.5) * 255 = v, so A keeps its values.
    assert_eq!((rasters[0].width, rasters[0].height), (512, 512));
    assert_eq!(rasters[0].pixels, a_bytes);
    // B: luminance 0.299 R + 0.587 G + 0.114 B, then min-max scaled.
    assert_eq!(rasters[1].pixels, vec![53, 136, 0, 255]);
}
