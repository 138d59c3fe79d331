use faustprobe::audio::{
    input_format, npy_check_size, npy_header, npy_shape, output_plan, u16_at, u32_at,
    wav_header, wav_layout, Container, InputFormat,
};

/// A `.npy` file as `numpy.save` lays it out, built here from the format's
/// description and not with the library's writer.
fn npy(version: u8, descr: &str, fortran: bool, shape: &str, data: &[u8]) -> Vec<u8> {
    let order = if fortran { "True" } else { "False" };
    let mut dict = format!("{{'descr': '{descr}', 'fortran_order': {order}, 'shape': {shape}, }}");
    let prefix = if version == 1 { 10 } else { 12 };
    while (prefix + dict.len() + 1) % 64 != 0 {
        dict.push(' ');
    }
    dict.push('\n');
    let mut bytes = b"\x93NUMPY".to_vec();
    bytes.extend_from_slice(&[version, 0]);
    if version == 1 {
        bytes.extend_from_slice(&(dict.len() as u16).to_le_bytes());
    } else {
        bytes.extend_from_slice(&(dict.len() as u32).to_le_bytes());
    }
    bytes.extend_from_slice(dict.as_bytes());
    bytes.extend_from_slice(data);
    bytes
}

/// A PCM or float WAV file with a 16-byte `fmt ` chunk.
fn wav(format: u16, bits: u16, channels: u16, data: &[u8]) -> Vec<u8> {
    let mut b = Vec::new();
    b.extend_from_slice(b"RIFF");
    b.extend_from_slice(&(36 + data.len() as u32).to_le_bytes());
    b.extend_from_slice(b"WAVE");
    b.extend_from_slice(b"fmt ");
    b.extend_from_slice(&16u32.to_le_bytes());
    b.extend_from_slice(&format.to_le_bytes());
    b.extend_from_slice(&channels.to_le_bytes());
    b.extend_from_slice(&44_100u32.to_le_bytes());
    let block = u32::from(channels) * u32::from(bits / 8);
    b.extend_from_slice(&(44_100 * block).to_le_bytes());
    b.extend_from_slice(&(block as u16).to_le_bytes());
    b.extend_from_slice(&bits.to_le_bytes());
    b.extend_from_slice(b"data");
    b.extend_from_slice(&(data.len() as u32).to_le_bytes());
    b.extend_from_slice(data);
    b
}

#[test]
fn fields_are_little_endian_and_refused_past_the_end() {
    let bytes = [0x34, 0x12, 0x78, 0x56, 0x34, 0x12];
    assert_eq!(u16_at(&bytes, 0).unwrap(), 0x1234);
    assert_eq!(u32_at(&bytes, 2).unwrap(), 0x1234_5678);
    assert_eq!(u16_at(&bytes, 5).unwrap_err(), "truncated WAV header");
    assert_eq!(u32_at(&bytes, 3).unwrap_err(), "truncated WAV header");
}

#[test]
fn an_npy_header_has_the_documented_layout() {
    let header = npy_header(5, 2, true);
    assert_eq!(&header[..8], b"\x93NUMPY\x01\x00");
    let header_len = usize::from(u16::from_le_bytes([header[8], header[9]]));
    assert_eq!(10 + header_len, header.len());
    assert_eq!(header.len() % 64, 0);
    let dict = std::str::from_utf8(&header[10..]).unwrap();
    assert!(dict.ends_with('\n'));
    assert!(dict.starts_with("{'descr': '<f8', 'fortran_order': False, 'shape': (5, 2), }"), "{dict}");
    assert!(std::str::from_utf8(&npy_header(1, 1, false)[10..]).unwrap().contains("'<f4'"));
}

#[test]
fn an_npy_header_is_read_back() {
    for (frames, channels, wide) in [(5, 2, true), (0, 1, false), (123_456_789, 16, true)] {
        let header = npy_header(frames, channels, wide);
        let shape = npy_shape(&header).unwrap();
        assert_eq!(shape.width, if wide { 8 } else { 4 });
        assert_eq!(shape.frames, frames);
        assert_eq!(shape.channels, channels);
        assert_eq!(shape.data_start, header.len());
        assert_eq!(shape.inside, format!("{frames}, {channels}"));
    }
}

#[test]
fn npy_two_dimensions_and_one_dimension() {
    let data = [0u8; 48];
    for version in [1, 2] {
        let bytes = npy(version, "<f8", false, "(3, 2)", &data);
        let shape = npy_shape(&bytes).unwrap();
        assert_eq!((shape.width, shape.frames, shape.channels), (8, 3, 2));
        assert_eq!(shape.data_start + 48, bytes.len());
        assert!(npy_check_size(&shape, 48).is_ok());
    }
    let bytes = npy(1, "<f4", false, "(2,)", &[0u8; 8]);
    let shape = npy_shape(&bytes).unwrap();
    assert_eq!((shape.width, shape.frames, shape.channels), (4, 2, 1));
}

#[test]
fn npy_that_would_be_misread_is_refused_by_name() {
    let eight = [0_u8; 8];
    let error = |bytes: &[u8]| match npy_shape(bytes) {
        Err(e) => e,
        Ok(shape) => npy_check_size(&shape, bytes.len() - shape.data_start).unwrap_err(),
    };
    assert!(error(&npy(1, "<i4", false, "(2,)", &eight)).contains("'<i4'"));
    assert!(error(&npy(1, ">f8", false, "(1,)", &eight)).contains("'>f8'"));
    assert!(error(&npy(1, "<f8", true, "(1, 1)", &eight)).contains("Fortran"));
    assert!(error(&npy(1, "<f8", false, "(1, 1, 1)", &eight)).contains("frames x channels"));
    // a shape that announces more than the file holds
    assert!(error(&npy(1, "<f8", false, "(2, 1)", &eight)).contains("announces 16"));
    assert!(error(b"RIFF....").contains("not a NumPy"));
}

#[test]
fn a_malformed_npy_header_is_refused_with_its_reason() {
    assert_eq!(
        npy_shape(&npy(4, "<f8", false, "(1,)", &[])).err().unwrap(),
        "unsupported .npy format version 4"
    );
    assert_eq!(
        npy_shape(&npy(1, "<f8", false, "(x, 1)", &[])).err().unwrap(),
        "malformed shape `(x, 1)`"
    );
    assert_eq!(
        npy_shape(&npy(1, "<f8", false, "[1]", &[])).err().unwrap(),
        "malformed shape in the .npy header"
    );
    let mut cut = npy(1, "<f8", false, "(1,)", &[]);
    cut.truncate(40);
    assert_eq!(npy_shape(&cut).err().unwrap(), "truncated .npy header");
    let shape = npy_shape(&npy(1, "<f8", false, "(2, 1)", &[0u8; 8])).unwrap();
    assert_eq!(
        npy_check_size(&shape, 8).unwrap_err(),
        "the .npy data holds 8 bytes, its shape (2, 1) announces 16"
    );
}

#[test]
fn a_wav_header_is_read_back_by_the_reader() {
    for (bytes_per_sample, bits) in [(8, 64), (4, 32)] {
        let mut bytes = wav_header(5, 2, bytes_per_sample, 48_000).unwrap();
        assert_eq!(bytes.len(), 58);
        bytes.extend(std::iter::repeat(0u8).take(5 * 2 * bytes_per_sample));
        let layout = wav_layout(&bytes).unwrap();
        assert_eq!(layout.format, 3);
        assert_eq!(layout.channels, 2);
        assert_eq!(layout.bits, bits);
        assert_eq!(layout.bytes_per_sample, bytes_per_sample);
        assert_eq!(layout.frames, 5);
        assert_eq!(layout.data_start, 58);
        assert_eq!(layout.rate, Some(48_000));
    }
}

#[test]
fn a_wav_header_that_cannot_be_written_is_refused() {
    assert_eq!(wav_header(1, 70_000, 4, 44_100).unwrap_err(), "too many channels for WAV");
    assert_eq!(wav_header(1, 1, 8, -1).unwrap_err(), "negative sample rate");
    assert_eq!(
        wav_header(600_000_000, 1, 8, 44_100).unwrap_err(),
        "the render is larger than a WAV file can hold (4 GiB); use .npy"
    );
}

#[test]
fn pcm_and_float_files_are_located() {
    let layout = wav_layout(&wav(1, 16, 2, &[0u8; 8])).unwrap();
    assert_eq!((layout.format, layout.channels, layout.bits, layout.frames), (1, 2, 16, 2));
    assert_eq!(layout.data_start, 44);
    assert_eq!(layout.rate, Some(44_100));
    let layout = wav_layout(&wav(3, 32, 1, &[0u8; 8])).unwrap();
    assert_eq!((layout.format, layout.bytes_per_sample, layout.frames), (3, 4, 2));
    let layout = wav_layout(&wav(1, 24, 1, &[0u8; 6])).unwrap();
    assert_eq!((layout.bytes_per_sample, layout.frames), (3, 2));
}

#[test]
fn rejects_non_wav_bytes() {
    assert!(wav_layout(b"not a wave file at all").unwrap_err().contains("RIFF"));
}

#[test]
fn a_wav_that_cannot_be_decoded_is_refused() {
    assert_eq!(
        wav_layout(&wav(1, 4, 1, &[0u8; 4])).unwrap_err(),
        "unsupported bit depth 4"
    );
    assert_eq!(
        wav_layout(&wav(2, 16, 1, &[0u8; 4])).unwrap_err(),
        "unsupported WAV format 2 at 16 bits"
    );
    assert_eq!(
        wav_layout(&wav(1, 16, 0, &[0u8; 4])).unwrap_err(),
        "no fmt chunk, or zero channels"
    );
    let mut no_data = wav(1, 16, 1, &[]);
    no_data.truncate(36);
    assert_eq!(wav_layout(&no_data).unwrap_err(), "no data chunk");
}

#[test]
fn what_would_lose_information_is_refused() {
    assert!(output_plan("x.f32", "f32", 1, true).unwrap_err().contains("drop digits"));
    assert!(output_plan("x.f64", "f64", 2, true).unwrap_err().contains("one channel"));
    assert!(output_plan("x.txt", "txt", 1, true)
        .unwrap_err()
        .contains("unknown output extension"));
    assert_eq!(output_plan("x.NPY", "NPY", 3, false).unwrap(), (Container::Npy, false));
    assert_eq!(output_plan("x.wave", "wave", 2, true).unwrap(), (Container::Wav, true));
    assert_eq!(output_plan("x.f32", "f32", 1, false).unwrap(), (Container::Raw, false));
}

#[test]
fn an_input_format_is_told_from_the_extension() {
    assert_eq!(input_format("a.WAV", "WAV").unwrap(), InputFormat::Wav);
    assert_eq!(input_format("a.npy", "npy").unwrap(), InputFormat::Npy);
    assert_eq!(input_format("a.f64", "f64").unwrap(), InputFormat::F64);
    assert_eq!(input_format("a.f32", "f32").unwrap(), InputFormat::F32);
    assert_eq!(
        input_format("t.mp3", "mp3").unwrap_err(),
        "t.mp3: unknown audio extension `mp3` (expected .wav, .npy, .f64 or .f32)"
    );
}
