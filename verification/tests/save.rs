use quicksample::path::{file_in_folder, parent_folder, with_wav_extension};
use quicksample::audio::SAMPLE_RATE;
use quicksample::sample::Sample;
use quicksample::save::{
    next_unused_filename, sample_filename, suggested_filename, write_wav, NameSearch, SaveError,
};
use std::io::Cursor;
use std::path::{Path, PathBuf};

fn bits(samples: &[f32]) -> Vec<Sample> {
    samples.iter().map(|x| Sample::from_bits(x.to_bits())).collect()
}

#[test]
fn picks_first_gap() {
    let mut dir: Vec<String> = Vec::new();
    assert_eq!(next_unused_filename(&dir), "sample-001.wav");
    dir.push("sample-001.wav".to_string());
    dir.push("sample-002.wav".to_string());
    assert_eq!(next_unused_filename(&dir), "sample-003.wav");
}

#[test]
fn gaps_are_filled_first_and_other_files_do_not_count() {
    let names = ["sample-003.wav", "sample-001.wav", "sample-2.wav", "Sample-002.wav", "notes"];
    let mut dir: Vec<String> = names.iter().map(|n| n.to_string()).collect();
    assert_eq!(next_unused_filename(&dir), "sample-002.wav");
    dir.push("sample-002.wav".to_string());
    assert_eq!(next_unused_filename(&dir), "sample-004.wav");
    let full: Vec<String> = (1..=1200).map(sample_filename).collect();
    assert_eq!(next_unused_filename(&full), "sample-1201.wav");
}

#[test]
fn numbers_have_at_least_three_digits() {
    assert_eq!(sample_filename(7), "sample-007.wav");
    assert_eq!(sample_filename(42), "sample-042.wav");
    assert_eq!(sample_filename(999), "sample-999.wav");
    assert_eq!(sample_filename(1000), "sample-1000.wav");
    assert_eq!(sample_filename(u64::MAX), "sample-18446744073709551615.wav");
}

#[test]
fn a_name_is_suggested_with_and_without_a_folder() {
    assert_eq!(suggested_filename(None), "sample-001.wav");
    assert_eq!(suggested_filename(Some("sample-002.wav".to_string())), "sample-002.wav");
}

#[test]
fn a_search_proposes_names_until_one_is_unused() {
    let mut search = NameSearch::new();
    for expected in ["sample-001.wav", "sample-002.wav"] {
        assert_eq!(search.name(), expected);
        assert!(!search.is_last());
        assert_eq!(search.answered(true), None);
    }
    assert_eq!(search.answered(false), Some("sample-003.wav".to_string()));
    assert_eq!(search.name(), "sample-003.wav");
}

/// Every text of up to seven of the characters `a`, `.` and `/`.
fn small_paths() -> Vec<String> {
    let mut all = vec![String::new()];
    let mut from = 0;
    for _ in 0..7 {
        let to = all.len();
        for i in from..to {
            for c in ['a', '.', '/'] {
                let longer = format!("{}{c}", all[i]);
                all.push(longer);
            }
        }
        from = to;
    }
    all
}

#[test]
fn folders_agree_with_std_paths() {
    for p in small_paths() {
        let by_std = Path::new(&p).parent().map(|f| f.to_str().unwrap().to_string());
        let folder = parent_folder(&p.as_bytes().to_vec());
        assert_eq!(folder.map(|f| String::from_utf8(f).unwrap()), by_std, "{p:?}");
    }
}

#[test]
fn files_in_folders_agree_with_std_paths() {
    for p in small_paths() {
        for name in ["sample-001.wav", "", "/a", "é.wav"] {
            let path = file_in_folder(&p.as_bytes().to_vec(), &name.to_string());
            let by_std = Path::new(&p).join(name);
            assert_eq!(String::from_utf8(path).unwrap(), by_std.to_str().unwrap(), "{p:?}");
        }
    }
}

#[test]
fn roundtrip_wav() {
    let file = write_wav(&bits(&[0.0, 0.5, -0.5, 1.0])).unwrap();
    let mut r = hound::WavReader::new(Cursor::new(file)).unwrap();
    assert_eq!(r.spec().channels, 2);
    assert_eq!(r.spec().sample_rate, SAMPLE_RATE);
    let v: Vec<i16> = r.samples::<i16>().map(|s| s.unwrap()).collect();
    assert_eq!(v, vec![0, 16384, -16384, i16::MAX]);
}

#[test]
fn wav_files_byte_by_byte() {
    let file = write_wav(&bits(&[0.25, -2.0])).unwrap();
    let mut expected: Vec<u8> = Vec::new();
    expected.extend_from_slice(b"RIFF");
    expected.extend_from_slice(&40u32.to_le_bytes());
    expected.extend_from_slice(b"WAVEfmt ");
    expected.extend_from_slice(&16u32.to_le_bytes());
    expected.extend_from_slice(&1u16.to_le_bytes());
    expected.extend_from_slice(&2u16.to_le_bytes());
    expected.extend_from_slice(&48_000u32.to_le_bytes());
    expected.extend_from_slice(&192_000u32.to_le_bytes());
    expected.extend_from_slice(&4u16.to_le_bytes());
    expected.extend_from_slice(&16u16.to_le_bytes());
    expected.extend_from_slice(b"data");
    expected.extend_from_slice(&4u32.to_le_bytes());
    expected.extend_from_slice(&8192i16.to_le_bytes());
    expected.extend_from_slice(&(-32767i16).to_le_bytes());
    assert_eq!(file, expected);
    assert_eq!(write_wav(&[]).unwrap().len(), 44);
}

#[test]
fn an_unfinished_frame_is_not_saved() {
    let e = write_wav(&bits(&[0.0, 0.5, 0.5])).unwrap_err();
    assert_eq!(e, SaveError::UnfinishedFrame);
    assert_eq!(
        e.message(),
        "The number of samples written is not a multiple of the number of channels."
    );
    // In the words of the encoder itself.
    assert_eq!(e.message(), hound::Error::UnfinishedSample.to_string());
}

#[test]
fn wav_extension() {
    assert_eq!(with_wav_extension("a/b".into()), b"a/b.wav".to_vec());
    assert_eq!(with_wav_extension("a/b.WAV".into()), b"a/b.WAV".to_vec());
    assert_eq!(with_wav_extension("a/b.txt".into()), b"a/b.wav".to_vec());
}

/// The same rule written with the standard library's paths.
fn by_std_paths(path: &str) -> String {
    let path = PathBuf::from(path);
    let wav = match path.extension().and_then(|e| e.to_str()) {
        Some(ext) if ext.eq_ignore_ascii_case("wav") => path,
        _ => path.with_extension("wav"),
    };
    wav.to_str().unwrap().to_string()
}

#[test]
fn wav_extension_agrees_with_std_paths() {
    // Every path of up to seven characters over a small alphabet.
    let alphabet = ['a', '.', '/', 'W'];
    let mut paths = vec![String::new()];
    let mut from = 0;
    for _ in 0..7 {
        let to = paths.len();
        for i in from..to {
            for c in alphabet {
                let mut longer = paths[i].clone();
                longer.push(c);
                paths.push(longer);
            }
        }
        from = to;
    }
    for tail in ["wav", "WAV", "wAv", "mp3", "wav/", "wav/.", "wav//./"] {
        for head in ["", "a", ".", "..", "a.", "/", "./", "../", "a/b.", ".a."] {
            paths.push(format!("{head}{tail}"));
        }
    }
    let mut differ = Vec::new();
    for p in &paths {
        // `Path::with_extension` drops the extension of a name such as `..x`
        // without putting the new one in its place.
        if Path::new(p).file_stem().is_some_and(|stem| stem == ".") {
            continue;
        }
        let ours = String::from_utf8(with_wav_extension(p.as_bytes().to_vec())).unwrap();
        if ours != by_std_paths(p) {
            differ.push((p.clone(), ours, by_std_paths(p)));
        }
    }
    assert_eq!(differ, Vec::new());
    assert_eq!(with_wav_extension("a/..x".into()), b"a/..wav".to_vec());
}
