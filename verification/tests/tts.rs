//! Speech synthesis: tones, phonemes, voice banks and the mock engine.

use skadoosh::error::TtsError;
use skadoosh::tts::emotion::{detect_tone, Tone};
use skadoosh::tts::misaki_g2p::{finish_ipa, readable, MisakiG2p, MAX_ENGINE_RUN};
use skadoosh::tts::mock::MockTts;
use skadoosh::tts::onnx::{
    chunk_phonemes, load_voice_bank, parse_npy_f32, style_of, style_row, walk_stored_zip_entries,
    MAX_PHONEME_TOKENS,
};
use skadoosh::tts::phonemes::{
    kokoro_vocab, normalize_ipa, phonemize, phonemize_with, tokenize, EspeakRun,
};
use skadoosh::tts::{concat_clip_samples, TtsClip, TTS_SAMPLE_RATE};

#[test]
fn neutral_clause() {
    assert_eq!(
        detect_tone("The weather is partly cloudy today"),
        Tone::Neutral
    );
}

#[test]
fn excited_clause() {
    assert_eq!(
        detect_tone("Wow! That's amazing news, congratulations!"),
        Tone::Excited
    );
}

#[test]
fn calm_clause() {
    assert_eq!(
        detect_tone("I'm sorry to hear that, take it slow and careful"),
        Tone::Calm
    );
}

fn speed(tone: Tone) -> f32 {
    f32::from_bits(tone.speed_multiplier())
}

#[test]
fn speed_multipliers() {
    assert!((speed(Tone::Neutral) - 1.0).abs() < f32::EPSILON);
    assert!(speed(Tone::Excited) > 1.0);
    assert!(speed(Tone::Calm) < 1.0);
}

#[test]
fn speeds_are_exact() {
    assert_eq!(speed(Tone::Excited), 1.25);
    assert_eq!(speed(Tone::Calm), 0.85);
}

#[test]
fn capitalization_is_ignored() {
    assert_eq!(
        detect_tone("This is AMAZING and EXCELLENT work!"),
        Tone::Excited
    );
}

#[test]
fn misaki_basic_phonemes() {
    let mut g2p = MisakiG2p::new();
    let ipa = g2p.phonemize("Hello, world!").expect("phonemize");
    assert!(!ipa.is_empty(), "should produce phonemes");
    assert!(
        !ipa.contains('❓'),
        "should not contain unknown marker: {ipa}"
    );
}

#[test]
fn misaki_empty_input() {
    let mut g2p = MisakiG2p::new();
    assert_eq!(g2p.phonemize("").unwrap(), "");
    assert_eq!(g2p.phonemize("   ").unwrap(), "");
}

#[test]
fn misaki_known_words() {
    let mut g2p = MisakiG2p::new();
    for word in ["hello", "world", "testing", "skadoosh", "voice", "agent"] {
        let ipa = g2p.phonemize(word).expect(word);
        assert!(!ipa.is_empty(), "{word}: empty output");
    }
}

#[test]
fn the_engine_changes_the_text() {
    let mut g2p = MisakiG2p::new();
    assert_ne!(g2p.phonemize("hello").unwrap(), "hello");
    let ipa = phonemize(&mut g2p, "hello.").unwrap();
    assert!(ipa.ends_with('.'));
}

#[test]
fn texts_that_the_engine_cannot_be_given_are_errors() {
    let mut g2p = MisakiG2p::new();
    assert!(readable("hello, a café is open: going"));
    assert!(g2p.phonemize("a café is open").is_ok());
    assert!(g2p.phonemize("it’s going").is_ok());
    for text in ["zéing", "ÉING", "a €'ing b", "€’ing", "[zé](x)ing", "zé[i](+1)ng."] {
        assert!(!readable(text));
        assert!(matches!(g2p.phonemize(text), Err(TtsError::Phonemize(_))));
        assert!(phonemize(&mut g2p, text).is_err());
    }
    assert!(!readable(&"a".repeat(MAX_ENGINE_RUN + 1)));
}

#[test]
fn other_texts_are_given_to_the_engine() {
    let mut g2p = MisakiG2p::new();
    for text in [
        "it’s here [see the note]",
        "a café (open) [1] [2]",
        "[café](+1) is open",
        "[]( é ) and [é] (x)",
        "the zéinger",
        "the ‘ing’ form, and o’ing",
        "Acme™ing",
        "naïve thinking",
    ] {
        assert!(readable(text), "{text}");
        assert!(g2p.phonemize(text).is_ok(), "{text}");
    }
    assert!(readable(&"word ".repeat(MAX_ENGINE_RUN)));
}

#[test]
fn engine_failures_are_reported() {
    assert!(finish_ipa("x", Err("boom".to_string())).is_err());
}

/// Builds a minimal npy v1 file: magic, version, header dict with the given
/// shape text, then `data_bytes` zero bytes of payload.
fn npy_v1(shape_text: &str, data_bytes: usize) -> Vec<u8> {
    let header = format!("{{'descr': '<f4', 'fortran_order': False, 'shape': {shape_text}, }}");
    let mut v = b"\x93NUMPY".to_vec();
    v.extend_from_slice(&[1, 0]);
    v.extend_from_slice(&(header.len() as u16).to_le_bytes());
    v.extend_from_slice(header.as_bytes());
    let total = v.len() + data_bytes;
    v.resize(total, 0);
    v
}

/// Builds a minimal stored (uncompressed) npz holding one `af.npy` member
/// with the given payload.
fn npz_stored(member_name: &str, payload: &[u8]) -> Vec<u8> {
    let mut v = b"PK\x03\x04".to_vec();
    v.extend_from_slice(&20u16.to_le_bytes()); // version needed
    v.extend_from_slice(&[0, 0]); // flags
    v.extend_from_slice(&[0, 0]); // method 0 = stored
    v.extend_from_slice(&[0; 8]); // time/date/crc (unchecked by parser)
    v.extend_from_slice(&(payload.len() as u32).to_le_bytes()); // csize
    v.extend_from_slice(&(payload.len() as u32).to_le_bytes()); // usize
    v.extend_from_slice(&(member_name.len() as u16).to_le_bytes());
    v.extend_from_slice(&0u16.to_le_bytes()); // extra len
    v.extend_from_slice(member_name.as_bytes());
    v.extend_from_slice(payload);
    v
}

fn missing_voices<T>(r: Result<T, TtsError>) -> bool {
    matches!(r, Err(TtsError::MissingVoices(_)))
}

#[test]
fn npy_valid_minimal_bank_decodes() {
    let buf = npy_v1("(2, 1, 256)", 2 * 256 * 4);
    let bank = parse_npy_f32(&buf).expect("valid npy should decode");
    assert_eq!(bank.rows, 2);
    assert_eq!(bank.data.len(), 512);
    // Bare [256] single-row bank also decodes.
    let bare = npy_v1("(256,)", 256 * 4);
    assert_eq!(parse_npy_f32(&bare).expect("bare bank").rows, 1);
    // v2 header (u32 header length) decodes too.
    let header = "{'descr': '<f4', 'fortran_order': False, 'shape': (2, 1, 256), }";
    let mut v2 = b"\x93NUMPY".to_vec();
    v2.extend_from_slice(&[2, 0]);
    v2.extend_from_slice(&(header.len() as u32).to_le_bytes());
    v2.extend_from_slice(header.as_bytes());
    let total = v2.len() + 2 * 256 * 4;
    v2.resize(total, 0);
    assert_eq!(parse_npy_f32(&v2).expect("v2 npy").rows, 2);
}

#[test]
fn npy_every_truncated_prefix_errors_without_panic() {
    let full = npy_v1("(2, 1, 256)", 2 * 256 * 4);
    for cut in 0..full.len() {
        let r = parse_npy_f32(&full[..cut]);
        assert!(
            missing_voices(r),
            "prefix of len {cut} must be MissingVoices, not panic/Ok"
        );
    }
    // Sanity: the untruncated buffer is Ok.
    assert!(parse_npy_f32(&full).is_ok());
}

#[test]
fn npy_tiny_garbage_buffers_error_without_panic() {
    for len in 0..=16 {
        // Zeros.
        assert!(
            missing_voices(parse_npy_f32(&vec![0u8; len])),
            "zeros len {len}"
        );
        // Valid magic, zeroed rest (includes a 10-11 byte buffer claiming
        // v2 — the historical index-out-of-bounds panic).
        let mut b = b"\x93NUMPY".to_vec();
        b.resize(len, 0);
        assert!(missing_voices(parse_npy_f32(&b)), "magic+zeros len {len}");
        // Valid magic + v2/v3 version byte, truncated length field.
        for major in [2u8, 3] {
            let mut b = b"\x93NUMPY".to_vec();
            b.extend_from_slice(&[major, 0]);
            b.resize(len.max(8), 0);
            assert!(
                missing_voices(parse_npy_f32(&b)),
                "v{major} magic+zeros len {len}"
            );
        }
    }
}

#[test]
fn npy_mutated_version_and_header_fields_error() {
    for major in [0u8, 4, 9, 42, 255] {
        let mut b = npy_v1("(2, 1, 256)", 2 * 256 * 4);
        b[6] = major;
        assert!(missing_voices(parse_npy_f32(&b)), "version {major}");
    }
    // v1 buffer relabeled v2: the u32 header length swallows header text.
    let mut relabeled = npy_v1("(2, 1, 256)", 2 * 256 * 4);
    relabeled[6] = 2;
    assert!(missing_voices(parse_npy_f32(&relabeled)));
    // Wrong dtype.
    let mut wrong_descr = npy_v1("(2, 1, 256)", 2 * 256 * 4);
    let pos = wrong_descr.windows(4).position(|w| w == b"<f4'").unwrap();
    wrong_descr[pos..pos + 3].copy_from_slice(b"<f8");
    assert!(missing_voices(parse_npy_f32(&wrong_descr)));
    // Fortran order.
    let header = "{'descr': '<f4', 'fortran_order': True, 'shape': (2, 1, 256), }";
    let mut f = b"\x93NUMPY".to_vec();
    f.extend_from_slice(&[1, 0]);
    f.extend_from_slice(&(header.len() as u16).to_le_bytes());
    f.extend_from_slice(header.as_bytes());
    let total = f.len() + 2 * 256 * 4;
    f.resize(total, 0);
    assert!(missing_voices(parse_npy_f32(&f)));
}

#[test]
fn npy_absurd_shapes_error_without_overflow() {
    // rows = 2^62: rows * 256 overflows usize.
    assert!(missing_voices(parse_npy_f32(&npy_v1(
        "(4611686018427387904, 1, 256)",
        0
    ))));
    // rows = 2^54: rows * 256 fits but * 4 bytes overflows.
    assert!(missing_voices(parse_npy_f32(&npy_v1(
        "(18014398509481984, 1, 256)",
        0
    ))));
    // Zero rows: no overflow, but a row-less bank would panic the style-row
    // indexing downstream.
    assert!(missing_voices(parse_npy_f32(&npy_v1("(0, 1, 256)", 0))));
    // Wrong inner dims / ranks.
    assert!(missing_voices(parse_npy_f32(&npy_v1("(2, 2, 256)", 0))));
    assert!(missing_voices(parse_npy_f32(&npy_v1("(512,)", 0))));
    assert!(missing_voices(parse_npy_f32(&npy_v1(
        "(1, 1, 1, 1, 256)",
        0
    ))));
    assert!(missing_voices(parse_npy_f32(&npy_v1("()", 0))));
    // Shape dim too large to parse as usize.
    assert!(missing_voices(parse_npy_f32(&npy_v1(
        "(99999999999999999999999999, 1, 256)",
        0
    ))));
    // Plausible shape, missing payload.
    assert!(missing_voices(parse_npy_f32(&npy_v1("(511, 1, 256)", 64))));
}

#[test]
fn npz_stored_entry_roundtrips_and_truncations_error() {
    let payload = npy_v1("(2, 1, 256)", 2 * 256 * 4);
    let zip = npz_stored("af.npy", &payload);
    let bank = load_voice_bank("voices.bin", &zip, "af").expect("stored npz should load");
    assert_eq!(bank.rows, 2);
    assert_eq!(bank.data.len(), 512);
    // Every strict prefix: clean error, never a panic.
    for cut in 0..zip.len() {
        let r = load_voice_bank("voices.bin", &zip[..cut], "af");
        assert!(
            matches!(r, Err(TtsError::MissingVoices(_))),
            "npz prefix len {cut} must be MissingVoices"
        );
    }
}

#[test]
fn npz_deflated_entry_is_rejected_cleanly() {
    let mut zip = npz_stored("af.npy", &[0xDE, 0xAD, 0xBE, 0xEF]);
    // Method byte at offset 8: 8 = deflate.
    zip[8] = 8;
    let r = load_voice_bank("voices.bin", &zip, "af");
    match r {
        Err(TtsError::MissingVoices(m)) => {
            assert!(m.contains("deflate"), "message should say why: {m}");
        }
        other => panic!("expected MissingVoices for deflated entry, got {other:?}"),
    }
    // A member name that is absent lists available voices, no panic.
    let zip = npz_stored("zz.npy", &[0u8; 4]);
    let r = load_voice_bank("voices.bin", &zip, "af");
    match r {
        Err(TtsError::MissingVoices(m)) => {
            assert!(m.contains("zz.npy"), "available voices listed: {m}");
        }
        other => panic!("expected MissingVoices for absent voice, got {other:?}"),
    }
}

#[test]
fn zip_members_are_walked_in_order() {
    let mut zip = npz_stored("a.npy", &[1, 2]);
    zip.extend(npz_stored("b.npy", &[3]));
    let entries = walk_stored_zip_entries(&zip);
    assert_eq!(entries.len(), 2);
    assert_eq!(entries[0].name, "a.npy");
    assert_eq!(entries[1].name, "b.npy");
}

#[test]
fn style_rows_follow_the_token_count() {
    assert_eq!(style_row(5, 511), 5);
    assert_eq!(style_row(600, 511), 510);
    let bank = parse_npy_f32(&npy_v1("(2, 1, 256)", 2 * 256 * 4)).unwrap();
    assert_eq!(style_of(&bank, 1), vec![0u32; 256]);
}

#[test]
fn long_phoneme_strings_are_chunked() {
    let vocab = kokoro_vocab();
    let long = "a".repeat(MAX_PHONEME_TOKENS + 5);
    let chunks = chunk_phonemes(&long, &vocab);
    assert_eq!(chunks.len(), 2);
    assert_eq!(chunks.concat(), long);
    assert_eq!(tokenize("a", &vocab), vec![0, 43, 0]);
    assert_eq!(tokenize("\u{1}", &vocab), vec![0, 0]);
}

#[test]
fn ipa_is_normalized() {
    assert_eq!(normalize_ipa("r"), "ɹ");
    assert_eq!(normalize_ipa("  x  "), "k");
}

fn espeak(success: bool, stdout: &str, stderr: &str) -> EspeakRun {
    EspeakRun {
        success,
        status: "exit status: 1".to_string(),
        stdout: stdout.as_bytes().to_vec(),
        stderr: stderr.as_bytes().to_vec(),
    }
}

#[test]
fn espeak_failures_are_reported() {
    match phonemize_with("espeak-ng", "hi", &espeak(false, "", " no voice\n")) {
        Err(TtsError::Phonemize(m)) => {
            assert_eq!(m, "espeak-ng exited with exit status: 1: no voice")
        }
        other => panic!("expected Phonemize, got {other:?}"),
    }
    assert_eq!(
        phonemize_with("espeak-ng", "  ", &espeak(false, "", "")).unwrap(),
        ""
    );
    assert_eq!(
        phonemize_with("espeak-ng", "hi.", &espeak(true, " h\n\naj \n", "")).unwrap(),
        "h aj."
    );
}

#[test]
fn mock_clips_last_with_their_text() {
    let clip = MockTts::new().synthesize("hello");
    assert_eq!(clip.samples, 275 * 24);
    assert_eq!(MockTts::new().synthesize("").samples, 250 * 24);
    assert_eq!(MockTts::new().synthesize(&"x".repeat(99)).samples, 2500 * 24);
    assert_eq!(clip.edge, 120);
}

#[test]
fn clips_are_joined_in_order() {
    let clips = vec![
        TtsClip {
            samples: vec![1, 2],
            sample_rate: TTS_SAMPLE_RATE,
        },
        TtsClip {
            samples: vec![3],
            sample_rate: TTS_SAMPLE_RATE,
        },
    ];
    assert_eq!(concat_clip_samples(&clips), vec![1, 2, 3]);
}
