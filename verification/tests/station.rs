use lanline::apt::{Image, IMAGE_WIDTH};
use lanline::txaudio::{TxAudioSource, TX_AUDIO_CAP};
use lanline::txlog::{TxAudit, TX_AUDIT_CAP};

#[test]
fn tx_audit_pairs_key_with_release_and_bounds_the_ring() {
    let mut a = TxAudit::new();
    let t0: i128 = 1_700_000_000_000_000_000;
    a.key("HT".into(), "ham".into(), 146_340_000, -600_000, 100.0f64.to_bits(), 6.0f64.to_bits(), t0);
    a.release("HT", t0 + 5_000_000);

    let log = a.snapshot();
    assert_eq!(log.len(), 1);
    assert_eq!(log[0].tx_frequency_hz, 146_340_000);
    assert_eq!(log[0].offset_hz, -600_000);
    assert!(log[0].released_at_ns.is_some(), "release should close the open entry");
    assert!(log[0].duration_ms.unwrap() >= 5, "duration {:?}", log[0].duration_ms);
    assert_eq!(f64::from_bits(log[0].tone_hz_bits), 100.0);

    a.release("nobody", t0 + 6_000_000);

    for i in 0..TX_AUDIT_CAP + 20 {
        a.key(format!("c{i}"), "frs".into(), 462_562_500, 0, 0, 0, t0 + i as i128);
    }
    let log = a.snapshot();
    assert_eq!(log.len(), TX_AUDIT_CAP);
    assert_eq!(log[0].client, format!("c{}", TX_AUDIT_CAP + 19), "newest first");
}

#[test]
fn release_closes_only_the_latest_open_keying_of_that_client() {
    let mut a = TxAudit::new();
    a.key("A".into(), "frs".into(), 1, 0, 0, 0, 0);
    a.key("B".into(), "frs".into(), 2, 0, 0, 0, 10);
    a.key("A".into(), "frs".into(), 3, 0, 0, 0, 20);
    a.release("A", 3_000_020);
    let log = a.snapshot();
    assert_eq!(log[0].tx_frequency_hz, 3);
    assert_eq!(log[0].duration_ms, Some(3));
    assert!(log[1].released_at_ns.is_none());
    assert!(log[2].released_at_ns.is_none());
    a.release("A", 5_000_000);
    let log = a.snapshot();
    assert_eq!(log[2].duration_ms, Some(5));
    // A clock that went backwards gives zero, not a negative duration.
    a.release("B", 0);
    assert_eq!(a.snapshot()[1].duration_ms, Some(0));
    assert_eq!(a.len(), 3);
}

#[test]
fn apt_image_keeps_the_newest_rows_and_encodes_a_raster() {
    let mut img = Image::new(2);
    for v in 1u8..=3 {
        let a = [v; 909];
        let b = [v + 100; 909];
        img.push_line(&a, &b);
    }
    let st = img.status();
    assert_eq!((st.width, st.height, st.lines), (IMAGE_WIDTH, 2, 3));
    let raster = img.encode();
    assert_eq!(raster.len(), 8 + 2 * IMAGE_WIDTH);
    assert_eq!(&raster[0..4], &(IMAGE_WIDTH as u32).to_le_bytes());
    assert_eq!(&raster[4..8], &2u32.to_le_bytes());
    assert_eq!(raster[8], 2);
    assert_eq!(raster[8 + 909], 102);
    assert_eq!(raster[8 + IMAGE_WIDTH], 3);
    let empty = Image::new(0);
    assert_eq!(&empty.encode()[..], &[0x1a, 0x07, 0, 0, 0, 0, 0, 0]);
}

fn bits(v: &[f32]) -> Vec<u32> {
    v.iter().map(|x| x.to_bits()).collect()
}

fn floats(v: &[u32]) -> Vec<f32> {
    v.iter().map(|x| f32::from_bits(*x)).collect()
}

#[test]
fn tx_audio_source_pulls_fifo_and_pads_silence_on_underrun() {
    let mut src = TxAudioSource::new();
    src.push(&bits(&[1.0, 2.0, 3.0]));
    src.push(&bits(&[4.0, 5.0]));

    let mut out = Vec::new();
    src.pull(4, &mut out);
    assert_eq!(floats(&out), vec![1.0, 2.0, 3.0, 4.0], "FIFO order across two pushes");

    out.clear();
    src.pull(4, &mut out);
    assert_eq!(floats(&out), vec![5.0, 0.0, 0.0, 0.0], "underrun pads with silence, doesn't block");

    src.push(&bits(&[9.0]));
    src.clear();
    out.clear();
    src.pull(2, &mut out);
    assert_eq!(floats(&out), vec![0.0, 0.0], "clear() drops anything buffered");
}

#[test]
fn tx_audio_source_keeps_two_seconds() {
    let mut src = TxAudioSource::new();
    let block: Vec<u32> = (0..50_000u32).collect();
    src.push(&block);
    src.push(&block);
    assert_eq!(src.len(), TX_AUDIO_CAP);
    let mut out = Vec::new();
    src.pull(1, &mut out);
    assert_eq!(out, vec![4_000]);
}
