use auralis::mp4::container::{inspect_container_bytes, ContainerFacts, ContainerKind, Seconds, Verdict};
use auralis::mp4::tables::last_chunk;

/// A minimal but valid MP4 sample table: one audio track whose single chunk
/// starts 1000 bytes into the file and holds two 512-byte samples.
/// `sample_bytes` is how much of that media data is actually written.
fn synthetic_mp4(sample_bytes: usize) -> Vec<u8> {
    fn box_of(kind: &[u8; 4], payload: &[u8]) -> Vec<u8> {
        let mut out = Vec::with_capacity(payload.len() + 8);
        out.extend_from_slice(&((payload.len() + 8) as u32).to_be_bytes());
        out.extend_from_slice(kind);
        out.extend_from_slice(payload);
        out
    }

    let mut stts = vec![0u8, 0, 0, 0];
    stts.extend_from_slice(&1u32.to_be_bytes());
    stts.extend_from_slice(&2u32.to_be_bytes());
    stts.extend_from_slice(&1024u32.to_be_bytes());

    let mut stsc = vec![0u8, 0, 0, 0];
    stsc.extend_from_slice(&1u32.to_be_bytes());
    stsc.extend_from_slice(&1u32.to_be_bytes());
    stsc.extend_from_slice(&2u32.to_be_bytes());
    stsc.extend_from_slice(&1u32.to_be_bytes());

    let mut stsz = vec![0u8, 0, 0, 0];
    stsz.extend_from_slice(&0u32.to_be_bytes());
    stsz.extend_from_slice(&2u32.to_be_bytes());
    stsz.extend_from_slice(&512u32.to_be_bytes());
    stsz.extend_from_slice(&512u32.to_be_bytes());

    let mut stco = vec![0u8, 0, 0, 0];
    stco.extend_from_slice(&1u32.to_be_bytes());
    stco.extend_from_slice(&1000u32.to_be_bytes());

    let stts_box = box_of(b"stts", &stts);
    let stsc_box = box_of(b"stsc", &stsc);
    let stsz_box = box_of(b"stsz", &stsz);
    let stco_box = box_of(b"stco", &stco);
    let stbl = box_of(b"stbl", &[stts_box, stsc_box, stsz_box, stco_box].concat());
    let minf = box_of(b"minf", &stbl);

    let mut mdhd = vec![0u8, 0, 0, 0];
    mdhd.extend_from_slice(&0u32.to_be_bytes());
    mdhd.extend_from_slice(&0u32.to_be_bytes());
    mdhd.extend_from_slice(&48_000u32.to_be_bytes());
    mdhd.extend_from_slice(&2048u32.to_be_bytes());
    mdhd.extend_from_slice(&0u16.to_be_bytes());

    let mdia = box_of(b"mdia", &[box_of(b"mdhd", &mdhd), minf].concat());

    let mut hdlr = vec![0u8, 0, 0, 0];
    hdlr.extend_from_slice(&0u32.to_be_bytes());
    hdlr.extend_from_slice(b"soun");
    let trak = box_of(b"trak", &[box_of(b"hdlr", &hdlr), mdia].concat());
    let moov = box_of(b"moov", &trak);

    let mut file = moov;
    while file.len() < 1000 {
        file.push(0);
    }
    file.extend(std::iter::repeat_n(0u8, sample_bytes));
    file
}

#[test]
fn a_complete_sample_table_is_reported_complete() {
    let bytes = synthetic_mp4(1024);
    let facts = inspect_container_bytes(bytes.len() as u64, &bytes);
    assert_eq!(facts.container, ContainerKind::Mp4Stbl);
    assert_eq!(facts.container.label(), "mp4-stbl");
    assert!(facts.audio_track_found);
    assert_eq!(facts.audio_data_end, Some(2024));
    assert_eq!(facts.verdict, Some(Verdict::Complete));
    assert_eq!(
        facts.table_secs,
        Some(Seconds {
            units: 2048,
            timescale: 48_000
        })
    );
    assert_eq!(facts.sample_count, Some(2));
}

#[test]
fn a_short_file_is_reported_with_the_missing_byte_count() {
    // The table still describes 1024 bytes of media, only 400 arrived.
    let bytes = synthetic_mp4(400);
    let facts = inspect_container_bytes(bytes.len() as u64, &bytes);
    assert_eq!(
        facts.verdict,
        Some(Verdict::Truncated { missing_bytes: 624 })
    );
}

#[test]
fn garbage_is_unknown_rather_than_wrong() {
    let bytes = b"\x00\x01\x02not an mp4 at all";
    let facts = inspect_container_bytes(bytes.len() as u64, bytes);
    assert_eq!(facts.verdict, None);
    assert_eq!(facts.container.label(), "unknown");
}

#[test]
fn an_empty_file_is_unknown() {
    let facts = inspect_container_bytes(0, &[]);
    assert_eq!(facts.verdict, None);
    assert_eq!(facts.size_bytes, 0);
}

#[test]
fn last_chunk_maps_offsets_to_sample_ranges() {
    // `stsc` runs: from chunk 1 there are 2 samples per chunk, from chunk 4
    // there are 3. With 5 chunks the last one therefore starts after
    // 2 + 2 + 2 + 3 = 9 samples and holds 3.
    let offsets = vec![10, 20, 30, 40, 50];
    let runs = vec![(1, 2), (4, 3)];
    let (offset, first_sample, samples) = last_chunk(&offsets, &runs).unwrap();
    assert_eq!((offset, first_sample, samples), (50, 9, 3));
}

#[test]
fn last_chunk_needs_offsets_and_runs() {
    assert_eq!(last_chunk(&[], &[(1, 2)]), None);
    assert_eq!(last_chunk(&[5], &[]), None);
    assert_eq!(last_chunk(&[7], &[(1, 4)]), Some((7, 0, 4)));
}

#[test]
fn a_file_longer_than_its_tables_is_complete() {
    let bytes = synthetic_mp4(5000);
    let facts = inspect_container_bytes(bytes.len() as u64, &bytes);
    assert_eq!(facts.verdict, Some(Verdict::Complete));
    assert_eq!(facts.chunk_count, Some(1));
}

#[test]
fn a_missing_file_is_unknown() {
    // A file that cannot be read is reported with nothing known.
    let facts = ContainerFacts::unknown(0);
    assert_eq!(facts.verdict, None);
    assert_eq!(facts.size_bytes, 0);
}
