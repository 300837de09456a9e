use auralis::mp4::boxes::{be_u16, be_u32, be_u64, children, find_all, read_box, Located};
use auralis::mp4::container::inspect_track;
use auralis::mp4::tables::{
    full_box_version, parse_chunk_offsets, parse_handler, parse_mdhd, parse_sidx, parse_stsc,
    parse_stsz, parse_stts_total, stsz_range_bytes,
};

fn box_of(kind: &[u8; 4], payload: &[u8]) -> Vec<u8> {
    let mut out = Vec::new();
    out.extend_from_slice(&((payload.len() + 8) as u32).to_be_bytes());
    out.extend_from_slice(kind);
    out.extend_from_slice(payload);
    out
}

fn fourcc(kind: &[u8; 4]) -> u32 {
    u32::from_be_bytes(*kind)
}

fn full_box(kind: &[u8; 4], version: u8, fields: &[u32]) -> Vec<u8> {
    let mut payload = vec![version, 0, 0, 0];
    for f in fields {
        payload.extend_from_slice(&f.to_be_bytes());
    }
    box_of(kind, &payload)
}

fn whole(buf: &[u8]) -> Located {
    read_box(buf, 0, buf.len()).unwrap()
}

#[test]
fn big_endian_fields_are_read_in_place() {
    let bytes = [0x01u8, 0x02, 0x03, 0x04, 0x05, 0x06, 0x07, 0x08];
    assert_eq!(be_u16(&bytes, 0), Some(0x0102));
    assert_eq!(be_u32(&bytes, 1), Some(0x0203_0405));
    assert_eq!(be_u64(&bytes, 0), Some(0x0102_0304_0506_0708));
    assert_eq!(be_u32(&bytes, 5), None);
    assert_eq!(be_u64(&bytes, 1), None);
    assert_eq!(be_u16(&bytes, 8), None);
}

#[test]
fn boxes_are_read_with_their_payload_bounds() {
    let buf = box_of(b"free", &[1, 2, 3]);
    let b = whole(&buf);
    assert_eq!((b.kind, b.start, b.end), (fourcc(b"free"), 8, 11));
    // A size reaching past the region makes the box unreadable.
    assert!(read_box(&buf, 0, 10).is_none());
    // A size of zero runs to the end of the region.
    let mut open_ended = vec![0u8, 0, 0, 0];
    open_ended.extend_from_slice(b"mdat");
    open_ended.extend_from_slice(&[9, 9]);
    let b = read_box(&open_ended, 0, open_ended.len()).unwrap();
    assert_eq!((b.start, b.end), (8, 10));
    // A 64-bit size follows a 32-bit size of one.
    let mut large = vec![0u8, 0, 0, 1];
    large.extend_from_slice(b"mdat");
    large.extend_from_slice(&18u64.to_be_bytes());
    large.extend_from_slice(&[7, 7]);
    let b = read_box(&large, 0, large.len()).unwrap();
    assert_eq!((b.start, b.end), (16, 18));
}

#[test]
fn nested_boxes_are_found_at_any_depth() {
    let hdlr = box_of(b"hdlr", &[0; 12]);
    let trak = box_of(b"trak", &[box_of(b"tkhd", &[0; 4]), hdlr].concat());
    let moov = box_of(b"moov", &[box_of(b"mvhd", &[0; 4]), trak].concat());
    let root = whole(&moov);
    let kids = children(&moov, &root);
    assert_eq!(kids.len(), 2);
    assert_eq!(kids[0].kind, fourcc(b"mvhd"));
    assert_eq!(kids[1].kind, fourcc(b"trak"));
    let found = find_all(&moov, &root, fourcc(b"hdlr"));
    assert_eq!(found.len(), 1);
    assert_eq!((found[0].start, found[0].end), (48, 60));
}

#[test]
fn sample_table_boxes_are_parsed() {
    let mdhd = full_box(b"mdhd", 0, &[0, 0, 44_100, 88_200]);
    assert_eq!(full_box_version(&mdhd, &whole(&mdhd)), Some(0));
    assert_eq!(parse_mdhd(&mdhd, &whole(&mdhd)), Some((44_100, 88_200)));

    let stts = full_box(b"stts", 0, &[2, 3, 1024, 1, 512]);
    assert_eq!(parse_stts_total(&stts, &whole(&stts)), Some(3 * 1024 + 512));

    let stsz = full_box(b"stsz", 0, &[0, 3, 100, 200, 300]);
    let b = whole(&stsz);
    assert_eq!(parse_stsz(&stsz, &b), Some((0, 3)));
    assert_eq!(stsz_range_bytes(&stsz, &b, 0, 3, 1, 3), 500);
    assert_eq!(stsz_range_bytes(&stsz, &b, 0, 3, 0, 10), 600);
    assert_eq!(stsz_range_bytes(&stsz, &b, 700, 3, 1, 3), 1400);

    let stsc = full_box(b"stsc", 0, &[2, 1, 4, 1, 3, 2, 1]);
    assert_eq!(parse_stsc(&stsc, &whole(&stsc)), Some(vec![(1, 4), (3, 2)]));

    let stco = full_box(b"stco", 0, &[2, 48, 4096]);
    assert_eq!(parse_chunk_offsets(&stco, &whole(&stco)), Some(vec![48, 4096]));
    let mut co64 = vec![0u8, 0, 0, 0];
    co64.extend_from_slice(&1u32.to_be_bytes());
    co64.extend_from_slice(&0x1_0000_0000u64.to_be_bytes());
    let co64 = box_of(b"co64", &co64);
    assert_eq!(parse_chunk_offsets(&co64, &whole(&co64)), Some(vec![0x1_0000_0000]));

    let hdlr = full_box(b"hdlr", 0, &[0, fourcc(b"soun")]);
    assert_eq!(parse_handler(&hdlr, &whole(&hdlr)), Some(fourcc(b"soun")));
}

#[test]
fn truncated_tables_are_refused() {
    let stts = full_box(b"stts", 0, &[2, 3]);
    assert_eq!(parse_stts_total(&stts, &whole(&stts)), None);
    let stsc = full_box(b"stsc", 0, &[1, 1]);
    assert_eq!(parse_stsc(&stsc, &whole(&stsc)), None);
    let empty = box_of(b"mdhd", &[]);
    assert_eq!(full_box_version(&empty, &whole(&empty)), None);
    assert_eq!(parse_mdhd(&empty, &whole(&empty)), None);
}

#[test]
fn a_segment_index_sums_its_subsegments() {
    // version 0: reference_ID, timescale 1000, earliest 500, first_offset 16,
    // reserved + reference_count 2, then two entries.
    let mut payload = vec![0u8, 0, 0, 0];
    payload.extend_from_slice(&1u32.to_be_bytes());
    payload.extend_from_slice(&1000u32.to_be_bytes());
    payload.extend_from_slice(&500u32.to_be_bytes());
    payload.extend_from_slice(&16u32.to_be_bytes());
    payload.extend_from_slice(&0u16.to_be_bytes());
    payload.extend_from_slice(&2u16.to_be_bytes());
    for (size, duration) in [(70_000u32, 2000u32), (30_000, 1500)] {
        payload.extend_from_slice(&size.to_be_bytes());
        payload.extend_from_slice(&duration.to_be_bytes());
        payload.extend_from_slice(&0u32.to_be_bytes());
    }
    let sidx = box_of(b"sidx", &payload);
    let b = whole(&sidx);
    let index = parse_sidx(&sidx, &b).unwrap();
    assert_eq!(index.timescale, 1000);
    assert_eq!(index.end_units, 500 + 2000 + 1500);
    assert_eq!(index.expected_size, sidx.len() as u64 + 16 + 100_000);

    let mut no_timescale = payload.clone();
    no_timescale[8..12].copy_from_slice(&0u32.to_be_bytes());
    let sidx = box_of(b"sidx", &no_timescale);
    assert!(parse_sidx(&sidx, &whole(&sidx)).is_none());
}

#[test]
fn a_track_reports_its_sample_tables() {
    let stbl = box_of(
        b"stbl",
        &[
            full_box(b"stts", 0, &[1, 4, 1024]),
            full_box(b"stsc", 0, &[1, 1, 2, 1]),
            full_box(b"stsz", 0, &[256, 4]),
            full_box(b"stco", 0, &[2, 100, 612]),
        ]
        .concat(),
    );
    let mdia = box_of(
        b"mdia",
        &[full_box(b"mdhd", 0, &[0, 0, 48_000, 4096]), box_of(b"minf", &stbl)].concat(),
    );
    let trak = box_of(
        b"trak",
        &[full_box(b"hdlr", 0, &[0, fourcc(b"soun")]), mdia].concat(),
    );
    let facts = inspect_track(&trak, &whole(&trak)).unwrap();
    assert!(facts.is_audio);
    assert_eq!(facts.timescale, 48_000);
    assert_eq!(facts.duration_units, 4096);
    assert_eq!(facts.table_units, Some(4096));
    assert_eq!(facts.sample_count, Some(4));
    assert_eq!(facts.chunk_count, Some(2));
    // Last chunk at 612 holds samples 2..4 of 256 bytes each.
    assert_eq!(facts.data_end, Some(612 + 512));
}
