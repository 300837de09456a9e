//! Byte-level completeness verdict for a downloaded MP4 file.
//!
//! Whether every media byte is present is answered from the container's own
//! bookkeeping, with no decoding: `stco`/`co64` give the chunk offsets, `stsc`
//! says how many samples live in each chunk and `stsz` gives their sizes, so
//! the highest chunk offset plus the size of that chunk's samples is the last
//! byte the file must contain. A fragmented file answers the same question
//! through its `sidx`, whose referenced sizes sum to the whole object.
//! Anything that cannot be understood yields no verdict at all.
use vstd::prelude::*;
use crate::mp4::boxes::{
    buffer_ok, children, find_all, in_bounds, lemma_children_weight, read_box, spec_children,
    spec_children_from, spec_find_all, spec_read_box, lemma_read_box_bounds, Located,
    HANDLER_SOUN, KIND_CO64, KIND_HDLR, KIND_MDHD, KIND_MOOF, KIND_MOOV, KIND_SIDX, KIND_STCO,
    KIND_STSC, KIND_STSZ, KIND_STTS, KIND_TRAK,
};
use crate::mp4::tables::{
    last_chunk, parse_chunk_offsets, parse_handler, parse_mdhd, parse_sidx, parse_stsc,
    parse_stsz, parse_stts_total, sat, spec_last_chunk, spec_parse_chunk_offsets,
    spec_parse_handler, spec_parse_mdhd, spec_parse_sidx, spec_parse_stsc, spec_parse_stsz,
    spec_parse_stts_total, spec_stsz_range_bytes, stsz_range_bytes, Sidx,
};

verus! {

/// Files larger than this are not inspected: the whole file is held in
/// memory for the walk.
pub const MAX_INSPECT_BYTES: u64 = 201326592;

/// What the container structure says about completeness.
#[derive(Debug, Clone, Copy, PartialEq, Eq, Structural)]
pub enum Verdict {
    /// Every byte the container references is present in the file.
    Complete,
    /// The container references bytes past the end of the file.
    Truncated { missing_bytes: u64 },
    /// The structure could not be understood.
    Unknown,
}

/// Which layout a file was recognised as.
#[derive(Debug, Clone, Copy, PartialEq, Eq, Structural)]
pub enum ContainerKind {
    /// Not understood.
    Unknown,
    /// A movie box with complete sample tables.
    Mp4Stbl,
    /// Movie fragments (`moof`) or a segment index (`sidx`).
    Mp4Fragmented,
}

impl ContainerKind {
    /// The label used in reports: `unknown`, `mp4-stbl` or `mp4-fragmented`.
    pub fn label(&self) -> (r: &'static str)
        ensures
            r@ == match self {
                ContainerKind::Unknown => "unknown"@,
                ContainerKind::Mp4Stbl => "mp4-stbl"@,
                ContainerKind::Mp4Fragmented => "mp4-fragmented"@,
            },
    {
        match self {
            ContainerKind::Unknown => "unknown",
            ContainerKind::Mp4Stbl => "mp4-stbl",
            ContainerKind::Mp4Fragmented => "mp4-fragmented",
        }
    }
}

/// A length in seconds, kept as the exact ratio `units / timescale` the
/// container stores (`timescale` is never zero).
#[derive(Debug, Clone, Copy, PartialEq, Eq, Structural)]
pub struct Seconds {
    pub units: u64,
    pub timescale: u64,
}

/// Structural facts about the audio track of a file.
#[derive(Debug, Clone, Copy, PartialEq, Eq)]
pub struct ContainerFacts {
    pub size_bytes: u64,
    pub container: ContainerKind,
    pub has_video_track: bool,
    pub audio_track_found: bool,
    /// Duration the track header claims (`mdhd` / `sidx`).
    pub declared_secs: Option<Seconds>,
    /// Duration the sample table claims (`stts` / `mdhd`).
    pub table_secs: Option<Seconds>,
    /// Highest byte offset the audio data must reach for the file to be whole.
    pub audio_data_end: Option<u64>,
    /// Bytes still missing when the file is short (reported through
    /// `verdict`; this field stays empty).
    pub missing_bytes: Option<u64>,
    pub sample_count: Option<u64>,
    pub chunk_count: Option<u64>,
    pub fragment_count: u64,
    pub verdict: Option<Verdict>,
}

/// Facts of a file nothing could be read from, besides its size.
pub open spec fn unknown_facts(size: u64) -> ContainerFacts {
    ContainerFacts {
        size_bytes: size,
        container: ContainerKind::Unknown,
        has_video_track: false,
        audio_track_found: false,
        declared_secs: None,
        table_secs: None,
        audio_data_end: None,
        missing_bytes: None,
        sample_count: None,
        chunk_count: None,
        fragment_count: 0,
        verdict: None,
    }
}

impl ContainerFacts {
    /// Facts for a file whose structure was not (or could not be) read.
    pub fn unknown(size_bytes: u64) -> (r: ContainerFacts)
        ensures
            r == unknown_facts(size_bytes),
    {
        ContainerFacts {
            size_bytes,
            container: ContainerKind::Unknown,
            has_video_track: false,
            audio_track_found: false,
            declared_secs: None,
            table_secs: None,
            audio_data_end: None,
            missing_bytes: None,
            sample_count: None,
            chunk_count: None,
            fragment_count: 0,
            verdict: None,
        }
    }
}

/// Completeness of a file of `size` bytes that must reach byte `end`.
pub open spec fn verdict_for(end: u64, size: u64) -> Verdict {
    if end <= size {
        Verdict::Complete
    } else {
        Verdict::Truncated { missing_bytes: (end - size) as u64 }
    }
}

fn verdict_of(end: u64, size: u64) -> (r: Verdict)
    ensures
        r == verdict_for(end, size),
{
    if end <= size {
        Verdict::Complete
    } else {
        Verdict::Truncated { missing_bytes: end - size }
    }
}

/// What one track of a movie box says about itself.
#[derive(Debug, Clone, Copy, PartialEq, Eq)]
pub struct TrackFacts {
    pub is_audio: bool,
    pub timescale: u64,
    pub duration_units: u64,
    pub table_units: Option<u64>,
    pub data_end: Option<u64>,
    pub sample_count: Option<u64>,
    pub chunk_count: Option<u64>,
}

/// The first box of a search, if any.
pub open spec fn first_box(s: Seq<Located>) -> Option<Located> {
    if s.len() == 0 {
        None
    } else {
        Some(s[0])
    }
}

/// `(data_end, sample_count, chunk_count)` from the sample table boxes of a
/// track, when all three tables are present and readable.
pub open spec fn spec_table_end(
    buf: Seq<u8>,
    stsz: Option<Located>,
    offsets: Option<Located>,
    stsc: Option<Located>,
) -> Option<(u64, u64, u64)> {
    match (stsz, offsets, stsc) {
        (Some(z), Some(o), Some(c)) => match (
            spec_parse_stsz(buf, z),
            spec_parse_chunk_offsets(buf, o),
            spec_parse_stsc(buf, c),
        ) {
            (Some((uniform, count)), Some(offs), Some(runs)) => match spec_last_chunk(offs, runs) {
                Some((last_offset, first_sample, in_last)) => Some(
                    (
                        sat(
                            last_offset + spec_stsz_range_bytes(
                                buf,
                                z,
                                uniform,
                                count,
                                first_sample,
                                sat(first_sample + in_last),
                            ),
                        ),
                        count,
                        offs.len() as u64,
                    ),
                ),
                None => None,
            },
            _ => None,
        },
        _ => None,
    }
}

/// The facts one `trak` box gives: its handler and media header must be
/// readable, with a non-zero timescale; the sample tables are optional.
#[verifier::opaque]
pub open spec fn spec_inspect_track(buf: Seq<u8>, trak: Located) -> Option<TrackFacts> {
    match first_box(spec_find_all(buf, trak, KIND_HDLR)) {
        None => None,
        Some(h) => match spec_parse_handler(buf, h) {
            None => None,
            Some(handler) => match first_box(spec_find_all(buf, trak, KIND_MDHD)) {
                None => None,
                Some(m) => match spec_parse_mdhd(buf, m) {
                    None => None,
                    Some((timescale, duration_units)) => {
                        if timescale == 0 {
                            None
                        } else {
                            let table_units = match first_box(
                                spec_find_all(buf, trak, KIND_STTS),
                            ) {
                                Some(t) => spec_parse_stts_total(buf, t),
                                None => None,
                            };
                            let offsets_box = match first_box(
                                spec_find_all(buf, trak, KIND_STCO),
                            ) {
                                Some(o) => Some(o),
                                None => first_box(spec_find_all(buf, trak, KIND_CO64)),
                            };
                            let end = spec_table_end(
                                buf,
                                first_box(spec_find_all(buf, trak, KIND_STSZ)),
                                offsets_box,
                                first_box(spec_find_all(buf, trak, KIND_STSC)),
                            );
                            Some(
                                TrackFacts {
                                    is_audio: handler == HANDLER_SOUN,
                                    timescale,
                                    duration_units,
                                    table_units,
                                    data_end: match end {
                                        Some((e, _, _)) => Some(e),
                                        None => None,
                                    },
                                    sample_count: match end {
                                        Some((_, s, _)) => Some(s),
                                        None => None,
                                    },
                                    chunk_count: match end {
                                        Some((_, _, c)) => Some(c),
                                        None => None,
                                    },
                                },
                            )
                        }
                    },
                },
            },
        },
    }
}

fn first_found(found: &Vec<Located>) -> (r: Option<Located>)
    ensures
        r == first_box(found@),
{
    if found.len() > 0 {
        Some(found[0])
    } else {
        None
    }
}

/// Inspect one track of a movie box.
pub fn inspect_track(buf: &[u8], trak: &Located) -> (r: Option<TrackFacts>)
    requires
        in_bounds(*trak, buf@.len() as int),
        buffer_ok(buf@),
    ensures
        r == spec_inspect_track(buf@, *trak),
{
    reveal(spec_inspect_track);
    let hdlrs = find_all(buf, trak, KIND_HDLR);
    let h = match first_found(&hdlrs) {
        Some(h) => h,
        None => return None,
    };
    let handler = match parse_handler(buf, &h) {
        Some(v) => v,
        None => return None,
    };
    let mdhds = find_all(buf, trak, KIND_MDHD);
    let m = match first_found(&mdhds) {
        Some(m) => m,
        None => return None,
    };
    let (timescale, duration_units) = match parse_mdhd(buf, &m) {
        Some(v) => v,
        None => return None,
    };
    if timescale == 0 {
        return None;
    }
    let sttss = find_all(buf, trak, KIND_STTS);
    let table_units = match first_found(&sttss) {
        Some(t) => parse_stts_total(buf, &t),
        None => None,
    };
    let stszs = find_all(buf, trak, KIND_STSZ);
    let stsz_box = first_found(&stszs);
    let stcos = find_all(buf, trak, KIND_STCO);
    let offsets_box = match first_found(&stcos) {
        Some(o) => Some(o),
        None => {
            let co64s = find_all(buf, trak, KIND_CO64);
            first_found(&co64s)
        },
    };
    let stscs = find_all(buf, trak, KIND_STSC);
    let stsc_box = first_found(&stscs);

    let mut data_end: Option<u64> = None;
    let mut sample_count: Option<u64> = None;
    let mut chunk_count: Option<u64> = None;
    if let (Some(z), Some(o), Some(c)) = (stsz_box, offsets_box, stsc_box) {
        if let (Some((uniform, count)), Some(offsets), Some(runs)) = (
            parse_stsz(buf, &z),
            parse_chunk_offsets(buf, &o),
            parse_stsc(buf, &c),
        ) {
            if let Some((last_offset, first_sample, in_last)) = last_chunk(
                offsets.as_slice(),
                runs.as_slice(),
            ) {
                let bytes = stsz_range_bytes(
                    buf,
                    &z,
                    uniform,
                    count,
                    first_sample,
                    first_sample.saturating_add(in_last),
                );
                data_end = Some(last_offset.saturating_add(bytes));
                sample_count = Some(count);
                chunk_count = Some(offsets.len() as u64);
            }
        }
    }
    Some(
        TrackFacts {
            is_audio: handler == HANDLER_SOUN,
            timescale,
            duration_units,
            table_units,
            data_end,
            sample_count,
            chunk_count,
        },
    )
}

/// How many boxes of kind `k` a list holds.
pub open spec fn count_kind(s: Seq<Located>, k: u32) -> nat
    decreases s.len(),
{
    if s.len() == 0 {
        0
    } else {
        count_kind(s.drop_last(), k) + if s.last().kind == k {
            1nat
        } else {
            0nat
        }
    }
}

/// The last box of kind `k` in a list.
pub open spec fn last_kind(s: Seq<Located>, k: u32) -> Option<Located>
    decreases s.len(),
{
    if s.len() == 0 {
        None
    } else if s.last().kind == k {
        Some(s.last())
    } else {
        last_kind(s.drop_last(), k)
    }
}

/// The track facts of `b` when it is a readable audio `trak`.
pub open spec fn audio_of(buf: Seq<u8>, b: Located) -> Option<TrackFacts> {
    if b.kind == KIND_TRAK {
        match spec_inspect_track(buf, b) {
            Some(t) => if t.is_audio {
                Some(t)
            } else {
                None
            },
            None => None,
        }
    } else {
        None
    }
}

/// Whether `b` is a readable `trak` whose handler is not sound.
pub open spec fn is_other_track(buf: Seq<u8>, b: Located) -> bool {
    b.kind == KIND_TRAK && match spec_inspect_track(buf, b) {
        Some(t) => !t.is_audio,
        None => false,
    }
}

/// The first readable audio track among `traks`.
pub open spec fn first_audio(buf: Seq<u8>, traks: Seq<Located>) -> Option<TrackFacts>
    decreases traks.len(),
{
    if traks.len() == 0 {
        None
    } else {
        match first_audio(buf, traks.drop_last()) {
            Some(t) => Some(t),
            None => audio_of(buf, traks.last()),
        }
    }
}

/// What the structure of a file image says. `size` is the file's size on
/// disk; empty files and files over [`MAX_INSPECT_BYTES`] are not walked.
///
/// A segment index (the last `sidx` at top level) settles the question for a
/// fragmented file. Otherwise the last movie box is read, its first readable
/// audio track gives the durations, and that track's sample tables give the
/// byte the file must reach.
pub open spec fn spec_inspect_container(size: u64, buf: Seq<u8>) -> ContainerFacts {
    if size == 0 || size > MAX_INSPECT_BYTES {
        unknown_facts(size)
    } else {
        let top = spec_children_from(buf, 0, buf.len() as int);
        let fragments = count_kind(top, KIND_MOOF) as u64;
        let sidx = match last_kind(top, KIND_SIDX) {
            Some(b) => spec_parse_sidx(buf, b),
            None => None,
        };
        match sidx {
            Some(index) => ContainerFacts {
                container: ContainerKind::Mp4Fragmented,
                declared_secs: Some(Seconds { units: index.end_units, timescale: index.timescale }),
                table_secs: Some(Seconds { units: index.end_units, timescale: index.timescale }),
                audio_data_end: Some(index.expected_size),
                fragment_count: fragments,
                verdict: Some(verdict_for(index.expected_size, size)),
                ..unknown_facts(size)
            },
            None => match last_kind(top, KIND_MOOV) {
                None => ContainerFacts { fragment_count: fragments, ..unknown_facts(size) },
                Some(moov) => {
                    let traks = spec_children(buf, moov);
                    let video = exists|i: int|
                        0 <= i < traks.len() && #[trigger] is_other_track(buf, traks[i]);
                    match first_audio(buf, traks) {
                        None => ContainerFacts {
                            fragment_count: fragments,
                            has_video_track: video,
                            ..unknown_facts(size)
                        },
                        Some(t) => ContainerFacts {
                            size_bytes: size,
                            container: if fragments > 0 {
                                ContainerKind::Mp4Fragmented
                            } else {
                                ContainerKind::Mp4Stbl
                            },
                            has_video_track: video,
                            audio_track_found: true,
                            declared_secs: Some(
                                Seconds { units: t.duration_units, timescale: t.timescale },
                            ),
                            table_secs: Some(
                                Seconds {
                                    units: match t.table_units {
                                        Some(u) => u,
                                        None => t.duration_units,
                                    },
                                    timescale: t.timescale,
                                },
                            ),
                            audio_data_end: t.data_end,
                            missing_bytes: None,
                            sample_count: t.sample_count,
                            chunk_count: t.chunk_count,
                            fragment_count: fragments,
                            verdict: match t.data_end {
                                Some(e) => Some(verdict_for(e, size)),
                                None => None,
                            },
                        },
                    }
                },
            },
        }
    }
}

/// The top level of a file image: its last movie box, the segment index of
/// its last `sidx` box, and how many movie fragments it holds.
fn scan_top_level(buf: &[u8]) -> (r: (Option<Located>, Option<Sidx>, u64))
    requires
        buffer_ok(buf@),
    ensures
        ({
            let top = spec_children_from(buf@, 0, buf@.len() as int);
            &&& r.0 == last_kind(top, KIND_MOOV)
            &&& r.1 == match last_kind(top, KIND_SIDX) {
                Some(b) => spec_parse_sidx(buf@, b),
                None => None,
            }
            &&& r.2 == count_kind(top, KIND_MOOF)
            &&& r.0 matches Some(m) ==> in_bounds(m, buf@.len() as int)
        }),
{
    let ghost g = buf@;
    let ghost top = spec_children_from(g, 0, g.len() as int);
    let ghost mut seen: Seq<Located> = Seq::empty();
    let mut off: usize = 0;
    let mut moov: Option<Located> = None;
    let mut sidx: Option<Sidx> = None;
    let mut fragments: u64 = 0;
    loop
        invariant
            g == buf@,
            buffer_ok(g),
            off <= g.len(),
            top == seen + spec_children_from(g, off as int, g.len() as int),
            moov == last_kind(seen, KIND_MOOV),
            moov matches Some(m) ==> in_bounds(m, g.len() as int),
            sidx == match last_kind(seen, KIND_SIDX) {
                Some(b) => spec_parse_sidx(g, b),
                None => None,
            },
            fragments == count_kind(seen, KIND_MOOF),
            fragments <= off,
        ensures
            top == seen,
        decreases g.len() - off,
    {
        proof {
            lemma_read_box_bounds(g, off as int, g.len() as int);
        }
        let b = match read_box(buf, off, buf.len()) {
            Some(b) => b,
            None => {
                assert(spec_children_from(g, off as int, g.len() as int) =~= Seq::<
                    Located,
                >::empty());
                assert(seen =~= top);
                break ;
            },
        };
        let ghost rest = spec_children_from(g, b.end as int, g.len() as int);
        assert(spec_children_from(g, off as int, g.len() as int) == seq![b] + rest);
        proof {
            assert(seen.push(b).drop_last() =~= seen);
            assert(seen.push(b).last() == b);
            assert(top =~= seen.push(b) + rest);
        }
        if b.kind == KIND_MOOV {
            moov = Some(b);
        } else if b.kind == KIND_MOOF {
            fragments = fragments + 1;
        } else if b.kind == KIND_SIDX {
            sidx = parse_sidx(buf, &b);
        }
        proof {
            seen = seen.push(b);
        }
        off = b.end;
    }
    (moov, sidx, fragments)
}

/// The first readable audio track among the children of a movie box, and
/// whether any readable track of another kind sits beside it.
fn select_tracks(buf: &[u8], moov: &Located) -> (r: (Option<TrackFacts>, bool))
    requires
        buffer_ok(buf@),
        in_bounds(*moov, buf@.len() as int),
    ensures
        r.0 == first_audio(buf@, spec_children(buf@, *moov)),
        r.1 == exists|j: int|
            0 <= j < spec_children(buf@, *moov).len() && #[trigger] is_other_track(
                buf@,
                spec_children(buf@, *moov)[j],
            ),
{
    let ghost g = buf@;
    let traks = children(buf, moov);
    let ghost ts = traks@;
    proof {
        lemma_children_weight(g, moov.start as int, moov.end as int);
    }
    let mut audio: Option<TrackFacts> = None;
    let mut video = false;
    let mut i: usize = 0;
    while i < traks.len()
        invariant
            g == buf@,
            buffer_ok(g),
            ts == traks@,
            forall|j: int| 0 <= j < ts.len() ==> in_bounds(#[trigger] ts[j], g.len() as int),
            i <= ts.len(),
            audio == first_audio(g, ts.take(i as int)),
            video == exists|j: int| 0 <= j < i && #[trigger] is_other_track(g, ts[j]),
        decreases ts.len() - i,
    {
        let trak = traks[i];
        assert(ts.take(i + 1).drop_last() =~= ts.take(i as int));
        assert(ts.take(i + 1).last() == trak);
        let ghost was_video = video;
        if trak.is(KIND_TRAK) {
            if let Some(track) = inspect_track(buf, &trak) {
                if track.is_audio && audio.is_none() {
                    audio = Some(track);
                } else if !track.is_audio {
                    video = true;
                }
            }
        }
        assert(video == exists|j: int| 0 <= j < i + 1 && #[trigger] is_other_track(g, ts[j])) by {
            if is_other_track(g, ts[i as int]) {
                assert(video);
            } else {
                assert(video == was_video);
                if video {
                    let j = choose|j: int| 0 <= j < i && #[trigger] is_other_track(g, ts[j]);
                    assert(0 <= j < i + 1 && is_other_track(g, ts[j]));
                }
            }
        }
        i = i + 1;
    }
    assert(ts.take(ts.len() as int) =~= ts);
    (audio, video)
}

/// Read the container structure of a file image of `size_bytes` bytes.
///
/// Never fails: an unreadable or unsupported file yields no verdict.
pub fn inspect_container_bytes(size_bytes: u64, buf: &[u8]) -> (facts: ContainerFacts)
    requires
        buffer_ok(buf@),
    ensures
        facts == spec_inspect_container(size_bytes, buf@),
{
    let mut facts = ContainerFacts::unknown(size_bytes);
    if size_bytes == 0 || size_bytes > MAX_INSPECT_BYTES {
        return facts;
    }
    let (moov, sidx, fragments) = scan_top_level(buf);
    facts.fragment_count = fragments;

    if let Some(index) = sidx {
        facts.container = ContainerKind::Mp4Fragmented;
        facts.declared_secs = Some(Seconds { units: index.end_units, timescale: index.timescale });
        facts.table_secs = Some(Seconds { units: index.end_units, timescale: index.timescale });
        facts.audio_data_end = Some(index.expected_size);
        facts.verdict = Some(verdict_of(index.expected_size, size_bytes));
        return facts;
    }
    let moov = match moov {
        Some(m) => m,
        None => return facts,
    };
    let (audio, video) = select_tracks(buf, &moov);
    facts.has_video_track = video;
    let track = match audio {
        Some(t) => t,
        None => return facts,
    };
    facts.audio_track_found = true;
    facts.container = if fragments > 0 {
        ContainerKind::Mp4Fragmented
    } else {
        ContainerKind::Mp4Stbl
    };
    facts.declared_secs = Some(Seconds { units: track.duration_units, timescale: track.timescale });
    let table_units = match track.table_units {
        Some(u) => u,
        None => track.duration_units,
    };
    facts.table_secs = Some(Seconds { units: table_units, timescale: track.timescale });
    facts.sample_count = track.sample_count;
    facts.chunk_count = track.chunk_count;
    if let Some(end) = track.data_end {
        facts.audio_data_end = Some(end);
        facts.verdict = Some(verdict_of(end, size_bytes));
    }
    facts
}
/// The byte verdict is never a guess: whenever one is given, it compares
/// the end the container's own tables require with the file's size, so a
/// file is called complete exactly when it reaches that end, and a short
/// file is reported with exactly the bytes it lacks. Files that are empty
/// or too large to inspect get no verdict.
pub proof fn law_verdict_follows_the_tables(size: u64, buf: Seq<u8>)
    ensures
        ({
            let facts = spec_inspect_container(size, buf);
            &&& facts.size_bytes == size
            &&& (facts.verdict is Some ==> facts.audio_data_end is Some
                && facts.verdict == Some(verdict_for(facts.audio_data_end->0, size)))
            &&& (facts.verdict == Some(Verdict::Complete) ==> facts.audio_data_end->0 <= size)
            &&& (facts.verdict matches Some(Verdict::Truncated { missing_bytes }) ==> size
                + missing_bytes == facts.audio_data_end->0)
            &&& (size == 0 || size > MAX_INSPECT_BYTES ==> facts == unknown_facts(size))
        }),
{
}


/// The first readable audio `trak` box among `traks`.
pub open spec fn first_audio_trak(buf: Seq<u8>, traks: Seq<Located>) -> Option<Located>
    decreases traks.len(),
{
    if traks.len() == 0 {
        None
    } else {
        match first_audio_trak(buf, traks.drop_last()) {
            Some(b) => Some(b),
            None => if audio_of(buf, traks.last()) is Some {
                Some(traks.last())
            } else {
                None
            },
        }
    }
}

proof fn lemma_first_audio_trak(buf: Seq<u8>, traks: Seq<Located>)
    ensures
        first_audio(buf, traks) == match first_audio_trak(buf, traks) {
            Some(b) => audio_of(buf, b),
            None => None,
        },
        first_audio_trak(buf, traks) matches Some(b) ==> audio_of(buf, b) is Some,
    decreases traks.len(),
{
    if traks.len() > 0 {
        lemma_first_audio_trak(buf, traks.drop_last());
    }
}

/// The length a track's sample table gives: the total of its first `stts`
/// box when that box is there and reads, else the media header's `dur`.
pub open spec fn stts_or(buf: Seq<u8>, trak: Located, dur: u64) -> u64 {
    match first_box(spec_find_all(buf, trak, KIND_STTS)) {
        Some(s) => match spec_parse_stts_total(buf, s) {
            Some(u) => u,
            None => dur,
        },
        None => dur,
    }
}

/// For a file without a readable segment index, the two durations of the
/// audio track come from two different boxes, so that a header that does
/// not match its sample table shows: the declared duration is what the
/// track's media header (`mdhd`) says, and the sample-table duration is the
/// total of the track's time-to-sample table (`stts`), in the same
/// timescale. Only when the track has no readable `stts` does the table
/// duration fall back to the header's.
pub proof fn law_durations_come_from_their_boxes(
    size: u64,
    buf: Seq<u8>,
    moov: Located,
    trak: Located,
    mdhd: Located,
    timescale: u64,
    dur: u64,
)
    requires
        0 < size <= MAX_INSPECT_BYTES,
        match last_kind(spec_children_from(buf, 0, buf.len() as int), KIND_SIDX) {
            Some(x) => spec_parse_sidx(buf, x) is None,
            None => true,
        },
        last_kind(spec_children_from(buf, 0, buf.len() as int), KIND_MOOV) == Some(moov),
        first_audio_trak(buf, spec_children(buf, moov)) == Some(trak),
        first_box(spec_find_all(buf, trak, KIND_MDHD)) == Some(mdhd),
        spec_parse_mdhd(buf, mdhd) == Some((timescale, dur)),
    ensures
        spec_inspect_container(size, buf).audio_track_found,
        spec_inspect_container(size, buf).declared_secs == Some(
            Seconds { units: dur, timescale },
        ),
        spec_inspect_container(size, buf).table_secs == Some(
            Seconds { units: stts_or(buf, trak, dur), timescale },
        ),
        forall|s: Located|
            first_box(spec_find_all(buf, trak, KIND_STTS)) == Some(s) && (
            #[trigger] spec_parse_stts_total(buf, s)) is Some ==> spec_inspect_container(
                size,
                buf,
            ).table_secs == Some(
                Seconds { units: spec_parse_stts_total(buf, s)->0, timescale },
            ),
{
    let traks = spec_children(buf, moov);
    lemma_first_audio_trak(buf, traks);
    reveal(spec_inspect_track);
    let t = audio_of(buf, trak)->0;
    assert(first_audio(buf, traks) == Some(t));
    assert(t.duration_units == dur && t.timescale == timescale);
}

/// A file with a readable segment index (its last top-level `sidx`) is
/// judged by that index alone: both durations are the span the index
/// covers, the file must reach the byte where the indexed segments end,
/// and it is reported as fragmented.
pub proof fn law_segment_index_decides(size: u64, buf: Seq<u8>, sidx: Located)
    requires
        0 < size <= MAX_INSPECT_BYTES,
        last_kind(spec_children_from(buf, 0, buf.len() as int), KIND_SIDX) == Some(sidx),
        spec_parse_sidx(buf, sidx) is Some,
    ensures
        ({
            let index = spec_parse_sidx(buf, sidx)->0;
            let facts = spec_inspect_container(size, buf);
            &&& facts.container == ContainerKind::Mp4Fragmented
            &&& facts.declared_secs == Some(
                Seconds { units: index.end_units, timescale: index.timescale },
            )
            &&& facts.table_secs == facts.declared_secs
            &&& facts.audio_data_end == Some(index.expected_size)
            &&& facts.verdict == Some(verdict_for(index.expected_size, size))
        }),
{
}
} // verus!
