//! ISO base-media (MP4) box walking over an in-memory file image.
//!
//! Every reader here is bounded by the buffer it is given and answers `None`
//! for anything it cannot read, so a malformed file can never make the walk
//! index out of bounds.
use vstd::prelude::*;

verus! {

/// Largest buffer the walkers accept: a slice never holds more than
/// `isize::MAX` bytes.
pub open spec fn buffer_ok(buf: Seq<u8>) -> bool {
    buf.len() <= isize::MAX
}

/// Big-endian value of the four bytes at `at`.
pub open spec fn be32_at(buf: Seq<u8>, at: int) -> int {
    buf[at] * 0x100_0000 + buf[at + 1] * 0x1_0000 + buf[at + 2] * 0x100 + buf[at + 3]
}

/// Big-endian value of the eight bytes at `at`.
pub open spec fn be64_at(buf: Seq<u8>, at: int) -> int {
    be32_at(buf, at) * 0x1_0000_0000 + be32_at(buf, at + 4)
}

/// The `u32` stored big-endian at `at`, when four bytes are available there.
pub open spec fn be16_at(buf: Seq<u8>, at: int) -> int {
    buf[at] * 0x100 + buf[at + 1]
}

pub open spec fn spec_be_u16(buf: Seq<u8>, at: int) -> Option<u16> {
    if at + 2 > buf.len() {
        None
    } else {
        Some(be16_at(buf, at) as u16)
    }
}

pub open spec fn spec_be_u32(buf: Seq<u8>, at: int) -> Option<u32> {
    if at + 4 > buf.len() {
        None
    } else {
        Some(be32_at(buf, at) as u32)
    }
}

/// The `u64` stored big-endian at `at`, when eight bytes are available there.
pub open spec fn spec_be_u64(buf: Seq<u8>, at: int) -> Option<u64> {
    if at + 8 > buf.len() {
        None
    } else {
        Some(be64_at(buf, at) as u64)
    }
}

pub const KIND_MOOV: u32 = 0x6d6f_6f76;
pub const KIND_TRAK: u32 = 0x7472_616b;
pub const KIND_MDIA: u32 = 0x6d64_6961;
pub const KIND_MINF: u32 = 0x6d69_6e66;
pub const KIND_STBL: u32 = 0x7374_626c;
pub const KIND_MVEX: u32 = 0x6d76_6578;
pub const KIND_MOOF: u32 = 0x6d6f_6f66;
pub const KIND_TRAF: u32 = 0x7472_6166;
pub const KIND_EDTS: u32 = 0x6564_7473;
pub const KIND_UDTA: u32 = 0x7564_7461;
pub const KIND_SIDX: u32 = 0x7369_6478;
pub const KIND_HDLR: u32 = 0x6864_6c72;
pub const KIND_MDHD: u32 = 0x6d64_6864;
pub const KIND_STTS: u32 = 0x7374_7473;
pub const KIND_STSZ: u32 = 0x7374_737a;
pub const KIND_STCO: u32 = 0x7374_636f;
pub const KIND_CO64: u32 = 0x636f_3634;
pub const KIND_STSC: u32 = 0x7374_7363;
pub const HANDLER_SOUN: u32 = 0x736f_756e;

/// Boxes whose payload is itself a list of boxes.
pub open spec fn is_container(kind: u32) -> bool {
    kind == KIND_MOOV || kind == KIND_TRAK || kind == KIND_MDIA || kind == KIND_MINF || kind
        == KIND_STBL || kind == KIND_MVEX || kind == KIND_MOOF || kind == KIND_TRAF || kind
        == KIND_EDTS || kind == KIND_UDTA
}

/// A located box: `start`/`end` delimit its *payload*, so children can be
/// walked without re-reading the header.
#[derive(Clone, Copy, Debug)]
pub struct Located {
    pub kind: u32,
    pub start: usize,
    pub end: usize,
}

impl Located {
    /// Whether this box is of kind `name`.
    pub fn is(&self, name: u32) -> (r: bool)
        ensures
            r == (self.kind == name),
    {
        self.kind == name
    }
}

/// The box whose header starts at `off`, inside a region that ends at `end`.
///
/// A 32-bit size of 1 announces a 64-bit size after the kind, a size of 0
/// means "to the end of the region", and a size smaller than the header or
/// reaching past the region makes the box unreadable.
pub open spec fn spec_read_box(buf: Seq<u8>, off: int, end: int) -> Option<Located> {
    if off + 8 > end {
        None
    } else {
        let raw = be32_at(buf, off);
        let kind = be32_at(buf, off + 4) as u32;
        if raw == 1 {
            if off + 16 > end {
                None
            } else {
                let size = be64_at(buf, off + 8);
                if size < 16 || off + size > end {
                    None
                } else {
                    Some(Located { kind, start: (off + 16) as usize, end: (off + size) as usize })
                }
            }
        } else if raw == 0 {
            Some(Located { kind, start: (off + 8) as usize, end: end as usize })
        } else if raw < 8 || off + raw > end {
            None
        } else {
            Some(Located { kind, start: (off + 8) as usize, end: (off + raw) as usize })
        }
    }
}

/// Facts about a box that `spec_read_box` returns: it lies inside the
/// region, after its own header.
pub proof fn lemma_read_box_bounds(buf: Seq<u8>, off: int, end: int)
    requires
        0 <= off <= end,
        end <= usize::MAX,
    ensures
        spec_read_box(buf, off, end) matches Some(b) ==> {
            &&& off + 8 <= b.start <= b.end <= end
            &&& b.start <= b.end
        },
{
}

/// The boxes laid end to end from `off` up to `end`, stopping at the first
/// one that cannot be read.
pub open spec fn spec_children_from(buf: Seq<u8>, off: int, end: int) -> Seq<Located>
    decreases end - off,
{
    if off < 0 || off > end || end > usize::MAX {
        Seq::empty()
    } else {
        match spec_read_box(buf, off, end) {
            Some(child) => {
                if child.end as int <= off {
                    Seq::empty()
                } else {
                    seq![child] + spec_children_from(buf, child.end as int, end)
                }
            },
            None => Seq::empty(),
        }
    }
}

/// The boxes in the payload of `b`.
pub open spec fn spec_children(buf: Seq<u8>, b: Located) -> Seq<Located> {
    spec_children_from(buf, b.start as int, b.end as int)
}

/// Room a box takes up in a traversal: its payload length plus one.
pub open spec fn weight(b: Located) -> nat {
    if b.end >= b.start {
        (b.end - b.start + 1) as nat
    } else {
        1
    }
}

/// Total weight of a list of boxes.
pub open spec fn weight_all(s: Seq<Located>) -> nat
    decreases s.len(),
{
    if s.len() == 0 {
        0
    } else {
        weight_all(s.drop_last()) + weight(s.last())
    }
}

pub proof fn lemma_weight_all_add(a: Seq<Located>, b: Seq<Located>)
    ensures
        weight_all(a + b) == weight_all(a) + weight_all(b),
    decreases b.len(),
{
    if b.len() == 0 {
        assert(a + b =~= a);
    } else {
        lemma_weight_all_add(a, b.drop_last());
        assert((a + b).drop_last() =~= a + b.drop_last());
    }
}

proof fn lemma_weight_all_prepend(x: Located, s: Seq<Located>)
    ensures
        weight_all(seq![x] + s) == weight(x) + weight_all(s),
{
    lemma_weight_all_add(seq![x], s);
    assert(seq![x].drop_last() =~= Seq::<Located>::empty());
    assert(weight_all(seq![x]) == weight_all(Seq::<Located>::empty()) + weight(x));
}

/// The boxes found between `off` and `end` weigh no more than that region.
pub proof fn lemma_children_weight(buf: Seq<u8>, off: int, end: int)
    requires
        0 <= off <= end,
    ensures
        weight_all(spec_children_from(buf, off, end)) <= end - off,
        forall|i: int|
            0 <= i < spec_children_from(buf, off, end).len() ==> {
                let c = #[trigger] spec_children_from(buf, off, end)[i];
                &&& off + 8 <= c.start <= c.end <= end
            },
    decreases end - off,
{
    if end <= usize::MAX {
        lemma_read_box_bounds(buf, off, end);
        match spec_read_box(buf, off, end) {
            Some(child) => {
                if child.end as int > off {
                    lemma_children_weight(buf, child.end as int, end);
                    lemma_weight_all_prepend(child, spec_children_from(buf, child.end as int, end));
                    let rest = spec_children_from(buf, child.end as int, end);
                    assert forall|i: int|
                        0 <= i < spec_children_from(buf, off, end).len() implies {
                        let c = #[trigger] spec_children_from(buf, off, end)[i];
                        &&& off + 8 <= c.start <= c.end <= end
                    } by {
                        if i > 0 {
                            assert(spec_children_from(buf, off, end)[i] == rest[i - 1]);
                        }
                    }
                }
            },
            None => {},
        }
    }
}

/// Read the `u32` stored big-endian at `at`.
pub fn be_u32(buf: &[u8], at: usize) -> (r: Option<u32>)
    ensures
        r == spec_be_u32(buf@, at as int),
{
    if at > buf.len() || buf.len() - at < 4 {
        return None;
    }
    let v: u32 = (buf[at] as u32) * 0x100_0000 + (buf[at + 1] as u32) * 0x1_0000 + (buf[at
        + 2] as u32) * 0x100 + (buf[at + 3] as u32);
    Some(v)
}

/// Read the `u16` stored big-endian at `at`.
pub fn be_u16(buf: &[u8], at: usize) -> (r: Option<u16>)
    ensures
        r == spec_be_u16(buf@, at as int),
{
    if at > buf.len() || buf.len() - at < 2 {
        return None;
    }
    let v: u16 = (buf[at] as u16) * 0x100 + (buf[at + 1] as u16);
    Some(v)
}

/// Read the `u64` stored big-endian at `at`.
pub fn be_u64(buf: &[u8], at: usize) -> (r: Option<u64>)
    ensures
        r == spec_be_u64(buf@, at as int),
{
    if at > buf.len() || buf.len() - at < 8 {
        return None;
    }
    let hi: u64 = (buf[at] as u64) * 0x100_0000 + (buf[at + 1] as u64) * 0x1_0000 + (buf[at
        + 2] as u64) * 0x100 + (buf[at + 3] as u64);
    let lo: u64 = (buf[at + 4] as u64) * 0x100_0000 + (buf[at + 5] as u64) * 0x1_0000 + (buf[at
        + 6] as u64) * 0x100 + (buf[at + 7] as u64);
    assert(hi < 0x1_0000_0000 && lo < 0x1_0000_0000);
    assert(hi * 0x1_0000_0000 + lo <= u64::MAX) by (nonlinear_arith)
        requires
            hi < 0x1_0000_0000,
            lo < 0x1_0000_0000,
    ;
    Some(hi * 0x1_0000_0000 + lo)
}

/// Read the box whose header starts at `off`, returning its payload bounds.
pub fn read_box(buf: &[u8], off: usize, end: usize) -> (r: Option<Located>)
    requires
        off <= end <= buf@.len(),
    ensures
        r == spec_read_box(buf@, off as int, end as int),
{
    if end - off < 8 {
        return None;
    }
    let raw = match be_u32(buf, off) {
        Some(v) => v,
        None => return None,
    };
    let kind = match be_u32(buf, off + 4) {
        Some(v) => v,
        None => return None,
    };
    if raw == 1 {
        if end - off < 16 {
            return None;
        }
        let wide = match be_u64(buf, off + 8) {
            Some(v) => v,
            None => return None,
        };
        if wide < 16 || wide > (end - off) as u64 {
            return None;
        }
        let size = wide as usize;
        Some(Located { kind, start: off + 16, end: off + size })
    } else if raw == 0 {
        Some(Located { kind, start: off + 8, end })
    } else {
        if raw < 8 || raw as usize > end - off {
            return None;
        }
        Some(Located { kind, start: off + 8, end: off + raw as usize })
    }
}

/// The boxes laid end to end in the payload of `b`.
pub fn children(buf: &[u8], b: &Located) -> (out: Vec<Located>)
    requires
        b.start <= b.end <= buf@.len(),
    ensures
        out@ == spec_children(buf@, *b),
{
    let mut out: Vec<Located> = Vec::new();
    let mut off = b.start;
    while off <= b.end
        invariant
            b.start <= off <= b.end <= buf@.len(),
            out@ + spec_children_from(buf@, off as int, b.end as int) == spec_children(buf@, *b),
        decreases b.end - off,
    {
        proof {
            lemma_read_box_bounds(buf@, off as int, b.end as int);
        }
        match read_box(buf, off, b.end) {
            Some(child) => {
                let ghost rest = spec_children_from(buf@, child.end as int, b.end as int);
                assert(spec_children_from(buf@, off as int, b.end as int) == seq![child] + rest);
                out.push(child);
                assert(out@ + rest =~= spec_children(buf@, *b)) by {
                    assert(out@ + rest =~= out@.drop_last() + (seq![child] + rest));
                }
                off = child.end;
            },
            None => {
                assert(out@ =~= out@ + Seq::<Located>::empty());
                return out;
            },
        }
    }
    out
}

/// Whether `b` describes a payload inside a buffer of `len` bytes.
pub open spec fn in_bounds(b: Located, len: int) -> bool {
    b.start <= b.end <= len
}

/// The order in which a depth-first search visits a stack of boxes: the box
/// on top of the stack first, then, for a container, its children (again
/// last child first), and only then the rest of the stack.
pub open spec fn spec_walk(buf: Seq<u8>, stack: Seq<Located>) -> Seq<Located>
    decreases weight_all(stack),
{
    if stack.len() == 0 {
        Seq::empty()
    } else {
        let b = stack.last();
        let kids = if is_container(b.kind) && in_bounds(b, buf.len() as int) {
            spec_children(buf, b)
        } else {
            Seq::empty()
        };
        proof {
            if is_container(b.kind) && in_bounds(b, buf.len() as int) {
                lemma_children_weight(buf, b.start as int, b.end as int);
            }
            lemma_weight_all_add(stack.drop_last(), kids);
        }
        seq![b] + spec_walk(buf, stack.drop_last() + kids)
    }
}

/// The boxes of kind `name` in `s`, in order.
pub open spec fn only_kind(s: Seq<Located>, name: u32) -> Seq<Located>
    decreases s.len(),
{
    if s.len() == 0 {
        Seq::empty()
    } else if s.last().kind == name {
        only_kind(s.drop_last(), name).push(s.last())
    } else {
        only_kind(s.drop_last(), name)
    }
}

pub proof fn lemma_only_kind_add(a: Seq<Located>, b: Seq<Located>, name: u32)
    ensures
        only_kind(a + b, name) == only_kind(a, name) + only_kind(b, name),
    decreases b.len(),
{
    if b.len() == 0 {
        assert(a + b =~= a);
        assert(only_kind(a, name) + only_kind(b, name) =~= only_kind(a, name));
    } else {
        lemma_only_kind_add(a, b.drop_last(), name);
        assert((a + b).drop_last() =~= a + b.drop_last());
        if b.last().kind == name {
            assert(only_kind(a, name) + only_kind(b, name) =~= (only_kind(a, name) + only_kind(
                b.drop_last(),
                name,
            )).push(b.last()));
        }
    }
}

proof fn lemma_only_kind_single(x: Located, name: u32)
    ensures
        only_kind(seq![x], name) == (if x.kind == name {
            seq![x]
        } else {
            Seq::empty()
        }),
{
    assert(seq![x].drop_last() =~= Seq::<Located>::empty());
    assert(only_kind(seq![x], name) == only_kind(Seq::<Located>::empty(), name) + only_kind(
        seq![x],
        name,
    ).subrange(0, only_kind(seq![x], name).len() as int));
    if x.kind == name {
        assert(Seq::<Located>::empty().push(x) =~= seq![x]);
    }
}

/// Every box of kind `name` below `root`, in depth-first order (last child
/// first).
pub open spec fn spec_find_all(buf: Seq<u8>, root: Located, name: u32) -> Seq<Located> {
    only_kind(spec_walk(buf, spec_children(buf, root)), name)
}

/// Whether boxes of this kind are walked into.
pub fn is_container_kind(kind: u32) -> (r: bool)
    ensures
        r == is_container(kind),
{
    kind == KIND_MOOV || kind == KIND_TRAK || kind == KIND_MDIA || kind == KIND_MINF || kind
        == KIND_STBL || kind == KIND_MVEX || kind == KIND_MOOF || kind == KIND_TRAF || kind
        == KIND_EDTS || kind == KIND_UDTA
}

/// Depth-first search for every box of one kind inside a container.
pub fn find_all(buf: &[u8], root: &Located, name: u32) -> (out: Vec<Located>)
    requires
        in_bounds(*root, buf@.len() as int),
    ensures
        out@ == spec_find_all(buf@, *root, name),
        forall|i: int| 0 <= i < out@.len() ==> in_bounds(#[trigger] out@[i], buf@.len() as int),
{
    let mut out: Vec<Located> = Vec::new();
    let mut stack = children(buf, root);
    proof {
        lemma_children_weight(buf@, root.start as int, root.end as int);
    }
    loop
        invariant
            forall|i: int|
                0 <= i < stack@.len() ==> in_bounds(#[trigger] stack@[i], buf@.len() as int),
            forall|i: int| 0 <= i < out@.len() ==> in_bounds(#[trigger] out@[i], buf@.len() as int),
            out@ + only_kind(spec_walk(buf@, stack@), name) == spec_find_all(buf@, *root, name),
        decreases weight_all(stack@),
    {
        let ghost before = stack@;
        let b = match stack.pop() {
            Some(b) => b,
            None => {
                assert(before.len() == 0);
                assert(out@ =~= out@ + Seq::<Located>::empty());
                return out;
            },
        };
        assert(stack@ == before.drop_last());
        assert(b == before.last());
        assert(in_bounds(b, buf@.len() as int)) by {
            assert(before[before.len() - 1] == b);
        }
        let mut kids = if is_container_kind(b.kind) {
            children(buf, &b)
        } else {
            Vec::new()
        };
        let ghost kid_seq = kids@;
        proof {
            lemma_children_weight(buf@, b.start as int, b.end as int);
            lemma_weight_all_add(before.drop_last(), kid_seq);
            assert(weight_all(kid_seq) < weight(b));
            assert(weight_all(before) == weight_all(before.drop_last()) + weight(b));
            lemma_only_kind_add(seq![b], spec_walk(buf@, before.drop_last() + kid_seq), name);
            lemma_only_kind_single(b, name);
        }
        if b.is(name) {
            out.push(b);
        }
        stack.append(&mut kids);
        assert(stack@ =~= before.drop_last() + kid_seq);
        assert forall|i: int|
            0 <= i < stack@.len() implies in_bounds(#[trigger] stack@[i], buf@.len() as int) by {
            if i < before.len() - 1 {
                assert(stack@[i] == before[i]);
            } else {
                assert(stack@[i] == kid_seq[i - (before.len() - 1)]);
            }
        }
    }
}

} // verus!
