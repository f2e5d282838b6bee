//! The parts of a PKCS#12 bundle.
use vstd::prelude::*;

use crate::codec;
use crate::crypto::ber;
use crate::text;

verus! {

/// The bytes of octet strings one after the other, which may be made of octet strings themselves,
/// `depth` levels down.
pub open spec fn all_octets(b: Seq<u8>, at: int, end: int, depth: nat) -> Option<Seq<u8>>
    decreases depth, end - at,
{
    if at >= end {
        Some(Seq::empty())
    } else if b[at] != 0x04 && b[at] != 0x24 {
        None
    } else {
        match ber::part(b, at, end) {
            None => None,
            Some((start, stop, next)) => {
                proof {
                    ber::lemma_part(b, at, end);
                }
                let first = if b[at] == 0x04 {
                    Some(b.subrange(start, stop))
                } else if depth == 0 {
                    None
                } else {
                    all_octets(b, start, stop, (depth - 1) as nat)
                };
                match (first, all_octets(b, next, end, depth)) {
                    (Some(x), Some(y)) => Some(x + y),
                    _ => None,
                }
            },
        }
    }
}

/// How deep octet strings may be made of octet strings.
pub const MAX_PIECES: usize = 100;

/// The bytes of the octet string at a place, whose tag is `whole` if it is in one piece and
/// `pieced` if it is made of octet strings.
pub open spec fn octets(b: Seq<u8>, at: int, end: int, whole: u8, pieced: u8) -> Option<Seq<u8>> {
    if at >= end {
        None
    } else {
        match ber::part(b, at, end) {
            None => None,
            Some((start, stop, _)) => if b[at] == whole {
                Some(b.subrange(start, stop))
            } else if b[at] == pieced {
                all_octets(b, start, stop, MAX_PIECES as nat)
            } else {
                None
            },
        }
    }
}

/// The element at a place, where it has a tag.
pub open spec fn tagged(b: Seq<u8>, at: int, end: int, tag: u8) -> Option<(int, int, int)> {
    if at < end && b[at] == tag {
        ber::part(b, at, end)
    } else {
        None
    }
}

/// What a bundle holds: behind the version, the content of a typed octet string.
pub open spec fn authenticated(data: Seq<u8>) -> Option<Seq<u8>> {
    match tagged(data, 0, data.len() as int, 0x30) {
        None => None,
        Some((start, stop, _)) => match ber::part(data, start, stop) {
            None => None,
            Some((_, _, info)) => match tagged(data, info, stop, 0x30) {
                None => None,
                Some((kind, end, _)) => typed_content(data, kind, end),
            },
        },
    }
}

/// The content of a typed octet string: a type, and the octet string with a tag around it.
pub open spec fn typed_content(b: Seq<u8>, at: int, end: int) -> Option<Seq<u8>> {
    match ber::part(b, at, end) {
        None => None,
        Some((_, _, held)) => match tagged(b, held, end, 0xa0) {
            None => None,
            Some((start, stop, _)) => octets(b, start, stop, 0x04, 0x24),
        },
    }
}

/// What one part of a bundle is.
pub enum PartView {
    /// Bags as they stand.
    Plain(Seq<u8>),
    /// Encrypted bags: the encryption, and the encrypted bytes.
    Locked(Seq<u8>, Seq<u8>),
}

/// One part of a bundle.
pub enum Part {
    /// Bags as they stand.
    Plain(Vec<u8>),
    /// Encrypted bags: the encryption, and the encrypted bytes.
    Locked(Vec<u8>, Vec<u8>),
}

impl View for Part {
    type V = PartView;

    open spec fn view(&self) -> PartView {
        match self {
            Part::Plain(bags) => PartView::Plain(bags@),
            Part::Locked(encryption, bytes) => PartView::Locked(encryption@, bytes@),
        }
    }
}

/// Parts by content.
pub open spec fn part_views(parts: Seq<Part>) -> Seq<PartView> {
    parts.map_values(|p: Part| p@)
}

/// Encrypted bags, from a version and then a type, an encryption and the encrypted bytes.
pub open spec fn locked_part(b: Seq<u8>, at: int, end: int) -> Option<PartView> {
    match ber::part(b, at, end) {
        None => None,
        Some((_, _, inner)) => match tagged(b, inner, end, 0x30) {
            None => None,
            Some((start, stop, _)) => match ber::part(b, start, stop) {
                None => None,
                Some((_, _, encryption)) => match ber::part(b, encryption, stop) {
                    None => None,
                    Some((_, _, bytes)) => match octets(b, bytes, stop, 0x80, 0xa0) {
                        None => None,
                        Some(held) => Some(
                            PartView::Locked(b.subrange(encryption, bytes), held),
                        ),
                    },
                },
            },
        },
    }
}

/// A part of a bundle: a type, and with a tag around it an octet string or encrypted bags.
pub open spec fn part_at(b: Seq<u8>, at: int, end: int) -> Option<PartView> {
    match ber::part(b, at, end) {
        None => None,
        Some((_, _, held)) => match tagged(b, held, end, 0xa0) {
            None => None,
            Some((start, stop, _)) => match tagged(b, start, stop, 0x30) {
                Some((inner, inner_end, _)) => locked_part(b, inner, inner_end),
                None => match octets(b, start, stop, 0x04, 0x24) {
                    None => None,
                    Some(bags) => Some(PartView::Plain(bags)),
                },
            },
        },
    }
}

/// The parts of a bundle up to the first that is none.
pub open spec fn parts_from(b: Seq<u8>, at: int, end: int) -> Seq<PartView>
    decreases end - at,
{
    match tagged(b, at, end, 0x30) {
        None => Seq::empty(),
        Some((start, stop, next)) => {
            proof {
                ber::lemma_part(b, at, end);
            }
            match part_at(b, start, stop) {
                None => Seq::empty(),
                Some(part) => seq![part] + parts_from(b, next, end),
            }
        },
    }
}

/// The parts in what a bundle holds.
pub open spec fn parts(held: Seq<u8>) -> Seq<PartView> {
    match tagged(held, 0, held.len() as int, 0x30) {
        None => Seq::empty(),
        Some((start, stop, _)) => parts_from(held, start, stop),
    }
}

/// Bytes with others in front of them, where there are any.
pub open spec fn behind(front: Seq<u8>, content: Option<Seq<u8>>) -> Option<Seq<u8>> {
    match content {
        None => None,
        Some(c) => Some(front + c),
    }
}

/// Copies a range of bytes.
fn copy_range(b: &[u8], start: usize, stop: usize) -> (r: Vec<u8>)
    requires
        start <= stop <= b@.len(),
    ensures
        r@ == b@.subrange(start as int, stop as int),
{
    let r = vstd::slice::slice_to_vec(vstd::slice::slice_subrange(b, start, stop));
    assert(r@ =~= b@.subrange(start as int, stop as int));
    r
}

/// Reads one octet string among others.
fn read_piece(b: &[u8], at: usize, end: usize, depth: usize) -> (r: Option<(Vec<u8>, usize)>)
    requires
        at < end <= b@.len(),
    ensures
        match r {
            Some((v, next)) => at < next <= end && all_octets(
                b@,
                at as int,
                end as int,
                depth as nat,
            ) == behind(v@, all_octets(b@, next as int, end as int, depth as nat)),
            None => all_octets(b@, at as int, end as int, depth as nat) is None,
        },
    decreases depth, 0int,
{
    if b[at] != 0x04 && b[at] != 0x24 {
        return None;
    }
    let (start, stop, next) = ber::read_part(b, at, end)?;
    if b[at] == 0x04 {
        Some((copy_range(b, start, stop), next))
    } else if depth == 0 {
        None
    } else {
        match join_octets(b, start, stop, depth - 1) {
            Some(v) => Some((v, next)),
            None => None,
        }
    }
}

/// Joins octet strings.
fn join_octets(b: &[u8], at: usize, end: usize, depth: usize) -> (r: Option<Vec<u8>>)
    requires
        at <= end <= b@.len(),
    ensures
        text::opt_bytes(r) == all_octets(b@, at as int, end as int, depth as nat),
    decreases depth, 1int,
{
    let ghost all = all_octets(b@, at as int, end as int, depth as nat);
    let mut out: Vec<u8> = Vec::new();
    let mut i: usize = at;
    proof {
        if let Some(v) = all {
            assert(out@ + v =~= v);
        }
        assert(all == behind(out@, all));
    }
    while i < end
        invariant
            at <= i <= end <= b@.len(),
            all == all_octets(b@, at as int, end as int, depth as nat),
            all == behind(out@, all_octets(b@, i as int, end as int, depth as nat)),
        decreases end - i,
    {
        match read_piece(b, i, end, depth) {
            Some((piece, next)) => {
                let mut first = piece;
                proof {
                    let rest = all_octets(b@, next as int, end as int, depth as nat);
                    if let Some(r) = rest {
                        assert(out@ + (first@ + r) =~= (out@ + first@) + r);
                    }
                    assert(all == behind(out@ + first@, rest));
                }
                out.append(&mut first);
                i = next;
            },
            None => {
                return None;
            },
        }
    }
    assert(out@ + Seq::<u8>::empty() =~= out@);
    Some(out)
}

/// Reads the octet string at a place.
fn read_octets(b: &[u8], at: usize, end: usize, whole: u8, pieced: u8) -> (r: Option<Vec<u8>>)
    requires
        at <= end <= b@.len(),
    ensures
        match r {
            Some(v) => octets(b@, at as int, end as int, whole, pieced) == Some(v@),
            None => octets(b@, at as int, end as int, whole, pieced) is None,
        },
{
    if at >= end {
        return None;
    }
    let (start, stop, _next) = ber::read_part(b, at, end)?;
    if b[at] == whole {
        Some(copy_range(b, start, stop))
    } else if b[at] == pieced {
        join_octets(b, start, stop, MAX_PIECES)
    } else {
        None
    }
}

/// Reads the element at a place, where it has a tag.
fn read_tagged(b: &[u8], at: usize, end: usize, tag: u8) -> (r: Option<(usize, usize, usize)>)
    requires
        at <= end <= b@.len(),
    ensures
        match r {
            Some((start, stop, next)) => tagged(b@, at as int, end as int, tag) == Some(
                (start as int, stop as int, next as int),
            ) && at + 1 < start <= stop <= next <= end,
            None => tagged(b@, at as int, end as int, tag) is None,
        },
{
    if at < end && b[at] == tag {
        ber::read_part(b, at, end)
    } else {
        None
    }
}

/// Reads what a bundle holds.
pub(crate) fn read_authenticated(data: &[u8]) -> (r: Option<Vec<u8>>)
    ensures
        match r {
            Some(v) => authenticated(data@) == Some(v@),
            None => authenticated(data@) is None,
        },
{
    let (start, stop, _next) = read_tagged(data, 0, data.len(), 0x30)?;
    let (_start, _stop, info) = ber::read_part(data, start, stop)?;
    let (kind, end, _next) = read_tagged(data, info, stop, 0x30)?;
    let (_start, _stop, held) = ber::read_part(data, kind, end)?;
    let (start, stop, _next) = read_tagged(data, held, end, 0xa0)?;
    read_octets(data, start, stop, 0x04, 0x24)
}

/// Reads encrypted bags.
fn read_locked(b: &[u8], at: usize, end: usize) -> (r: Option<Part>)
    requires
        at <= end <= b@.len(),
    ensures
        match r {
            Some(p) => locked_part(b@, at as int, end as int) == Some(p@),
            None => locked_part(b@, at as int, end as int) is None,
        },
{
    let (_start, _stop, inner) = ber::read_part(b, at, end)?;
    let (start, stop, _next) = read_tagged(b, inner, end, 0x30)?;
    let (_start, _stop, encryption) = ber::read_part(b, start, stop)?;
    let (_start, _stop, bytes) = ber::read_part(b, encryption, stop)?;
    let held = read_octets(b, bytes, stop, 0x80, 0xa0)?;
    Some(Part::Locked(copy_range(b, encryption, bytes), held))
}

/// Reads a part of a bundle.
fn read_part(b: &[u8], at: usize, end: usize) -> (r: Option<Part>)
    requires
        at <= end <= b@.len(),
    ensures
        match r {
            Some(p) => part_at(b@, at as int, end as int) == Some(p@),
            None => part_at(b@, at as int, end as int) is None,
        },
{
    let (_start, _stop, held) = ber::read_part(b, at, end)?;
    let (start, stop, _next) = read_tagged(b, held, end, 0xa0)?;
    match read_tagged(b, start, stop, 0x30) {
        Some((inner, inner_end, _next)) => read_locked(b, inner, inner_end),
        None => match read_octets(b, start, stop, 0x04, 0x24) {
            Some(bags) => Some(Part::Plain(bags)),
            None => None,
        },
    }
}

/// Reads the parts in what a bundle holds.
pub(crate) fn read_parts(held: &[u8]) -> (r: Vec<Part>)
    ensures
        part_views(r@) == parts(held@),
{
    let mut out: Vec<Part> = Vec::new();
    let (start, stop) = match read_tagged(held, 0, held.len(), 0x30) {
        Some((start, stop, _next)) => (start, stop),
        None => {
            assert(part_views(out@) =~= Seq::<PartView>::empty());
            return out;
        },
    };
    let mut i: usize = start;
    let ghost all = parts_from(held@, start as int, stop as int);
    assert(part_views(out@) + all =~= all);
    loop
        invariant
            start <= i <= stop <= held@.len(),
            all == part_views(out@) + parts_from(held@, i as int, stop as int),
            all == parts(held@),
        decreases stop - i,
    {
        let (inner, inner_end, next) = match read_tagged(held, i, stop, 0x30) {
            Some(found) => found,
            None => {
                assert(part_views(out@) + Seq::<PartView>::empty() =~= part_views(out@));
                return out;
            },
        };
        match read_part(held, inner, inner_end) {
            Some(part) => {
                proof {
                    let rest = parts_from(held@, next as int, stop as int);
                    assert(part_views(out@.push(part)) =~= part_views(out@).push(part@));
                    assert(part_views(out@) + (seq![part@] + rest) =~= part_views(out@).push(
                        part@,
                    ) + rest);
                }
                out.push(part);
                i = next;
            },
            None => {
                assert(part_views(out@) + Seq::<PartView>::empty() =~= part_views(out@));
                return out;
            },
        }
    }
}

/// A DER value, where it does not grow too long.
pub open spec fn value(tag: u8, content: Option<Seq<u8>>) -> Option<Seq<u8>> {
    match content {
        None => None,
        Some(c) => if codec::der_value(tag, c).len() > codec::MAX_DER_LENGTH {
            None
        } else {
            Some(codec::der_value(tag, c))
        },
    }
}

/// The type of bags that hold an encrypted key.
pub open spec fn locked_key_type() -> Seq<u8> {
    seq![
        0x06u8, 0x0b, 0x2a, 0x86, 0x48, 0x86, 0xf7, 0x0d, 0x01, 0x0c, 0x0a, 0x01, 0x02,
    ]
}

/// The type of octet strings without a type of their own.
pub open spec fn data_type() -> Seq<u8> {
    seq![0x06u8, 0x09, 0x2a, 0x86, 0x48, 0x86, 0xf7, 0x0d, 0x01, 0x07, 0x01]
}

/// A typed octet string.
pub open spec fn typed(content: Option<Seq<u8>>) -> Option<Seq<u8>> {
    value(0x30, behind(data_type(), value(0xa0, value(0x04, content))))
}

/// A bundle of one encrypted key, without a checksum: for any encrypted bytes, the key that comes
/// out of it is what they decrypt to.
pub open spec fn key_bundle(encryption: Seq<u8>, bytes: Seq<u8>) -> Option<Seq<u8>> {
    let key = value(0x30, behind(encryption, value(0x04, Some(bytes))));
    let bag = value(0x30, behind(locked_key_type(), value(0xa0, key)));
    let held = value(0x30, typed(value(0x30, bag)));
    value(0x30, behind(seq![0x02u8, 0x01, 0x03], typed(held)))
}

/// Frames a DER value, where there is something to frame.
fn frame(tag: u8, content: Option<Vec<u8>>) -> (r: Option<Vec<u8>>)
    ensures
        text::opt_bytes(r) == value(tag, text::opt_bytes(content)),
{
    match content {
        Some(c) => codec::frame_der(tag, c.as_slice()),
        None => None,
    }
}

/// Puts bytes in front of others, where there are any.
fn put_before(front: Vec<u8>, content: Option<Vec<u8>>) -> (r: Option<Vec<u8>>)
    ensures
        text::opt_bytes(r) == behind(front@, text::opt_bytes(content)),
{
    match content {
        Some(c) => {
            let mut out = front;
            let mut rest = c;
            out.append(&mut rest);
            Some(out)
        },
        None => None,
    }
}

/// Frames a typed octet string.
fn frame_typed(content: Option<Vec<u8>>) -> (r: Option<Vec<u8>>)
    ensures
        text::opt_bytes(r) == typed(text::opt_bytes(content)),
{
    let kind: Vec<u8> = vec![0x06, 0x09, 0x2a, 0x86, 0x48, 0x86, 0xf7, 0x0d, 0x01, 0x07, 0x01];
    assert(kind@ =~= data_type());
    frame(0x30, put_before(kind, frame(0xa0, frame(0x04, content))))
}

/// Frames a bundle of one encrypted key.
pub(crate) fn frame_key_bundle(encryption: Vec<u8>, bytes: Vec<u8>) -> (r: Option<Vec<u8>>)
    ensures
        text::opt_bytes(r) == key_bundle(encryption@, bytes@),
{
    let kind: Vec<u8> = vec![
        0x06, 0x0b, 0x2a, 0x86, 0x48, 0x86, 0xf7, 0x0d, 0x01, 0x0c, 0x0a, 0x01, 0x02,
    ];
    assert(kind@ =~= locked_key_type());
    let key = frame(0x30, put_before(encryption, frame(0x04, Some(bytes))));
    let bag = frame(0x30, put_before(kind, frame(0xa0, key)));
    let held = frame(0x30, frame_typed(frame(0x30, bag)));
    let version: Vec<u8> = vec![0x02, 0x01, 0x03];
    assert(version@ =~= seq![0x02u8, 0x01, 0x03]);
    frame(0x30, put_before(version, frame_typed(held)))
}

} // verus!
